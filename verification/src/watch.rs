//! Reloading the blog when its posts or its configuration change.
//!
//! The watcher alternates between waiting on the file system and deciding
//! what to do next. The decisions are the state machine below: the runner
//! performs each `WatchAction` and reports its outcome as a `WatchEvent`.

use vstd::prelude::*;

verus! {

/// Whether to watch for changes, and the quiet period (in seconds) that a
/// burst of changes must be followed by before the blog is reloaded.
#[derive(Debug, Clone, Copy, PartialEq, Eq, Structural)]
pub struct WatchConfig {
    pub enabled: bool,
    pub interval: u64,
}

/// Where the watcher stands.
#[derive(Debug, Clone, Copy, PartialEq, Eq, Structural)]
pub enum WatchState {
    /// About to check whether watching is enabled, then (re)build the
    /// file watcher.
    Starting,
    /// Creating the file watcher.
    CreatingWatcher,
    /// Watching the posts directory.
    WatchingPosts,
    /// Watching the configuration file and the parents of symlinks, and
    /// setting up the fallback timer.
    SettingUp,
    /// Waiting after a failure before starting over.
    Sleeping,
    /// Waiting for a change or a fallback tick.
    Listening,
    /// A change arrived: checking whether watching is still enabled.
    CheckingAfterChange,
    /// Draining the changes that follow within the quiet period.
    Draining,
    /// Reloading the blog; `restart` says that the watcher is rebuilt
    /// afterwards whatever happens.
    Reloading { restart: bool },
    /// Watching is disabled: the watcher has ended.
    Stopped,
}

/// What the runner is asked to do next.
#[derive(Debug, Clone, Copy, PartialEq, Eq, Structural)]
pub enum WatchAction {
    /// Read whether watching is enabled.
    CheckEnabled,
    /// Create a file watcher.
    CreateWatcher,
    /// Watch the posts directory recursively.
    WatchPosts,
    /// Watch the configuration file and the parents of symlinks (failures
    /// there are only logged), note the canonical posts path, and start the
    /// fallback timer where a symlink's parent is a root.
    SetUp,
    /// Sleep for the quiet period.
    Sleep,
    /// Wait for the next change, or the next fallback tick.
    WaitForChange,
    /// Wait for the next change for at most the quiet period.
    Drain,
    /// Reload the configuration and the posts.
    Reload,
    /// End the watcher.
    Stop,
}

/// A change notification of the file watcher.
#[derive(Debug, Clone, Copy, PartialEq, Eq, Structural)]
pub enum Notice {
    /// A change; `access` when it is a mere access (reading a directory
    /// produces those).
    Change { access: bool },
    /// The watcher reported an error.
    Error,
    /// The watcher's channel closed.
    Closed,
}

/// How waiting during the quiet period ended.
#[derive(Debug, Clone, Copy, PartialEq, Eq, Structural)]
pub enum DrainOutcome {
    /// Another change arrived.
    More,
    /// The watcher reported an error.
    Error,
    /// The quiet period passed, or the channel closed.
    Quiet,
}

/// The outcome of the last action.
#[derive(Debug, Clone, Copy, PartialEq, Eq, Structural)]
pub enum WatchEvent {
    /// Whether watching is enabled.
    Enabled(bool),
    /// Whether the file watcher could be created.
    WatcherCreated(bool),
    /// Whether the posts directory could be watched.
    PostsWatched(bool),
    /// Set-up is done.
    SetUpDone,
    /// The sleep is over.
    Slept,
    /// A notification arrived.
    Notified(Notice),
    /// The fallback timer ticked; `moved` when the canonical posts path
    /// differs from the one noted at set-up.
    Tick { moved: bool },
    /// Waiting during the quiet period ended.
    Drained(DrainOutcome),
    /// The reload is done; `moved` when the canonical posts path differs
    /// from the one noted at set-up.
    Reloaded { moved: bool },
}

/// The event that each state waits for.
pub open spec fn expects(state: WatchState, event: WatchEvent) -> bool {
    match state {
        WatchState::Starting => event is Enabled,
        WatchState::CreatingWatcher => event is WatcherCreated,
        WatchState::WatchingPosts => event is PostsWatched,
        WatchState::SettingUp => event is SetUpDone,
        WatchState::Sleeping => event is Slept,
        WatchState::Listening => event is Notified || event is Tick,
        WatchState::CheckingAfterChange => event is Enabled,
        WatchState::Draining => event is Drained,
        WatchState::Reloading { .. } => event is Reloaded,
        WatchState::Stopped => true,
    }
}

/// The next state and action after `event` in `state`.
pub open spec fn step_spec(state: WatchState, event: WatchEvent) -> (WatchState, WatchAction) {
    match (state, event) {
        (WatchState::Starting, WatchEvent::Enabled(enabled)) => if enabled {
            (WatchState::CreatingWatcher, WatchAction::CreateWatcher)
        } else {
            (WatchState::Stopped, WatchAction::Stop)
        },
        (WatchState::CreatingWatcher, WatchEvent::WatcherCreated(ok)) => if ok {
            (WatchState::WatchingPosts, WatchAction::WatchPosts)
        } else {
            (WatchState::Sleeping, WatchAction::Sleep)
        },
        (WatchState::WatchingPosts, WatchEvent::PostsWatched(ok)) => if ok {
            (WatchState::SettingUp, WatchAction::SetUp)
        } else {
            (WatchState::Sleeping, WatchAction::Sleep)
        },
        (WatchState::SettingUp, WatchEvent::SetUpDone) => (
            WatchState::Listening,
            WatchAction::WaitForChange,
        ),
        (WatchState::Sleeping, WatchEvent::Slept) => (WatchState::Starting, WatchAction::CheckEnabled),
        (WatchState::Listening, WatchEvent::Notified(notice)) => match notice {
            Notice::Change { access } => if access {
                (WatchState::Listening, WatchAction::WaitForChange)
            } else {
                (WatchState::CheckingAfterChange, WatchAction::CheckEnabled)
            },
            _ => (WatchState::Starting, WatchAction::CheckEnabled),
        },
        (WatchState::Listening, WatchEvent::Tick { moved }) => if moved {
            (WatchState::Reloading { restart: true }, WatchAction::Reload)
        } else {
            (WatchState::Listening, WatchAction::WaitForChange)
        },
        (WatchState::CheckingAfterChange, WatchEvent::Enabled(enabled)) => if enabled {
            (WatchState::Draining, WatchAction::Drain)
        } else {
            (WatchState::Stopped, WatchAction::Stop)
        },
        (WatchState::Draining, WatchEvent::Drained(outcome)) => match outcome {
            DrainOutcome::More => (WatchState::Draining, WatchAction::Drain),
            _ => (WatchState::Reloading { restart: false }, WatchAction::Reload),
        },
        (WatchState::Reloading { restart }, WatchEvent::Reloaded { moved }) => if restart || moved {
            (WatchState::Starting, WatchAction::CheckEnabled)
        } else {
            (WatchState::Listening, WatchAction::WaitForChange)
        },
        _ => (WatchState::Stopped, WatchAction::Stop),
    }
}

/// The states and actions that a sequence of events leads through.
pub open spec fn run(state: WatchState, events: Seq<WatchEvent>) -> (WatchState, Seq<WatchAction>)
    decreases events.len(),
{
    if events.len() == 0 {
        (state, Seq::empty())
    } else {
        let (next, action) = step_spec(state, events[0]);
        let (last, actions) = run(next, events.drop_first());
        (last, seq![action] + actions)
    }
}

/// The watcher stops exactly when it finds watching disabled, and a
/// stopped watcher stays stopped.
pub proof fn law_stops_only_when_disabled(state: WatchState, event: WatchEvent)
    requires
        expects(state, event),
    ensures
        state != WatchState::Stopped ==> (step_spec(state, event).1 == WatchAction::Stop <==> (
        state == WatchState::Starting || state == WatchState::CheckingAfterChange) && event
            == WatchEvent::Enabled(false)),
        step_spec(state, event).1 == WatchAction::Stop <==> step_spec(state, event).0
            == WatchState::Stopped,
        state == WatchState::Stopped ==> step_spec(state, event) == (
            WatchState::Stopped,
            WatchAction::Stop,
        ),
{
}

/// The blog is reloaded only once a burst of real changes has gone quiet,
/// or when a fallback tick finds that the posts path has moved.
pub proof fn law_reload_causes(state: WatchState, event: WatchEvent)
    requires
        expects(state, event),
        step_spec(state, event).1 == WatchAction::Reload,
    ensures
        (state == WatchState::Draining && event != WatchEvent::Drained(DrainOutcome::More)) || (
        state == WatchState::Listening && event == WatchEvent::Tick { moved: true }),
{
}

/// After any reload the watcher is rebuilt on the posts path if it has
/// moved, whether the reload came from a change or from a fallback tick;
/// a reload after a change, with the path where it was, goes back to
/// listening with the same watcher.
pub proof fn law_moved_posts_rebuild_watcher(restart: bool)
    ensures
        step_spec(WatchState::Reloading { restart }, WatchEvent::Reloaded { moved: true }) == (
            WatchState::Starting,
            WatchAction::CheckEnabled,
        ),
        step_spec(WatchState::Reloading { restart: false }, WatchEvent::Reloaded { moved: false })
            == (WatchState::Listening, WatchAction::WaitForChange),
        step_spec(WatchState::Reloading { restart: true }, WatchEvent::Reloaded { moved: false })
            == (WatchState::Starting, WatchAction::CheckEnabled),
{
}

/// A mere access, or a tick while the posts path is where it was.
pub open spec fn is_idle_event(event: WatchEvent) -> bool {
    event == WatchEvent::Notified(Notice::Change { access: true }) || event == WatchEvent::Tick {
        moved: false,
    }
}

/// Accesses and quiet ticks never reload the blog: the watcher keeps
/// listening through any number of them.
pub proof fn law_idle_events_never_reload(events: Seq<WatchEvent>)
    requires
        forall|i: int| 0 <= i < events.len() ==> is_idle_event(#[trigger] events[i]),
    ensures
        run(WatchState::Listening, events).0 == WatchState::Listening,
        run(WatchState::Listening, events).1 =~= Seq::new(
            events.len(),
            |i: int| WatchAction::WaitForChange,
        ),
    decreases events.len(),
{
    if events.len() > 0 {
        let rest = events.drop_first();
        assert forall|i: int| 0 <= i < rest.len() implies is_idle_event(#[trigger] rest[i]) by {
            assert(rest[i] == events[i + 1]);
        }
        assert(is_idle_event(events[0]));
        law_idle_events_never_reload(rest);
    }
}

/// `more` changes within the quiet period and then quiet: drained one by
/// one.
pub open spec fn burst(more: nat) -> Seq<WatchEvent> {
    Seq::new(more, |i: int| WatchEvent::Drained(DrainOutcome::More)).push(
        WatchEvent::Drained(DrainOutcome::Quiet),
    )
}

/// However many changes follow each other within the quiet period, the
/// blog is reloaded once, after the last of them.
pub proof fn law_burst_reloads_once(more: nat)
    ensures
        run(WatchState::Draining, burst(more)).0 == (WatchState::Reloading { restart: false }),
        run(WatchState::Draining, burst(more)).1 =~= Seq::new(more, |i: int| WatchAction::Drain).push(
            WatchAction::Reload,
        ),
    decreases more,
{
    let events = burst(more);
    if more == 0 {
        assert(events[0] == WatchEvent::Drained(DrainOutcome::Quiet));
        assert(events.drop_first() =~= Seq::<WatchEvent>::empty());
        assert(run(WatchState::Reloading { restart: false }, events.drop_first()).1 =~= Seq::empty());
    } else {
        assert(events[0] == WatchEvent::Drained(DrainOutcome::More));
        assert(events.drop_first() =~= burst((more - 1) as nat));
        law_burst_reloads_once((more - 1) as nat);
        let rest = run(WatchState::Draining, burst((more - 1) as nat)).1;
        assert(seq![WatchAction::Drain] + rest =~= Seq::new(more, |i: int| WatchAction::Drain).push(
            WatchAction::Reload,
        ));
    }
}

impl WatchState {
    /// The watcher starts by checking whether watching is enabled.
    pub fn start() -> (res: (WatchState, WatchAction))
        ensures
            res == (WatchState::Starting, WatchAction::CheckEnabled),
    {
        (WatchState::Starting, WatchAction::CheckEnabled)
    }

    /// The next state and action once `event` is reported.
    ///
    /// A disabled watcher stops; a failure to create the watcher or to
    /// watch the posts sleeps and starts over; mere accesses are ignored;
    /// another change is followed by draining the quiet period and a
    /// reload; a watcher error or a closed channel starts over; a fallback
    /// tick reloads and starts over when the posts path has moved; after a
    /// reload the watcher is rebuilt if the posts path moved.
    pub fn step(self, event: WatchEvent) -> (res: (WatchState, WatchAction))
        requires
            expects(self, event),
        ensures
            res == step_spec(self, event),
    {
        match (self, event) {
            (WatchState::Starting, WatchEvent::Enabled(enabled)) => if enabled {
                (WatchState::CreatingWatcher, WatchAction::CreateWatcher)
            } else {
                (WatchState::Stopped, WatchAction::Stop)
            },
            (WatchState::CreatingWatcher, WatchEvent::WatcherCreated(ok)) => if ok {
                (WatchState::WatchingPosts, WatchAction::WatchPosts)
            } else {
                (WatchState::Sleeping, WatchAction::Sleep)
            },
            (WatchState::WatchingPosts, WatchEvent::PostsWatched(ok)) => if ok {
                (WatchState::SettingUp, WatchAction::SetUp)
            } else {
                (WatchState::Sleeping, WatchAction::Sleep)
            },
            (WatchState::SettingUp, WatchEvent::SetUpDone) => (
                WatchState::Listening,
                WatchAction::WaitForChange,
            ),
            (WatchState::Sleeping, WatchEvent::Slept) => (
                WatchState::Starting,
                WatchAction::CheckEnabled,
            ),
            (WatchState::Listening, WatchEvent::Notified(notice)) => match notice {
                Notice::Change { access } => if access {
                    (WatchState::Listening, WatchAction::WaitForChange)
                } else {
                    (WatchState::CheckingAfterChange, WatchAction::CheckEnabled)
                },
                _ => (WatchState::Starting, WatchAction::CheckEnabled),
            },
            (WatchState::Listening, WatchEvent::Tick { moved }) => if moved {
                (WatchState::Reloading { restart: true }, WatchAction::Reload)
            } else {
                (WatchState::Listening, WatchAction::WaitForChange)
            },
            (WatchState::CheckingAfterChange, WatchEvent::Enabled(enabled)) => if enabled {
                (WatchState::Draining, WatchAction::Drain)
            } else {
                (WatchState::Stopped, WatchAction::Stop)
            },
            (WatchState::Draining, WatchEvent::Drained(outcome)) => match outcome {
                DrainOutcome::More => (WatchState::Draining, WatchAction::Drain),
                _ => (WatchState::Reloading { restart: false }, WatchAction::Reload),
            },
            (WatchState::Reloading { restart }, WatchEvent::Reloaded { moved }) => if restart
                || moved {
                (WatchState::Starting, WatchAction::CheckEnabled)
            } else {
                (WatchState::Listening, WatchAction::WaitForChange)
            },
            _ => (WatchState::Stopped, WatchAction::Stop),
        }
    }
}

/// The ancestors of the posts directory that are watched because a symlink
/// sits below them, and whether a fallback timer is needed.
///
/// `is_symlink[i]` says whether the `i`-th ancestor of the posts path is a
/// symbolic link, from the path itself (`0`) up to the last one, whose
/// parent is none. The parent of ancestor `i` is ancestor `i + 1`. The last
/// ancestor of an absolute path (`absolute`) is a file-system root, which
/// cannot be watched: a symlink directly below it needs the fallback. The
/// last ancestor of a relative path is the current directory, which is
/// watched like any other parent. The parents to watch are returned in
/// order and each once.
pub fn symlink_parents(is_symlink: &Vec<bool>, absolute: bool) -> (res: (Vec<usize>, bool))
    ensures
        forall|k: usize|
            #![trigger res.0@.contains(k)]
            res.0@.contains(k) <==> 1 <= k < is_symlink@.len() && is_symlink@[k - 1] && !(absolute
                && k == is_symlink@.len() - 1),
        forall|a: int, b: int| 0 <= a < b < res.0@.len() ==> res.0@[a] < res.0@[b],
        res.1 == (absolute && is_symlink@.len() >= 2 && is_symlink@[is_symlink@.len() - 2]),
{
    let n = is_symlink.len();
    let mut parents: Vec<usize> = Vec::new();
    let mut needs_fallback = false;
    let mut i: usize = 0;
    while i < n
        invariant
            n == is_symlink@.len(),
            i <= n,
            forall|k: usize|
                #![trigger parents@.contains(k)]
                parents@.contains(k) <==> 1 <= k <= i && k < n && is_symlink@[k - 1] && !(absolute
                    && k == n - 1),
            forall|a: int, b: int| 0 <= a < b < parents@.len() ==> parents@[a] < parents@[b],
            forall|a: int| 0 <= a < parents@.len() ==> parents@[a] <= i,
            needs_fallback == (absolute && n >= 2 && n - 2 < i && is_symlink@[n - 2]),
        decreases n - i,
    {
        if is_symlink[i] && i + 1 < n {
            let parent = i + 1;
            if absolute && parent + 1 == n {
                needs_fallback = true;
            } else {
                let ghost before = parents@;
                parents.push(parent);
                proof {
                    assert forall|k: usize| (#[trigger] parents@.contains(k) <==> before.contains(k)
                        || k == parent) by {
                        if before.contains(k) {
                            let a = choose|a: int| 0 <= a < before.len() && before[a] == k;
                            assert(parents@[a] == k);
                        }
                        if k == parent {
                            assert(parents@[before.len() as int] == parent);
                        }
                    }
                }
            }
        }
        i = i + 1;
    }
    (parents, needs_fallback)
}

} // verus!
