use rblog::watch::{
    symlink_parents, DrainOutcome, Notice, WatchAction, WatchEvent, WatchState,
};

fn drive(events: &[WatchEvent]) -> (WatchState, Vec<WatchAction>) {
    let (mut state, first) = WatchState::start();
    let mut actions = vec![first];
    for e in events {
        let (next, action) = state.step(*e);
        state = next;
        actions.push(action);
    }
    (state, actions)
}

#[test]
fn disabled_watching_stops() {
    let (state, actions) = drive(&[WatchEvent::Enabled(false)]);
    assert_eq!(state, WatchState::Stopped);
    assert_eq!(actions, vec![WatchAction::CheckEnabled, WatchAction::Stop]);
}

#[test]
fn a_burst_of_changes_reloads_once() {
    let (state, actions) = drive(&[
        WatchEvent::Enabled(true),
        WatchEvent::WatcherCreated(true),
        WatchEvent::PostsWatched(true),
        WatchEvent::SetUpDone,
        WatchEvent::Notified(Notice::Change { access: true }),
        WatchEvent::Tick { moved: false },
        WatchEvent::Notified(Notice::Change { access: false }),
        WatchEvent::Enabled(true),
        WatchEvent::Drained(DrainOutcome::More),
        WatchEvent::Drained(DrainOutcome::More),
        WatchEvent::Drained(DrainOutcome::Quiet),
        WatchEvent::Reloaded { moved: false },
    ]);
    assert_eq!(state, WatchState::Listening);
    assert_eq!(
        actions,
        vec![
            WatchAction::CheckEnabled,
            WatchAction::CreateWatcher,
            WatchAction::WatchPosts,
            WatchAction::SetUp,
            WatchAction::WaitForChange,
            WatchAction::WaitForChange,
            WatchAction::WaitForChange,
            WatchAction::CheckEnabled,
            WatchAction::Drain,
            WatchAction::Drain,
            WatchAction::Drain,
            WatchAction::Reload,
            WatchAction::WaitForChange,
        ]
    );
    assert_eq!(actions.iter().filter(|a| **a == WatchAction::Reload).count(), 1);
}

#[test]
fn failures_sleep_and_start_over() {
    let (state, actions) = drive(&[
        WatchEvent::Enabled(true),
        WatchEvent::WatcherCreated(false),
        WatchEvent::Slept,
        WatchEvent::Enabled(true),
        WatchEvent::WatcherCreated(true),
        WatchEvent::PostsWatched(false),
    ]);
    assert_eq!(state, WatchState::Sleeping);
    assert_eq!(actions[2], WatchAction::Sleep);
    assert_eq!(actions[3], WatchAction::CheckEnabled);
    assert_eq!(actions[6], WatchAction::Sleep);
}

#[test]
fn moved_posts_path_reloads_and_rebuilds() {
    let listening = [
        WatchEvent::Enabled(true),
        WatchEvent::WatcherCreated(true),
        WatchEvent::PostsWatched(true),
        WatchEvent::SetUpDone,
    ];
    let mut events = listening.to_vec();
    events.push(WatchEvent::Tick { moved: true });
    events.push(WatchEvent::Reloaded { moved: false });
    let (state, actions) = drive(&events);
    assert_eq!(state, WatchState::Starting);
    assert_eq!(actions[5], WatchAction::Reload);
    assert_eq!(actions[6], WatchAction::CheckEnabled);

    let mut events = listening.to_vec();
    events.push(WatchEvent::Notified(Notice::Error));
    let (state, _) = drive(&events);
    assert_eq!(state, WatchState::Starting);

    let mut events = listening.to_vec();
    events.push(WatchEvent::Notified(Notice::Change { access: false }));
    events.push(WatchEvent::Enabled(false));
    let (state, actions) = drive(&events);
    assert_eq!(state, WatchState::Stopped);
    assert_eq!(*actions.last().unwrap(), WatchAction::Stop);
}

#[test]
fn symlink_parents_of_the_posts_path() {
    // "/srv/blog/posts", "/srv/blog", "/srv", "/": posts and srv are links
    let (parents, fallback) = symlink_parents(&vec![true, false, true, false], true);
    assert_eq!(parents, vec![1]);
    assert!(fallback);
    // no links
    let (parents, fallback) = symlink_parents(&vec![false, false, false], true);
    assert!(parents.is_empty());
    assert!(!fallback);
    // a relative link "posts": its parent is the current directory, watched
    let (parents, fallback) = symlink_parents(&vec![true, false], false);
    assert_eq!(parents, vec![1]);
    assert!(!fallback);
    let (parents, _) = symlink_parents(&vec![true, true, false, false], true);
    assert_eq!(parents, vec![1, 2]);
}
