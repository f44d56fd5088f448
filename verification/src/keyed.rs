//! Sequences of key/value entries with distinct keys, read as maps. The blog
//! keeps its posts (keyed by slug) and each post's attachments (keyed by
//! file name) this way.

use vstd::prelude::*;

verus! {

/// The map that a sequence of entries describes: later entries win, as
/// with repeated inserts into a map.
pub open spec fn keyed_map<V>(s: Seq<(Seq<char>, V)>) -> Map<Seq<char>, V>
    decreases s.len(),
{
    if s.len() == 0 {
        Map::empty()
    } else {
        keyed_map(s.drop_last()).insert(s.last().0, s.last().1)
    }
}

/// No key occurs twice.
pub open spec fn distinct_keys<V>(s: Seq<(Seq<char>, V)>) -> bool {
    forall|i: int, j: int| 0 <= i < j < s.len() ==> #[trigger] s[i].0 != #[trigger] s[j].0
}

/// The keys of the map are the keys of the entries, and with distinct keys
/// each key maps to the value of its entry.
pub proof fn lemma_keyed_map<V>(s: Seq<(Seq<char>, V)>, k: Seq<char>)
    ensures
        keyed_map(s).dom().contains(k) <==> exists|i: int| 0 <= i < s.len() && #[trigger] s[i].0 == k,
        distinct_keys(s) ==> forall|i: int|
            0 <= i < s.len() && #[trigger] s[i].0 == k ==> keyed_map(s)[k] == s[i].1,
    decreases s.len(),
{
    if s.len() > 0 {
        let t = s.drop_last();
        lemma_keyed_map(t, k);
        assert forall|i: int| 0 <= i < t.len() implies t[i] == s[i] by {}
        if keyed_map(s).dom().contains(k) && s.last().0 != k {
            let i = choose|i: int| 0 <= i < t.len() && #[trigger] t[i].0 == k;
            assert(s[i].0 == k);
        }
        if exists|i: int| 0 <= i < s.len() && #[trigger] s[i].0 == k {
            let i = choose|i: int| 0 <= i < s.len() && #[trigger] s[i].0 == k;
            if i < t.len() {
                assert(t[i].0 == k);
            }
        }
    }
}

/// Appending an entry with a new key inserts it into the map and keeps the
/// keys distinct.
pub proof fn lemma_keyed_map_push<V>(s: Seq<(Seq<char>, V)>, k: Seq<char>, v: V)
    requires
        distinct_keys(s),
        !keyed_map(s).dom().contains(k),
    ensures
        keyed_map(s.push((k, v))) == keyed_map(s).insert(k, v),
        distinct_keys(s.push((k, v))),
{
    assert(s.push((k, v)).drop_last() =~= s);
    lemma_keyed_map(s, k);
    let t = s.push((k, v));
    assert forall|i: int, j: int| 0 <= i < j < t.len() implies #[trigger] t[i].0 != #[trigger] t[j].0 by {
        if j == s.len() {
            assert(s[i].0 == t[i].0);
        } else {
            assert(s[i] == t[i] && s[j] == t[j]);
        }
    }
}

/// Replacing the value of an entry updates that key in the map and keeps
/// the keys distinct.
pub proof fn lemma_keyed_map_update<V>(s: Seq<(Seq<char>, V)>, i: int, v: V)
    requires
        distinct_keys(s),
        0 <= i < s.len(),
    ensures
        keyed_map(s.update(i, (s[i].0, v))) == keyed_map(s).insert(s[i].0, v),
        distinct_keys(s.update(i, (s[i].0, v))),
{
    let t = s.update(i, (s[i].0, v));
    assert forall|a: int, b: int| 0 <= a < b < t.len() implies #[trigger] t[a].0 != #[trigger] t[b].0 by {
        assert(t[a].0 == s[a].0 && t[b].0 == s[b].0);
    }
    let m1 = keyed_map(t);
    let m2 = keyed_map(s).insert(s[i].0, v);
    assert forall|k: Seq<char>| m1.dom().contains(k) <==> m2.dom().contains(k) by {
        lemma_keyed_map(t, k);
        lemma_keyed_map(s, k);
        if k == s[i].0 {
            assert(t[i].0 == k);
        }
        if m2.dom().contains(k) && k != s[i].0 {
            let j = choose|j: int| 0 <= j < s.len() && #[trigger] s[j].0 == k;
            assert(t[j].0 == k);
        }
        if m1.dom().contains(k) {
            let j = choose|j: int| 0 <= j < t.len() && #[trigger] t[j].0 == k;
            assert(s[j].0 == k);
        }
    }
    assert forall|k: Seq<char>| m1.dom().contains(k) implies m1[k] == m2[k] by {
        lemma_keyed_map(t, k);
        lemma_keyed_map(s, k);
        let j = choose|j: int| 0 <= j < t.len() && #[trigger] t[j].0 == k;
        assert(s[j].0 == k);
    }
    assert(m1 =~= m2);
}

} // verus!
