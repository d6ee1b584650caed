//! A single shard: a list of writes with distinct keys, read as a map from key to value.
use vstd::prelude::*;
use crate::types::{StateKey, StateValue, Write};

verus! {

/// The map that a list of writes describes: later writes to a key supersede earlier ones.
pub open spec fn entries_map(s: Seq<Write>) -> Map<StateKey, Option<StateValue>>
    decreases s.len(),
{
    if s.len() == 0 {
        Map::empty()
    } else {
        entries_map(s.drop_last()).insert(s.last().0, s.last().1)
    }
}

/// No key occurs twice in the list.
pub open spec fn keys_unique(s: Seq<Write>) -> bool {
    forall|i: int, j: int| 0 <= i < s.len() && 0 <= j < s.len() && i != j ==> s[i].0 != s[j].0
}

/// Every key of the list belongs to shard `shard`.
pub open spec fn keys_in_shard(s: Seq<Write>, shard: int) -> bool {
    forall|i: int| 0 <= i < s.len() ==> (#[trigger] s[i]).0.shard() == shard
}

/// A well-formed shard: distinct keys, all of them in shard `shard`.
pub open spec fn shard_wf(s: Seq<Write>, shard: int) -> bool {
    keys_unique(s) && keys_in_shard(s, shard)
}

pub proof fn lemma_entries_map_dom(s: Seq<Write>)
    ensures
        forall|k: StateKey|
            entries_map(s).contains_key(k) <==> exists|i: int| 0 <= i < s.len() && s[i].0 == k,
    decreases s.len(),
{
    if s.len() > 0 {
        let p = s.drop_last();
        lemma_entries_map_dom(p);
        assert(entries_map(s) == entries_map(p).insert(s.last().0, s.last().1));
        assert forall|k: StateKey|
            entries_map(s).contains_key(k) <==> exists|i: int| 0 <= i < s.len() && s[i].0 == k by {
            if entries_map(s).contains_key(k) {
                if k == s.last().0 {
                    assert(s[s.len() - 1].0 == k);
                } else {
                    assert(entries_map(p).contains_key(k));
                    let i = choose|i: int| 0 <= i < p.len() && p[i].0 == k;
                    assert(s[i].0 == k);
                }
            }
            if exists|i: int| 0 <= i < s.len() && s[i].0 == k {
                let i = choose|i: int| 0 <= i < s.len() && s[i].0 == k;
                if i < s.len() - 1 {
                    assert(p[i].0 == k);
                    assert(entries_map(p).contains_key(k));
                } else {
                    assert(s.last().0 == k);
                }
            }
        }
    }
}

pub proof fn lemma_entries_map_at(s: Seq<Write>, i: int)
    requires
        keys_unique(s),
        0 <= i < s.len(),
    ensures
        entries_map(s).contains_key(s[i].0),
        entries_map(s)[s[i].0] == s[i].1,
    decreases s.len(),
{
    if i < s.len() - 1 {
        assert(keys_unique(s.drop_last()));
        lemma_entries_map_at(s.drop_last(), i);
        assert(s.drop_last()[i] == s[i]);
        assert(s[i].0 != s.last().0);
    }
}

/// The entry for `k`, if the shard holds one.
pub fn shard_get(s: &Vec<Write>, k: &StateKey) -> (r: Option<Option<StateValue>>)
    requires
        keys_unique(s@),
    ensures
        r == (if entries_map(s@).contains_key(*k) {
            Some(entries_map(s@)[*k])
        } else {
            None::<Option<StateValue>>
        }),
{
    proof {
        lemma_entries_map_dom(s@);
    }
    let mut i: usize = 0;
    while i < s.len()
        invariant
            0 <= i <= s.len(),
            keys_unique(s@),
            forall|j: int| 0 <= j < i ==> s@[j].0 != *k,
        decreases s.len() - i,
    {
        if s[i].0 == *k {
            proof {
                lemma_entries_map_at(s@, i as int);
            }
            return Some(s[i].1);
        }
        i += 1;
    }
    None
}

/// Whether the shard holds an entry for `k`.
pub fn shard_contains(s: &Vec<Write>, k: &StateKey) -> (r: bool)
    requires
        keys_unique(s@),
    ensures
        r == entries_map(s@).contains_key(*k),
{
    match shard_get(s, k) {
        Some(_) => true,
        None => false,
    }
}

/// Sets the entry for `k` to `v`, replacing an earlier entry for `k`.
pub fn shard_insert(s: &mut Vec<Write>, k: StateKey, v: Option<StateValue>)
    requires
        keys_unique(old(s)@),
    ensures
        keys_unique(final(s)@),
        entries_map(final(s)@) == entries_map(old(s)@).insert(k, v),
        forall|shard: int| keys_in_shard(old(s)@, shard) && k.shard() == shard
            ==> keys_in_shard(final(s)@, shard),
{
    proof {
        lemma_entries_map_dom(s@);
    }
    let mut i: usize = 0;
    while i < s.len()
        invariant
            0 <= i <= s.len(),
            s@ == old(s)@,
            keys_unique(s@),
            forall|j: int| 0 <= j < i ==> s@[j].0 != k,
        decreases s.len() - i,
    {
        if s[i].0 == k {
            let ghost prev = s@;
            s.set(i, (k, v));
            proof {
                let m = entries_map(s@);
                let want = entries_map(prev).insert(k, v);
                lemma_entries_map_dom(s@);
                lemma_entries_map_dom(prev);
                assert(keys_unique(s@)) by {
                    assert forall|a: int, b: int|
                        0 <= a < s@.len() && 0 <= b < s@.len() && a != b implies s@[a].0
                        != s@[b].0 by {
                        assert(s@[a].0 == prev[a].0);
                        assert(s@[b].0 == prev[b].0);
                    }
                }
                assert forall|key: StateKey| m.contains_key(key) <==> want.contains_key(key) by {
                    if m.contains_key(key) {
                        let j = choose|j: int| 0 <= j < s@.len() && s@[j].0 == key;
                        if j != i {
                            assert(prev[j].0 == key);
                        }
                    }
                    if want.contains_key(key) {
                        if key == k {
                            assert(s@[i as int].0 == key);
                        } else {
                            assert(entries_map(prev).contains_key(key));
                            let j = choose|j: int| 0 <= j < prev.len() && prev[j].0 == key;
                            assert(s@[j].0 == key);
                        }
                    }
                }
                assert forall|key: StateKey| #[trigger] m.contains_key(key) implies m[key]
                    == want[key] by {
                    let j = choose|j: int| 0 <= j < s@.len() && s@[j].0 == key;
                    lemma_entries_map_at(s@, j);
                    if j != i {
                        lemma_entries_map_at(prev, j);
                    }
                }
                assert(m =~= want);
            }
            return;
        }
        i += 1;
    }
    s.push((k, v));
    assert(s@.drop_last() =~= old(s)@);
}

} // verus!
