//! Writes grouped into sixteen key shards, and the ways batches of them combine.
use vstd::prelude::*;
use crate::shard_map::{entries_map, lemma_entries_map_dom, shard_get, shard_insert, shard_wf};
use crate::calculator::InMemoryStateCalculatorV2;
use rayon::iter::{IndexedParallelIterator, IntoParallelRefIterator, ParallelIterator};
use crate::types::{StateKey, StateValue, Write, NUM_SHARDS};

verus! {

/// The abstract value of sharded updates: one map from key to new value per shard.
pub type ShardedView = Seq<Map<StateKey, Option<StateValue>>>;

/// Sixteen shards of updates; shard `i` holds the keys whose shard id is `i`.
#[derive(Debug)]
pub struct ShardedStateUpdates {
    pub shards: Vec<Vec<Write>>,
}

impl View for ShardedStateUpdates {
    type V = ShardedView;

    open spec fn view(&self) -> ShardedView {
        Seq::new(self.shards@.len(), |i: int| entries_map(self.shards@[i]@))
    }
}

/// Sixteen empty shards.
pub open spec fn empty_view() -> ShardedView {
    Seq::new(16, |i: int| Map::<StateKey, Option<StateValue>>::empty())
}

/// Shard-wise union of two sharded updates; entries of `b` win over those of `a`.
pub open spec fn combine_view(a: ShardedView, b: ShardedView) -> ShardedView {
    Seq::new(16, |i: int| a[i].union_prefer_right(b[i]))
}

/// The sharded view after writing `v` to `k`.
pub open spec fn insert_view(a: ShardedView, k: StateKey, v: Option<StateValue>) -> ShardedView {
    a.update(k.shard(), a[k.shard()].insert(k, v))
}

/// The sharded updates of one transaction's write set, later writes superseding earlier ones.
pub open spec fn split_writes(ws: Seq<Write>) -> ShardedView
    decreases ws.len(),
{
    if ws.len() == 0 {
        empty_view()
    } else {
        insert_view(split_writes(ws.drop_last()), ws.last().0, ws.last().1)
    }
}

/// The views of a sequence of sharded updates.
pub open spec fn views(s: Seq<ShardedStateUpdates>) -> Seq<ShardedView> {
    s.map_values(|u: ShardedStateUpdates| u@)
}

/// The in-order union of a range of per-transaction updates: later transactions win.
pub open spec fn merge_views(s: Seq<ShardedView>) -> ShardedView
    decreases s.len(),
{
    if s.len() == 0 {
        empty_view()
    } else {
        combine_view(merge_views(s.drop_last()), s.last())
    }
}

/// The entry for `k` in sharded updates, if any.
pub open spec fn lookup(a: ShardedView, k: StateKey) -> Option<Option<StateValue>> {
    if a[k.shard()].contains_key(k) {
        Some(a[k.shard()][k])
    } else {
        None
    }
}

impl ShardedStateUpdates {
    /// Sixteen shards, each with distinct keys that all belong to it.
    pub open spec fn wf(&self) -> bool {
        &&& self.shards@.len() == 16
        &&& forall|i: int| 0 <= i < 16 ==> shard_wf(#[trigger] self.shards@[i]@, i)
    }

    /// Whether every shard is empty.
    pub fn is_empty(&self) -> (r: bool)
        requires
            self.wf(),
        ensures
            r == (self@ == empty_view()),
    {
        let mut i: usize = 0;
        while i < NUM_SHARDS
            invariant
                self.wf(),
                0 <= i <= 16,
                forall|j: int| 0 <= j < i ==> self@[j] == Map::<StateKey, Option<StateValue>>::empty(),
            decreases 16 - i,
        {
            if self.shards[i].len() != 0 {
                proof {
                    let s = self.shards@[i as int]@;
                    assert(entries_map(s).contains_key(s[0].0)) by {
                        lemma_entries_map_dom(s);
                    }
                    assert(self@[i as int] != empty_view()[i as int]);
                }
                return false;
            }
            proof {
                assert(self.shards@[i as int]@ =~= Seq::<Write>::empty());
                assert(entries_map(self.shards@[i as int]@) == Map::<StateKey, Option<StateValue>>::empty());
            }
            i += 1;
        }
        assert(self@ =~= empty_view());
        true
    }

    /// The entry for `k`, if any.
    pub fn get(&self, k: &StateKey) -> (r: Option<Option<StateValue>>)
        requires
            self.wf(),
        ensures
            r == lookup(self@, *k),
    {
        let s = k.get_shard_id() as usize;
        shard_get(&self.shards[s], k)
    }

    /// Writes `v` to `k`, superseding an earlier write to `k`.
    pub fn insert(&mut self, k: StateKey, v: Option<StateValue>)
        requires
            old(self).wf(),
        ensures
            final(self).wf(),
            final(self)@ == insert_view(old(self)@, k, v),
    {
        let s = k.get_shard_id() as usize;
        let ghost before = self.shards@;
        let mut shard = self.shards.remove(s);
        shard_insert(&mut shard, k, v);
        self.shards.insert(s, shard);
        proof {
            assert(self.shards@ =~= before.update(s as int, shard));
            assert(self@ =~= insert_view(old(self)@, k, v));
        }
    }

    /// A copy of these updates.
    pub fn copy(&self) -> (r: ShardedStateUpdates)
        requires
            self.wf(),
        ensures
            r.wf(),
            r@ == self@,
    {
        let mut r = create_empty_sharded_state_updates();
        combine_sharded_state_updates(&mut r, self);
        assert forall|i: int| 0 <= i < 16 implies r@[i] == self@[i] by {
            assert(r@[i] =~= self@[i]);
        }
        assert(r@ =~= self@);
        r
    }

    /// The entries of all shards, shard by shard.
    pub fn flatten(&self) -> (r: Vec<Write>)
        requires
            self.wf(),
        ensures
            r@ == flatten_shards(self.shards@.map_values(|s: Vec<Write>| s@)),
    {
        let ghost all = self.shards@.map_values(|s: Vec<Write>| s@);
        let mut out: Vec<Write> = Vec::new();
        let mut i: usize = 0;
        while i < NUM_SHARDS
            invariant
                self.wf(),
                0 <= i <= 16,
                all == self.shards@.map_values(|s: Vec<Write>| s@),
                out@ == flatten_shards(all.take(i as int)),
            decreases 16 - i,
        {
            let shard = &self.shards[i];
            let ghost start = out@;
            let mut j: usize = 0;
            while j < shard.len()
                invariant
                    0 <= j <= shard.len(),
                    out@ == start + shard@.take(j as int),
                decreases shard.len() - j,
            {
                out.push(shard[j]);
                assert(shard@.take(j as int + 1) =~= shard@.take(j as int).push(shard@[j as int]));
                j += 1;
            }
            proof {
                assert(shard@.take(j as int) =~= shard@);
                assert(all.take(i as int + 1).drop_last() =~= all.take(i as int));
            }
            i += 1;
        }
        assert(all.take(16) =~= all);
        out
    }
}

/// The concatenation of a sequence of shards.
pub open spec fn flatten_shards(s: Seq<Seq<Write>>) -> Seq<Write>
    decreases s.len(),
{
    if s.len() == 0 {
        Seq::empty()
    } else {
        flatten_shards(s.drop_last()) + s.last()
    }
}

/// Sixteen empty shards.
pub fn create_empty_sharded_state_updates() -> (r: ShardedStateUpdates)
    ensures
        r.wf(),
        r@ == empty_view(),
{
    let mut shards: Vec<Vec<Write>> = Vec::new();
    let mut i: usize = 0;
    while i < NUM_SHARDS
        invariant
            0 <= i <= 16,
            shards@.len() == i,
            forall|j: int| 0 <= j < i ==> (#[trigger] shards@[j])@.len() == 0,
        decreases 16 - i,
    {
        shards.push(Vec::new());
        i += 1;
    }
    let r = ShardedStateUpdates { shards };
    proof {
        assert forall|j: int| 0 <= j < 16 implies shard_wf(#[trigger] r.shards@[j]@, j) by {}
        assert forall|j: int| 0 <= j < 16 implies r@[j] == empty_view()[j] by {
            assert(r.shards@[j]@ =~= Seq::<Write>::empty());
            assert(entries_map(r.shards@[j]@) =~= Map::<StateKey, Option<StateValue>>::empty());
        }
        assert(r@ =~= empty_view());
    }
    r
}

/// Adds the entries of `src` to `dst`, those of `src` winning.
fn extend_shard(dst: &mut Vec<Write>, src: &Vec<Write>, shard: Ghost<int>)
    requires
        shard_wf(old(dst)@, shard@),
        shard_wf(src@, shard@),
    ensures
        shard_wf(final(dst)@, shard@),
        entries_map(final(dst)@) == entries_map(old(dst)@).union_prefer_right(entries_map(src@)),
{
    let mut j: usize = 0;
    while j < src.len()
        invariant
            0 <= j <= src.len(),
            shard_wf(src@, shard@),
            shard_wf(dst@, shard@),
            entries_map(dst@) == entries_map(old(dst)@).union_prefer_right(
                entries_map(src@.take(j as int)),
            ),
        decreases src.len() - j,
    {
        let (k, v) = src[j];
        assert(k.shard() == shard@);
        shard_insert(dst, k, v);
        proof {
            let t = src@.take(j as int + 1);
            assert(t.drop_last() =~= src@.take(j as int));
            assert(entries_map(dst@) =~= entries_map(old(dst)@).union_prefer_right(entries_map(t)));
        }
        j += 1;
    }
    assert(src@.take(j as int) =~= src@);
}

/// Adds the updates of `rhs` to `lhs`, shard by shard; entries of `rhs` win.
pub fn combine_sharded_state_updates(lhs: &mut ShardedStateUpdates, rhs: &ShardedStateUpdates)
    requires
        old(lhs).wf(),
        rhs.wf(),
    ensures
        final(lhs).wf(),
        final(lhs)@ == combine_view(old(lhs)@, rhs@),
{
    let mut i: usize = 0;
    while i < NUM_SHARDS
        invariant
            lhs.wf(),
            rhs.wf(),
            0 <= i <= 16,
            forall|j: int| 0 <= j < i ==> lhs@[j] == old(lhs)@[j].union_prefer_right(rhs@[j]),
            forall|j: int| i <= j < 16 ==> lhs@[j] == old(lhs)@[j],
        decreases 16 - i,
    {
        let ghost before = lhs.shards@;
        let ghost before_view = lhs@;
        let mut shard = lhs.shards.remove(i);
        extend_shard(&mut shard, &rhs.shards[i], Ghost(i as int));
        lhs.shards.insert(i, shard);
        proof {
            assert(lhs.shards@ =~= before.update(i as int, shard));
            assert(lhs@ =~= before_view.update(i as int, entries_map(shard@)));
        }
        i += 1;
    }
    assert(lhs@ =~= combine_view(old(lhs)@, rhs@));
}

/// Relies on rayon's `IndexedParallelIterator::collect_into_vec`: the vector receives the
/// results of `write_set_updates` on the write sets, one for each, in their order.
#[verifier::external_body]
fn par_write_set_updates(write_sets: &Vec<Vec<Write>>) -> (r: Vec<ShardedStateUpdates>)
    ensures
        r@.len() == write_sets@.len(),
        forall|t: int| 0 <= t < r@.len() ==> (#[trigger] r@[t]).wf(),
        forall|t: int| 0 <= t < r@.len() ==> (#[trigger] r@[t])@ == split_writes(write_sets@[t]@),
{
    let mut out = Vec::new();
    write_sets.par_iter().map(|writes| write_set_updates(writes)).collect_into_vec(&mut out);
    out
}

/// The sharded updates of one write set.
pub fn write_set_updates(writes: &Vec<Write>) -> (r: ShardedStateUpdates)
    ensures
        r.wf(),
        r@ == split_writes(writes@),
{
    let mut updates = create_empty_sharded_state_updates();
    let mut j: usize = 0;
    while j < writes.len()
        invariant
            0 <= j <= writes.len(),
            updates.wf(),
            updates@ == split_writes(writes@.take(j as int)),
        decreases writes.len() - j,
    {
        let (k, v) = writes[j];
        updates.insert(k, v);
        assert(writes@.take(j as int + 1).drop_last() =~= writes@.take(j as int));
        j += 1;
    }
    assert(writes@.take(j as int) =~= writes@);
    updates
}

impl InMemoryStateCalculatorV2 {
    /// The sharded updates of each write set of a batch, in order.
    pub fn get_sharded_state_updates(write_sets: &Vec<Vec<Write>>) -> (r: Vec<ShardedStateUpdates>)
        ensures
            r@.len() == write_sets@.len(),
            forall|t: int| 0 <= t < r@.len() ==> (#[trigger] r@[t]).wf(),
            forall|t: int| 0 <= t < r@.len() ==> (#[trigger] r@[t])@ == split_writes(write_sets@[t]@),
    {
        par_write_set_updates(write_sets)
    }

    /// The in-order union of the updates of transactions `start .. end`.
    pub fn calculate_updates(updates_vec: &Vec<ShardedStateUpdates>, start: usize, end: usize) -> (r:
        ShardedStateUpdates)
        requires
            start <= end <= updates_vec@.len(),
            forall|t: int| 0 <= t < updates_vec@.len() ==> (#[trigger] updates_vec@[t]).wf(),
        ensures
            r.wf(),
            r@ == merge_views(views(updates_vec@.subrange(start as int, end as int))),
    {
        let mut updates = create_empty_sharded_state_updates();
        let mut t: usize = start;
        while t < end
            invariant
                start <= t <= end <= updates_vec@.len(),
                forall|u: int| 0 <= u < updates_vec@.len() ==> (#[trigger] updates_vec@[u]).wf(),
                updates.wf(),
                updates@ == merge_views(views(updates_vec@.subrange(start as int, t as int))),
            decreases end - t,
        {
            combine_sharded_state_updates(&mut updates, &updates_vec[t]);
            proof {
                let a = views(updates_vec@.subrange(start as int, t as int + 1));
                assert(a.drop_last() =~= views(updates_vec@.subrange(start as int, t as int)));
            }
            t += 1;
        }
        updates
    }
}

} // verus!
