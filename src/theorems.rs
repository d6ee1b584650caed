//! Facts about the calculation that follow from the contracts of its parts.
use vstd::prelude::*;
use crate::calculator::{
    after_view, before_view, calc_ensures, splits_of, usage_outcome, StateCheckpointOutput,
    StateDelta, TreeInfo,
};
use crate::shard_map::{entries_map, keys_unique, lemma_entries_map_at, lemma_entries_map_dom};
use crate::sharded::{
    combine_view, empty_view, insert_view, merge_views, split_writes, views, ShardedStateUpdates, ShardedView,
};
use crate::types::{CalcError, HashValue, StateKey, StateStorageUsage, StateValue, Write};
use crate::usage::{
    all_read, raw, seq_bytes, seq_items, shard_bytes, shard_items, total_bytes, total_items, usage_after,
};
use crate::read_cache::{CachedRead, ShardedStateCache};

verus! {

/// Every key in shard `i` of well-formed sharded updates has shard id `i`.
pub proof fn lemma_shards_disjoint(u: ShardedStateUpdates)
    requires
        u.wf(),
    ensures
        forall|i: int, k: StateKey| 0 <= i < 16 && #[trigger] u@[i].contains_key(k) ==> k.shard() == i,
{
    assert forall|i: int, k: StateKey| 0 <= i < 16 && #[trigger] u@[i].contains_key(k) implies k.shard() == i by {
        let s = u.shards@[i]@;
        lemma_entries_map_dom(s);
        let j = choose|j: int| 0 <= j < s.len() && s[j].0 == k;
        assert(s[j].0.shard() == i);
    }
}

/// The split of a write set has sixteen shards.
pub proof fn lemma_split_len(ws: Seq<Write>)
    ensures
        split_writes(ws).len() == 16,
    decreases ws.len(),
{
    if ws.len() > 0 {
        lemma_split_len(ws.drop_last());
    }
}

/// Writing `v1` and then `v2` to `k` gives the same sharded updates as writing only `v2`.
pub proof fn lemma_overwrite_idempotent(ws: Seq<Write>, k: StateKey, v1: Option<StateValue>, v2: Option<StateValue>)
    ensures
        split_writes(ws.push((k, v1)).push((k, v2))) == split_writes(ws.push((k, v2))),
{
    let a = ws.push((k, v1)).push((k, v2));
    let b = ws.push((k, v2));
    assert(a.drop_last() =~= ws.push((k, v1)));
    assert(ws.push((k, v1)).drop_last() =~= ws);
    assert(b.drop_last() =~= ws);
    let base = split_writes(ws);
    lemma_split_len(ws);
    assert(split_writes(ws.push((k, v1))) == insert_view(base, k, v1));
    assert(split_writes(a) == insert_view(insert_view(base, k, v1), k, v2));
    assert(split_writes(b) == insert_view(base, k, v2));
    assert(base[k.shard()].insert(k, v1).insert(k, v2) =~= base[k.shard()].insert(k, v2));
    assert(insert_view(insert_view(base, k, v1), k, v2) =~= insert_view(base, k, v2));
}

/// When the last transaction of the batch is the checkpoint, the current tree is the
/// checkpoint tree, at the checkpoint's version.
pub proof fn lemma_checkpoint_at_end<F: Fn(TreeInfo, Vec<Write>, StateStorageUsage) -> Option<HashValue>>(
    update: F,
    parent: StateDelta,
    cache: ShardedStateCache,
    vec: Seq<ShardedStateUpdates>,
    is_block: bool,
    known: Option<Vec<Option<HashValue>>>,
    out: StateCheckpointOutput,
)
    requires
        vec.len() > 0,
        calc_ensures(update, parent, cache, vec, Some((vec.len() - 1) as usize), is_block, known, Ok(out)),
    ensures
        out.result_state.base_version == out.result_state.current_version,
        out.result_state.current.root_hash == out.result_state.base.root_hash,
        out.result_state.current == out.result_state.base,
{
    assert(out.state_updates_vec.len() as int == vec.len());
}

/// Without a checkpoint in the batch, the checkpoint tree and version stay those of the
/// parent, and the pending updates are the parent's followed by the batch's.
pub proof fn lemma_no_checkpoint_continuity<F: Fn(TreeInfo, Vec<Write>, StateStorageUsage) -> Option<HashValue>>(
    update: F,
    parent: StateDelta,
    cache: ShardedStateCache,
    vec: Seq<ShardedStateUpdates>,
    is_block: bool,
    known: Option<Vec<Option<HashValue>>>,
    out: StateCheckpointOutput,
)
    requires
        calc_ensures(update, parent, cache, vec, None, is_block, known, Ok(out)),
    ensures
        out.result_state.base == parent.base,
        out.result_state.base_version == parent.base_version,
        out.result_state.updates_since_base@ == combine_view(parent.updates_since_base@, merge_views(views(vec))),
        out.updates_before_last_checkpoint is None,
{
}

/// Untracked usage stays untracked.
pub proof fn lemma_untracked_stays_untracked<F: Fn(TreeInfo, Vec<Write>, StateStorageUsage) -> Option<HashValue>>(
    update: F,
    parent: StateDelta,
    cache: ShardedStateCache,
    vec: Seq<ShardedStateUpdates>,
    idx: Option<usize>,
    is_block: bool,
    known: Option<Vec<Option<HashValue>>>,
    out: StateCheckpointOutput,
)
    requires
        parent.current.usage is Untracked,
        calc_ensures(update, parent, cache, vec, idx, is_block, known, Ok(out)),
    ensures
        out.result_state.current.usage is Untracked,
{
    let before = before_view(vec, idx);
    let after = after_view(vec, idx);
    let (p, q) = choose|p: ShardedStateUpdates, q: ShardedStateUpdates|
        #![trigger p.wf(), q.wf()]
        p.wf() && q.wf() && p@ == before && q@ == after && Ok::<StateStorageUsage, CalcError>(out.result_state.current.usage) == (if parent.current.usage is Known
            && !all_read(p, q, cache) {
            Err::<StateStorageUsage, CalcError>(CalcError::MissingRead)
        } else {
            Ok::<StateStorageUsage, CalcError>(usage_after(parent.current.usage, p, q, cache))
        });
}

/// A well-formed shard whose map is empty holds no entries.
proof fn lemma_empty_shard(s: Seq<Write>)
    requires
        entries_map(s) == Map::<StateKey, Option<StateValue>>::empty(),
    ensures
        s.len() == 0,
{
    lemma_entries_map_dom(s);
    if s.len() > 0 {
        assert(entries_map(s).contains_key(s[0].0));
    }
}

/// A well-formed shard whose map holds the one key `k` holds the one entry for `k`.
proof fn lemma_single_shard(s: Seq<Write>, k: StateKey, x: Option<StateValue>)
    requires
        keys_unique(s),
        entries_map(s) == Map::<StateKey, Option<StateValue>>::empty().insert(k, x),
    ensures
        s == seq![(k, x)],
{
    lemma_entries_map_dom(s);
    assert(entries_map(s).contains_key(k));
    let j = choose|j: int| 0 <= j < s.len() && s[j].0 == k;
    if s.len() > 1 {
        let other = if j == 0 { 1int } else { 0int };
        assert(entries_map(s).contains_key(s[other].0));
    }
    lemma_entries_map_at(s, 0);
    assert(s =~= seq![(k, x)]);
}

/// The usage deltas of the first `n` shards reduce to those of shard `j` when every other
/// shard is empty on both sides.
proof fn lemma_total_one_shard(
    rp: Seq<Seq<Write>>,
    rq: Seq<Seq<Write>>,
    c: Seq<Map<StateKey, CachedRead>>,
    j: int,
    n: int,
)
    requires
        0 <= n <= 16,
        forall|i: int| 0 <= i < 16 && i != j ==> (#[trigger] rp[i]).len() == 0 && rq[i].len() == 0,
    ensures
        total_items(rp, rq, c, n) == if 0 <= j < n { shard_items(rp, rq, c, j) } else { 0 },
        total_bytes(rp, rq, c, n) == if 0 <= j < n { shard_bytes(rp, rq, c, j) } else { 0 },
    decreases n,
{
    if n > 0 {
        lemma_total_one_shard(rp, rq, c, j, n - 1);
        if n - 1 != j {
            assert(rp[n - 1].len() == 0 && rq[n - 1].len() == 0);
        }
    }
}

/// Merging updates that are all empty gives empty updates.
proof fn lemma_merge_empty(s: Seq<ShardedView>)
    requires
        forall|t: int| 0 <= t < s.len() ==> #[trigger] s[t] == empty_view(),
    ensures
        merge_views(s) == empty_view(),
    decreases s.len(),
{
    if s.len() > 0 {
        lemma_merge_empty(s.drop_last());
        assert(s.last() == empty_view());
        assert forall|i: int| 0 <= i < 16 implies combine_view(empty_view(), empty_view())[i] == empty_view()[i] by {
            assert(Map::<StateKey, Option<StateValue>>::empty().union_prefer_right(Map::empty()) =~= Map::empty());
        }
        assert(combine_view(empty_view(), empty_view()) =~= empty_view());
    }
}

/// The usage counted over representations `p` and `q`, when shard `j` is the only one
/// they may fill.
proof fn lemma_usage_one_shard(old_usage: StateStorageUsage, p: ShardedStateUpdates, q: ShardedStateUpdates, cache: ShardedStateCache, j: int)
    requires
        p.wf(),
        q.wf(),
        0 <= j < 16,
        forall|i: int| 0 <= i < 16 && i != j ==> #[trigger] p@[i] == Map::<StateKey, Option<StateValue>>::empty() && q@[i] == Map::<StateKey, Option<StateValue>>::empty(),
    ensures
        total_items(raw(p), raw(q), cache@, 16) == shard_items(raw(p), raw(q), cache@, j),
        total_bytes(raw(p), raw(q), cache@, 16) == shard_bytes(raw(p), raw(q), cache@, j),
{
    assert forall|i: int| 0 <= i < 16 && i != j implies (#[trigger] raw(p)[i]).len() == 0 && raw(q)[i].len() == 0 by {
        assert(p@[i] == Map::<StateKey, Option<StateValue>>::empty());
        lemma_empty_shard(p.shards@[i]@);
        lemma_empty_shard(q.shards@[i]@);
    }
    lemma_total_one_shard(raw(p), raw(q), cache@, j, 16);
}

/// The representations behind a usage outcome that produced `u`.
proof fn usage_witnesses(
    old_usage: StateStorageUsage,
    before: ShardedView,
    after: ShardedView,
    cache: ShardedStateCache,
    u: StateStorageUsage,
) -> (r: (ShardedStateUpdates, ShardedStateUpdates))
    requires
        usage_outcome(old_usage, before, after, cache, Ok(u)),
    ensures
        r.0.wf(),
        r.1.wf(),
        r.0@ == before,
        r.1@ == after,
        u == usage_after(old_usage, r.0, r.1, cache),
{
    choose|p: ShardedStateUpdates, q: ShardedStateUpdates|
        #![trigger p.wf(), q.wf()]
        p.wf() && q.wf() && p@ == before && q@ == after && Ok::<StateStorageUsage, CalcError>(u) == (if old_usage is Known
            && !all_read(p, q, cache) {
            Err::<StateStorageUsage, CalcError>(CalcError::MissingRead)
        } else {
            Ok::<StateStorageUsage, CalcError>(usage_after(old_usage, p, q, cache))
        })
}

/// A batch whose write sets are all empty leaves the usage as it was.
pub proof fn lemma_no_writes_keep_usage<F: Fn(TreeInfo, Vec<Write>, StateStorageUsage) -> Option<HashValue>>(
    update: F,
    parent: StateDelta,
    cache: ShardedStateCache,
    vec: Seq<ShardedStateUpdates>,
    writes: Seq<Seq<Write>>,
    idx: Option<usize>,
    is_block: bool,
    known: Option<Vec<Option<HashValue>>>,
    out: StateCheckpointOutput,
)
    requires
        splits_of(vec, writes),
        forall|t: int| 0 <= t < writes.len() ==> (#[trigger] writes[t]).len() == 0,
        idx matches Some(i) ==> i < vec.len(),
        calc_ensures(update, parent, cache, vec, idx, is_block, known, Ok(out)),
    ensures
        out.result_state.current.usage == parent.current.usage,
{
    let before = before_view(vec, idx);
    let after = after_view(vec, idx);
    assert forall|t: int| 0 <= t < vec.len() implies #[trigger] vec[t]@ == empty_view() by {
        assert(writes[t].len() == 0);
        assert(vec[t]@ == split_writes(writes[t]));
    }
    assert forall|a: int, b: int| 0 <= a <= b <= vec.len() implies merge_views(#[trigger] views(vec.subrange(a, b))) == empty_view() by {
        let s = views(vec.subrange(a, b));
        assert forall|t: int| 0 <= t < s.len() implies #[trigger] s[t] == empty_view() by {
            assert(s[t] == vec[a + t]@);
        }
        lemma_merge_empty(s);
    }
    assert(vec.subrange(0, vec.len() as int) =~= vec);
    assert(before == empty_view());
    assert(after == empty_view());
    let (p, q) = usage_witnesses(parent.current.usage, before, after, cache, out.result_state.current.usage);
    lemma_usage_one_shard(parent.current.usage, p, q, cache, 0);
    assert(p@[0] == entries_map(p.shards@[0]@));
    assert(q@[0] == entries_map(q.shards@[0]@));
    assert(empty_view()[0] == Map::<StateKey, Option<StateValue>>::empty());
    lemma_empty_shard(p.shards@[0]@);
    lemma_empty_shard(q.shards@[0]@);
    assert(raw(p)[0] == p.shards@[0]@);
    assert(raw(q)[0] == q.shards@[0]@);
}

/// A one-transaction batch that creates `k` with value `v`, where `k` was absent before,
/// adds one item and the sizes of `k` and `v` to the usage.
pub proof fn lemma_single_create<F: Fn(TreeInfo, Vec<Write>, StateStorageUsage) -> Option<HashValue>>(
    update: F,
    parent: StateDelta,
    cache: ShardedStateCache,
    vec: Seq<ShardedStateUpdates>,
    k: StateKey,
    v: StateValue,
    idx: Option<usize>,
    is_block: bool,
    known: Option<Vec<Option<HashValue>>>,
    out: StateCheckpointOutput,
    items: u64,
    bytes: u64,
)
    requires
        splits_of(vec, seq![seq![(k, Some(v))]]),
        idx matches Some(i) ==> i == 0,
        parent.current.usage == (StateStorageUsage::Known { items, bytes }),
        items + 1 <= u64::MAX,
        bytes + k.size + v.size <= u64::MAX,
        cache.wf(),
        cache@[k.shard()].contains_key(k),
        cache@[k.shard()][k].1 is None,
        calc_ensures(update, parent, cache, vec, idx, is_block, known, Ok(out)),
    ensures
        out.result_state.current.usage == (StateStorageUsage::Known {
            items: (items + 1) as u64,
            bytes: (bytes + k.size + v.size) as u64,
        }),
{
    let w = seq![(k, Some(v))];
    let j = k.shard();
    let u = insert_view(empty_view(), k, Some(v));
    assert(w.drop_last() =~= Seq::<Write>::empty());
    assert(split_writes(w.drop_last()) == empty_view());
    assert(w.last() == (k, Some(v)));
    assert(split_writes(w) == u);
    assert(vec[0]@ == u);
    assert(combine_view(empty_view(), u) =~= u) by {
        assert forall|i: int| 0 <= i < 16 implies combine_view(empty_view(), u)[i] == u[i] by {
            assert(Map::<StateKey, Option<StateValue>>::empty().union_prefer_right(u[i]) =~= u[i]);
        }
    }
    let all = views(vec);
    assert(all.drop_last() =~= Seq::<ShardedView>::empty());
    assert(merge_views(all.drop_last()) == empty_view());
    assert(all.last() == u);
    assert(merge_views(all) == u);
    assert(vec.subrange(0, 1) =~= vec);
    assert(views(vec.subrange(1, 1)) =~= Seq::<ShardedView>::empty());
    let before = before_view(vec, idx);
    let after = after_view(vec, idx);
    let (p, q) = usage_witnesses(parent.current.usage, before, after, cache, out.result_state.current.usage);
    assert forall|i: int| 0 <= i < 16 && i != j implies #[trigger] p@[i] == Map::<StateKey, Option<StateValue>>::empty() && q@[i] == Map::<StateKey, Option<StateValue>>::empty() by {}
    lemma_usage_one_shard(parent.current.usage, p, q, cache, j);
    let c = cache@[j];
    assert(raw(p)[j] == p.shards@[j]@);
    assert(raw(q)[j] == q.shards@[j]@);
    let single = seq![(k, Some(v))];
    let none = Seq::<Write>::empty();
    assert(single.drop_last() =~= none);
    assert(single.last() == (k, Some(v)));
    assert(c == cache@[k.shard()]);
    assert(!Map::<StateKey, Option<StateValue>>::empty().contains_key(k));
    assert(seq_items(none, Map::empty(), c) == 0);
    assert(seq_bytes(none, Map::empty(), c) == 0);
    assert(entries_map(none) == Map::<StateKey, Option<StateValue>>::empty());
    assert(seq_items(single, Map::empty(), c) == 1);
    assert(seq_bytes(single, Map::empty(), c) == k.size + v.size);
    assert(u[j] == Map::<StateKey, Option<StateValue>>::empty().insert(k, Some(v)));
    if idx is Some {
        lemma_single_shard(p.shards@[j]@, k, Some(v));
        lemma_empty_shard(q.shards@[j]@);
        assert(q.shards@[j]@ =~= none);
    } else {
        lemma_single_shard(q.shards@[j]@, k, Some(v));
        lemma_empty_shard(p.shards@[j]@);
        assert(p.shards@[j]@ =~= none);
        assert(seq_items(none, entries_map(single), c) == 0);
        assert(seq_bytes(none, entries_map(single), c) == 0);
    }
    assert(shard_items(raw(p), raw(q), cache@, j) == 1);
    assert(shard_bytes(raw(p), raw(q), cache@, j) == k.size + v.size);
}

} // verus!
