//! Storage usage accounting for a batch of sharded updates.
use vstd::prelude::*;
use crate::read_cache::{cache_contents, cache_get, CachedRead, ShardedStateCache};
use crate::shard_map::{entries_map, keys_unique, shard_contains};
use crate::calculator::InMemoryStateCalculatorV2;
use crate::sharded::ShardedStateUpdates;
use dashmap::DashMap;
use crate::types::{CalcError, StateKey, StateStorageUsage, StateValue, Write, NUM_SHARDS};

verus! {

/// The raw shard contents of sharded updates.
pub open spec fn raw(u: ShardedStateUpdates) -> Seq<Seq<Write>> {
    u.shards@.map_values(|s: Vec<Write>| s@)
}

/// Items added by writing `e`, less the item it replaces.
pub open spec fn entry_items(e: Write, cache: Map<StateKey, CachedRead>) -> int {
    (if e.1 is Some { 1int } else { 0int }) - (if cache[e.0].1 is Some { 1int } else { 0int })
}

/// Bytes added by writing `e`, less the bytes of the item it replaces.
pub open spec fn entry_bytes(e: Write, cache: Map<StateKey, CachedRead>) -> int {
    (match e.1 {
        Some(v) => e.0.size + v.size,
        None => 0int,
    }) - (match cache[e.0].1 {
        Some(o) => e.0.size + o.size,
        None => 0int,
    })
}

/// Sum of the item deltas of the entries of `s` whose key `skip` does not hold.
pub open spec fn seq_items(
    s: Seq<Write>,
    skip: Map<StateKey, Option<StateValue>>,
    cache: Map<StateKey, CachedRead>,
) -> int
    decreases s.len(),
{
    if s.len() == 0 {
        0
    } else {
        seq_items(s.drop_last(), skip, cache) + if skip.contains_key(s.last().0) {
            0
        } else {
            entry_items(s.last(), cache)
        }
    }
}

/// Sum of the byte deltas of the entries of `s` whose key `skip` does not hold.
pub open spec fn seq_bytes(
    s: Seq<Write>,
    skip: Map<StateKey, Option<StateValue>>,
    cache: Map<StateKey, CachedRead>,
) -> int
    decreases s.len(),
{
    if s.len() == 0 {
        0
    } else {
        seq_bytes(s.drop_last(), skip, cache) + if skip.contains_key(s.last().0) {
            0
        } else {
            entry_bytes(s.last(), cache)
        }
    }
}

/// Every entry of `s` whose key `skip` does not hold was read.
pub open spec fn seq_read(
    s: Seq<Write>,
    skip: Map<StateKey, Option<StateValue>>,
    cache: Map<StateKey, CachedRead>,
) -> bool {
    forall|j: int| 0 <= j < s.len() && !skip.contains_key(#[trigger] s[j].0) ==> cache.contains_key(s[j].0)
}

/// Item delta of shard `i`: the entries before the checkpoint that the entries after it do
/// not overwrite, then the entries after it.
pub open spec fn shard_items(pre: Seq<Seq<Write>>, post: Seq<Seq<Write>>, cache: Seq<Map<StateKey, CachedRead>>, i: int) -> int {
    seq_items(pre[i], entries_map(post[i]), cache[i]) + seq_items(post[i], Map::empty(), cache[i])
}

/// Byte delta of shard `i`, counted as `shard_items` counts items.
pub open spec fn shard_bytes(pre: Seq<Seq<Write>>, post: Seq<Seq<Write>>, cache: Seq<Map<StateKey, CachedRead>>, i: int) -> int {
    seq_bytes(pre[i], entries_map(post[i]), cache[i]) + seq_bytes(post[i], Map::empty(), cache[i])
}

/// Every key that shard `i` counts was read.
pub open spec fn shard_read(pre: Seq<Seq<Write>>, post: Seq<Seq<Write>>, cache: Seq<Map<StateKey, CachedRead>>, i: int) -> bool {
    seq_read(pre[i], entries_map(post[i]), cache[i]) && seq_read(post[i], Map::empty(), cache[i])
}

/// Item delta of the first `n` shards.
pub open spec fn total_items(pre: Seq<Seq<Write>>, post: Seq<Seq<Write>>, cache: Seq<Map<StateKey, CachedRead>>, n: int) -> int
    decreases n,
{
    if n <= 0 { 0 } else { total_items(pre, post, cache, n - 1) + shard_items(pre, post, cache, n - 1) }
}

/// Byte delta of the first `n` shards.
pub open spec fn total_bytes(pre: Seq<Seq<Write>>, post: Seq<Seq<Write>>, cache: Seq<Map<StateKey, CachedRead>>, n: int) -> int
    decreases n,
{
    if n <= 0 { 0 } else { total_bytes(pre, post, cache, n - 1) + shard_bytes(pre, post, cache, n - 1) }
}

/// Every key that the sixteen shards count was read.
pub open spec fn all_read(pre: ShardedStateUpdates, post: ShardedStateUpdates, cache: ShardedStateCache) -> bool {
    forall|i: int| 0 <= i < 16 ==> #[trigger] shard_read(raw(pre), raw(post), cache@, i)
}

/// An exact count brought into the range of `u64`.
pub open spec fn clamp(x: int) -> u64 {
    if x < 0 {
        0
    } else if x > u64::MAX {
        u64::MAX
    } else {
        x as u64
    }
}

/// Usage after the updates `pre` (up to the checkpoint) and `post` (after it).
pub open spec fn usage_after(
    old_usage: StateStorageUsage,
    pre: ShardedStateUpdates,
    post: ShardedStateUpdates,
    cache: ShardedStateCache,
) -> StateStorageUsage {
    match old_usage {
        StateStorageUsage::Untracked => StateStorageUsage::Untracked,
        StateStorageUsage::Known { items, bytes } => StateStorageUsage::Known {
            items: clamp(items + total_items(raw(pre), raw(post), cache@, 16)),
            bytes: clamp(bytes + total_bytes(raw(pre), raw(post), cache@, 16)),
        },
    }
}

/// A bound on the delta of one entry.
pub open spec fn entry_bound() -> int {
    0x2_0000_0000
}

proof fn lemma_seq_bounds(s: Seq<Write>, skip: Map<StateKey, Option<StateValue>>, cache: Map<StateKey, CachedRead>)
    ensures
        -s.len() <= seq_items(s, skip, cache) <= s.len(),
        -s.len() * entry_bound() <= seq_bytes(s, skip, cache) <= s.len() * entry_bound(),
    decreases s.len(),
{
    if s.len() > 0 {
        lemma_seq_bounds(s.drop_last(), skip, cache);
    }
}

impl InMemoryStateCalculatorV2 {
    /// Adds the delta of writing `v` to `k` to the running counts.
    fn add_to_delta(
        k: &StateKey,
        v: &Option<StateValue>,
        state_cache: &DashMap<StateKey, CachedRead>,
        items_delta: &mut i128,
        bytes_delta: &mut i128,
    ) -> (r: Result<(), CalcError>)
        requires
            -0x1_0000_0000_0000_0000_0000_0000_0000 <= *old(items_delta) <= 0x1_0000_0000_0000_0000_0000_0000_0000,
            -0x1_0000_0000_0000_0000_0000_0000_0000 <= *old(bytes_delta) <= 0x1_0000_0000_0000_0000_0000_0000_0000,
        ensures
            r is Ok <==> cache_contents(*state_cache).contains_key(*k),
            r is Ok ==> *final(items_delta) == *old(items_delta) + entry_items((*k, *v), cache_contents(*state_cache)),
            r is Ok ==> *final(bytes_delta) == *old(bytes_delta) + entry_bytes((*k, *v), cache_contents(*state_cache)),
    {
        // Every written key was read while executing, so its previous value is recorded.
        let old_entry = cache_get(state_cache, k);
        match old_entry {
            None => Err(CalcError::MissingRead),
            Some((_, old_value)) => {
                let key_size = k.size() as i128;
                if let Some(value) = v {
                    *items_delta = *items_delta + 1;
                    *bytes_delta = *bytes_delta + key_size + value.size() as i128;
                }
                if let Some(old_v) = old_value {
                    *items_delta = *items_delta - 1;
                    *bytes_delta = *bytes_delta - (key_size + old_v.size() as i128);
                }
                Ok(())
            },
        }
    }
}

/// Adds the deltas of the entries of `s` that `skip` does not hold.
fn add_seq_delta(
    s: &Vec<Write>,
    skip: &Vec<Write>,
    use_skip: bool,
    cache: &DashMap<StateKey, CachedRead>,
    items_delta: &mut i128,
    bytes_delta: &mut i128,
) -> (r: Result<(), CalcError>)
    requires
        keys_unique(skip@),
        -0x10_0000_0000_0000_0000_0000_0000 <= *old(items_delta) <= 0x10_0000_0000_0000_0000_0000_0000,
        -0x10_0000_0000_0000_0000_0000_0000 <= *old(bytes_delta) <= 0x10_0000_0000_0000_0000_0000_0000,
    ensures
        ({
            let sk = if use_skip { entries_map(skip@) } else { Map::empty() };
            &&& r is Ok <==> seq_read(s@, sk, cache_contents(*cache))
            &&& r is Ok ==> *final(items_delta) == *old(items_delta) + seq_items(s@, sk, cache_contents(*cache))
            &&& r is Ok ==> *final(bytes_delta) == *old(bytes_delta) + seq_bytes(s@, sk, cache_contents(*cache))
        }),
{
    let ghost sk = if use_skip { entries_map(skip@) } else { Map::empty() };
    let ghost c = cache_contents(*cache);
    let ghost items0 = *items_delta;
    let ghost bytes0 = *bytes_delta;
    let mut j: usize = 0;
    while j < s.len()
        invariant
            0 <= j <= s.len(),
            keys_unique(skip@),
            sk == (if use_skip { entries_map(skip@) } else { Map::empty() }),
            c == cache_contents(*cache),
            -0x10_0000_0000_0000_0000_0000_0000 <= items0 <= 0x10_0000_0000_0000_0000_0000_0000,
            -0x10_0000_0000_0000_0000_0000_0000 <= bytes0 <= 0x10_0000_0000_0000_0000_0000_0000,
            seq_read(s@.take(j as int), sk, c),
            *items_delta == items0 + seq_items(s@.take(j as int), sk, c),
            *bytes_delta == bytes0 + seq_bytes(s@.take(j as int), sk, c),
        decreases s.len() - j,
    {
        let (k, v) = s[j];
        proof {
            lemma_seq_bounds(s@.take(j as int), sk, c);
            assert(s@.take(j as int + 1).drop_last() =~= s@.take(j as int));
        }
        let skipped = use_skip && shard_contains(skip, &k);
        if !skipped {
            let res = InMemoryStateCalculatorV2::add_to_delta(&k, &v, cache, items_delta, bytes_delta);
            if res.is_err() {
                assert(!seq_read(s@, sk, c)) by {
                    assert(s@[j as int].0 == k);
                }
                return res;
            }
        }
        proof {
            let t = s@.take(j as int + 1);
            assert forall|i: int| 0 <= i < t.len() && !sk.contains_key(#[trigger] t[i].0) implies c.contains_key(t[i].0) by {
                if i < j {
                    assert(t[i] == s@.take(j as int)[i]);
                }
            }
        }
        j += 1;
    }
    assert(s@.take(j as int) =~= s@);
    Ok(())
}

/// The item and byte deltas of shard `i`.
fn shard_delta(
    pre: &ShardedStateUpdates,
    post: &ShardedStateUpdates,
    cache: &ShardedStateCache,
    i: usize,
) -> (r: Result<(i128, i128), CalcError>)
    requires
        cache.wf(),
        pre.wf(),
        post.wf(),
        i < 16,
    ensures
        r is Ok <==> shard_read(raw(*pre), raw(*post), cache@, i as int),
        r is Err ==> r == Err::<(i128, i128), CalcError>(CalcError::MissingRead),
        r matches Ok((di, db)) ==> di == shard_items(raw(*pre), raw(*post), cache@, i as int)
            && db == shard_bytes(raw(*pre), raw(*post), cache@, i as int)
            && -0x4_0000_0000_0000_0000 <= di <= 0x4_0000_0000_0000_0000
            && -0x4_0000_0000_0000_0000_0000_0000 <= db <= 0x4_0000_0000_0000_0000_0000_0000,
{
    let pre_shard = &pre.shards[i];
    let post_shard = &post.shards[i];
    let cache_shard = cache.shard(i as u8);
    let ghost rc = cache@[i as int];
    assert(raw(*pre)[i as int] == pre_shard@);
    assert(raw(*post)[i as int] == post_shard@);

    let pre_len = pre_shard.len();
    let post_len = post_shard.len();
    proof {
        assert(pre_len as int <= 0xffff_ffff_ffff_ffff);
        assert(post_len as int <= 0xffff_ffff_ffff_ffff);
        lemma_seq_bounds(pre_shard@, entries_map(post_shard@), rc);
        lemma_seq_bounds(post_shard@, Map::empty(), rc);
        assert(pre_shard@.len() * entry_bound() <= 0x2_0000_0000_0000_0000_0000_0000) by (nonlinear_arith)
            requires pre_shard@.len() == pre_len, pre_len <= 0xffff_ffff_ffff_ffff;
        assert(post_shard@.len() * entry_bound() <= 0x2_0000_0000_0000_0000_0000_0000) by (nonlinear_arith)
            requires post_shard@.len() == post_len, post_len <= 0xffff_ffff_ffff_ffff;
    }
    let mut items_delta: i128 = 0;
    let mut bytes_delta: i128 = 0;
    let res = add_seq_delta(pre_shard, post_shard, true, cache_shard, &mut items_delta, &mut bytes_delta);
    if res.is_err() {
        return Err(CalcError::MissingRead);
    }
    let res = add_seq_delta(post_shard, post_shard, false, cache_shard, &mut items_delta, &mut bytes_delta);
    if res.is_err() {
        return Err(CalcError::MissingRead);
    }
    Ok((items_delta, bytes_delta))
}

impl InMemoryStateCalculatorV2 {
    /// The usage after applying `pre` (updates up to the last checkpoint) and `post` (updates
    /// after it) to a state whose usage was `old_usage`.
    ///
    /// A write before the checkpoint to a key that is written again after it is not counted:
    /// the later write accounts for the key's previous value. Untracked usage stays untracked.
    pub fn calculate_usage(
        old_usage: StateStorageUsage,
        cache: &ShardedStateCache,
        pre: &ShardedStateUpdates,
        post: &ShardedStateUpdates,
    ) -> (r: Result<StateStorageUsage, CalcError>)
        requires
            cache.wf(),
            pre.wf(),
            post.wf(),
        ensures
            r is Err <==> (old_usage is Known && !all_read(*pre, *post, *cache)),
            r is Err ==> r == Err::<StateStorageUsage, CalcError>(CalcError::MissingRead),
            r is Ok ==> r == Ok::<StateStorageUsage, CalcError>(usage_after(old_usage, *pre, *post, *cache)),
    {
        if old_usage.is_untracked() {
            return Ok(StateStorageUsage::new_untracked());
        }
        let (old_items, old_bytes) = match old_usage {
            StateStorageUsage::Untracked => (0u64, 0u64),
            StateStorageUsage::Known { items, bytes } => (items, bytes),
        };
        let ghost rp = raw(*pre);
        let ghost rq = raw(*post);
        let ghost rc = cache@;
        let mut items_delta: i128 = 0;
        let mut bytes_delta: i128 = 0;
        let mut i: usize = 0;
        while i < NUM_SHARDS
            invariant
                cache.wf(),
                pre.wf(),
                post.wf(),
                rp == raw(*pre),
                rq == raw(*post),
                rc == cache@,
                old_usage == (StateStorageUsage::Known { items: old_items, bytes: old_bytes }),
                0 <= i <= 16,
                forall|s: int| 0 <= s < i ==> #[trigger] shard_read(rp, rq, rc, s),
                items_delta == total_items(rp, rq, rc, i as int),
                bytes_delta == total_bytes(rp, rq, rc, i as int),
                -i * 0x4_0000_0000_0000_0000 <= items_delta <= i * 0x4_0000_0000_0000_0000,
                -i * 0x4_0000_0000_0000_0000_0000_0000 <= bytes_delta <= i * 0x4_0000_0000_0000_0000_0000_0000,
            decreases 16 - i,
        {
            let res = shard_delta(pre, post, cache, i);
            match res {
                Err(e) => {
                    assert(!shard_read(raw(*pre), raw(*post), cache@, i as int));
                    assert(!all_read(*pre, *post, *cache));
                    assert(old_usage is Known);
                    return Err(e);
                },
                Ok((di, db)) => {
                    items_delta = items_delta + di;
                    bytes_delta = bytes_delta + db;
                },
            }
            assert(shard_read(rp, rq, rc, i as int));
            i += 1;
        }
        let items = old_items as i128 + items_delta;
        let bytes = old_bytes as i128 + bytes_delta;
        let new_items: u64 = if items < 0 {
            0
        } else if items > u64::MAX as i128 {
            u64::MAX
        } else {
            items as u64
        };
        let new_bytes: u64 = if bytes < 0 {
            0
        } else if bytes > u64::MAX as i128 {
            u64::MAX
        } else {
            bytes as u64
        };
        Ok(StateStorageUsage::new(new_items, new_bytes))
    }
}

} // verus!
