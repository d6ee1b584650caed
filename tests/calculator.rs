use state_calculator::calculator::{
    ExecutionOutput, InMemoryStateCalculatorV2, StateDelta, TransactionOutput, TreeInfo,
};
use dashmap::DashMap;
use state_calculator::read_cache::ShardedStateCache;
use state_calculator::sharded::create_empty_sharded_state_updates;
use state_calculator::types::{CalcError, HashValue, StateKey, StateStorageUsage, StateValue, Write};

/// A stand-in tree: the root hash mixes the base root with the applied writes.
fn fake_update(base: TreeInfo, writes: Vec<Write>, _usage: StateStorageUsage) -> Option<HashValue> {
    let mut h = base.root_hash.lo ^ 0x9e37_79b9;
    for (k, v) in writes {
        h = h.wrapping_mul(1_000_003) ^ (k.id as u128);
        h = h.wrapping_mul(1_000_003) ^ v.map_or(0, |v| v.id as u128 + 1);
    }
    Some(HashValue { hi: base.root_hash.hi, lo: h })
}

fn failing_update(_b: TreeInfo, _w: Vec<Write>, _u: StateStorageUsage) -> Option<HashValue> {
    None
}

fn empty_tree(usage: StateStorageUsage) -> TreeInfo {
    TreeInfo { root_hash: HashValue { hi: 0, lo: 0 }, usage }
}

fn parent_at(version: Option<u64>, usage: StateStorageUsage) -> StateDelta {
    StateDelta {
        base: empty_tree(usage),
        base_version: version,
        current: empty_tree(usage),
        current_version: version,
        updates_since_base: create_empty_sharded_state_updates(),
    }
}

fn cache_with(entries: &[(StateKey, Option<StateValue>)]) -> ShardedStateCache {
    let c = ShardedStateCache { shards: (0..16).map(|_| DashMap::new()).collect() };
    for (k, v) in entries {
        c.shards[k.get_shard_id() as usize].insert(*k, (Some(0), *v));
    }
    c
}

fn txn(writes: Vec<Write>, need_checkpoint: bool) -> TransactionOutput {
    TransactionOutput { write_set: writes, need_checkpoint }
}

fn key(id: u64, size: u32) -> StateKey {
    StateKey::new(id, size)
}

fn val(id: u64, size: u32) -> StateValue {
    StateValue::new(id, size)
}

#[test]
fn empty_block_is_invalid() {
    let parent = parent_at(Some(0), StateStorageUsage::new(0, 0));
    let out = ExecutionOutput { to_commit: vec![], is_block: true, state_cache: cache_with(&[]) };
    let r = InMemoryStateCalculatorV2::calculate_for_transactions(&out, &parent, None, &fake_update);
    assert_eq!(r.err(), Some(CalcError::InvalidBlock));
}

#[test]
fn single_create_at_genesis() {
    let parent = parent_at(None, StateStorageUsage::new(0, 0));
    let a = key(0x61, 1);
    let out = ExecutionOutput {
        to_commit: vec![txn(vec![(a, Some(val(1, 1)))], true)],
        is_block: true,
        state_cache: cache_with(&[(a, None)]),
    };
    let r = InMemoryStateCalculatorV2::calculate_for_transactions(&out, &parent, None, &fake_update).unwrap();
    let s = &r.result_state;
    assert_eq!(s.current.usage, StateStorageUsage::new(1, 2));
    assert_eq!(s.current_version, Some(0));
    assert_eq!(s.base_version, Some(0));
    assert_eq!(s.current, s.base);
    assert_eq!(r.state_checkpoint_hashes, vec![Some(s.base.root_hash)]);
    assert!(r.updates_before_last_checkpoint.is_some());
    assert_ne!(s.base.root_hash, parent.base.root_hash);
}

#[test]
fn write_then_delete_same_key() {
    let parent = parent_at(Some(9), StateStorageUsage::new(5, 50));
    let k = key(7, 3);
    let out = ExecutionOutput {
        to_commit: vec![txn(vec![(k, Some(val(1, 4)))], false), txn(vec![(k, None)], true)],
        is_block: true,
        state_cache: cache_with(&[(k, None)]),
    };
    let r = InMemoryStateCalculatorV2::calculate_for_transactions(&out, &parent, None, &fake_update).unwrap();
    assert_eq!(r.result_state.current.usage, StateStorageUsage::new(5, 50));
    assert_eq!(r.result_state.current_version, Some(11));
}

#[test]
fn chunk_without_checkpoint() {
    let mut parent = parent_at(Some(3), StateStorageUsage::new(10, 100));
    let k0 = key(32, 2);
    parent.updates_since_base.insert(k0, Some(val(9, 9)));
    parent.current_version = Some(4);
    let k1 = key(1, 2);
    let k2 = key(2, 3);
    let v1 = val(11, 5);
    let v2 = val(12, 6);
    let out = ExecutionOutput {
        to_commit: vec![txn(vec![(k1, Some(v1))], false), txn(vec![(k2, Some(v2))], false)],
        is_block: false,
        state_cache: cache_with(&[(k1, None), (k2, None)]),
    };
    let r = InMemoryStateCalculatorV2::calculate_for_transactions(&out, &parent, None, &fake_update).unwrap();
    let s = &r.result_state;
    assert!(r.updates_before_last_checkpoint.is_none());
    assert_eq!(s.current_version, Some(6));
    assert_eq!(s.base_version, Some(3));
    assert_eq!(s.base, parent.base);
    assert_eq!(s.updates_since_base.get(&k0), Some(Some(val(9, 9))));
    assert_eq!(s.updates_since_base.get(&k1), Some(Some(v1)));
    assert_eq!(s.updates_since_base.get(&k2), Some(Some(v2)));
    assert_eq!(s.updates_since_base.shards[1], vec![(k1, Some(v1))]);
    assert_eq!(s.updates_since_base.shards[2], vec![(k2, Some(v2))]);
    assert_eq!(s.current.usage, StateStorageUsage::new(12, 100 + 7 + 9));
    assert_eq!(r.state_checkpoint_hashes, vec![None, None]);
}

fn two_txn_block(known: Option<Vec<Option<HashValue>>>) -> Result<HashValue, CalcError> {
    let parent = parent_at(Some(0), StateStorageUsage::new(0, 0));
    let k = key(5, 1);
    let out = ExecutionOutput {
        to_commit: vec![txn(vec![], false), txn(vec![(k, Some(val(3, 2)))], true)],
        is_block: true,
        state_cache: cache_with(&[(k, None)]),
    };
    InMemoryStateCalculatorV2::calculate_for_transactions(&out, &parent, known, &fake_update).map(|r| {
        assert_eq!(r.state_checkpoint_hashes[0], None);
        r.state_checkpoint_hashes[1].unwrap()
    })
}

#[test]
fn hash_reconciliation_success() {
    let h = two_txn_block(None).unwrap();
    assert_eq!(two_txn_block(Some(vec![None, Some(h)])), Ok(h));
}

#[test]
fn hash_reconciliation_failure() {
    let h = two_txn_block(None).unwrap();
    let wrong = HashValue { hi: h.hi, lo: h.lo ^ 1 };
    assert_eq!(two_txn_block(Some(vec![None, Some(wrong)])), Err(CalcError::HashMismatch));
}

#[test]
fn hash_count_mismatch() {
    assert_eq!(two_txn_block(Some(vec![None])), Err(CalcError::HashCountMismatch));
}

#[test]
fn missing_read_fails() {
    let parent = parent_at(Some(0), StateStorageUsage::new(0, 0));
    let out = ExecutionOutput {
        to_commit: vec![txn(vec![(key(5, 1), Some(val(3, 2)))], true)],
        is_block: true,
        state_cache: cache_with(&[]),
    };
    let r = InMemoryStateCalculatorV2::calculate_for_transactions(&out, &parent, None, &fake_update);
    assert_eq!(r.err(), Some(CalcError::MissingRead));
}

#[test]
fn tree_update_failure_surfaces() {
    let parent = parent_at(Some(0), StateStorageUsage::new_untracked());
    let out = ExecutionOutput {
        to_commit: vec![txn(vec![(key(5, 1), Some(val(3, 2)))], true)],
        is_block: true,
        state_cache: cache_with(&[]),
    };
    let r = InMemoryStateCalculatorV2::calculate_for_transactions(&out, &parent, None, &failing_update);
    assert_eq!(r.err(), Some(CalcError::TreeUpdate));
}

#[test]
fn block_with_interior_checkpoint_is_invalid() {
    let parent = parent_at(Some(0), StateStorageUsage::new(0, 0));
    let out = ExecutionOutput {
        to_commit: vec![txn(vec![], true), txn(vec![], true)],
        is_block: true,
        state_cache: cache_with(&[]),
    };
    let r = InMemoryStateCalculatorV2::calculate_for_transactions(&out, &parent, None, &fake_update);
    assert_eq!(r.err(), Some(CalcError::InvalidBlock));
}

#[test]
fn block_on_parent_that_is_not_a_checkpoint_is_invalid() {
    let mut parent = parent_at(Some(0), StateStorageUsage::new(0, 0));
    parent.current_version = Some(2);
    let out = ExecutionOutput { to_commit: vec![txn(vec![], true)], is_block: true, state_cache: cache_with(&[]) };
    let r = InMemoryStateCalculatorV2::calculate_for_transactions(&out, &parent, None, &fake_update);
    assert_eq!(r.err(), Some(CalcError::InvalidBlock));
}

#[test]
fn block_on_parent_with_pending_updates_is_invalid() {
    let mut parent = parent_at(Some(0), StateStorageUsage::new(0, 0));
    parent.updates_since_base.insert(key(1, 1), None);
    let out = ExecutionOutput { to_commit: vec![txn(vec![], true)], is_block: true, state_cache: cache_with(&[]) };
    let r = InMemoryStateCalculatorV2::calculate_for_transactions(&out, &parent, None, &fake_update);
    assert_eq!(r.err(), Some(CalcError::InvalidBlock));
}

#[test]
fn empty_write_sets_keep_usage() {
    let parent = parent_at(Some(3), StateStorageUsage::new(4, 40));
    let r = InMemoryStateCalculatorV2::calculate_for_write_sets_after_snapshot(&parent, &cache_with(&[]), None, &vec![vec![], vec![]], &fake_update)
        .unwrap();
    assert_eq!(r.result_state.current.usage, StateStorageUsage::new(4, 40));
    assert_eq!(r.result_state.current_version, Some(5));
}

#[test]
fn untracked_usage_stays_untracked() {
    let parent = parent_at(Some(3), StateStorageUsage::new_untracked());
    let ws = vec![vec![(key(1, 1), Some(val(1, 1)))]];
    let r = InMemoryStateCalculatorV2::calculate_for_write_sets_after_snapshot(&parent, &cache_with(&[]), Some(0), &ws, &fake_update).unwrap();
    assert_eq!(r.result_state.current.usage, StateStorageUsage::new_untracked());
}

#[test]
fn overwrite_counts_final_value_once() {
    let parent = parent_at(Some(3), StateStorageUsage::new(1, 10));
    let k = key(4, 2);
    let cache = cache_with(&[(k, Some(val(1, 8)))]);
    let twice = vec![vec![(k, Some(val(2, 3))), (k, Some(val(3, 5)))]];
    let once = vec![vec![(k, Some(val(3, 5)))]];
    let a = InMemoryStateCalculatorV2::calculate_for_write_sets_after_snapshot(&parent, &cache, Some(0), &twice, &fake_update).unwrap();
    let b = InMemoryStateCalculatorV2::calculate_for_write_sets_after_snapshot(&parent, &cache, Some(0), &once, &fake_update).unwrap();
    assert_eq!(a.result_state.current, b.result_state.current);
    assert_eq!(a.result_state.current.usage, StateStorageUsage::new(1, 10 - 8 + 5));
}

#[test]
fn mid_batch_checkpoint_builds_two_trees() {
    let parent = parent_at(Some(0), StateStorageUsage::new(0, 0));
    let k1 = key(1, 1);
    let k2 = key(2, 1);
    let cache = cache_with(&[(k1, None), (k2, None)]);
    let ws = vec![vec![(k1, Some(val(1, 1)))], vec![(k2, Some(val(2, 1)))]];
    let r = InMemoryStateCalculatorV2::calculate_for_write_sets_after_snapshot(&parent, &cache, Some(0), &ws, &fake_update).unwrap();
    let s = &r.result_state;
    assert_eq!(s.base_version, Some(1));
    assert_eq!(s.current_version, Some(2));
    assert_eq!(s.base.usage, StateStorageUsage::new_untracked());
    assert_eq!(s.current.usage, StateStorageUsage::new(2, 4));
    assert_ne!(s.base.root_hash, s.current.root_hash);
    assert_eq!(s.updates_since_base.shards[2], vec![(k2, Some(val(2, 1)))]);
    assert!(s.updates_since_base.shards[1].is_empty());
    assert_eq!(r.state_checkpoint_hashes, vec![Some(s.base.root_hash), None]);
}

#[test]
fn calculation_is_deterministic() {
    let a = two_txn_block(None).unwrap();
    let b = two_txn_block(None).unwrap();
    assert_eq!(a, b);
}
