use state_calculator::calculator::InMemoryStateCalculatorV2;
use state_calculator::sharded::{
    combine_sharded_state_updates, create_empty_sharded_state_updates, write_set_updates,
};
use state_calculator::state_view::{MockStateView, StateViewId, TStateView};
use state_calculator::types::{StateKey, StateValue};
use state_calculator::types::StateStorageUsage;
use dashmap::DashMap;
use state_calculator::read_cache::ShardedStateCache;
use std::collections::HashMap;

fn cache_with(entries: &[(StateKey, Option<StateValue>)]) -> ShardedStateCache {
    let c = ShardedStateCache { shards: (0..16).map(|_| DashMap::new()).collect() };
    for (k, v) in entries {
        c.shards[k.get_shard_id() as usize].insert(*k, (Some(0), *v));
    }
    c
}

#[test]
fn keys_land_in_their_shard() {
    let writes = vec![
        (StateKey::new(17, 1), None),
        (StateKey::new(3, 1), Some(StateValue::new(1, 1))),
        (StateKey::new(33, 1), None),
    ];
    let u = write_set_updates(&writes);
    assert_eq!(u.shards.len(), 16);
    for (i, shard) in u.shards.iter().enumerate() {
        for (k, _) in shard {
            assert_eq!(k.get_shard_id() as usize, i);
        }
    }
    assert_eq!(u.shards[1].len(), 2);
    assert_eq!(u.shards[3].len(), 1);
}

#[test]
fn later_write_wins_within_a_write_set() {
    let k = StateKey::new(5, 1);
    let u = write_set_updates(&vec![(k, Some(StateValue::new(1, 1))), (k, Some(StateValue::new(2, 2)))]);
    assert_eq!(u.shards[5], vec![(k, Some(StateValue::new(2, 2)))]);
}

#[test]
fn merge_keeps_last_writer() {
    let k = StateKey::new(6, 1);
    let other = StateKey::new(22, 1);
    let vec = InMemoryStateCalculatorV2::get_sharded_state_updates(&vec![
        vec![(k, Some(StateValue::new(1, 1))), (other, None)],
        vec![(k, None)],
    ]);
    let all = InMemoryStateCalculatorV2::calculate_updates(&vec, 0, 2);
    assert_eq!(all.get(&k), Some(None));
    assert_eq!(all.get(&other), Some(None));
    let first = InMemoryStateCalculatorV2::calculate_updates(&vec, 0, 1);
    assert_eq!(first.get(&k), Some(Some(StateValue::new(1, 1))));
    assert_eq!(InMemoryStateCalculatorV2::calculate_updates(&vec, 1, 1).is_empty(), true);
}

#[test]
fn combine_prefers_right() {
    let k = StateKey::new(8, 1);
    let mut lhs = create_empty_sharded_state_updates();
    lhs.insert(k, None);
    let mut rhs = create_empty_sharded_state_updates();
    rhs.insert(k, Some(StateValue::new(4, 4)));
    combine_sharded_state_updates(&mut lhs, &rhs);
    assert_eq!(lhs.get(&k), Some(Some(StateValue::new(4, 4))));
    assert_eq!(lhs.shards[8].len(), 1);
}

#[test]
fn usage_of_delete_and_create() {
    let gone = StateKey::new(1, 2);
    let fresh = StateKey::new(2, 3);
    let cache = cache_with(&[(gone, Some(StateValue::new(1, 10))), (fresh, None)]);
    let pre = write_set_updates(&vec![(gone, None)]);
    let post = write_set_updates(&vec![(fresh, Some(StateValue::new(2, 4)))]);
    let r = InMemoryStateCalculatorV2::calculate_usage(StateStorageUsage::new(5, 100), &cache, &pre, &post).unwrap();
    assert_eq!(r, StateStorageUsage::new(5, 100 - 12 + 7));
}

#[test]
fn negative_usage_saturates_at_zero() {
    let gone = StateKey::new(1, 2);
    let cache = cache_with(&[(gone, Some(StateValue::new(1, 10)))]);
    let pre = create_empty_sharded_state_updates();
    let post = write_set_updates(&vec![(gone, None)]);
    let r = InMemoryStateCalculatorV2::calculate_usage(StateStorageUsage::new(0, 5), &cache, &pre, &post).unwrap();
    assert_eq!(r, StateStorageUsage::new(0, 0));
}

#[test]
fn mock_state_view_reads_its_data() {
    let k = StateKey::new(1, 1);
    let mut data = HashMap::new();
    data.insert(k, StateValue::new(9, 9));
    let view = MockStateView::new(data);
    assert_eq!(view.get_state_value(&k), Some(StateValue::new(9, 9)));
    assert_eq!(view.value_of(&StateKey::new(2, 1)), None);
    assert_eq!(view.id(), StateViewId::Miscellaneous);
    let empty: MockStateView<StateKey> = MockStateView::empty();
    assert_eq!(empty.get_state_value(&k), None);
}

#[test]
fn usage_needs_every_written_key_read() {
    let k = StateKey::new(3, 1);
    let cache = cache_with(&[]);
    let pre = create_empty_sharded_state_updates();
    let post = write_set_updates(&vec![(k, None)]);
    let r = InMemoryStateCalculatorV2::calculate_usage(StateStorageUsage::new(1, 1), &cache, &pre, &post);
    assert_eq!(r, Err(state_calculator::types::CalcError::MissingRead));
}

#[test]
fn pre_checkpoint_write_overwritten_after_is_skipped() {
    let k = StateKey::new(4, 2);
    let cache = cache_with(&[(k, Some(StateValue::new(1, 6)))]);
    let pre = write_set_updates(&vec![(k, Some(StateValue::new(2, 100)))]);
    let post = write_set_updates(&vec![(k, Some(StateValue::new(3, 10)))]);
    let r = InMemoryStateCalculatorV2::calculate_usage(StateStorageUsage::new(3, 30), &cache, &pre, &post).unwrap();
    assert_eq!(r, StateStorageUsage::new(3, 30 - 8 + 12));
}
