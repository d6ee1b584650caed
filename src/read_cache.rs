//! The values read while executing a batch, kept in sixteen concurrent maps.
use vstd::prelude::*;
use dashmap::DashMap;
use crate::types::{StateKey, StateValue, Version};

verus! {

#[verifier::external_type_specification]
#[verifier::external_body]
#[verifier::reject_recursive_types(K)]
#[verifier::reject_recursive_types(V)]
#[verifier::reject_recursive_types(S)]
pub struct ExDashMap<K, V, S>(DashMap<K, V, S>);

/// A recorded read: the version the value was read at, and the value before the batch
/// (`None` when the key was absent).
pub type CachedRead = (Option<Version>, Option<StateValue>);

/// The entries of one shard of the read cache.
pub uninterp spec fn cache_contents(m: DashMap<StateKey, CachedRead>) -> Map<StateKey, CachedRead>;

/// Relies on `DashMap::get`: the entry stored under `k`, if the map holds one.
#[verifier::external_body]
pub(crate) fn cache_get(m: &DashMap<StateKey, CachedRead>, k: &StateKey) -> (r: Option<CachedRead>)
    ensures
        r == (if cache_contents(*m).contains_key(*k) {
            Some(cache_contents(*m)[*k])
        } else {
            None::<CachedRead>
        }),
{
    m.get(k).map(|entry| *entry.value())
}

/// The reads made while executing a batch: shard `i` holds the reads of keys in shard `i`.
#[derive(Debug)]
pub struct ShardedStateCache {
    pub shards: Vec<DashMap<StateKey, CachedRead>>,
}

impl View for ShardedStateCache {
    type V = Seq<Map<StateKey, CachedRead>>;

    open spec fn view(&self) -> Seq<Map<StateKey, CachedRead>> {
        self.shards@.map_values(|m: DashMap<StateKey, CachedRead>| cache_contents(m))
    }
}

impl ShardedStateCache {
    /// Sixteen shards.
    pub open spec fn wf(&self) -> bool {
        self.shards@.len() == 16
    }

    /// The map holding the reads of shard `i`.
    pub fn shard(&self, i: u8) -> (r: &DashMap<StateKey, CachedRead>)
        requires
            self.wf(),
            i < 16,
        ensures
            cache_contents(*r) == self@[i as int],
    {
        &self.shards[i as usize]
    }
}

} // verus!
