//! Read-only views of the state, as handed to transaction execution.
use vstd::prelude::*;
use vstd::std_specs::hash::{builds_valid_hashers, obeys_key_model};
use std::collections::HashMap;
use std::hash::Hash;
use crate::types::{HashValue, StateKey, StateValue, Version};

verus! {

/// What a state view is for.
#[derive(Clone, Copy, Debug, PartialEq, Eq, Structural)]
pub enum StateViewId {
    /// State sync applying a chunk of transactions.
    ChunkExecution { first_version: Version },
    /// Applying a block.
    BlockExecution { block_id: HashValue },
    /// Validating an incoming transaction.
    TransactionValidation { base_version: Version },
    /// Anything else.
    Miscellaneous,
    Replay,
}

/// A read-only snapshot of the state.
pub trait TStateView {
    type Key;

    /// What this view is for.
    fn id(&self) -> StateViewId {
        StateViewId::Miscellaneous
    }

    /// The value stored under `state_key`, if any.
    fn get_state_value(&self, state_key: &Self::Key) -> Option<StateValue>;
}

/// A state view keyed by `StateKey`.
pub trait StateView: TStateView<Key = StateKey> {}

/// A state view over a fixed map of values.
pub struct MockStateView<K> {
    data: HashMap<K, StateValue>,
}

impl<K> MockStateView<K> {
    /// The values this view holds.
    pub closed spec fn data(&self) -> Map<K, StateValue> {
        self.data@
    }

    /// A view of an empty state.
    pub fn empty() -> (r: Self)
        ensures
            r.data() == Map::<K, StateValue>::empty(),
    {
        Self { data: HashMap::new() }
    }

    /// A view of the values in `data`.
    pub fn new(data: HashMap<K, StateValue>) -> (r: Self)
        ensures
            r.data() == data@,
    {
        Self { data }
    }
}

impl<K: Eq + Hash> TStateView for MockStateView<K> {
    type Key = K;

    fn get_state_value(&self, state_key: &K) -> (r: Option<StateValue>) {
        match self.data.get(state_key) {
            Some(v) => Some(*v),
            None => None,
        }
    }
}

impl MockStateView<StateKey> {
    /// The value stored under `state_key`, if any.
    pub fn value_of(&self, state_key: &StateKey) -> (r: Option<StateValue>)
        ensures
            obeys_key_model::<StateKey>() && builds_valid_hashers::<std::hash::RandomState>() ==> r == (
            if self.data().contains_key(*state_key) {
                Some(self.data()[*state_key])
            } else {
                None
            }),
    {
        match self.data.get(state_key) {
            Some(v) => Some(*v),
            None => None,
        }
    }
}

impl StateView for MockStateView<StateKey> {}

} // verus!
