use vstd::prelude::*;

verus! {

/// A transaction version number.
pub type Version = u64;

/// Number of shards the key space is split into.
pub const NUM_SHARDS: usize = 16;

/// An identifier of a storage slot.
///
/// `id` identifies the slot (the host derives it from the key's bytes, and the slot's
/// shard is its low four bits); `size` is the key's size in bytes.
#[derive(Clone, Copy, Debug, PartialEq, Eq, Structural, Hash)]
pub struct StateKey {
    pub id: u64,
    pub size: u32,
}

impl StateKey {
    /// The shard this key belongs to.
    pub open spec fn shard(self) -> int {
        (self.id % 16) as int
    }

    pub fn new(id: u64, size: u32) -> (r: StateKey)
        ensures
            r.id == id,
            r.size == size,
    {
        StateKey { id, size }
    }

    pub fn get_shard_id(&self) -> (r: u8)
        ensures
            r as int == self.shard(),
            r < 16,
    {
        (self.id % 16) as u8
    }

    pub fn size(&self) -> (r: u32)
        ensures
            r == self.size,
    {
        self.size
    }
}

/// A stored value: `id` identifies its contents, `size` is its size in bytes.
#[derive(Clone, Copy, Debug, PartialEq, Eq, Structural, Hash)]
pub struct StateValue {
    pub id: u64,
    pub size: u32,
}

impl StateValue {
    pub fn new(id: u64, size: u32) -> (r: StateValue)
        ensures
            r.id == id,
            r.size == size,
    {
        StateValue { id, size }
    }

    pub fn size(&self) -> (r: u32)
        ensures
            r == self.size,
    {
        self.size
    }
}

/// One write of a transaction: a key and its new value, `None` for a deletion.
pub type Write = (StateKey, Option<StateValue>);

/// A 256-bit root hash of a sparse Merkle tree.
#[derive(Clone, Copy, Debug, PartialEq, Eq, Structural, Hash)]
pub struct HashValue {
    pub hi: u128,
    pub lo: u128,
}

/// Storage usage of a state: item and byte counts, or untracked.
#[derive(Clone, Copy, Debug, PartialEq, Eq, Structural)]
pub enum StateStorageUsage {
    Known { items: u64, bytes: u64 },
    Untracked,
}

impl StateStorageUsage {
    pub fn new(items: u64, bytes: u64) -> (r: StateStorageUsage)
        ensures
            r == (StateStorageUsage::Known { items, bytes }),
    {
        StateStorageUsage::Known { items, bytes }
    }

    pub fn new_untracked() -> (r: StateStorageUsage)
        ensures
            r == StateStorageUsage::Untracked,
    {
        StateStorageUsage::Untracked
    }

    pub fn is_untracked(&self) -> (r: bool)
        ensures
            r == (*self is Untracked),
    {
        match self {
            StateStorageUsage::Untracked => true,
            StateStorageUsage::Known { .. } => false,
        }
    }
}

/// The reasons a calculation fails.
#[derive(Clone, Copy, Debug, PartialEq, Eq, Structural)]
pub enum CalcError {
    /// The batch breaks the structural rules of a block.
    InvalidBlock,
    /// A caller-provided checkpoint hash differs from the computed root hash.
    HashMismatch,
    /// The number of caller-provided checkpoint hashes differs from the batch size.
    HashCountMismatch,
    /// A written key was never read, so its previous value is unknown.
    MissingRead,
    /// The tree update failed (a proof is missing or invalid).
    TreeUpdate,
}

} // verus!
