//! In-memory state delta calculation for a sharded, checkpointed key-value state.
//!
//! Given the state after a parent batch and the write sets of a contiguous batch of
//! transactions, the library splits the writes into sixteen key shards, merges them around
//! the last checkpoint, accounts for storage usage, drives the sparse Merkle tree updates
//! and reconciles expected checkpoint hashes.
use vstd::prelude::*;

pub mod types;
pub mod shard_map;
pub mod sharded;
pub mod read_cache;
pub mod usage;
pub mod calculator;
pub mod state_view;
pub mod theorems;
