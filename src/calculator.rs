//! The batch calculation: block validation, the tree updates around the last checkpoint,
//! version bookkeeping and reconciliation of expected checkpoint hashes.
//!
//! The sparse Merkle tree itself lives with the caller. The calculation hands each tree
//! update to a caller-supplied function, which applies the flattened writes to the given
//! tree, gives the new tree the given usage, and returns its root hash (or `None` when a
//! proof is missing or invalid).
use vstd::prelude::*;
use crate::sharded::{
    combine_sharded_state_updates, combine_view, create_empty_sharded_state_updates,
    empty_view, flatten_shards, merge_views, split_writes, views, write_set_updates,
    ShardedStateUpdates, ShardedView,
};
use crate::types::{CalcError, HashValue, StateStorageUsage, Version, Write};
use crate::read_cache::ShardedStateCache;
use rayon::iter::{IndexedParallelIterator, IntoParallelRefIterator, ParallelIterator};
use crate::usage::{all_read, raw, usage_after};

verus! {

/// Calculates the state changes that a batch of executed transactions makes.
pub struct InMemoryStateCalculatorV2 {}

/// What the calculation reads of a sparse Merkle tree: its root hash and the usage it
/// carries.
#[derive(Clone, Copy, Debug, PartialEq, Eq, Structural)]
pub struct TreeInfo {
    pub root_hash: HashValue,
    pub usage: StateStorageUsage,
}

/// The in-memory state: the latest checkpoint tree, the current tree, and the updates
/// applied since the checkpoint.
#[derive(Debug)]
pub struct StateDelta {
    pub base: TreeInfo,
    pub base_version: Option<Version>,
    pub current: TreeInfo,
    pub current_version: Option<Version>,
    pub updates_since_base: ShardedStateUpdates,
}

/// One executed transaction: its writes, and whether it ends at a checkpoint.
#[derive(Debug)]
pub struct TransactionOutput {
    pub write_set: Vec<Write>,
    pub need_checkpoint: bool,
}

/// The outputs of a batch to commit, the reads made while executing it, and whether the
/// batch is a block.
#[derive(Debug)]
pub struct ExecutionOutput {
    pub to_commit: Vec<TransactionOutput>,
    pub is_block: bool,
    pub state_cache: ShardedStateCache,
}

/// The result of a batch calculation.
#[derive(Debug)]
pub struct StateCheckpointOutput {
    pub result_state: StateDelta,
    /// The merged updates up to the last checkpoint, if the batch has one.
    pub updates_before_last_checkpoint: Option<ShardedStateUpdates>,
    /// The updates of each transaction.
    pub state_updates_vec: Vec<ShardedStateUpdates>,
    /// The checkpoint hash of each transaction, where known.
    pub state_checkpoint_hashes: Vec<Option<HashValue>>,
}

/// The version of the first transaction after `parent`.
pub open spec fn first_version(parent: StateDelta) -> int {
    match parent.current_version {
        Some(v) => v + 1,
        None => 0,
    }
}

/// The merged updates up to and including the last checkpoint.
pub open spec fn before_view(vec: Seq<ShardedStateUpdates>, idx: Option<usize>) -> ShardedView {
    match idx {
        Some(i) => merge_views(views(vec.subrange(0, i + 1))),
        None => empty_view(),
    }
}

/// The merged updates after the last checkpoint (all of them without a checkpoint).
pub open spec fn after_view(vec: Seq<ShardedStateUpdates>, idx: Option<usize>) -> ShardedView {
    match idx {
        Some(i) => merge_views(views(vec.subrange(i + 1, vec.len() as int))),
        None => merge_views(views(vec)),
    }
}

/// The expected checkpoint hashes as given, or none known for any transaction.
pub open spec fn given_hashes(known: Option<Vec<Option<HashValue>>>, n: int) -> Seq<Option<HashValue>> {
    match known {
        Some(v) => v@,
        None => Seq::new(n as nat, |i: int| None::<HashValue>),
    }
}

/// The given hashes disagree with the computed checkpoint root.
pub open spec fn hash_mismatch(k: Seq<Option<HashValue>>, idx: Option<usize>, root: HashValue) -> bool {
    match idx {
        Some(i) => k[i as int] matches Some(h) && h != root,
        None => false,
    }
}

/// The given hashes with the computed checkpoint root filled in at the checkpoint.
pub open spec fn reconciled(k: Seq<Option<HashValue>>, idx: Option<usize>, root: HashValue) -> Seq<Option<HashValue>> {
    match idx {
        Some(i) => k.update(i as int, Some(root)),
        None => k,
    }
}

/// Checks the expected checkpoint hashes against the computed root of the last checkpoint
/// and fills in the missing one.
pub fn reconcile_checkpoint_hashes(
    known: Option<Vec<Option<HashValue>>>,
    num_txns: usize,
    last_checkpoint_index: Option<usize>,
    checkpoint_root: HashValue,
) -> (r: Result<Vec<Option<HashValue>>, CalcError>)
    requires
        last_checkpoint_index matches Some(i) ==> i < num_txns,
    ensures
        ({
            let k = given_hashes(known, num_txns as int);
            &&& k.len() != num_txns ==> r == Err::<Vec<Option<HashValue>>, CalcError>(
                CalcError::HashCountMismatch,
            )
            &&& k.len() == num_txns && hash_mismatch(k, last_checkpoint_index, checkpoint_root)
                ==> r == Err::<Vec<Option<HashValue>>, CalcError>(CalcError::HashMismatch)
            &&& k.len() == num_txns && !hash_mismatch(k, last_checkpoint_index, checkpoint_root)
                ==> (r matches Ok(v) && v@ == reconciled(k, last_checkpoint_index, checkpoint_root))
        }),
{
    let mut hashes = match known {
        Some(v) => v,
        None => {
            let mut v: Vec<Option<HashValue>> = Vec::new();
            let mut i: usize = 0;
            while i < num_txns
                invariant
                    0 <= i <= num_txns,
                    v@ == Seq::new(i as nat, |j: int| None::<HashValue>),
                decreases num_txns - i,
            {
                v.push(None);
                i += 1;
                assert(v@ =~= Seq::new(i as nat, |j: int| None::<HashValue>));
            }
            v
        },
    };
    if hashes.len() != num_txns {
        return Err(CalcError::HashCountMismatch);
    }
    if let Some(index) = last_checkpoint_index {
        match hashes[index] {
            Some(h) => {
                if h != checkpoint_root {
                    return Err(CalcError::HashMismatch);
                }
                assert(hashes@ =~= hashes@.update(index as int, Some(checkpoint_root)));
            },
            None => {
                hashes.set(index, Some(checkpoint_root));
            },
        }
    }
    Ok(hashes)
}

/// Whether the parent state and the batch meet the structural rules of a block: the batch
/// is not empty, the parent is at a checkpoint with no pending updates, and exactly the
/// last transaction ends at a checkpoint.
pub open spec fn block_valid(parent: StateDelta, txns: Seq<TransactionOutput>) -> bool {
    &&& txns.len() != 0
    &&& parent.base_version == parent.current_version
    &&& parent.updates_since_base@ == empty_view()
    &&& forall|i: int| 0 <= i < txns.len() ==> (#[trigger] txns[i]).need_checkpoint == (i == txns.len() - 1)
}

impl InMemoryStateCalculatorV2 {
    /// Checks that a batch and its parent state meet the structural rules of a block.
    pub fn validate_input_for_block(base: &StateDelta, to_commit: &Vec<TransactionOutput>) -> (r: Result<(), CalcError>)
        requires
            base.updates_since_base.wf(),
        ensures
            r is Ok <==> block_valid(*base, to_commit@),
            r is Err ==> r == Err::<(), CalcError>(CalcError::InvalidBlock),
    {
        let num_txns = to_commit.len();
        if num_txns == 0 {
            return Err(CalcError::InvalidBlock);
        }
        if base.base_version != base.current_version {
            return Err(CalcError::InvalidBlock);
        }
        if !base.updates_since_base.is_empty() {
            return Err(CalcError::InvalidBlock);
        }
        let mut i: usize = 0;
        while i < num_txns
            invariant
                num_txns == to_commit@.len(),
                0 <= i <= num_txns,
                forall|j: int| 0 <= j < i ==> (#[trigger] to_commit@[j]).need_checkpoint == (j == num_txns - 1),
            decreases num_txns - i,
        {
            if to_commit[i].need_checkpoint != (i == num_txns - 1) {
                return Err(CalcError::InvalidBlock);
            }
            i += 1;
        }
        Ok(())
    }
}

/// The index of the last transaction that ends at a checkpoint.
pub open spec fn last_checkpoint(txns: Seq<TransactionOutput>) -> Option<usize>
    decreases txns.len(),
{
    if txns.len() == 0 {
        None
    } else if txns.last().need_checkpoint {
        Some((txns.len() - 1) as usize)
    } else {
        last_checkpoint(txns.drop_last())
    }
}

/// The index of the last transaction that ends at a checkpoint, if any.
pub fn get_last_checkpoint_index(txns: &Vec<TransactionOutput>) -> (r: Option<usize>)
    ensures
        r == last_checkpoint(txns@),
        r matches Some(i) ==> i < txns@.len() && txns@[i as int].need_checkpoint,
        r is None ==> forall|i: int| 0 <= i < txns@.len() ==> !(#[trigger] txns@[i]).need_checkpoint,
{
    let mut i: usize = txns.len();
    assert(txns@.take(i as int) =~= txns@);
    while i > 0
        invariant
            0 <= i <= txns@.len(),
            last_checkpoint(txns@) == last_checkpoint(txns@.take(i as int)),
            forall|j: int| i <= j < txns@.len() ==> !(#[trigger] txns@[j]).need_checkpoint,
        decreases i,
    {
        assert(txns@.take(i as int).drop_last() =~= txns@.take(i as int - 1));
        if txns[i - 1].need_checkpoint {
            return Some(i - 1);
        }
        i -= 1;
    }
    assert(txns@.take(0) =~= Seq::<TransactionOutput>::empty());
    None
}

/// `update` applied to `base`, with the entries of some well-formed representation of
/// `updates` flattened shard by shard and the new tree's usage `usage`, returned `out`.
pub open spec fn tree_built<F: Fn(TreeInfo, Vec<Write>, StateStorageUsage) -> Option<HashValue>>(
    update: F,
    base: TreeInfo,
    updates: ShardedView,
    usage: StateStorageUsage,
    out: Option<HashValue>,
) -> bool {
    exists|u: ShardedStateUpdates, w: Vec<Write>|
        #![trigger u.wf(), update.ensures((base, w, usage), out)]
        u.wf() && u@ == updates && w@ == flatten_shards(raw(u)) && update.ensures((base, w, usage), out)
}

/// The usage calculation on some well-formed representation of `before` and `after`
/// gives `out`.
pub open spec fn usage_outcome(
    old_usage: StateStorageUsage,
    before: ShardedView,
    after: ShardedView,
    cache: ShardedStateCache,
    out: Result<StateStorageUsage, CalcError>,
) -> bool {
    exists|p: ShardedStateUpdates, q: ShardedStateUpdates|
        #![trigger p.wf(), q.wf()]
        p.wf() && q.wf() && p@ == before && q@ == after && out == (if old_usage is Known
            && !all_read(p, q, cache) {
            Err::<StateStorageUsage, CalcError>(CalcError::MissingRead)
        } else {
            Ok::<StateStorageUsage, CalcError>(usage_after(old_usage, p, q, cache))
        })
}

impl InMemoryStateCalculatorV2 {
    /// Applies `updates` to the tree `base` through `update`; the new tree carries `usage`.
    pub fn make_checkpoint<F: Fn(TreeInfo, Vec<Write>, StateStorageUsage) -> Option<HashValue>>(
        base: TreeInfo,
        updates: &ShardedStateUpdates,
        usage: StateStorageUsage,
        update: &F,
    ) -> (r: Result<TreeInfo, CalcError>)
        requires
            updates.wf(),
            forall|b: TreeInfo, w: Vec<Write>, u: StateStorageUsage| update.requires((b, w, u)),
        ensures
            r matches Ok(t) ==> t.usage == usage && tree_built(*update, base, updates@, usage, Some(t.root_hash)),
            r is Err ==> r == Err::<TreeInfo, CalcError>(CalcError::TreeUpdate) && tree_built(*update, base, updates@, usage, None),
    {
        let flat = updates.flatten();
        let ghost w = flat;
        let res = update(base, flat, usage);
        assert(w@ == flatten_shards(raw(*updates)));
        match res {
            Some(root_hash) => Ok(TreeInfo { root_hash, usage }),
            None => Err(CalcError::TreeUpdate),
        }
    }

    /// The calculation shared by both entry points.
    fn calculate_impl<F: Fn(TreeInfo, Vec<Write>, StateStorageUsage) -> Option<HashValue>>(
        parent_state: &StateDelta,
        state_cache: &ShardedStateCache,
        state_updates_vec: Vec<ShardedStateUpdates>,
        last_checkpoint_index: Option<usize>,
        is_block: bool,
        known_state_checkpoints: Option<Vec<Option<HashValue>>>,
        update: &F,
    ) -> (r: Result<StateCheckpointOutput, CalcError>)
        requires
            calc_requires(*parent_state, *state_cache, state_updates_vec@, last_checkpoint_index),
            forall|b: TreeInfo, w: Vec<Write>, u: StateStorageUsage| update.requires((b, w, u)),
        ensures
            calc_ensures(*update, *parent_state, *state_cache, state_updates_vec@, last_checkpoint_index, is_block, known_state_checkpoints, r),
    {
        let num_txns = state_updates_vec.len();
        let (updates_before_last_checkpoint, updates_after_last_checkpoint) = match last_checkpoint_index {
            Some(index) => (
                Self::calculate_updates(&state_updates_vec, 0, index + 1),
                Self::calculate_updates(&state_updates_vec, index + 1, num_txns),
            ),
            None => (create_empty_sharded_state_updates(), Self::calculate_updates(&state_updates_vec, 0, num_txns)),
        };
        assert(state_updates_vec@.subrange(0, num_txns as int) =~= state_updates_vec@);
        let ghost before = before_view(state_updates_vec@, last_checkpoint_index);
        let ghost after = after_view(state_updates_vec@, last_checkpoint_index);
        assert(updates_before_last_checkpoint@ == before);
        assert(updates_after_last_checkpoint@ == after);
        let usage_res = Self::calculate_usage(
            parent_state.current.usage,
            state_cache,
            &updates_before_last_checkpoint,
            &updates_after_last_checkpoint,
        );
        assert(usage_outcome(parent_state.current.usage, before, after, *state_cache, usage_res)) by {
            assert(updates_before_last_checkpoint.wf() && updates_after_last_checkpoint.wf());
        }
        let usage = match usage_res {
            Ok(u) => u,
            Err(e) => {
                return Err(e);
            },
        };
        let first_version: u64 = match parent_state.current_version {
            Some(v) => v + 1,
            None => 0,
        };
        let latest_checkpoint = match last_checkpoint_index {
            Some(index) => {
                let checkpoint_usage = if index == num_txns - 1 {
                    usage
                } else {
                    StateStorageUsage::new_untracked()
                };
                match Self::make_checkpoint(parent_state.current, &updates_before_last_checkpoint, checkpoint_usage, update) {
                    Ok(t) => t,
                    Err(e) => {
                        assert(tree_built(*update, parent_state.current, before, checkpoint_usage, None));
                        return Err(e);
                    },
                }
            },
            None => parent_state.base,
        };
        let latest_checkpoint_version = match last_checkpoint_index {
            Some(index) => Some(first_version + index as u64),
            None => parent_state.base_version,
        };
        let state_checkpoint_hashes = match reconcile_checkpoint_hashes(
            known_state_checkpoints,
            num_txns,
            last_checkpoint_index,
            latest_checkpoint.root_hash,
        ) {
            Ok(h) => h,
            Err(e) => {
                return Err(e);
            },
        };
        let current_version = first_version + (num_txns as u64 - 1);
        let checkpoint_at_end = match last_checkpoint_index {
            Some(index) => index == num_txns - 1,
            None => false,
        };
        let current_tree = if checkpoint_at_end {
            latest_checkpoint
        } else {
            if is_block {
                return Err(CalcError::InvalidBlock);
            }
            let latest_tree = match last_checkpoint_index {
                Some(_) => latest_checkpoint,
                None => parent_state.current,
            };
            match Self::make_checkpoint(latest_tree, &updates_after_last_checkpoint, usage, update) {
                Ok(t) => t,
                Err(e) => {
                    assert(tree_built(*update, latest_tree, after, usage, None));
                    return Err(e);
                },
            }
        };
        let (updates_since_latest_checkpoint, updates_before) = match last_checkpoint_index {
            Some(_) => (updates_after_last_checkpoint, Some(updates_before_last_checkpoint)),
            None => {
                let mut since = parent_state.updates_since_base.copy();
                combine_sharded_state_updates(&mut since, &updates_after_last_checkpoint);
                (since, None)
            },
        };
        let result_state = StateDelta {
            base: latest_checkpoint,
            base_version: latest_checkpoint_version,
            current: current_tree,
            current_version: Some(current_version),
            updates_since_base: updates_since_latest_checkpoint,
        };
        Ok(StateCheckpointOutput {
            result_state,
            updates_before_last_checkpoint: updates_before,
            state_updates_vec,
            state_checkpoint_hashes,
        })
    }
}

/// What a batch calculation needs of its inputs.
pub open spec fn calc_requires(
    parent: StateDelta,
    cache: ShardedStateCache,
    vec: Seq<ShardedStateUpdates>,
    idx: Option<usize>,
) -> bool {
    &&& parent.updates_since_base.wf()
    &&& cache.wf()
    &&& forall|t: int| 0 <= t < vec.len() ==> (#[trigger] vec[t]).wf()
    &&& vec.len() > 0
    &&& idx matches Some(i) ==> i < vec.len()
    &&& first_version(parent) + vec.len() - 1 <= u64::MAX
}

/// What a batch calculation returns.
pub open spec fn calc_ensures<F: Fn(TreeInfo, Vec<Write>, StateStorageUsage) -> Option<HashValue>>(
    update: F,
    parent: StateDelta,
    cache: ShardedStateCache,
    vec: Seq<ShardedStateUpdates>,
    idx: Option<usize>,
    is_block: bool,
    known: Option<Vec<Option<HashValue>>>,
    r: Result<StateCheckpointOutput, CalcError>,
) -> bool {
    let n = vec.len() as int;
    let before = before_view(vec, idx);
    let after = after_view(vec, idx);
    let given = given_hashes(known, n);
    let at_end = idx == Some((n - 1) as usize);
    match r {
        Err(e) => match e {
            CalcError::MissingRead => usage_outcome(parent.current.usage, before, after, cache, Err(e)),
            CalcError::HashCountMismatch => given.len() != n,
            CalcError::HashMismatch => given.len() == n && exists|t: TreeInfo|
                #[trigger] tree_built(update, parent.current, before, t.usage, Some(t.root_hash))
                    && hash_mismatch(given, idx, t.root_hash),
            CalcError::InvalidBlock => is_block && !at_end,
            CalcError::TreeUpdate => exists|b: TreeInfo, u: StateStorageUsage|
                #![trigger tree_built(update, b, before, u, None)]
                #![trigger tree_built(update, b, after, u, None)]
                tree_built(update, b, before, u, None) || tree_built(update, b, after, u, None),
        },
        Ok(out) => {
            let s = out.result_state;
            &&& usage_outcome(parent.current.usage, before, after, cache, Ok(s.current.usage))
            &&& s.current_version == Some((first_version(parent) + n - 1) as u64)
            &&& s.base_version == match idx {
                Some(i) => Some((first_version(parent) + i) as u64),
                None => parent.base_version,
            }
            &&& idx is None ==> s.base == parent.base
            &&& at_end ==> s.current == s.base
            &&& (idx matches Some(i) && i < n - 1) ==> s.base.usage is Untracked
            &&& idx is Some ==> tree_built(update, parent.current, before, s.base.usage, Some(s.base.root_hash))
            &&& !at_end ==> tree_built(
                update,
                if idx is Some { s.base } else { parent.current },
                after,
                s.current.usage,
                Some(s.current.root_hash),
            )
            &&& !(is_block && !at_end)
            &&& s.updates_since_base.wf()
            &&& s.updates_since_base@ == if idx is Some {
                after
            } else {
                combine_view(parent.updates_since_base@, after)
            }
            &&& (out.updates_before_last_checkpoint is Some <==> idx is Some)
            &&& (out.updates_before_last_checkpoint matches Some(u) ==> u.wf() && u@ == before)
            &&& out.state_updates_vec@ == vec
            &&& given.len() == n
            &&& !hash_mismatch(given, idx, s.base.root_hash)
            &&& out.state_checkpoint_hashes@ == reconciled(given, idx, s.base.root_hash)
        },
    }
}

/// The per-transaction updates of a batch: well-formed, one for each of `writes`, each
/// the split of that write set.
pub open spec fn splits_of(vec: Seq<ShardedStateUpdates>, writes: Seq<Seq<Write>>) -> bool {
    &&& vec.len() == writes.len()
    &&& forall|t: int| 0 <= t < vec.len() ==> (#[trigger] vec[t]).wf()
    &&& forall|t: int| 0 <= t < vec.len() ==> (#[trigger] vec[t])@ == split_writes(writes[t])
}

/// The write sets of a batch of transaction outputs.
pub open spec fn write_sets_of(txns: Seq<TransactionOutput>) -> Seq<Seq<Write>> {
    txns.map_values(|o: TransactionOutput| o.write_set@)
}

/// The contents of a sequence of write sets.
pub open spec fn write_set_views(ws: Seq<Vec<Write>>) -> Seq<Seq<Write>> {
    ws.map_values(|w: Vec<Write>| w@)
}

/// Relies on rayon's `IndexedParallelIterator::collect_into_vec`: the vector receives the
/// results of `write_set_updates` on the outputs' write sets, one for each, in their order.
#[verifier::external_body]
fn transaction_updates(to_commit: &Vec<TransactionOutput>) -> (r: Vec<ShardedStateUpdates>)
    ensures
        splits_of(r@, write_sets_of(to_commit@)),
{
    let mut out = Vec::new();
    to_commit.par_iter().map(|output| write_set_updates(&output.write_set)).collect_into_vec(&mut out);
    out
}

impl InMemoryStateCalculatorV2 {
    /// Calculates the state after the transactions of `execution_output`, applied to
    /// `parent_state`, with `update` performing the tree updates.
    ///
    /// A block must meet `block_valid`, or the calculation fails with `InvalidBlock`. The
    /// expected hashes in `known_state_checkpoints`, if given, are checked and completed as
    /// `reconcile_checkpoint_hashes` does.
    pub fn calculate_for_transactions<F: Fn(TreeInfo, Vec<Write>, StateStorageUsage) -> Option<HashValue>>(
        execution_output: &ExecutionOutput,
        parent_state: &StateDelta,
        known_state_checkpoints: Option<Vec<Option<HashValue>>>,
        update: &F,
    ) -> (r: Result<StateCheckpointOutput, CalcError>)
        requires
            parent_state.updates_since_base.wf(),
            execution_output.state_cache.wf(),
            execution_output.is_block || execution_output.to_commit@.len() > 0,
            first_version(*parent_state) + execution_output.to_commit@.len() - 1 <= u64::MAX,
            forall|b: TreeInfo, w: Vec<Write>, u: StateStorageUsage| update.requires((b, w, u)),
        ensures
            execution_output.is_block && !block_valid(*parent_state, execution_output.to_commit@)
                ==> r == Err::<StateCheckpointOutput, CalcError>(CalcError::InvalidBlock),
            !(execution_output.is_block && !block_valid(*parent_state, execution_output.to_commit@))
                ==> exists|vec: Seq<ShardedStateUpdates>|
                #![trigger splits_of(vec, write_sets_of(execution_output.to_commit@))]
                splits_of(vec, write_sets_of(execution_output.to_commit@)) && calc_ensures(
                    *update,
                    *parent_state,
                    execution_output.state_cache,
                    vec,
                    last_checkpoint(execution_output.to_commit@),
                    execution_output.is_block,
                    known_state_checkpoints,
                    r,
                ),
    {
        if execution_output.is_block {
            if Self::validate_input_for_block(parent_state, &execution_output.to_commit).is_err() {
                return Err(CalcError::InvalidBlock);
            }
        }
        let state_updates_vec = transaction_updates(&execution_output.to_commit);
        let ghost vec = state_updates_vec@;
        let last_checkpoint_index = get_last_checkpoint_index(&execution_output.to_commit);
        let r = Self::calculate_impl(
            parent_state,
            &execution_output.state_cache,
            state_updates_vec,
            last_checkpoint_index,
            execution_output.is_block,
            known_state_checkpoints,
            update,
        );
        assert(splits_of(vec, write_sets_of(execution_output.to_commit@)));
        r
    }

    /// Calculates the state after `write_sets`, applied to `parent_state`, where the last
    /// checkpoint, if any, is at `last_checkpoint_index`; `update` performs the tree updates.
    pub fn calculate_for_write_sets_after_snapshot<F: Fn(TreeInfo, Vec<Write>, StateStorageUsage) -> Option<HashValue>>(
        parent_state: &StateDelta,
        state_cache: &ShardedStateCache,
        last_checkpoint_index: Option<usize>,
        write_sets: &Vec<Vec<Write>>,
        update: &F,
    ) -> (r: Result<StateCheckpointOutput, CalcError>)
        requires
            parent_state.updates_since_base.wf(),
            state_cache.wf(),
            write_sets@.len() > 0,
            last_checkpoint_index matches Some(i) ==> i < write_sets@.len(),
            first_version(*parent_state) + write_sets@.len() - 1 <= u64::MAX,
            forall|b: TreeInfo, w: Vec<Write>, u: StateStorageUsage| update.requires((b, w, u)),
        ensures
            exists|vec: Seq<ShardedStateUpdates>|
                #![trigger splits_of(vec, write_set_views(write_sets@))]
                splits_of(vec, write_set_views(write_sets@)) && calc_ensures(
                    *update,
                    *parent_state,
                    *state_cache,
                    vec,
                    last_checkpoint_index,
                    false,
                    None,
                    r,
                ),
    {
        let state_updates_vec = Self::get_sharded_state_updates(write_sets);
        let ghost vec = state_updates_vec@;
        let r = Self::calculate_impl(
            parent_state,
            state_cache,
            state_updates_vec,
            last_checkpoint_index,
            false,
            None,
            update,
        );
        assert(splits_of(vec, write_set_views(write_sets@)));
        r
    }
}

} // verus!
