//! The operations of blocks on a state store: reading and saving blocks,
//! the HotStuff safeNode predicate, and the update of the locked and
//! committed blocks on a new proposal.
use vstd::prelude::*;
use vstd::set_lib::lemma_len_subset;

use std::ops::RangeInclusive;

use crate::block::{is_genesis_id, Block, BlockId, BlockView};
use crate::common::{Epoch, NodeHeight, PublicKey};
use crate::error::StorageError;
use crate::foreign_send_counters::{
    counter_of, incremented, lemma_incremented_other, stored_counters_or_empty,
    ForeignSendCounters,
};
use crate::hash::hex_lower;
use crate::index_map::{index_map_to_vec, keys_distinct};
use crate::quorum::{
    spec_update_high_qc, HighQc, LastExecuted, LockedBlock,
};
use crate::state_store::{
    block_views, blocks_between, total_leader_fee_for, same_chain, chain_above, chain_reaches, is_ancestor, lists_exactly, walk, with_flags,
    BlockHooks, StateStoreReadTransaction, StateStoreWriteTransaction, StoreModel, votes_for,
    blocks_page, SortOrder, calls_since, commit_calls_of, ends_in_failure, extends_log,
    follows_plan, lock_calls_of, outcome_of, walk_ends, walk_ends_within, reaches_within, above_within,
    lemma_walk_same_chain, HookCall, PlannedCall, makes_call, completes_plan, hands_stored, stored_as,
    handed_block, store_of, lemma_calls_chain, lemma_calls_none, lemma_calls_push,
    lemma_commit_calls_kind, lemma_follows_after, lemma_follows_longer, lemma_follows_step,
    lemma_lock_calls_kind,
};
use crate::vote::Vote;

verus! {

/// Whether block `b` extends the block `ancestor` in store `m`; `None`
/// where the store cannot answer because `ancestor` is not stored. A block
/// does not extend itself; it extends its parent; it extends nothing else
/// where its parent is not stored; otherwise it extends exactly the
/// ancestors of its parent.
pub open spec fn spec_extends(m: StoreModel, b: BlockView, ancestor: BlockId) -> Option<bool> {
    if b.id == ancestor {
        Some(false)
    } else if b.parent == ancestor {
        Some(true)
    } else if !m.blocks.contains_key(b.parent) {
        Some(false)
    } else if !m.blocks.contains_key(ancestor) {
        None
    } else {
        Some(is_ancestor(m.blocks, b.parent, ancestor))
    }
}

/// The liveness rule of the safeNode predicate: the block's justification
/// certifies a block higher than the locked block.
pub open spec fn liveness_rule(b: BlockView, locked_block: BlockView) -> bool {
    b.justify.block_height.0 > locked_block.height.0
}

/// The outcome of the safeNode predicate for `b` in store `m`; `None`
/// where it fails: no locked block is recorded or stored, or the ancestry
/// check fails. A block is safe where the liveness rule holds or it extends
/// the locked block.
pub open spec fn spec_is_safe(m: StoreModel, b: BlockView) -> Option<bool> {
    match m.locked {
        None => None,
        Some(l) => if !m.blocks.contains_key(l.block_id) {
            None
        } else {
            let locked_block = m.blocks[l.block_id];
            if liveness_rule(b, locked_block) {
                Some(true)
            } else {
                spec_extends(m, b, locked_block.id)
            }
        },
    }
}

/// The store after the lock step of the commit rule for the pre-commit
/// block `pre`: unless `pre` is the zero block, the lock moves to `pre`
/// where `pre` is higher than the locked block. `None` where it fails: no
/// lock is recorded, or the chain below `pre` down to the locked height is
/// broken.
pub open spec fn lock_step(m: StoreModel, pre: BlockView) -> Option<StoreModel> {
    if is_genesis_id(pre.id) {
        Some(m)
    } else {
        match m.locked {
            None => None,
            Some(l) => if pre.height.0 > l.height.0 {
                if chain_reaches(m.blocks, pre, l.height.0) {
                    Some(
                        StoreModel {
                            locked: Some(LockedBlock { height: pre.height, block_id: pre.id }),
                            ..m
                        },
                    )
                } else {
                    None
                }
            } else {
                Some(m)
            },
        }
    }
}

/// Whether `commit`, `pre` and the block that justifies `pre` form a
/// three-chain: each is the parent of the one before it.
pub open spec fn forms_three_chain(commit: BlockView, pre: BlockView) -> bool {
    commit.parent == pre.id && pre.parent == pre.justify.block_id
}

/// The store after the commit step: where `commit` and `pre` form a
/// three-chain with a prepare block other than the zero block, the prepare
/// block becomes the last executed block. `None` where it fails: the
/// prepare block or the last-executed marker is missing, or the chain below
/// the prepare block down to the last executed height is broken.
pub open spec fn commit_step(m: StoreModel, commit: BlockView, pre: BlockView) -> Option<
    StoreModel,
> {
    let prepare_id = pre.justify.block_id;
    if forms_three_chain(commit, pre) && !is_genesis_id(prepare_id) {
        if !m.blocks.contains_key(prepare_id) {
            None
        } else {
            let prepare = m.blocks[prepare_id];
            match m.last_executed {
                None => None,
                Some(le) => if chain_reaches(m.blocks, prepare, le.height.0) {
                    Some(
                        StoreModel {
                            last_executed: Some(
                                LastExecuted { height: prepare.height, block_id: prepare.id },
                            ),
                            ..m
                        },
                    )
                } else {
                    None
                },
            }
        }
    } else {
        Some(m)
    }
}

/// The outcome of the commit rule for a new block `b` in store `m`: the
/// high QC it returns and the store it leaves; `None` where it fails. The
/// high QC is updated with `b`'s justification; then, where the commit
/// block that justification certifies and the pre-commit block that
/// certifies are stored, the lock step and the commit step follow.
pub open spec fn spec_update_nodes(m: StoreModel, b: BlockView) -> Option<(HighQc, StoreModel)> {
    match spec_update_high_qc(m, b.justify) {
        None => None,
        Some((hq, m1)) => if !m1.blocks.contains_key(b.justify.block_id) {
            Some((hq, m1))
        } else {
            let commit = m1.blocks[b.justify.block_id];
            if !m1.blocks.contains_key(commit.justify.block_id) {
                Some((hq, m1))
            } else {
                let pre = m1.blocks[commit.justify.block_id];
                match lock_step(m1, pre) {
                    None => None,
                    Some(m2) => match commit_step(m2, commit, pre) {
                        None => None,
                        Some(m3) => Some((hq, m3)),
                    },
                }
            }
        },
    }
}

/// Whether the commit block that `b`'s justification certifies, and the
/// pre-commit block that certifies it, are both stored in `m`.
pub open spec fn has_commit_and_pre(m: StoreModel, b: BlockView) -> bool {
    m.blocks.contains_key(b.justify.block_id) && m.blocks.contains_key(
        m.blocks[b.justify.block_id].justify.block_id,
    )
}

/// The commit block of the commit rule for `b` in `m`.
pub open spec fn commit_of(m: StoreModel, b: BlockView) -> BlockView {
    m.blocks[b.justify.block_id]
}

/// The pre-commit block of the commit rule for `b` in `m`.
pub open spec fn pre_of(m: StoreModel, b: BlockView) -> BlockView {
    m.blocks[m.blocks[b.justify.block_id].justify.block_id]
}

/// The lock-hook calls that the commit rule for `b` makes in store `m`
/// where every hook succeeds: where the pre-commit block is not the zero
/// block, is higher than the locked block and its chain down to the locked
/// height is whole, one call for each block on that chain above the locked
/// height, lowest first, each handed the locked-block marker as it was.
pub open spec fn planned_lock_calls(m: StoreModel, b: BlockView) -> Seq<PlannedCall> {
    if has_commit_and_pre(m, b) {
        let pre = pre_of(m, b);
        match m.locked {
            Some(l) => if !is_genesis_id(pre.id) && pre.height.0 > l.height.0 && chain_reaches(
                m.blocks,
                pre,
                l.height.0,
            ) {
                lock_calls_of(l, chain_above(m.blocks, pre, l.height.0))
            } else {
                Seq::empty()
            },
            None => Seq::empty(),
        }
    } else {
        Seq::empty()
    }
}

/// The commit-hook calls that the commit rule for `b` makes in store `m`
/// where every hook succeeds and the lock step went through: where the
/// commit and pre-commit blocks form a three-chain with a stored prepare
/// block other than the zero block, whose chain down to the last executed
/// height is whole, one call for each block on that chain above the last
/// executed height, lowest first, each handed the last-executed marker as
/// it was.
pub open spec fn planned_commit_calls(m: StoreModel, b: BlockView) -> Seq<PlannedCall> {
    if has_commit_and_pre(m, b) {
        let commit = commit_of(m, b);
        let pre = pre_of(m, b);
        let prepare_id = pre.justify.block_id;
        if forms_three_chain(commit, pre) && !is_genesis_id(prepare_id) && m.blocks.contains_key(
            prepare_id,
        ) {
            match m.last_executed {
                Some(le) => if chain_reaches(m.blocks, m.blocks[prepare_id], le.height.0) {
                    commit_calls_of(le, chain_above(m.blocks, m.blocks[prepare_id], le.height.0))
                } else {
                    Seq::empty()
                },
                None => Seq::empty(),
            }
        } else {
            Seq::empty()
        }
    } else {
        Seq::empty()
    }
}

/// The store after the high-QC update of the commit rule for `b`, or `m`
/// where that update fails.
pub open spec fn after_high_qc(m: StoreModel, b: BlockView) -> StoreModel {
    match spec_update_high_qc(m, b.justify) {
        Some((_, m1)) => m1,
        None => m,
    }
}

/// The store after the lock step of the commit rule for `b`, or as it was
/// before that step where it fails or is not reached.
pub open spec fn after_lock(m: StoreModel, b: BlockView) -> StoreModel {
    let m1 = after_high_qc(m, b);
    if has_commit_and_pre(m, b) {
        match lock_step(m1, pre_of(m, b)) {
            Some(m2) => m2,
            None => m1,
        }
    } else {
        m1
    }
}

/// Whether the lock step of the commit rule for `b` in `m` is reached and
/// goes through.
pub open spec fn lock_step_passes(m: StoreModel, b: BlockView) -> bool {
    spec_update_high_qc(m, b.justify) is Some && has_commit_and_pre(m, b) && lock_step(
        after_high_qc(m, b),
        pre_of(m, b),
    ) is Some
}

/// The hook calls that the commit rule for `b` makes in store `m` where
/// every hook succeeds: none where the high-QC update fails; the lock calls;
/// then, where the lock step goes through, the commit calls.
pub open spec fn update_plan(m: StoreModel, b: BlockView) -> Seq<PlannedCall> {
    if spec_update_high_qc(m, b.justify) is None {
        Seq::empty()
    } else if lock_step_passes(m, b) {
        planned_lock_calls(m, b) + planned_commit_calls(m, b)
    } else {
        planned_lock_calls(m, b)
    }
}

/// The store that the commit rule for `b` leaves in `m` where no hook
/// fails: after the last of its steps that goes through.
pub open spec fn update_reached(m: StoreModel, b: BlockView) -> StoreModel {
    match spec_update_nodes(m, b) {
        Some((_, m3)) => m3,
        None => if lock_step_passes(m, b) {
            after_lock(m, b)
        } else {
            after_high_qc(m, b)
        },
    }
}

/// Whether the walks of the commit rule for `b` through stored parents come
/// to an end: from the pre-commit block down to the locked height, and,
/// where there is a three-chain, from the prepare block down to the last
/// executed height.
pub open spec fn update_walks_end(m: StoreModel, b: BlockView) -> bool {
    has_commit_and_pre(m, b) ==> {
        let commit = commit_of(m, b);
        let pre = pre_of(m, b);
        let prepare_id = pre.justify.block_id;
        &&& (m.locked matches Some(l) ==> walk_ends(m.blocks, pre, l.height.0))
        &&& (forms_three_chain(commit, pre) && m.blocks.contains_key(prepare_id)
            && m.last_executed is Some) ==> walk_ends(
            m.blocks,
            m.blocks[prepare_id],
            m.last_executed->0.height.0,
        )
    }
}

/// Whether each stored block other than the zero block whose parent is
/// stored is higher than its parent.
pub open spec fn parents_lower(blocks: Map<BlockId, BlockView>) -> bool {
    forall|k: BlockId|
        #![trigger blocks[k]]
        blocks.contains_key(k) && !is_genesis_id(blocks[k].id) && blocks.contains_key(blocks[k].parent)
            ==> blocks[blocks[k].parent].height.0 < blocks[k].height.0
}

/// The number of stored blocks lower than height `h`.
pub open spec fn count_lower(blocks: Map<BlockId, BlockView>, h: u64) -> nat {
    blocks.dom().filter(|k: BlockId| blocks[k].height.0 < h).len()
}

/// A walk that ends within some number of steps ends within any larger
/// number.
proof fn lemma_walk_ends_more_fuel(
    blocks: Map<BlockId, BlockView>,
    b: BlockView,
    floor: u64,
    fuel: nat,
    more: nat,
)
    requires
        walk_ends_within(blocks, b, floor, fuel),
        fuel <= more,
    ensures
        walk_ends_within(blocks, b, floor, more),
    decreases fuel,
{
    if !(b.height.0 <= floor || is_genesis_id(b.id) || !blocks.contains_key(b.parent)) {
        lemma_walk_ends_more_fuel(blocks, blocks[b.parent], floor, (fuel - 1) as nat, (more - 1) as nat);
    }
}

/// Where parents are lower, the walk from a stored block ends within as
/// many steps as there are stored blocks lower than it.
proof fn lemma_walk_ends_lower(blocks: Map<BlockId, BlockView>, k: BlockId, floor: u64)
    requires
        blocks.dom().finite(),
        parents_lower(blocks),
        blocks.contains_key(k),
    ensures
        walk_ends_within(blocks, blocks[k], floor, count_lower(blocks, blocks[k].height.0)),
        count_lower(blocks, blocks[k].height.0) <= blocks.len(),
    decreases blocks[k].height.0,
{
    let b = blocks[k];
    let below = blocks.dom().filter(|j: BlockId| blocks[j].height.0 < b.height.0);
    lemma_len_subset(below, blocks.dom());
    if !(b.height.0 <= floor || is_genesis_id(b.id) || !blocks.contains_key(b.parent)) {
        let p = b.parent;
        assert(blocks[p].height.0 < b.height.0);
        lemma_walk_ends_lower(blocks, p, floor);
        let below_p = blocks.dom().filter(|j: BlockId| blocks[j].height.0 < blocks[p].height.0);
        assert(below_p.subset_of(below.remove(p)));
        lemma_len_subset(below_p, below.remove(p));
        assert(below.contains(p));
        lemma_walk_ends_more_fuel(blocks, blocks[p], floor, below_p.len(), (below.len() - 1) as nat);
    }
}

/// Where every stored block other than the zero block whose parent is
/// stored is higher than its parent, the walks of the commit rule come to
/// an end.
pub proof fn lemma_update_walks_end(m: StoreModel, b: BlockView)
    requires
        m.blocks.dom().finite(),
        parents_lower(m.blocks),
    ensures
        update_walks_end(m, b),
{
    if has_commit_and_pre(m, b) {
        let pre_id = m.blocks[b.justify.block_id].justify.block_id;
        let floor_l: u64 = match m.locked {
            Some(l) => l.height.0,
            None => 0,
        };
        lemma_walk_ends_lower(m.blocks, pre_id, floor_l);
        lemma_walk_ends_more_fuel(
            m.blocks,
            m.blocks[pre_id],
            floor_l,
            count_lower(m.blocks, m.blocks[pre_id].height.0),
            m.blocks.len(),
        );
        let prepare_id = m.blocks[pre_id].justify.block_id;
        if m.blocks.contains_key(prepare_id) && m.last_executed is Some {
            let floor_e = m.last_executed->0.height.0;
            lemma_walk_ends_lower(m.blocks, prepare_id, floor_e);
            lemma_walk_ends_more_fuel(
                m.blocks,
                m.blocks[prepare_id],
                floor_e,
                count_lower(m.blocks, m.blocks[prepare_id].height.0),
                m.blocks.len(),
            );
        }
    }
}

/// Whether `e` is what converting a not-found storage error gives.
pub open spec fn from_not_found<E: From<StorageError>>(e: E) -> bool {
    exists|s: StorageError| s is NotFound && call_ensures(E::from, (s,), e)
}

/// `RangeInclusive::start`: the lower bound of the range.
#[verifier::external_body]
fn range_start(range: &RangeInclusive<Epoch>) -> (r: Epoch)
    ensures
        r == range@.start,
{
    *range.start()
}

/// `RangeInclusive::end`: the upper bound of the range.
#[verifier::external_body]
fn range_end(range: &RangeInclusive<Epoch>) -> (r: Epoch)
    ensures
        r == range@.end,
{
    *range.end()
}

impl Block {
    /// A stored block of the greatest height.
    pub fn get_tip<TTx: StateStoreReadTransaction>(tx: &mut TTx) -> (r: Result<Self, StorageError>)
        requires
            old(tx).inv(),
        ensures
            final(tx).inv(),
            final(tx).healthy() == old(tx).healthy(),
            final(tx).model() == old(tx).model(),
            match r {
                Ok(b) => old(tx).model().blocks.contains_key(b@.id) && old(tx).model().blocks[b@.id]
                    == b@ && forall|k: BlockId| #[trigger]
                    old(tx).model().blocks.contains_key(k) ==> old(tx).model().blocks[k].height.0
                        <= b@.height.0,
                Err(e) => (e is NotFound ==> (old(tx).model().blocks.len() == 0)) && (old(tx).healthy() ==> e is NotFound),
            },
    {
        tx.blocks_get_tip()
    }

    /// The page of at most `limit` stored blocks that starts after the
    /// first `offset` of them, in the order they were stored, or in the
    /// reverse order where `ordering` is descending.
    pub fn get_paginated<TTx: StateStoreReadTransaction>(
        tx: &mut TTx,
        limit: u64,
        offset: u64,
        ordering: Option<SortOrder>,
    ) -> (r: Result<Vec<Self>, StorageError>)
        requires
            old(tx).inv(),
        ensures
            final(tx).inv(),
            final(tx).healthy() == old(tx).healthy(),
            final(tx).model() == old(tx).model(),
            r matches Ok(v) ==> block_views(v@) == blocks_page(old(tx).model(), limit, offset, ordering),
            old(tx).healthy() ==> r is Ok,
    {
        tx.blocks_get_paginated(limit, offset, ordering)
    }

    /// The number of stored blocks.
    pub fn get_count<TTx: StateStoreReadTransaction>(tx: &mut TTx) -> (r: Result<i64, StorageError>)
        requires
            old(tx).inv(),
        ensures
            final(tx).inv(),
            final(tx).healthy() == old(tx).healthy(),
            final(tx).model() == old(tx).model(),
            old(tx).healthy() ==> (r is Ok <==> old(tx).model().blocks.len() <= i64::MAX),
            r is Ok ==> old(tx).model().blocks.len() <= i64::MAX,
            r matches Ok(n) ==> n == old(tx).model().blocks.len(),
    {
        tx.blocks_get_count()
    }

    /// The greatest height of a stored block.
    pub fn max_height<TTx: StateStoreReadTransaction>(tx: &mut TTx) -> (r: Result<
        NodeHeight,
        StorageError,
    >)
        requires
            old(tx).inv(),
        ensures
            final(tx).inv(),
            final(tx).healthy() == old(tx).healthy(),
            final(tx).model() == old(tx).model(),
            match r {
                Ok(h) => (exists|k: BlockId| #[trigger]
                    old(tx).model().blocks.contains_key(k) && old(tx).model().blocks[k].height == h)
                    && forall|k: BlockId| #[trigger]
                    old(tx).model().blocks.contains_key(k) ==> old(tx).model().blocks[k].height.0
                        <= h.0,
                Err(e) => (e is NotFound ==> (old(tx).model().blocks.len() == 0)) && (old(tx).healthy() ==> e is NotFound),
            },
    {
        tx.blocks_max_height()
    }

    /// The total of the leader fees of the stored blocks of `epoch` proposed
    /// by `validator_public_key`.
    pub fn get_total_due_for_epoch<TTx: StateStoreReadTransaction>(
        tx: &mut TTx,
        epoch: Epoch,
        validator_public_key: &PublicKey,
    ) -> (r: Result<u64, StorageError>)
        requires
            old(tx).inv(),
        ensures
            final(tx).inv(),
            final(tx).healthy() == old(tx).healthy(),
            final(tx).model() == old(tx).model(),
            old(tx).healthy() ==> (r is Ok <==> total_leader_fee_for(old(tx).model().blocks, epoch, *validator_public_key)
                <= u64::MAX),
            r is Ok ==> total_leader_fee_for(old(tx).model().blocks, epoch, *validator_public_key)
                <= u64::MAX,
            r matches Ok(n) ==> n == total_leader_fee_for(
                old(tx).model().blocks,
                epoch,
                *validator_public_key,
            ),
    {
        tx.blocks_get_total_leader_fee_for_epoch(epoch, validator_public_key)
    }

    /// The stored children of this block, each once.
    pub fn get_child_blocks<TTx: StateStoreReadTransaction>(&self, tx: &mut TTx) -> (r: Result<
        Vec<Self>,
        StorageError,
    >)
        requires
            old(tx).inv(),
        ensures
            final(tx).inv(),
            final(tx).healthy() == old(tx).healthy(),
            final(tx).model() == old(tx).model(),
            r matches Ok(v) ==> lists_exactly(
                old(tx).model().blocks,
                block_views(v@),
                |b: BlockView| b.parent == self@.id,
            ),
            old(tx).healthy() ==> r is Ok,
    {
        tx.blocks_get_all_by_parent(self.id())
    }

    /// This block and its ancestors, nearest first, at most `limit` of
    /// them; fails where this block is not stored.
    pub fn get_parent_chain<TTx: StateStoreReadTransaction>(&self, tx: &mut TTx, limit: usize) -> (r:
        Result<Vec<Block>, StorageError>)
        requires
            old(tx).inv(),
        ensures
            final(tx).inv(),
            final(tx).healthy() == old(tx).healthy(),
            final(tx).model() == old(tx).model(),
            old(tx).healthy() ==> (r is Ok <==> old(tx).model().blocks.contains_key(self@.id)),
            r is Ok ==> old(tx).model().blocks.contains_key(self@.id),
            r matches Ok(v) ==> block_views(v@) == walk(old(tx).model().blocks, self@.id, limit as nat),
    {
        tx.blocks_get_parent_chain(self.id(), limit)
    }

    /// The stored votes for this block, in the order they were stored.
    pub fn get_votes<TTx: StateStoreReadTransaction>(&self, tx: &mut TTx) -> (r: Result<
        Vec<Vote>,
        StorageError,
    >)
        requires
            old(tx).inv(),
        ensures
            final(tx).inv(),
            final(tx).healthy() == old(tx).healthy(),
            final(tx).model() == old(tx).model(),
            r matches Ok(v) ==> v@ == votes_for(old(tx).model().votes, self@.id),
            old(tx).healthy() ==> r is Ok,
    {
        Vote::get_for_block(tx, self.id())
    }

    /// All blocks from, and excluding, the start block (lower height) to the
    /// end block (inclusive), lowest first; dummy blocks only where
    /// `include_dummy_blocks`.
    pub fn get_all_blocks_between<TTx: StateStoreReadTransaction>(
        tx: &mut TTx,
        start_block_id_exclusive: &BlockId,
        end_block_id_inclusive: &BlockId,
        include_dummy_blocks: bool,
    ) -> (r: Result<Vec<Self>, StorageError>)
        requires
            old(tx).inv(),
        ensures
            final(tx).inv(),
            final(tx).healthy() == old(tx).healthy(),
            final(tx).model() == old(tx).model(),
            old(tx).healthy() ==> (r is Ok <==> old(tx).model().blocks.contains_key(*end_block_id_inclusive)),
            r is Ok ==> old(tx).model().blocks.contains_key(*end_block_id_inclusive),
            r matches Ok(v) ==> block_views(v@) == blocks_between(
                old(tx).model().blocks,
                *start_block_id_exclusive,
                *end_block_id_inclusive,
                include_dummy_blocks,
            ),
    {
        tx.blocks_get_all_between(
            start_block_id_exclusive,
            end_block_id_inclusive,
            include_dummy_blocks,
        )
    }

    /// The stored blocks of the epochs in `range`, proposed by
    /// `validator_public_key` where one is given, each once.
    pub fn get_any_with_epoch_range_for_validator<TTx: StateStoreReadTransaction>(
        tx: &mut TTx,
        range: RangeInclusive<Epoch>,
        validator_public_key: Option<&PublicKey>,
    ) -> (r: Result<Vec<Self>, StorageError>)
        requires
            old(tx).inv(),
        ensures
            final(tx).inv(),
            final(tx).healthy() == old(tx).healthy(),
            final(tx).model() == old(tx).model(),
            r matches Ok(v) ==> lists_exactly(
                old(tx).model().blocks,
                block_views(v@),
                |b: BlockView|
                    range@.start.0 <= b.epoch.0 <= range@.end.0 && match validator_public_key {
                        Some(pk) => b.proposed_by == *pk,
                        None => true,
                    },
            ),
            old(tx).healthy() ==> r is Ok,
    {
        let start = range_start(&range);
        let end = range_end(&range);
        tx.blocks_get_any_with_epoch_range(start, end, validator_public_key)
    }

    /// The block stored under `id`.
    pub fn get<TTx: StateStoreReadTransaction>(tx: &mut TTx, id: &BlockId) -> (r: Result<
        Self,
        StorageError,
    >)
        requires
            old(tx).inv(),
        ensures
            final(tx).inv(),
            final(tx).healthy() == old(tx).healthy(),
            final(tx).model() == old(tx).model(),
            match r {
                Ok(b) => old(tx).model().blocks.contains_key(*id) && b@ == old(
                    tx,
                ).model().blocks[*id] && b@.id == *id,
                Err(e) => (e is NotFound ==> (!old(tx).model().blocks.contains_key(*id))) && (old(tx).healthy() ==> e is NotFound),
            },
    {
        proof {
            tx.lemma_keyed_by_id();
        }
        tx.blocks_get(id)
    }

    /// Whether a block is stored under `block_id`.
    pub fn record_exists<TTx: StateStoreReadTransaction>(tx: &mut TTx, block_id: &BlockId) -> (r:
        Result<bool, StorageError>)
        requires
            old(tx).inv(),
        ensures
            final(tx).inv(),
            final(tx).healthy() == old(tx).healthy(),
            final(tx).model() == old(tx).model(),
            r matches Ok(b) ==> b == old(tx).model().blocks.contains_key(*block_id),
            old(tx).healthy() ==> r is Ok,
    {
        tx.blocks_exists(block_id)
    }

    /// Whether this block is stored.
    pub fn exists_in_store<TTx: StateStoreReadTransaction>(&self, tx: &mut TTx) -> (r: Result<
        bool,
        StorageError,
    >)
        requires
            old(tx).inv(),
        ensures
            final(tx).inv(),
            final(tx).healthy() == old(tx).healthy(),
            final(tx).model() == old(tx).model(),
            r matches Ok(b) ==> b == old(tx).model().blocks.contains_key(self@.id),
            old(tx).healthy() ==> r is Ok,
    {
        Self::record_exists(tx, self.id())
    }

    /// Whether this block's parent is stored.
    pub fn parent_exists<TTx: StateStoreReadTransaction>(&self, tx: &mut TTx) -> (r: Result<
        bool,
        StorageError,
    >)
        requires
            old(tx).inv(),
        ensures
            final(tx).inv(),
            final(tx).healthy() == old(tx).healthy(),
            final(tx).model() == old(tx).model(),
            r matches Ok(b) ==> b == old(tx).model().blocks.contains_key(self@.parent),
            old(tx).healthy() ==> r is Ok,
    {
        Self::record_exists(tx, self.parent())
    }

    /// Whether the block stored under `block_id` has been processed; false
    /// where no block is stored there.
    pub fn has_been_processed<TTx: StateStoreReadTransaction>(
        tx: &mut TTx,
        block_id: &BlockId,
    ) -> (r: Result<bool, StorageError>)
        requires
            old(tx).inv(),
        ensures
            final(tx).inv(),
            final(tx).healthy() == old(tx).healthy(),
            final(tx).model() == old(tx).model(),
            r matches Ok(p) ==> p == (old(tx).model().blocks.contains_key(*block_id) && old(
                tx,
            ).model().blocks[*block_id].is_processed),
            old(tx).healthy() ==> r is Ok,
    {
        let is_processed = match Self::get(tx, block_id) {
            Ok(b) => b.is_processed(),
            Err(e) => {
                if e.is_not_found() {
                    false
                } else {
                    return Err(e);
                }
            },
        };
        Ok(is_processed)
    }

    /// Stores this block; fails, changing nothing, where a block is already
    /// stored under its identifier.
    pub fn insert<TTx: StateStoreWriteTransaction>(&self, tx: &mut TTx) -> (r: Result<
        (),
        StorageError,
    >)
        requires
            old(tx).inv(),
        ensures
            final(tx).inv(),
            final(tx).healthy() == old(tx).healthy(),
            old(tx).healthy() ==> (r is Ok <==> !old(tx).model().blocks.contains_key(self@.id)),
            r is Ok ==> !old(tx).model().blocks.contains_key(self@.id),
            final(tx).model() == if r is Ok {
                StoreModel {
                    blocks: old(tx).model().blocks.insert(self@.id, self@),
                    block_order: old(tx).model().block_order.push(self@.id),
                    ..old(tx).model()
                }
            } else {
                old(tx).model()
            },
    {
        tx.blocks_insert(self)
    }

    /// Inserts the block if it does not exist. Returns true if the block
    /// was saved and did not exist before, otherwise false.
    pub fn save<TTx: StateStoreWriteTransaction>(&self, tx: &mut TTx) -> (r: Result<
        bool,
        StorageError,
    >)
        requires
            old(tx).inv(),
        ensures
            final(tx).inv(),
            final(tx).healthy() == old(tx).healthy(),
            r matches Ok(saved) ==> saved == !old(tx).model().blocks.contains_key(self@.id),
            old(tx).healthy() ==> r is Ok,
            final(tx).model() == if r is Ok {
                spec_save(old(tx).model(), self@)
            } else {
                old(tx).model()
            },
    {
        let already_stored = match self.exists_in_store(tx) {
            Ok(e) => e,
            Err(e) => return Err(e),
        };
        if already_stored {
            return Ok(false);
        }
        match self.insert(tx) {
            Ok(()) => {},
            Err(e) => return Err(e),
        }
        Ok(true)
    }

    /// Marks the stored block as committed.
    pub fn commit<TTx: StateStoreWriteTransaction>(&self, tx: &mut TTx) -> (r: Result<
        (),
        StorageError,
    >)
        requires
            old(tx).inv(),
        ensures
            final(tx).inv(),
            final(tx).healthy() == old(tx).healthy(),
            old(tx).healthy() ==> (r is Ok <==> old(tx).model().blocks.contains_key(self@.id)),
            r is Ok ==> old(tx).model().blocks.contains_key(self@.id),
            final(tx).model() == if r is Ok {
                StoreModel {
                    blocks: old(tx).model().blocks.insert(
                        self@.id,
                        with_flags(old(tx).model().blocks[self@.id], Some(true), None),
                    ),
                    ..old(tx).model()
                }
            } else {
                old(tx).model()
            },
    {
        tx.blocks_set_flags(self.id(), Some(true), None)
    }

    /// Marks the stored block as processed.
    pub fn set_as_processed<TTx: StateStoreWriteTransaction>(&self, tx: &mut TTx) -> (r: Result<
        (),
        StorageError,
    >)
        requires
            old(tx).inv(),
        ensures
            final(tx).inv(),
            final(tx).healthy() == old(tx).healthy(),
            old(tx).healthy() ==> (r is Ok <==> old(tx).model().blocks.contains_key(self@.id)),
            r is Ok ==> old(tx).model().blocks.contains_key(self@.id),
            final(tx).model() == if r is Ok {
                StoreModel {
                    blocks: old(tx).model().blocks.insert(
                        self@.id,
                        with_flags(old(tx).model().blocks[self@.id], None, Some(true)),
                    ),
                    ..old(tx).model()
                }
            } else {
                old(tx).model()
            },
    {
        tx.blocks_set_flags(self.id(), None, Some(true))
    }

    /// Whether this block extends the block `ancestor`.
    pub fn extends<TTx: StateStoreReadTransaction>(&self, tx: &mut TTx, ancestor: &BlockId) -> (r:
        Result<bool, StorageError>)
        requires
            old(tx).inv(),
        ensures
            final(tx).inv(),
            final(tx).healthy() == old(tx).healthy(),
            final(tx).model() == old(tx).model(),
            self@.id == *ancestor ==> r == Ok::<bool, StorageError>(false),
            self@.id != *ancestor && self@.parent == *ancestor ==> r == Ok::<bool, StorageError>(true),
            old(tx).healthy() ==> match spec_extends(old(tx).model(), self@, *ancestor) {
                Some(b) => r matches Ok(x) && x == b,
                None => r is Err,
            },
            r matches Ok(x) ==> spec_extends(old(tx).model(), self@, *ancestor) == Some(x),
    {
        if self.id().equals(ancestor) {
            return Ok(false);
        }
        if self.parent().equals(ancestor) {
            return Ok(true);
        }
        // First check the parent here, if it does not exist, then this
        // block cannot extend anything.
        match Block::record_exists(tx, self.parent()) {
            Ok(true) => {},
            Ok(false) => return Ok(false),
            Err(e) => return Err(e),
        }
        tx.blocks_is_ancestor(self.parent(), ancestor)
    }

    /// The parent of this block; fails for the zero block, which has none.
    pub fn get_parent<TTx: StateStoreReadTransaction>(&self, tx: &mut TTx) -> (r: Result<
        Block,
        StorageError,
    >)
        requires
            old(tx).inv(),
        ensures
            final(tx).inv(),
            final(tx).healthy() == old(tx).healthy(),
            final(tx).model() == old(tx).model(),
            is_genesis_id(self@.id) ==> (r matches Err(StorageError::NotFound { item, key })
                && item@ == "Block"@ && key@ == hex_lower(self@.id@)),
            !is_genesis_id(self@.id) ==> match r {
                Ok(p) => old(tx).model().blocks.contains_key(self@.parent) && p@ == old(
                    tx,
                ).model().blocks[self@.parent] && p@.id == self@.parent,
                Err(e) => (e is NotFound ==> (!old(tx).model().blocks.contains_key(self@.parent))) && (old(tx).healthy() ==> e is NotFound),
            },
    {
        if self.id().is_genesis() {
            return Err(
                StorageError::NotFound { item: String::from_str("Block"), key: self.id().to_hex() },
            );
        }
        Block::get(tx, self.parent())
    }

    /// The safeNode predicate of HotStuff. It examines a proposal carrying
    /// a justifying certificate and determines whether the proposal is safe
    /// to accept. The safety rule accepts it where it extends the locked
    /// block; the liveness rule accepts it where its justification is for a
    /// block higher than the locked block. The predicate holds where either
    /// rule holds.
    pub fn is_safe<TTx: StateStoreReadTransaction>(&self, tx: &mut TTx) -> (r: Result<
        bool,
        StorageError,
    >)
        requires
            old(tx).inv(),
        ensures
            final(tx).inv(),
            final(tx).healthy() == old(tx).healthy(),
            final(tx).model() == old(tx).model(),
            old(tx).healthy() ==> match spec_is_safe(old(tx).model(), self@) {
                Some(b) => r matches Ok(x) && x == b,
                None => r is Err,
            },
            r matches Ok(x) ==> spec_is_safe(old(tx).model(), self@) == Some(x),
            old(tx).healthy() && (old(tx).model().locked is None || !old(tx).model().blocks.contains_key(
                old(tx).model().locked->0.block_id,
            )) ==> (r matches Err(e) && e is NotFound),
    {
        let locked = match LockedBlock::get(tx) {
            Ok(l) => l,
            Err(e) => return Err(e),
        };
        let locked_block = match locked.get_block(tx) {
            Ok(b) => b,
            Err(e) => return Err(e),
        };
        // Liveness rule
        if self.justify().block_height().0 > locked_block.height().0 {
            return Ok(true);
        }
        // Safety rule
        match self.extends(tx, locked_block.id()) {
            Ok(true) => Ok(true),
            Ok(false) => Ok(false),
            Err(e) => Err(e),
        }
    }

    /// Stores the foreign send counters of this block: those of the block
    /// that justifies it, carried over, plus one for each foreign shard
    /// this block holds a counter for. Nothing is stored where there are no
    /// counters at all.
    pub fn save_foreign_send_counters<TTx: StateStoreWriteTransaction>(&self, tx: &mut TTx) -> (r:
        Result<(), StorageError>)
        requires
            old(tx).inv(),
            forall|i: int|
                0 <= i < self@.foreign_indexes.len() ==> counter_of(
                    stored_counters_or_empty(old(tx).model(), self@.justify.block_id),
                    #[trigger] self@.foreign_indexes[i].0,
                ) < u64::MAX,
        ensures
            final(tx).inv(),
            final(tx).healthy() == old(tx).healthy(),
            old(tx).healthy() ==> r is Ok,
            final(tx).model() == if r is Err || spec_block_send_counters(old(tx).model(), self@).len()
                == 0 {
                old(tx).model()
            } else {
                StoreModel {
                    foreign_counters: old(tx).model().foreign_counters.insert(
                        self@.id,
                        spec_block_send_counters(old(tx).model(), self@),
                    ),
                    ..old(tx).model()
                }
            },
    {
        let ghost base = stored_counters_or_empty(old(tx).model(), self@.justify.block_id);
        let mut counters = match ForeignSendCounters::get_or_default(tx, self.justify().block_id()) {
            Ok(c) => c,
            Err(e) => return Err(e),
        };
        // Add counters for this block and carry over the counters from the
        // justify block, if any
        let entries = index_map_to_vec(self.foreign_indexes());
        let ghost keys = entry_keys(entries@);
        let mut i: usize = 0;
        while i < entries.len()
            invariant
                i <= entries@.len(),
                entries@ == self@.foreign_indexes,
                keys == entry_keys(entries@),
                keys_distinct(entries@),
                counters@ == incremented(base, keys.subrange(0, i as int)),
                forall|j: int|
                    0 <= j < entries@.len() ==> counter_of(base, #[trigger] entries@[j].0)
                        < u64::MAX,
            decreases entries@.len() - i,
        {
            let (shard, _) = entries[i];
            proof {
                assert(!keys.subrange(0, i as int).contains(shard)) by {
                    if keys.subrange(0, i as int).contains(shard) {
                        let j = choose|j: int|
                            0 <= j < i && keys.subrange(0, i as int)[j] == shard;
                        assert(entries@[j].0 == entries@[i as int].0);
                    }
                }
                lemma_incremented_other(base, keys.subrange(0, i as int), shard);
            }
            counters.increment_counter(shard);
            assert(keys.subrange(0, i + 1).drop_last() =~= keys.subrange(0, i as int));
            i = i + 1;
        }
        assert(keys.subrange(0, entries@.len() as int) =~= keys);
        if !counters.is_empty() {
            match counters.set(tx, self.id()) {
                Ok(()) => {},
                Err(e) => return Err(e),
            }
        }
        Ok(())
    }

    /// Records the advance of the chain that this block brings: updates
    /// the high QC with its justification; locks the pre-commit block (the
    /// grandparent by justification) where it is higher than the locked
    /// block, calling the lock hook, with the locked-block marker as it was,
    /// for each newly locked block, lowest first; and where the commit and
    /// pre-commit blocks form a three-chain, executes the prepare block,
    /// calling the commit hook, with the last-executed marker as it was, for
    /// each block from above the last executed one up to it, lowest first.
    /// All lock calls come before any commit call. Each lock call is handed
    /// the block as it was stored before the update; each commit call the
    /// block as it was stored when the commit step began, after the lock
    /// hooks. Returns the high QC; a hook's error comes back as it is, and no
    /// hook is called after it. Where the store fails, the markers and chain
    /// are left as they were, but for the steps that went through.
    pub fn update_nodes<TTx, H, E>(&self, tx: &mut TTx, hooks: &mut H) -> (r: Result<HighQc, E>) where
        TTx: StateStoreWriteTransaction,
        H: BlockHooks<TTx, E>,
        E: From<StorageError>,

        requires
            old(tx).inv(),
            update_walks_end(old(tx).model(), self@),
        ensures
            final(tx).inv(),
            final(tx).healthy() == old(tx).healthy(),
            extends_log(old(hooks).calls(), final(hooks).calls()),
            ({
                let m = old(tx).model();
                let done = calls_since(old(hooks).calls(), final(hooks).calls());
                let k = planned_lock_calls(m, self@).len();
                &&& follows_plan(done, update_plan(m, self@))
                &&& forall|i: int|
                    0 <= i < done.len() && i < k ==> stored_as(m.blocks, #[trigger] handed_block(done[i]))
                &&& (done.len() > k ==> {
                    let s = store_of(done[k as int]);
                    &&& s.keeps_chain_of(after_lock(m, self@))
                    &&& forall|i: int|
                        k <= i < done.len() ==> stored_as(s.blocks, #[trigger] handed_block(done[i]))
                })
                &&& (ends_in_failure(done) ==> r == Err::<HighQc, E>(
                    outcome_of(done.last())->Err_0,
                ))
                &&& (ends_in_failure(done) && done.last() is Lock ==> final(tx).model().keeps_chain_of(
                    after_high_qc(m, self@),
                ))
                &&& (ends_in_failure(done) && done.last() is Commit ==> final(tx).model().keeps_chain_of(
                    after_lock(m, self@),
                ))
                &&& (r is Err && !ends_in_failure(done) ==> {
                    let f = final(tx).model();
                    &&& same_chain(f.blocks, m.blocks)
                    &&& f.last_executed == m.last_executed
                    &&& (f.locked == m.locked || f.locked == after_lock(m, self@).locked)
                    &&& (f.high_qc == m.high_qc || f.high_qc == after_high_qc(m, self@).high_qc)
                })
                &&& (r is Ok ==> {
                    &&& completes_plan(done, update_plan(m, self@))
                    &&& final(tx).model().keeps_chain_of(update_reached(m, self@))
                    &&& spec_update_nodes(m, self@) matches Some((h, _)) && r == Ok::<HighQc, E>(h)
                })
                &&& (old(tx).healthy() && !ends_in_failure(done) ==> {
                    &&& completes_plan(done, update_plan(m, self@))
                    &&& final(tx).model().keeps_chain_of(update_reached(m, self@))
                    &&& match spec_update_nodes(m, self@) {
                        Some((h, _)) => r == Ok::<HighQc, E>(h),
                        None => (r matches Err(e) && from_not_found(e)),
                    }
                })
            }),
    {
        let ghost m = tx.model();
        let ghost start = hooks.calls();
        proof {
            lemma_calls_none(start);
        }
        let high_qc = match self.justify().update_high_qc(tx) {
            Ok(h) => h,
            Err(e) => {
                return Err(E::from(e));
            },
        };
        let ghost m1 = tx.model();
        assert(m1 == after_high_qc(m, self@));
        // b'' <- b*.justify.node
        let commit_node = match self.justify().get_block(tx) {
            Ok(b) => b,
            Err(e) => {
                if e.is_not_found() {
                    assert(update_plan(m, self@) =~= Seq::<PlannedCall>::empty());
                    return Ok(high_qc);
                }
                return Err(E::from(e));
            },
        };
        // b' <- b''.justify.node
        let precommit_node = match commit_node.justify().get_block(tx) {
            Ok(b) => b,
            Err(e) => {
                if e.is_not_found() {
                    assert(update_plan(m, self@) =~= Seq::<PlannedCall>::empty());
                    return Ok(high_qc);
                }
                return Err(E::from(e));
            },
        };
        assert(has_commit_and_pre(m, self@));
        assert(commit_node@ == commit_of(m, self@));
        assert(precommit_node@ == pre_of(m, self@));
        proof {
            tx.lemma_keyed_by_id();
        }
        let ghost lock_plan = planned_lock_calls(m, self@);
        let ghost commit_plan = planned_commit_calls(m, self@);
        if !precommit_node.is_genesis() {
            let locked = match LockedBlock::get(tx) {
                Ok(l) => l,
                Err(e) => {
                    proof {
                        if e is NotFound {
                            assert(update_plan(m, self@) =~= Seq::<PlannedCall>::empty());
                        }
                    }
                    return Err(E::from(e));
                },
            };
            if precommit_node.height().0 > locked.height.0 {
                let ghost before = hooks.calls();
                let ghost fuel = tx.model().blocks.len();
                let rec = on_locked_block_recurse(tx, &locked, &precommit_node, hooks, Ghost(fuel));
                proof {
                    lemma_calls_chain(start, before, hooks.calls());
                    lemma_lock_calls_kind(locked, chain_above(m.blocks, precommit_node@, locked.height.0));
                }
                match rec {
                    Ok(()) => {},
                    Err(e) => {
                        proof {
                            let done = calls_since(start, hooks.calls());
                            if chain_reaches(m.blocks, precommit_node@, locked.height.0) {
                                if lock_step_passes(m, self@) {
                                    lemma_follows_longer(done, lock_plan, commit_plan);
                                }
                                if ends_in_failure(done) {
                                    assert(done.last() == done[done.len() - 1]);
                                    assert(makes_call(done[done.len() - 1], lock_plan[done.len() - 1]));
                                }
                            } else {
                                assert(update_plan(m, self@) =~= Seq::<PlannedCall>::empty());
                            }
                        }
                        return Err(e);
                    },
                }
                match precommit_node.as_locked_block().set(tx) {
                    Ok(()) => {},
                    Err(e) => {
                        proof {
                            lemma_follows_longer(calls_since(start, hooks.calls()), lock_plan, commit_plan);
                        }
                        return Err(E::from(e));
                    },
                }
            } else {
                assert(lock_plan =~= Seq::<PlannedCall>::empty());
            }
        } else {
            assert(lock_plan =~= Seq::<PlannedCall>::empty());
        }
        let ghost m2 = tx.model();
        let ghost after_locks = hooks.calls();
        assert(lock_step_passes(m, self@));
        assert(m2.keeps_chain_of(after_lock(m, self@)));
        let ghost done_l = calls_since(start, after_locks);
        assert(extends_log(start, after_locks));
        assert(completes_plan(done_l, lock_plan));
        assert(hands_stored(done_l, m.blocks));
        // b <- b'.justify.node
        let prepare_node = *precommit_node.justify().block_id();
        if commit_node.parent().equals(precommit_node.id()) && precommit_node.parent().equals(
            &prepare_node,
        ) {
            // Commit the prepare node (b)
            if !prepare_node.is_genesis() {
                let prepare_node = match Block::get(tx, &prepare_node) {
                    Ok(b) => b,
                    Err(e) => {
                        proof {
                            lemma_follows_longer(done_l, lock_plan, commit_plan);
                            if e is NotFound {
                                assert(commit_plan =~= Seq::<PlannedCall>::empty());
                                assert(lock_plan + commit_plan =~= lock_plan);
                            }
                        }
                        return Err(E::from(e));
                    },
                };
                let last_executed = match LastExecuted::get(tx) {
                    Ok(l) => l,
                    Err(e) => {
                        proof {
                            lemma_follows_longer(done_l, lock_plan, commit_plan);
                            if e is NotFound {
                                assert(commit_plan =~= Seq::<PlannedCall>::empty());
                                assert(lock_plan + commit_plan =~= lock_plan);
                            }
                        }
                        return Err(E::from(e));
                    },
                };
                let ghost before = hooks.calls();
                let ghost s = tx.model();
                let ghost cur = tx.model().blocks;
                let ghost fuel = cur.len();
                proof {
                    assert(cur.dom() == m.blocks.dom());
                    assert(cur.len() == m.blocks.len());
                    lemma_walk_same_chain(cur, m.blocks, prepare_node@, m.blocks[prepare_node@.id], last_executed.height.0, fuel);
                }
                let rec = on_commit_block_recurse(tx, &last_executed, &prepare_node, hooks, Ghost(fuel));
                proof {
                    lemma_calls_chain(start, before, hooks.calls());
                    lemma_commit_calls_kind(last_executed, chain_above(m.blocks, prepare_node@, last_executed.height.0));
                    let done_c = calls_since(before, hooks.calls());
                    lemma_hands_split(done_l, done_c, m.blocks, s);
                    if chain_reaches(m.blocks, prepare_node@, last_executed.height.0) {
                        lemma_follows_after(done_l, lock_plan, done_c, commit_plan);
                        if done_c.len() > 0 && ends_in_failure(done_c) {
                            assert(done_c.last() == done_c[done_c.len() - 1]);
                            assert(makes_call(done_c[done_c.len() - 1], commit_plan[done_c.len() - 1]));
                        }
                    } else {
                        assert(commit_plan =~= Seq::<PlannedCall>::empty());
                        assert(lock_plan + commit_plan =~= lock_plan);
                        assert(done_l + done_c =~= done_l);
                    }
                }
                match rec {
                    Ok(()) => {},
                    Err(e) => {
                        return Err(e);
                    },
                }
                match prepare_node.as_last_executed().set(tx) {
                    Ok(()) => {},
                    Err(e) => {
                        return Err(E::from(e));
                    },
                }
            } else {
                assert(commit_plan =~= Seq::<PlannedCall>::empty());
                assert(lock_plan + commit_plan =~= lock_plan);
            }
        } else {
            assert(commit_plan =~= Seq::<PlannedCall>::empty());
            assert(lock_plan + commit_plan =~= lock_plan);
        }
        Ok(high_qc)
    }
}

/// The shard numbers of the entries `entries`, in order.
pub open spec fn entry_keys(entries: Seq<(u32, u64)>) -> Seq<u32> {
    entries.map_values(|e: (u32, u64)| e.0)
}

/// The foreign send counters of block `b` in store `m`: those stored for the
/// block that justifies it, carried over, with one added for each shard
/// that `b` holds a counter for.
pub open spec fn spec_block_send_counters(m: StoreModel, b: BlockView) -> Map<u32, u64> {
    incremented(
        stored_counters_or_empty(m, b.justify.block_id),
        entry_keys(b.foreign_indexes),
    )
}

/// What saving block `b` leaves in store `m`: `b` is stored under its
/// identifier unless a block is already stored there.
pub open spec fn spec_save(m: StoreModel, b: BlockView) -> StoreModel {
    if m.blocks.contains_key(b.id) {
        m
    } else {
        StoreModel { blocks: m.blocks.insert(b.id, b), block_order: m.block_order.push(b.id), ..m }
    }
}

/// Saving stores the block where none was stored under its identifier, and
/// saving it again changes nothing.
pub proof fn lemma_save_stores_once(m: StoreModel, b: BlockView)
    ensures
        spec_save(m, b).blocks.contains_key(b.id),
        !m.blocks.contains_key(b.id) ==> spec_save(m, b).blocks[b.id] == b,
        spec_save(spec_save(m, b), b) == spec_save(m, b),
{
}

/// A block never extends itself.
pub proof fn lemma_not_extends_itself(m: StoreModel, b: BlockView)
    ensures
        spec_extends(m, b, b.id) == Some(false),
{
}

/// A block that is not its own parent extends its parent, whether or not
/// the parent is stored.
pub proof fn lemma_extends_parent(m: StoreModel, b: BlockView)
    requires
        b.id != b.parent,
    ensures
        spec_extends(m, b, b.parent) == Some(true),
{
}

/// The safeNode predicate holds exactly where the liveness rule or the
/// safety rule holds.
pub proof fn lemma_is_safe_rules(m: StoreModel, b: BlockView)
    requires
        spec_is_safe(m, b) is Some,
    ensures
        m.locked is Some && m.blocks.contains_key(m.locked->0.block_id),
        spec_is_safe(m, b)->0 <==> (liveness_rule(b, m.blocks[m.locked->0.block_id]) || spec_extends(
            m,
            b,
            m.blocks[m.locked->0.block_id].id,
        ) == Some(true)),
{
}

/// The commit rule commits only on a three-chain: where it calls the commit
/// hook, or leaves a different last executed block, the commit block (the
/// block `b`'s justification certifies) has as parent the pre-commit block
/// (the block the commit block's justification certifies), and the
/// pre-commit block has as parent the prepare block its own justification
/// certifies.
pub proof fn lemma_commit_only_on_three_chain(m: StoreModel, b: BlockView)
    ensures
        planned_commit_calls(m, b).len() > 0 || update_reached(m, b).last_executed
            != m.last_executed ==> {
            &&& m.blocks.contains_key(b.justify.block_id)
            &&& m.blocks.contains_key(m.blocks[b.justify.block_id].justify.block_id)
            &&& m.blocks[b.justify.block_id].parent == m.blocks[m.blocks[b.justify.block_id].justify.block_id].id
            &&& m.blocks[m.blocks[b.justify.block_id].justify.block_id].parent
                == m.blocks[m.blocks[b.justify.block_id].justify.block_id].justify.block_id
        },
{
    if spec_update_nodes(m, b) is Some && spec_update_nodes(m, b).unwrap().1.last_executed
        != m.last_executed {
        lemma_commit_needs_three_chain(m, b);
    }
}

/// The safeNode predicate on the numbers: with a locked block stored, a
/// proposal whose justification certifies a block strictly higher than the
/// locked block is safe; one whose justification is at the locked height or
/// lower is safe exactly where it extends the locked block, so it is not
/// safe where it is the locked block, or its parent is stored and is
/// neither the locked block nor a descendant of it.
pub proof fn lemma_is_safe_heights(m: StoreModel, b: BlockView)
    requires
        m.keyed_by_id(),
        m.locked is Some,
        m.blocks.contains_key(m.locked->0.block_id),
    ensures
        b.justify.block_height.0 > m.blocks[m.locked->0.block_id].height.0 ==> spec_is_safe(m, b)
            == Some(true),
        b.justify.block_height.0 <= m.blocks[m.locked->0.block_id].height.0 ==> spec_is_safe(m, b)
            == spec_extends(m, b, m.blocks[m.locked->0.block_id].id),
        b.justify.block_height.0 <= m.blocks[m.locked->0.block_id].height.0 && b.id
            == m.blocks[m.locked->0.block_id].id ==> spec_is_safe(m, b) == Some(false),
        b.justify.block_height.0 <= m.blocks[m.locked->0.block_id].height.0 && b.id
            != m.blocks[m.locked->0.block_id].id && b.parent != m.blocks[m.locked->0.block_id].id
            && m.blocks.contains_key(b.parent) && !is_ancestor(
            m.blocks,
            b.parent,
            m.blocks[m.locked->0.block_id].id,
        ) ==> spec_is_safe(m, b) == Some(false),
{
}

/// The commit rule never moves the lock down: after it the locked height is
/// at least what it was.
pub proof fn lemma_update_nodes_lock_monotonic(m: StoreModel, b: BlockView, l: LockedBlock)
    requires
        m.locked == Some(l),
        spec_update_nodes(m, b) is Some,
    ensures
        spec_update_nodes(m, b).unwrap().1.locked matches Some(l2) && l2.height.0 >= l.height.0,
{
}

/// The commit rule leaves the stored blocks as they were.
pub proof fn lemma_update_nodes_keeps_blocks(m: StoreModel, b: BlockView)
    requires
        spec_update_nodes(m, b) is Some,
    ensures
        spec_update_nodes(m, b).unwrap().1.blocks == m.blocks,
{
}

/// The high QC that the commit rule returns is for the higher of the
/// blocks certified by the stored high QC and by the new block's
/// justification; where the stored marker agrees with its certificate, the
/// returned high QC is the marker left in the store.
pub proof fn lemma_update_nodes_high_qc(m: StoreModel, b: BlockView, h: HighQc)
    requires
        m.high_qc == Some(h),
        m.qcs.contains_key(h.qc_id),
        h == crate::quorum::as_high_qc_spec(m.qcs[h.qc_id]),
    ensures
        spec_update_nodes(m, b) matches Some((hq, _)) ==> hq.block_height.0 >= m.qcs[h.qc_id].block_height.0
            && hq.block_height.0 >= b.justify.block_height.0,
        spec_update_nodes(m, b) matches Some((hq, m2)) ==> m2.high_qc == Some(hq),
{
}

/// The last executed block changes only where the commit block and the
/// pre-commit block form a three-chain, and then it becomes the prepare
/// block at the bottom of that chain.
pub proof fn lemma_commit_needs_three_chain(m: StoreModel, b: BlockView)
    requires
        spec_update_nodes(m, b) is Some,
        spec_update_nodes(m, b).unwrap().1.last_executed != m.last_executed,
    ensures
        m.blocks.contains_key(b.justify.block_id),
        m.blocks.contains_key(m.blocks[b.justify.block_id].justify.block_id),
        forms_three_chain(
            m.blocks[b.justify.block_id],
            m.blocks[m.blocks[b.justify.block_id].justify.block_id],
        ),
        m.blocks[b.justify.block_id].parent == m.blocks[m.blocks[b.justify.block_id].justify.block_id].id,
        m.blocks[m.blocks[b.justify.block_id].justify.block_id].parent
            == m.blocks[m.blocks[b.justify.block_id].justify.block_id].justify.block_id,
        spec_update_nodes(m, b).unwrap().1.last_executed == Some(
            LastExecuted {
                height: m.blocks[m.blocks[m.blocks[b.justify.block_id].justify.block_id].justify.block_id].height,
                block_id: m.blocks[m.blocks[m.blocks[b.justify.block_id].justify.block_id].justify.block_id].id,
            },
        ),
{
}

/// Running the commit rule again for the same block, on the store it left,
/// locks and commits nothing more: it calls no hook.
pub proof fn lemma_update_nodes_settles(m: StoreModel, b: BlockView)
    requires
        spec_update_nodes(m, b) is Some,
    ensures
        planned_lock_calls(spec_update_nodes(m, b).unwrap().1, b) == Seq::<PlannedCall>::empty(),
        planned_commit_calls(spec_update_nodes(m, b).unwrap().1, b) == Seq::<PlannedCall>::empty(),
        update_plan(spec_update_nodes(m, b).unwrap().1, b) == Seq::<PlannedCall>::empty(),
{
    let m2 = spec_update_nodes(m, b).unwrap().1;
    assert(m2.blocks == m.blocks);
    if has_commit_and_pre(m2, b) {
        let commit = commit_of(m2, b);
        let pre = pre_of(m2, b);
        let prepare_id = pre.justify.block_id;
        if forms_three_chain(commit, pre) && !is_genesis_id(prepare_id) && m2.blocks.contains_key(
            prepare_id,
        ) {
            let prepare = m2.blocks[prepare_id];
            assert(m2.last_executed == Some(
                LastExecuted { height: prepare.height, block_id: prepare.id },
            ));
            assert(chain_above(m2.blocks, prepare, prepare.height.0) =~= Seq::<BlockId>::empty());
            assert(commit_calls_of(LastExecuted { height: prepare.height, block_id: prepare.id }, Seq::empty()) =~= Seq::<PlannedCall>::empty());
        }
    }
    assert(update_plan(m2, b) =~= Seq::<PlannedCall>::empty());
}

/// Hook calls made one run after another, each handed blocks as stored
/// when its run began, the second run beginning on store `s`: the calls of
/// the first run were handed blocks as stored in `first`, those of the
/// second blocks as stored in `s`, and the first call of the second run was
/// made on `s`.
proof fn lemma_hands_split<E>(
    done_l: Seq<HookCall<E>>,
    done_c: Seq<HookCall<E>>,
    first: Map<BlockId, BlockView>,
    s: StoreModel,
)
    requires
        hands_stored(done_l, first),
        hands_stored(done_c, s.blocks),
        done_c.len() > 0 ==> store_of(done_c[0]) == s,
    ensures
        forall|i: int|
            0 <= i < (done_l + done_c).len() && i < done_l.len() ==> stored_as(
                first,
                #[trigger] handed_block((done_l + done_c)[i]),
            ),
        forall|i: int|
            done_l.len() <= i < (done_l + done_c).len() ==> stored_as(
                s.blocks,
                #[trigger] handed_block((done_l + done_c)[i]),
            ),
        (done_l + done_c).len() > done_l.len() ==> store_of((done_l + done_c)[done_l.len() as int]) == s,
{
    assert forall|i: int| 0 <= i < (done_l + done_c).len() && i < done_l.len() implies stored_as(
        first,
        #[trigger] handed_block((done_l + done_c)[i]),
    ) by {
        assert((done_l + done_c)[i] == done_l[i]);
    }
    assert forall|i: int| done_l.len() <= i < (done_l + done_c).len() implies stored_as(
        s.blocks,
        #[trigger] handed_block((done_l + done_c)[i]),
    ) by {
        assert((done_l + done_c)[i] == done_c[i - done_l.len()]);
    }
    if (done_l + done_c).len() > done_l.len() {
        assert((done_l + done_c)[done_l.len() as int] == done_c[0]);
    }
}

/// Calls the lock hook for `block` and each of its ancestors above the
/// locked height, lowest first, each with the locked-block marker. The
/// walk down to the lowest of them comes first, so where it breaks no hook
/// is called; where a hook fails, its error comes back and no further hook
/// is called.
fn on_locked_block_recurse<TTx, H, E>(
    tx: &mut TTx,
    locked: &LockedBlock,
    block: &Block,
    hooks: &mut H,
    Ghost(fuel): Ghost<nat>,
) -> (r: Result<(), E>) where
    TTx: StateStoreWriteTransaction,
    H: BlockHooks<TTx, E>,
    E: From<StorageError>,

    requires
        old(tx).inv(),
        old(tx).model().blocks.contains_key(block@.id),
        old(tx).model().blocks[block@.id] == block@,
        walk_ends_within(old(tx).model().blocks, block@, locked.height.0, fuel),
    ensures
        final(tx).inv(),
        final(tx).healthy() == old(tx).healthy(),
        final(tx).model().keeps_chain_of(old(tx).model()),
        extends_log(old(hooks).calls(), final(hooks).calls()),
        ({
            let done = calls_since(old(hooks).calls(), final(hooks).calls());
            let plan = lock_calls_of(*locked, above_within(old(tx).model().blocks, block@, locked.height.0, fuel));
            let reaches = reaches_within(old(tx).model().blocks, block@, locked.height.0, fuel);
            &&& follows_plan(done, plan)
            &&& hands_stored(done, old(tx).model().blocks)
            &&& (done.len() > 0 ==> store_of(done[0]) == old(tx).model())
            &&& (done.len() == 0 ==> final(tx).model() == old(tx).model())
            &&& (ends_in_failure(done) ==> r == outcome_of(done.last()))
            &&& (!ends_in_failure(done) && r is Err ==> done.len() == 0)
            &&& (r is Ok ==> reaches && completes_plan(done, plan))
            &&& (!reaches ==> r is Err && done.len() == 0)
            &&& (old(tx).healthy() ==> if reaches {
                !ends_in_failure(done) ==> r is Ok
            } else {
                r matches Err(e) && from_not_found(e)
            })
        }),
    decreases fuel,
{
    let ghost blocks = old(tx).model().blocks;
    let ghost start = hooks.calls();
    proof {
        lemma_calls_none(start);
    }
    if locked.height.0 < block.height().0 {
        proof {
            tx.lemma_keyed_by_id();
        }
        let parent = match block.get_parent(tx) {
            Ok(p) => p,
            Err(e) => {
                return Err(E::from(e));
            },
        };
        assert(fuel > 0);
        let rec = on_locked_block_recurse(tx, locked, &parent, hooks, Ghost((fuel - 1) as nat));
        let ghost after_rec = hooks.calls();
        let ghost done_rec = calls_since(start, after_rec);
        let ghost plan1 = lock_calls_of(*locked, above_within(blocks, parent@, locked.height.0, (fuel - 1) as nat));
        let ghost call = PlannedCall::Lock { locked: *locked, block: block@.id };
        assert(lock_calls_of(*locked, above_within(blocks, block@, locked.height.0, fuel)) =~= plan1.push(call));
        match rec {
            Ok(()) => {},
            Err(e) => {
                proof {
                    if reaches_within(blocks, parent@, locked.height.0, (fuel - 1) as nat) {
                        lemma_follows_longer(done_rec, plan1, seq![call]);
                        assert(plan1 + seq![call] =~= plan1.push(call));
                    }
                }
                return Err(e);
            },
        }
        let ghost before_hook = tx.model();
        let res = hooks.on_lock_block(tx, locked, block);
        proof {
            let x = HookCall::Lock { locked: *locked, block: block@, store: before_hook, outcome: res };
            lemma_calls_push(after_rec, x);
            lemma_calls_chain(start, after_rec, hooks.calls());
            lemma_follows_step(done_rec, plan1, x, call);
            assert(calls_since(start, hooks.calls()) =~= done_rec.push(x));
            assert forall|i: int| 0 <= i < done_rec.len() + 1 implies stored_as(
                blocks,
                #[trigger] handed_block(done_rec.push(x)[i]),
            ) by {
                if i < done_rec.len() {
                    assert(done_rec.push(x)[i] == done_rec[i]);
                }
            }
            if done_rec.len() > 0 {
                assert(done_rec.push(x)[0] == done_rec[0]);
            }
        }
        match res {
            Ok(()) => {},
            Err(e) => {
                return Err(e);
            },
        }
    } else {
        assert(above_within(blocks, block@, locked.height.0, fuel) =~= Seq::<BlockId>::empty());
        assert(lock_calls_of(*locked, above_within(blocks, block@, locked.height.0, fuel)) =~= Seq::<PlannedCall>::empty());
    }
    Ok(())
}

/// Calls the commit hook for `block` and each of its ancestors above the
/// last executed height, lowest first, each with the last-executed marker,
/// catching up on any parent blocks not yet executed. The walk down to the
/// lowest of them comes first, so where it breaks no hook is called; where
/// a hook fails, its error comes back and no further hook is called.
fn on_commit_block_recurse<TTx, H, E>(
    tx: &mut TTx,
    last_executed: &LastExecuted,
    block: &Block,
    hooks: &mut H,
    Ghost(fuel): Ghost<nat>,
) -> (r: Result<(), E>) where
    TTx: StateStoreWriteTransaction,
    H: BlockHooks<TTx, E>,
    E: From<StorageError>,

    requires
        old(tx).inv(),
        old(tx).model().blocks.contains_key(block@.id),
        old(tx).model().blocks[block@.id] == block@,
        walk_ends_within(old(tx).model().blocks, block@, last_executed.height.0, fuel),
    ensures
        final(tx).inv(),
        final(tx).healthy() == old(tx).healthy(),
        final(tx).model().keeps_chain_of(old(tx).model()),
        extends_log(old(hooks).calls(), final(hooks).calls()),
        ({
            let done = calls_since(old(hooks).calls(), final(hooks).calls());
            let plan = commit_calls_of(*last_executed, above_within(old(tx).model().blocks, block@, last_executed.height.0, fuel));
            let reaches = reaches_within(old(tx).model().blocks, block@, last_executed.height.0, fuel);
            &&& follows_plan(done, plan)
            &&& hands_stored(done, old(tx).model().blocks)
            &&& (done.len() > 0 ==> store_of(done[0]) == old(tx).model())
            &&& (done.len() == 0 ==> final(tx).model() == old(tx).model())
            &&& (ends_in_failure(done) ==> r == outcome_of(done.last()))
            &&& (!ends_in_failure(done) && r is Err ==> done.len() == 0)
            &&& (r is Ok ==> reaches && completes_plan(done, plan))
            &&& (!reaches ==> r is Err && done.len() == 0)
            &&& (old(tx).healthy() ==> if reaches {
                !ends_in_failure(done) ==> r is Ok
            } else {
                r matches Err(e) && from_not_found(e)
            })
        }),
    decreases fuel,
{
    let ghost blocks = old(tx).model().blocks;
    let ghost start = hooks.calls();
    proof {
        lemma_calls_none(start);
    }
    if last_executed.height.0 < block.height().0 {
        proof {
            tx.lemma_keyed_by_id();
        }
        let parent = match block.get_parent(tx) {
            Ok(p) => p,
            Err(e) => {
                return Err(E::from(e));
            },
        };
        assert(fuel > 0);
        let rec = on_commit_block_recurse(tx, last_executed, &parent, hooks, Ghost((fuel - 1) as nat));
        let ghost after_rec = hooks.calls();
        let ghost done_rec = calls_since(start, after_rec);
        let ghost plan1 = commit_calls_of(*last_executed, above_within(blocks, parent@, last_executed.height.0, (fuel - 1) as nat));
        let ghost call = PlannedCall::Commit { last_executed: *last_executed, block: block@.id };
        assert(commit_calls_of(*last_executed, above_within(blocks, block@, last_executed.height.0, fuel)) =~= plan1.push(call));
        match rec {
            Ok(()) => {},
            Err(e) => {
                proof {
                    if reaches_within(blocks, parent@, last_executed.height.0, (fuel - 1) as nat) {
                        lemma_follows_longer(done_rec, plan1, seq![call]);
                        assert(plan1 + seq![call] =~= plan1.push(call));
                    }
                }
                return Err(e);
            },
        }
        let ghost before_hook = tx.model();
        let res = hooks.on_commit(tx, last_executed, block);
        proof {
            let x = HookCall::Commit { last_executed: *last_executed, block: block@, store: before_hook, outcome: res };
            lemma_calls_push(after_rec, x);
            lemma_calls_chain(start, after_rec, hooks.calls());
            lemma_follows_step(done_rec, plan1, x, call);
            assert(calls_since(start, hooks.calls()) =~= done_rec.push(x));
            assert forall|i: int| 0 <= i < done_rec.len() + 1 implies stored_as(
                blocks,
                #[trigger] handed_block(done_rec.push(x)[i]),
            ) by {
                if i < done_rec.len() {
                    assert(done_rec.push(x)[i] == done_rec[i]);
                }
            }
            if done_rec.len() > 0 {
                assert(done_rec.push(x)[0] == done_rec[0]);
            }
        }
        match res {
            Ok(()) => {},
            Err(e) => {
                return Err(e);
            },
        }
    } else {
        assert(above_within(blocks, block@, last_executed.height.0, fuel) =~= Seq::<BlockId>::empty());
        assert(commit_calls_of(*last_executed, above_within(blocks, block@, last_executed.height.0, fuel)) =~= Seq::<PlannedCall>::empty());
    }
    Ok(())
}

} // verus!
