//! The state store that the consensus models read and write: its contents
//! as a mathematical model, the read and write operations with their
//! contracts, and the hooks that the commit rule calls.
use vstd::prelude::*;

use crate::block::{is_genesis_id, Block, BlockId, BlockView};
use crate::error::StorageError;
use crate::foreign_send_counters::ForeignSendCounters;
use crate::command::TransactionId;
use crate::common::{Epoch, NodeHeight, PublicKey};
use crate::quorum::{HighQc, LastExecuted, LockedBlock, QcId, QuorumCertificate};
use crate::transaction::{SubstateAddress, SubstateRecord, TransactionRecord, TransactionRecordView};
use crate::vote::Vote;

verus! {

/// The contents of a state store.
pub struct StoreModel {
    /// The stored blocks, by identifier.
    pub blocks: Map<BlockId, BlockView>,
    /// The identifiers of the stored blocks, in the order they were stored.
    pub block_order: Seq<BlockId>,
    /// The stored quorum certificates, by identifier.
    pub qcs: Map<QcId, QuorumCertificate>,
    /// The high-QC marker, if set.
    pub high_qc: Option<HighQc>,
    /// The locked-block marker, if set.
    pub locked: Option<LockedBlock>,
    /// The last-executed marker, if set.
    pub last_executed: Option<LastExecuted>,
    /// The foreign send counters stored for each block.
    pub foreign_counters: Map<BlockId, Map<u32, u64>>,
    /// The stored transactions, by identifier.
    pub transactions: Map<TransactionId, TransactionRecordView>,
    /// The stored substate versions, in the order they were stored.
    pub substates: Seq<SubstateRecord>,
    /// The stored votes, in the order they were stored.
    pub votes: Seq<Vote>,
}

/// Whether the transaction `t` is stored in `m` and involves the substate
/// address `a`.
pub open spec fn involves(m: StoreModel, t: TransactionId, a: SubstateAddress) -> bool {
    m.transactions.contains_key(t) && m.transactions[t].involved_shards.contains(a)
}

/// The substate addresses involved in those transactions among `ids` that
/// are stored in `m`.
pub open spec fn involved_shards_of(m: StoreModel, ids: Seq<TransactionId>) -> Set<SubstateAddress> {
    Set::new(|a: SubstateAddress| exists|k: int| 0 <= k < ids.len() && #[trigger] involves(m, ids[k], a))
}

/// The order of a page of blocks: by the time they were stored, earliest
/// or latest first.
#[derive(Clone, Copy, Debug, PartialEq, Eq, Structural)]
pub enum SortOrder {
    Ascending,
    Descending,
}

/// The stored blocks of `m` in the order they were stored, or in the
/// reverse order where `order` is descending.
pub open spec fn blocks_in_order(m: StoreModel, order: Option<SortOrder>) -> Seq<BlockView> {
    let ids = match order {
        Some(SortOrder::Descending) => m.block_order.reverse(),
        _ => m.block_order,
    };
    ids.map_values(|k: BlockId| m.blocks[k])
}

/// The page of at most `limit` blocks of `m` that starts after the first
/// `offset` of them, in `order`.
pub open spec fn blocks_page(m: StoreModel, limit: u64, offset: u64, order: Option<SortOrder>) -> Seq<
    BlockView,
> {
    let all = blocks_in_order(m, order);
    let start = if offset <= all.len() { offset as int } else { all.len() as int };
    let end = if start + limit <= all.len() { start + limit } else { all.len() as int };
    all.subrange(start, end)
}

/// The votes in `votes` for the block `block_id`, in order.
pub open spec fn votes_for(votes: Seq<Vote>, block_id: BlockId) -> Seq<Vote> {
    votes.filter(|v: Vote| v.block_id == block_id)
}

/// Whether the substate version `s` was created or destroyed by the
/// transaction `t`.
pub open spec fn touched_by(s: SubstateRecord, t: TransactionId) -> bool {
    s.created_by_transaction == t || (s.destroyed matches Some(d) && d.by_transaction == t)
}

/// The substate versions in `substates` created or destroyed by `t`, in
/// order.
pub open spec fn substates_for(substates: Seq<SubstateRecord>, t: TransactionId) -> Seq<
    SubstateRecord,
> {
    substates.filter(|s: SubstateRecord| touched_by(s, t))
}

impl StoreModel {
    /// Whether this store keeps the chain of `other`: the same blocks
    /// stored, each with the same identifier, parent, height and
    /// justification; the same certificates; and the same high-QC, locked
    /// and last-executed markers. Other fields of the blocks, such as their
    /// committed and processed flags, may differ.
    pub open spec fn keeps_chain_of(self, other: StoreModel) -> bool {
        &&& same_chain(self.blocks, other.blocks)
        &&& self.qcs == other.qcs
        &&& self.high_qc == other.high_qc
        &&& self.locked == other.locked
        &&& self.last_executed == other.last_executed
    }

    /// Whether every stored block, certificate and transaction record is
    /// stored under its own identifier.
    pub open spec fn keyed_by_id(self) -> bool {
        &&& forall|k: BlockId| #[trigger] self.blocks.contains_key(k) ==> self.blocks[k].id == k
        &&& forall|k: QcId| #[trigger] self.qcs.contains_key(k) ==> self.qcs[k].qc_id == k
        &&& forall|t: TransactionId| #[trigger]
            self.transactions.contains_key(t) ==> self.transactions[t].transaction_id == t
    }
}

/// The block reached from `d` by following `n` parent links through
/// stored blocks; the walk ends at a block that is its own parent.
pub open spec fn ancestor_at(blocks: Map<BlockId, BlockView>, d: BlockId, n: nat) -> Option<
    BlockId,
>
    decreases n,
{
    if !blocks.contains_key(d) {
        None
    } else if n == 0 {
        Some(d)
    } else if blocks[d].parent == d {
        None
    } else {
        ancestor_at(blocks, blocks[d].parent, (n - 1) as nat)
    }
}

/// Whether `a` is `d` or one of its stored ancestors, reached in at most
/// as many parent links as there are stored blocks.
pub open spec fn is_ancestor(blocks: Map<BlockId, BlockView>, d: BlockId, a: BlockId) -> bool {
    exists|n: nat| n <= blocks.len() && #[trigger] ancestor_at(blocks, d, n) == Some(a)
}

/// Whether the walk from `b` down through its stored parents, taking at
/// most `fuel` steps, reaches a block at height `floor` or below, with every
/// block above the floor stored and not the zero block.
pub open spec fn reaches_within(blocks: Map<BlockId, BlockView>, b: BlockView, floor: u64, fuel: nat) -> bool
    decreases fuel,
{
    if b.height.0 <= floor {
        true
    } else if is_genesis_id(b.id) || !blocks.contains_key(b.parent) {
        false
    } else if fuel == 0 {
        false
    } else {
        reaches_within(blocks, blocks[b.parent], floor, (fuel - 1) as nat)
    }
}

/// The identifiers of the blocks above height `floor` on the walk from `b`
/// down through its stored parents, taking at most `fuel` steps, lowest
/// first.
pub open spec fn above_within(blocks: Map<BlockId, BlockView>, b: BlockView, floor: u64, fuel: nat) -> Seq<
    BlockId,
>
    decreases fuel,
{
    if b.height.0 <= floor {
        Seq::empty()
    } else if is_genesis_id(b.id) || !blocks.contains_key(b.parent) {
        Seq::empty()
    } else if fuel == 0 {
        Seq::empty()
    } else {
        above_within(blocks, blocks[b.parent], floor, (fuel - 1) as nat).push(b.id)
    }
}

/// Whether the walk from `b` down through its stored parents, while it
/// stays above height `floor`, ends within `fuel` steps: at a block at or
/// below the floor, at the zero block, or at a block whose parent is not
/// stored.
pub open spec fn walk_ends_within(blocks: Map<BlockId, BlockView>, b: BlockView, floor: u64, fuel: nat) -> bool
    decreases fuel,
{
    if b.height.0 <= floor || is_genesis_id(b.id) || !blocks.contains_key(b.parent) {
        true
    } else if fuel == 0 {
        false
    } else {
        walk_ends_within(blocks, blocks[b.parent], floor, (fuel - 1) as nat)
    }
}

/// Whether the chain from `b` down through its stored parents reaches a
/// block at height `floor` or below, with every block above the floor
/// stored and not the zero block.
pub open spec fn chain_reaches(blocks: Map<BlockId, BlockView>, b: BlockView, floor: u64) -> bool {
    reaches_within(blocks, b, floor, blocks.len())
}

/// The identifiers of the blocks on the chain from `b` down through its
/// stored parents that are above height `floor`, lowest first.
pub open spec fn chain_above(blocks: Map<BlockId, BlockView>, b: BlockView, floor: u64) -> Seq<BlockId> {
    above_within(blocks, b, floor, blocks.len())
}

/// Whether the walk from `b` down through its stored parents, while it
/// stays above height `floor`, comes to an end: it takes at most as many
/// steps as there are stored blocks, so it comes back to no block.
pub open spec fn walk_ends(blocks: Map<BlockId, BlockView>, b: BlockView, floor: u64) -> bool {
    walk_ends_within(blocks, b, floor, blocks.len())
}

/// Whether two blocks agree on their identifier, parent, height and
/// justification.
pub open spec fn same_links(a: BlockView, b: BlockView) -> bool {
    a.id == b.id && a.parent == b.parent && a.height == b.height && a.justify == b.justify
}

/// Whether two block maps store the same blocks, each with the same links.
pub open spec fn same_chain(a: Map<BlockId, BlockView>, b: Map<BlockId, BlockView>) -> bool {
    &&& a.dom() == b.dom()
    &&& forall|k: BlockId| #[trigger] a.contains_key(k) ==> same_links(a[k], b[k])
}

/// Walks through block maps that store the same blocks with the same links,
/// from blocks with the same links, go alike.
pub proof fn lemma_walk_same_chain(
    a: Map<BlockId, BlockView>,
    b: Map<BlockId, BlockView>,
    x: BlockView,
    y: BlockView,
    floor: u64,
    fuel: nat,
)
    requires
        same_chain(a, b),
        same_links(x, y),
    ensures
        walk_ends_within(a, x, floor, fuel) == walk_ends_within(b, y, floor, fuel),
        reaches_within(a, x, floor, fuel) == reaches_within(b, y, floor, fuel),
        above_within(a, x, floor, fuel) == above_within(b, y, floor, fuel),
    decreases fuel,
{
    assert(a.contains_key(x.parent) == b.contains_key(y.parent));
    if fuel > 0 && a.contains_key(x.parent) {
        lemma_walk_same_chain(a, b, a[x.parent], b[y.parent], floor, (fuel - 1) as nat);
    }
}

/// Whether `r` lists, each once, exactly the stored blocks that satisfy
/// `p`, as stored.
pub open spec fn lists_exactly(
    blocks: Map<BlockId, BlockView>,
    r: Seq<BlockView>,
    p: spec_fn(BlockView) -> bool,
) -> bool {
    &&& forall|i: int|
        0 <= i < r.len() ==> blocks.contains_key(#[trigger] r[i].id) && blocks[r[i].id] == r[i] && p(
            r[i],
        )
    &&& forall|k: BlockId| #[trigger]
        blocks.contains_key(k) && p(blocks[k]) ==> exists|i: int| 0 <= i < r.len() && r[i].id == k
    &&& forall|i: int, j: int| 0 <= i < j < r.len() ==> r[i].id != r[j].id
}

/// The views of `v`.
pub open spec fn block_views(v: Seq<Block>) -> Seq<BlockView> {
    v.map_values(|b: Block| b@)
}

/// The first `n` blocks of the walk from `d` through stored parents, as
/// far as the walk goes.
pub open spec fn walk(blocks: Map<BlockId, BlockView>, d: BlockId, n: nat) -> Seq<BlockView>
    decreases n,
{
    if n == 0 {
        Seq::empty()
    } else {
        let prefix = walk(blocks, d, (n - 1) as nat);
        match ancestor_at(blocks, d, (n - 1) as nat) {
            Some(b) => prefix.push(blocks[b]),
            None => prefix,
        }
    }
}

/// The number of steps of the walk from `end` that come before it stops:
/// the first step at or after `n`, and at most `n + fuel`, where the walk
/// has ended or reached `stop`.
pub open spec fn steps_before(
    blocks: Map<BlockId, BlockView>,
    end: BlockId,
    stop: BlockId,
    n: nat,
    fuel: nat,
) -> nat
    decreases fuel,
{
    if fuel == 0 {
        n
    } else {
        match ancestor_at(blocks, end, n) {
            None => n,
            Some(b) => if b == stop {
                n
            } else {
                steps_before(blocks, end, stop, n + 1, (fuel - 1) as nat)
            },
        }
    }
}

/// The blocks from `end` back to, but not including, `start`, lowest first,
/// leaving out dummy blocks unless `include_dummy`. The walk back from
/// `end` takes at most one step more than there are stored blocks, and
/// ends early where a block's parent is not stored.
pub open spec fn blocks_between(
    blocks: Map<BlockId, BlockView>,
    start: BlockId,
    end: BlockId,
    include_dummy: bool,
) -> Seq<BlockView> {
    walk(blocks, end, steps_before(blocks, end, start, 0, blocks.len() + 1)).reverse().filter(
        |b: BlockView| include_dummy || !b.is_dummy,
    )
}

/// Adding up the leader fees of the blocks in `blocks`, by identifier.
pub open spec fn add_fee(blocks: Map<BlockId, BlockView>) -> spec_fn(int, BlockId) -> int {
    |acc: int, k: BlockId| acc + blocks[k].total_leader_fee
}

/// Whether the block stored under `k` is of `epoch` and proposed by `pk`.
pub open spec fn of_epoch_by(blocks: Map<BlockId, BlockView>, epoch: Epoch, pk: PublicKey) -> spec_fn(
    BlockId,
) -> bool {
    |k: BlockId| blocks[k].epoch == epoch && blocks[k].proposed_by == pk
}

/// The total of the leader fees of the stored blocks of `epoch` proposed by
/// `pk`.
pub open spec fn total_leader_fee_for(
    blocks: Map<BlockId, BlockView>,
    epoch: Epoch,
    pk: PublicKey,
) -> int {
    blocks.dom().filter(of_epoch_by(blocks, epoch, pk)).fold(0int, add_fee(blocks))
}

/// The read operations of a state store transaction.
pub trait StateStoreReadTransaction {
    /// The contents of the store.
    spec fn model(&self) -> StoreModel;

    /// The representation invariant of the implementation.
    spec fn inv(&self) -> bool;

    /// Whether the store answers every request itself: a healthy store
    /// fails a request only where its contract says so, for a missing
    /// record. Any store may otherwise fail with an error of its own, and
    /// then changes nothing.
    spec fn healthy(&self) -> bool;

    /// The store keys each block, certificate and transaction record by its
    /// own identifier.
    proof fn lemma_keyed_by_id(&self)
        requires
            self.inv(),
        ensures
            self.model().keyed_by_id(),
    ;

    /// The block stored under `id`.
    fn blocks_get(&self, id: &BlockId) -> (r: Result<Block, StorageError>)
        requires
            self.inv(),
        ensures
            match r {
                Ok(b) => self.model().blocks.contains_key(*id) && b@ == self.model().blocks[*id],
                Err(e) => (e is NotFound ==> (!self.model().blocks.contains_key(*id))) && (self.healthy() ==> e is NotFound),
            },
    ;

    /// A stored block of the greatest height; fails where no block is
    /// stored.
    fn blocks_get_tip(&self) -> (r: Result<Block, StorageError>)
        requires
            self.inv(),
        ensures
            match r {
                Ok(b) => self.model().blocks.contains_key(b@.id) && self.model().blocks[b@.id]
                    == b@ && forall|k: BlockId| #[trigger]
                    self.model().blocks.contains_key(k) ==> self.model().blocks[k].height.0
                        <= b@.height.0,
                Err(e) => (e is NotFound ==> (self.model().blocks.len() == 0)) && (self.healthy() ==> e is NotFound),
            },
    ;

    /// The greatest height of a stored block; fails where no block is
    /// stored.
    fn blocks_max_height(&self) -> (r: Result<NodeHeight, StorageError>)
        requires
            self.inv(),
        ensures
            match r {
                Ok(h) => (exists|k: BlockId| #[trigger]
                    self.model().blocks.contains_key(k) && self.model().blocks[k].height == h)
                    && forall|k: BlockId| #[trigger]
                    self.model().blocks.contains_key(k) ==> self.model().blocks[k].height.0 <= h.0,
                Err(e) => (e is NotFound ==> (self.model().blocks.len() == 0)) && (self.healthy() ==> e is NotFound),
            },
    ;

    /// The total of the leader fees of the stored blocks of `epoch` proposed
    /// by `validator_public_key`; fails where it does not fit a `u64`.
    fn blocks_get_total_leader_fee_for_epoch(
        &self,
        epoch: Epoch,
        validator_public_key: &PublicKey,
    ) -> (r: Result<u64, StorageError>)
        requires
            self.inv(),
        ensures
            self.healthy() ==> (r is Ok <==> total_leader_fee_for(self.model().blocks, epoch, *validator_public_key)
                <= u64::MAX),
            r is Ok ==> total_leader_fee_for(self.model().blocks, epoch, *validator_public_key)
                <= u64::MAX,
            r matches Ok(n) ==> n == total_leader_fee_for(
                self.model().blocks,
                epoch,
                *validator_public_key,
            ),
    ;

    /// The page of at most `limit` stored blocks that starts after the
    /// first `offset` of them, in the order they were stored, or in the
    /// reverse order where `ordering` is descending.
    fn blocks_get_paginated(&self, limit: u64, offset: u64, ordering: Option<SortOrder>) -> (r:
        Result<Vec<Block>, StorageError>)
        requires
            self.inv(),
        ensures
            r matches Ok(v) ==> block_views(v@) == blocks_page(self.model(), limit, offset, ordering),
            self.healthy() ==> r is Ok,
    ;

    /// The number of stored blocks; fails where it does not fit an `i64`.
    fn blocks_get_count(&self) -> (r: Result<i64, StorageError>)
        requires
            self.inv(),
        ensures
            self.healthy() ==> (r is Ok <==> self.model().blocks.len() <= i64::MAX),
            r is Ok ==> self.model().blocks.len() <= i64::MAX,
            r matches Ok(n) ==> n == self.model().blocks.len(),
    ;

    /// The stored blocks whose parent is `parent`, each once.
    fn blocks_get_all_by_parent(&self, parent: &BlockId) -> (r: Result<Vec<Block>, StorageError>)
        requires
            self.inv(),
        ensures
            r matches Ok(v) ==> lists_exactly(
                self.model().blocks,
                block_views(v@),
                |b: BlockView| b.parent == *parent,
            ),
            self.healthy() ==> r is Ok,
    ;

    /// The stored blocks of an epoch from `start` to `end`, both included,
    /// proposed by `proposer` where one is given, each once.
    fn blocks_get_any_with_epoch_range(
        &self,
        start: Epoch,
        end: Epoch,
        proposer: Option<&PublicKey>,
    ) -> (r: Result<Vec<Block>, StorageError>)
        requires
            self.inv(),
        ensures
            r matches Ok(v) ==> lists_exactly(
                self.model().blocks,
                block_views(v@),
                |b: BlockView|
                    start.0 <= b.epoch.0 <= end.0 && match proposer {
                        Some(pk) => b.proposed_by == *pk,
                        None => true,
                    },
            ),
            self.healthy() ==> r is Ok,
    ;

    /// The block `id` and its ancestors, nearest first, at most `limit`
    /// of them; fails where `id` is not stored.
    fn blocks_get_parent_chain(&self, id: &BlockId, limit: usize) -> (r: Result<
        Vec<Block>,
        StorageError,
    >)
        requires
            self.inv(),
        ensures
            self.healthy() ==> (r is Ok <==> self.model().blocks.contains_key(*id)),
            r is Ok ==> self.model().blocks.contains_key(*id),
            r matches Ok(v) ==> block_views(v@) == walk(self.model().blocks, *id, limit as nat),
    ;

    /// The blocks from `end` back to, but not including, `start`, lowest
    /// first, dummy blocks only where `include_dummy`; fails where `end` is
    /// not stored.
    fn blocks_get_all_between(
        &self,
        start: &BlockId,
        end: &BlockId,
        include_dummy: bool,
    ) -> (r: Result<Vec<Block>, StorageError>)
        requires
            self.inv(),
        ensures
            self.healthy() ==> (r is Ok <==> self.model().blocks.contains_key(*end)),
            r is Ok ==> self.model().blocks.contains_key(*end),
            r matches Ok(v) ==> block_views(v@) == blocks_between(
                self.model().blocks,
                *start,
                *end,
                include_dummy,
            ),
    ;

    /// Whether a block is stored under `id`.
    fn blocks_exists(&self, id: &BlockId) -> (r: Result<bool, StorageError>)
        requires
            self.inv(),
        ensures
            r matches Ok(b) ==> b == self.model().blocks.contains_key(*id),
            self.healthy() ==> r is Ok,
    ;

    /// Whether `ancestor` is `descendant` or one of its ancestors; fails
    /// unless both are stored.
    fn blocks_is_ancestor(&self, descendant: &BlockId, ancestor: &BlockId) -> (r: Result<
        bool,
        StorageError,
    >)
        requires
            self.inv(),
        ensures
            self.healthy() ==> (r is Ok <==> (self.model().blocks.contains_key(*descendant)
                && self.model().blocks.contains_key(*ancestor))),
            r is Ok ==> (self.model().blocks.contains_key(*descendant)
                && self.model().blocks.contains_key(*ancestor)),
            r matches Ok(b) ==> b == is_ancestor(self.model().blocks, *descendant, *ancestor),
    ;

    /// The quorum certificate stored under `id`.
    fn quorum_certificates_get(&self, id: &QcId) -> (r: Result<QuorumCertificate, StorageError>)
        requires
            self.inv(),
        ensures
            match r {
                Ok(qc) => self.model().qcs.contains_key(*id) && qc == self.model().qcs[*id],
                Err(e) => (e is NotFound ==> (!self.model().qcs.contains_key(*id))) && (self.healthy() ==> e is NotFound),
            },
    ;

    /// The high-QC marker.
    fn high_qc_get(&self) -> (r: Result<HighQc, StorageError>)
        requires
            self.inv(),
        ensures
            match r {
                Ok(h) => self.model().high_qc == Some(h),
                Err(e) => (e is NotFound ==> (self.model().high_qc is None)) && (self.healthy() ==> e is NotFound),
            },
    ;

    /// The locked-block marker.
    fn locked_block_get(&self) -> (r: Result<LockedBlock, StorageError>)
        requires
            self.inv(),
        ensures
            match r {
                Ok(l) => self.model().locked == Some(l),
                Err(e) => (e is NotFound ==> (self.model().locked is None)) && (self.healthy() ==> e is NotFound),
            },
    ;

    /// The last-executed marker.
    fn last_executed_get(&self) -> (r: Result<LastExecuted, StorageError>)
        requires
            self.inv(),
        ensures
            match r {
                Ok(l) => self.model().last_executed == Some(l),
                Err(e) => (e is NotFound ==> (self.model().last_executed is None)) && (self.healthy() ==> e is NotFound),
            },
    ;

    /// The transaction stored under `id`.
    fn transactions_get(&self, id: &TransactionId) -> (r: Result<TransactionRecord, StorageError>)
        requires
            self.inv(),
        ensures
            match r {
                Ok(t) => self.model().transactions.contains_key(*id) && t@
                    == self.model().transactions[*id],
                Err(e) => (e is NotFound ==> (!self.model().transactions.contains_key(*id))) && (self.healthy() ==> e is NotFound),
            },
    ;

    /// The substate versions created or destroyed by the transaction `id`,
    /// in the order they were stored.
    fn substates_get_all_for_transaction(&self, id: &TransactionId) -> (r: Result<
        Vec<SubstateRecord>,
        StorageError,
    >)
        requires
            self.inv(),
        ensures
            r matches Ok(v) ==> v@ == substates_for(self.model().substates, *id),
            self.healthy() ==> r is Ok,
    ;

    /// The substate addresses involved in the stored transactions among
    /// `ids`, each once; transactions that are not stored are passed over.
    fn transactions_fetch_involved_shards(&self, ids: &Vec<TransactionId>) -> (r: Result<
        Vec<SubstateAddress>,
        StorageError,
    >)
        requires
            self.inv(),
        ensures
            r matches Ok(v) ==> v@.no_duplicates() && v@.to_set() == involved_shards_of(
                self.model(),
                ids@,
            ),
            self.healthy() ==> r is Ok,
    ;

    /// The stored votes for `block_id`, in the order they were stored.
    fn votes_get_for_block(&self, block_id: &BlockId) -> (r: Result<Vec<Vote>, StorageError>)
        requires
            self.inv(),
        ensures
            r matches Ok(v) ==> v@ == votes_for(self.model().votes, *block_id),
            self.healthy() ==> r is Ok,
    ;

    /// The foreign send counters stored for `block_id`.
    fn foreign_send_counters_get(&self, block_id: &BlockId) -> (r: Result<
        ForeignSendCounters,
        StorageError,
    >)
        requires
            self.inv(),
        ensures
            match r {
                Ok(c) => self.model().foreign_counters.contains_key(*block_id) && c@
                    == self.model().foreign_counters[*block_id],
                Err(e) => (e is NotFound ==> (!self.model().foreign_counters.contains_key(*block_id))) && (self.healthy() ==> e is NotFound),
            },
    ;
}

/// The write operations of a state store transaction.
pub trait StateStoreWriteTransaction: StateStoreReadTransaction {
    /// Stores `block` under its identifier; fails, changing nothing, where a
    /// block is already stored there.
    fn blocks_insert(&mut self, block: &Block) -> (r: Result<(), StorageError>)
        requires
            old(self).inv(),
        ensures
            final(self).inv(),
            final(self).healthy() == old(self).healthy(),
            old(self).healthy() ==> (r is Ok <==> !old(self).model().blocks.contains_key(block@.id)),
            r is Ok ==> !old(self).model().blocks.contains_key(block@.id),
            final(self).model() == if r is Ok {
                StoreModel {
                    blocks: old(self).model().blocks.insert(block@.id, block@),
                    block_order: old(self).model().block_order.push(block@.id),
                    ..old(self).model()
                }
            } else {
                old(self).model()
            },
    ;

    /// Sets the committed and processed flags of the block stored under
    /// `id`, each where a value is given; fails, changing nothing, where no
    /// block is stored there.
    fn blocks_set_flags(
        &mut self,
        id: &BlockId,
        is_committed: Option<bool>,
        is_processed: Option<bool>,
    ) -> (r: Result<(), StorageError>)
        requires
            old(self).inv(),
        ensures
            final(self).inv(),
            final(self).healthy() == old(self).healthy(),
            old(self).healthy() ==> (r is Ok <==> old(self).model().blocks.contains_key(*id)),
            r is Ok ==> old(self).model().blocks.contains_key(*id),
            final(self).model() == if r is Ok {
                StoreModel {
                    blocks: old(self).model().blocks.insert(
                        *id,
                        with_flags(old(self).model().blocks[*id], is_committed, is_processed),
                    ),
                    ..old(self).model()
                }
            } else {
                old(self).model()
            },
    ;

    /// Stores `qc` under its identifier; fails, changing nothing, where a
    /// certificate is already stored there.
    fn quorum_certificates_insert(&mut self, qc: &QuorumCertificate) -> (r: Result<
        (),
        StorageError,
    >)
        requires
            old(self).inv(),
        ensures
            final(self).inv(),
            final(self).healthy() == old(self).healthy(),
            old(self).healthy() ==> (r is Ok <==> !old(self).model().qcs.contains_key(qc.qc_id)),
            r is Ok ==> !old(self).model().qcs.contains_key(qc.qc_id),
            final(self).model() == if r is Ok {
                StoreModel { qcs: old(self).model().qcs.insert(qc.qc_id, *qc), ..old(self).model() }
            } else {
                old(self).model()
            },
    ;

    /// Stores `record` under its transaction identifier; fails, changing
    /// nothing, where a transaction is already stored there.
    fn transactions_insert(&mut self, record: &TransactionRecord) -> (r: Result<(), StorageError>)
        requires
            old(self).inv(),
        ensures
            final(self).inv(),
            final(self).healthy() == old(self).healthy(),
            old(self).healthy() ==> (r is Ok <==> !old(self).model().transactions.contains_key(record.transaction_id)),
            r is Ok ==> !old(self).model().transactions.contains_key(record.transaction_id),
            final(self).model() == if r is Ok {
                StoreModel {
                    transactions: old(self).model().transactions.insert(
                        record.transaction_id,
                        record@,
                    ),
                    ..old(self).model()
                }
            } else {
                old(self).model()
            },
    ;

    /// Stores the substate version `record` after those already stored.
    fn substates_insert(&mut self, record: &SubstateRecord) -> (r: Result<(), StorageError>)
        requires
            old(self).inv(),
        ensures
            final(self).inv(),
            final(self).healthy() == old(self).healthy(),
            old(self).healthy() ==> r is Ok,
            final(self).model() == if r is Ok {
                (StoreModel {
                substates: old(self).model().substates.push(*record),
                ..old(self).model()
            })
            } else {
                old(self).model()
            },
    ;

    /// Stores `vote` after those already stored.
    fn votes_insert(&mut self, vote: &Vote) -> (r: Result<(), StorageError>)
        requires
            old(self).inv(),
        ensures
            final(self).inv(),
            final(self).healthy() == old(self).healthy(),
            old(self).healthy() ==> r is Ok,
            final(self).model() == if r is Ok {
                (StoreModel {
                votes: old(self).model().votes.push(*vote),
                ..old(self).model()
            })
            } else {
                old(self).model()
            },
    ;

    /// Sets the high-QC marker.
    fn high_qc_set(&mut self, high_qc: &HighQc) -> (r: Result<(), StorageError>)
        requires
            old(self).inv(),
        ensures
            final(self).inv(),
            final(self).healthy() == old(self).healthy(),
            old(self).healthy() ==> r is Ok,
            final(self).model() == if r is Ok {
                (StoreModel { high_qc: Some(*high_qc), ..old(self).model() })
            } else {
                old(self).model()
            },
    ;

    /// Sets the locked-block marker.
    fn locked_block_set(&mut self, locked: &LockedBlock) -> (r: Result<(), StorageError>)
        requires
            old(self).inv(),
        ensures
            final(self).inv(),
            final(self).healthy() == old(self).healthy(),
            old(self).healthy() ==> r is Ok,
            final(self).model() == if r is Ok {
                (StoreModel { locked: Some(*locked), ..old(self).model() })
            } else {
                old(self).model()
            },
    ;

    /// Sets the last-executed marker.
    fn last_executed_set(&mut self, last_executed: &LastExecuted) -> (r: Result<(), StorageError>)
        requires
            old(self).inv(),
        ensures
            final(self).inv(),
            final(self).healthy() == old(self).healthy(),
            old(self).healthy() ==> r is Ok,
            final(self).model() == if r is Ok {
                (StoreModel {
                last_executed: Some(*last_executed),
                ..old(self).model()
            })
            } else {
                old(self).model()
            },
    ;

    /// Stores `counters` for `block_id`, replacing any stored before.
    fn foreign_send_counters_set(
        &mut self,
        counters: &ForeignSendCounters,
        block_id: &BlockId,
    ) -> (r: Result<(), StorageError>)
        requires
            old(self).inv(),
        ensures
            final(self).inv(),
            final(self).healthy() == old(self).healthy(),
            old(self).healthy() ==> r is Ok,
            final(self).model() == if r is Ok {
                (StoreModel {
                foreign_counters: old(self).model().foreign_counters.insert(*block_id, counters@),
                ..old(self).model()
            })
            } else {
                old(self).model()
            },
    ;
}

/// `b` with the committed and processed flags replaced where a value is
/// given.
pub open spec fn with_flags(b: BlockView, is_committed: Option<bool>, is_processed: Option<bool>) -> BlockView {
    BlockView {
        is_committed: match is_committed {
            Some(c) => c,
            None => b.is_committed,
        },
        is_processed: match is_processed {
            Some(p) => p,
            None => b.is_processed,
        },
        ..b
    }
}

/// A call of one of the block hooks: the marker and the block it was
/// handed, the store as it was when it was called, and what it returned.
pub enum HookCall<E> {
    Lock { locked: LockedBlock, block: BlockView, store: StoreModel, outcome: Result<(), E> },
    Commit {
        last_executed: LastExecuted,
        block: BlockView,
        store: StoreModel,
        outcome: Result<(), E>,
    },
}

/// A hook call to be made: which hook, handed which marker, for the block
/// with which identifier.
pub enum PlannedCall {
    Lock { locked: LockedBlock, block: BlockId },
    Commit { last_executed: LastExecuted, block: BlockId },
}

/// What a hook call returned.
pub open spec fn outcome_of<E>(c: HookCall<E>) -> Result<(), E> {
    match c {
        HookCall::Lock { outcome, .. } => outcome,
        HookCall::Commit { outcome, .. } => outcome,
    }
}

/// The block a hook call was handed.
pub open spec fn handed_block<E>(c: HookCall<E>) -> BlockView {
    match c {
        HookCall::Lock { block, .. } => block,
        HookCall::Commit { block, .. } => block,
    }
}

/// The store as it was when a hook was called.
pub open spec fn store_of<E>(c: HookCall<E>) -> StoreModel {
    match c {
        HookCall::Lock { store, .. } => store,
        HookCall::Commit { store, .. } => store,
    }
}

/// Whether a hook call is the planned one: the same hook, handed the
/// planned marker and a block with the planned identifier, whatever it
/// returned.
pub open spec fn makes_call<E>(c: HookCall<E>, p: PlannedCall) -> bool {
    match (c, p) {
        (
            HookCall::Lock { locked: l1, block: b1, .. },
            PlannedCall::Lock { locked: l2, block: b2 },
        ) => l1 == l2 && b1.id == b2,
        (
            HookCall::Commit { last_executed: e1, block: b1, .. },
            PlannedCall::Commit { last_executed: e2, block: b2 },
        ) => e1 == e2 && b1.id == b2,
        _ => false,
    }
}

/// Lock-hook calls to be made, handed `locked` and each of `ids` in order.
pub open spec fn lock_calls_of(locked: LockedBlock, ids: Seq<BlockId>) -> Seq<PlannedCall> {
    ids.map_values(|id: BlockId| PlannedCall::Lock { locked, block: id })
}

/// Commit-hook calls to be made, handed `last_executed` and each of `ids`
/// in order.
pub open spec fn commit_calls_of(last_executed: LastExecuted, ids: Seq<BlockId>) -> Seq<
    PlannedCall,
> {
    ids.map_values(|id: BlockId| PlannedCall::Commit { last_executed, block: id })
}

/// Whether `done` is how a run went through the planned hook calls `plan`:
/// the planned calls from the first on, in order, each of the planned hook
/// with its planned marker and block, every one of them succeeding but the
/// last, which may have failed.
pub open spec fn follows_plan<E>(done: Seq<HookCall<E>>, plan: Seq<PlannedCall>) -> bool {
    &&& done.len() <= plan.len()
    &&& forall|i: int| 0 <= i < done.len() ==> makes_call(#[trigger] done[i], plan[i])
    &&& forall|i: int| 0 <= i < done.len() - 1 ==> outcome_of(#[trigger] done[i]) is Ok
}

/// Whether the last of the calls `done` failed.
pub open spec fn ends_in_failure<E>(done: Seq<HookCall<E>>) -> bool {
    done.len() > 0 && outcome_of(done.last()) is Err
}

/// Whether `done` made every call of `plan`, each succeeding.
pub open spec fn completes_plan<E>(done: Seq<HookCall<E>>, plan: Seq<PlannedCall>) -> bool {
    follows_plan(done, plan) && done.len() == plan.len() && !ends_in_failure(done)
}

/// Whether `b` is the block stored under its identifier in `blocks`.
pub open spec fn stored_as(blocks: Map<BlockId, BlockView>, b: BlockView) -> bool {
    blocks.contains_key(b.id) && blocks[b.id] == b
}

/// Whether each of `calls` was handed a block as stored in `blocks`.
pub open spec fn hands_stored<E>(calls: Seq<HookCall<E>>, blocks: Map<BlockId, BlockView>) -> bool {
    forall|i: int| 0 <= i < calls.len() ==> stored_as(blocks, #[trigger] handed_block(calls[i]))
}

/// The calls in `after` that come after those in `before`.
pub open spec fn calls_since<E>(before: Seq<HookCall<E>>, after: Seq<HookCall<E>>) -> Seq<
    HookCall<E>,
> {
    after.subrange(before.len() as int, after.len() as int)
}

/// Whether the log `after` is the log `before` with calls added at its end.
pub open spec fn extends_log<E>(before: Seq<HookCall<E>>, after: Seq<HookCall<E>>) -> bool {
    before.len() <= after.len() && after.subrange(0, before.len() as int) == before
}

/// Logs extended one after the other extend the first, by the calls of
/// both extensions in turn.
pub proof fn lemma_calls_chain<E>(a: Seq<HookCall<E>>, b: Seq<HookCall<E>>, c: Seq<HookCall<E>>)
    requires
        extends_log(a, b),
        extends_log(b, c),
    ensures
        extends_log(a, c),
        calls_since(a, c) == calls_since(a, b) + calls_since(b, c),
{
    assert(c.subrange(0, a.len() as int) =~= c.subrange(0, b.len() as int).subrange(0, a.len() as int));
    assert(calls_since(a, c) =~= calls_since(a, b) + calls_since(b, c));
}

/// A log extends itself, by no calls.
pub proof fn lemma_calls_none<E>(a: Seq<HookCall<E>>)
    ensures
        extends_log(a, a),
        calls_since(a, a) == Seq::<HookCall<E>>::empty(),
{
    assert(a.subrange(0, a.len() as int) =~= a);
    assert(calls_since(a, a) =~= Seq::<HookCall<E>>::empty());
}

/// A log with one call pushed extends it by that call.
pub proof fn lemma_calls_push<E>(a: Seq<HookCall<E>>, x: HookCall<E>)
    ensures
        extends_log(a, a.push(x)),
        calls_since(a, a.push(x)) == seq![x],
{
    assert(a.push(x).subrange(0, a.len() as int) =~= a);
    assert(calls_since(a, a.push(x)) =~= seq![x]);
}

/// A run that went through the start of a plan went through the start of
/// any longer plan.
pub proof fn lemma_follows_longer<E>(done: Seq<HookCall<E>>, plan: Seq<PlannedCall>, more: Seq<PlannedCall>)
    requires
        follows_plan(done, plan),
    ensures
        follows_plan(done, plan + more),
{
    assert forall|i: int| 0 <= i < done.len() implies (plan + more)[i] == plan[i] by {}
}

/// A run that made every call of a plan, each succeeding, and then the
/// next planned call, follows the longer plan; it made every call of it
/// where that call succeeded, and ends in failure where it failed.
pub proof fn lemma_follows_step<E>(done: Seq<HookCall<E>>, plan: Seq<PlannedCall>, x: HookCall<E>, y: PlannedCall)
    requires
        completes_plan(done, plan),
        makes_call(x, y),
    ensures
        follows_plan(done.push(x), plan.push(y)),
        outcome_of(x) is Ok ==> completes_plan(done.push(x), plan.push(y)),
        ends_in_failure(done.push(x)) <==> outcome_of(x) is Err,
        done.push(x).last() == x,
{
    assert(done.push(x).last() == x);
    if done.len() > 0 {
        assert(done.last() == done[done.len() - 1]);
    }
    assert forall|i: int| 0 <= i < done.len() + 1 implies makes_call(#[trigger] done.push(x)[i], plan.push(y)[i]) by {
        if i < done.len() {
            assert(done.push(x)[i] == done[i]);
            assert(plan.push(y)[i] == plan[i]);
        }
    }
    assert forall|i: int| 0 <= i < done.len() implies outcome_of(#[trigger] done.push(x)[i]) is Ok by {
        assert(done.push(x)[i] == done[i]);
        if i < done.len() - 1 {
        } else {
            assert(done[i] == done.last());
        }
    }
}

/// Planned lock calls are lock calls.
pub proof fn lemma_lock_calls_kind(locked: LockedBlock, ids: Seq<BlockId>)
    ensures
        forall|i: int| 0 <= i < ids.len() ==> #[trigger] lock_calls_of(locked, ids)[i] is Lock,
{
}

/// Planned commit calls are commit calls.
pub proof fn lemma_commit_calls_kind(last_executed: LastExecuted, ids: Seq<BlockId>)
    ensures
        forall|i: int|
            0 <= i < ids.len() ==> #[trigger] commit_calls_of(last_executed, ids)[i] is Commit,
{
}

/// A run that made every call of one plan and then went through the start
/// of another went through the start of the two plans one after the other,
/// and made every call of both where it made every call of the second.
pub proof fn lemma_follows_after<E>(
    first: Seq<HookCall<E>>,
    first_plan: Seq<PlannedCall>,
    done: Seq<HookCall<E>>,
    plan: Seq<PlannedCall>,
)
    requires
        completes_plan(first, first_plan),
        follows_plan(done, plan),
    ensures
        follows_plan(first + done, first_plan + plan),
        done.len() > 0 ==> (first + done).last() == done.last(),
        done.len() > 0 ==> (ends_in_failure(first + done) <==> ends_in_failure(done)),
        done.len() == 0 ==> first + done == first,
        completes_plan(done, plan) ==> completes_plan(first + done, first_plan + plan),
{
    if first.len() > 0 {
        assert(first.last() == first[first.len() - 1]);
    }
    assert forall|i: int| 0 <= i < first.len() + done.len() implies makes_call(
        #[trigger] (first + done)[i],
        (first_plan + plan)[i],
    ) by {
        if i < first.len() {
            assert((first + done)[i] == first[i]);
            assert((first_plan + plan)[i] == first_plan[i]);
        } else {
            assert((first + done)[i] == done[i - first.len()]);
            assert((first_plan + plan)[i] == plan[i - first.len()]);
        }
    }
    assert forall|i: int| 0 <= i < first.len() + done.len() - 1 implies outcome_of(
        #[trigger] (first + done)[i],
    ) is Ok by {
        if i < first.len() {
            assert((first + done)[i] == first[i]);
            if i == first.len() - 1 {
                assert(first[i] == first.last());
            }
        } else {
            assert((first + done)[i] == done[i - first.len()]);
        }
    }
    if done.len() == 0 {
        assert(first + done =~= first);
    } else {
        assert((first + done).last() == (first + done)[first.len() + done.len() - 1]);
        assert(done.last() == done[done.len() - 1]);
    }
}

/// The actions taken on blocks as they become locked or committed. Each
/// may write to the store, the flags of blocks among what it may change,
/// but keeps the chain, the certificates and the markers as they were.
pub trait BlockHooks<TTx: StateStoreWriteTransaction, E> {
    /// The calls of the hooks so far, in order.
    spec fn calls(&self) -> Seq<HookCall<E>>;

    /// Called for each block that becomes locked, lowest first, with the
    /// locked-block marker as it was before.
    fn on_lock_block(&mut self, tx: &mut TTx, locked: &LockedBlock, block: &Block) -> (r: Result<
        (),
        E,
    >)
        requires
            old(tx).inv(),
        ensures
            final(tx).inv(),
            final(tx).model().keeps_chain_of(old(tx).model()),
            final(tx).healthy() == old(tx).healthy(),
            final(self).calls() == old(self).calls().push(
                HookCall::Lock { locked: *locked, block: block@, store: old(tx).model(), outcome: r },
            ),
    ;

    /// Called for each block that becomes committed, lowest first, with
    /// the last-executed marker as it was before.
    fn on_commit(&mut self, tx: &mut TTx, last_executed: &LastExecuted, block: &Block) -> (r: Result<
        (),
        E,
    >)
        requires
            old(tx).inv(),
        ensures
            final(tx).inv(),
            final(tx).model().keeps_chain_of(old(tx).model()),
            final(tx).healthy() == old(tx).healthy(),
            final(self).calls() == old(self).calls().push(
                HookCall::Commit {
                    last_executed: *last_executed,
                    block: block@,
                    store: old(tx).model(),
                    outcome: r,
                },
            ),
    ;
}

} // verus!
