//! A state store held in memory, and hooks that record the blocks they
//! are called for.
use vstd::prelude::*;

use crate::block::{Block, BlockId, BlockView};
use crate::error::StorageError;
use crate::foreign_send_counters::ForeignSendCounters;
use crate::command::TransactionId;
use crate::quorum::{HighQc, LastExecuted, LockedBlock, QcId, QuorumCertificate};
use crate::common::{Epoch, NodeHeight, PublicKey};
use crate::state_store::{
    add_fee, of_epoch_by, ancestor_at, block_views, steps_before,
    substates_for, touched_by, walk, with_flags, same_links, BlockHooks, HookCall, StateStoreReadTransaction,
    StateStoreWriteTransaction, StoreModel, votes_for, involves, involved_shards_of, blocks_in_order,
    blocks_page, SortOrder,
};
use crate::vote::Vote;
use crate::transaction::{SubstateAddress, SubstateRecord, TransactionRecord, TransactionRecordView};

verus! {

/// A state store held in memory. Each table is a vector of records, none
/// of which shares its key with another.
pub struct MemoryStateStore {
    blocks: Vec<Block>,
    qcs: Vec<QuorumCertificate>,
    high_qc: Option<HighQc>,
    locked: Option<LockedBlock>,
    last_executed: Option<LastExecuted>,
    foreign_counters: Vec<(BlockId, ForeignSendCounters)>,
    transactions: Vec<TransactionRecord>,
    substates: Vec<SubstateRecord>,
    votes: Vec<Vote>,
    blocks_model: Ghost<Map<BlockId, BlockView>>,
    qcs_model: Ghost<Map<QcId, QuorumCertificate>>,
    counters_model: Ghost<Map<BlockId, Map<u32, u64>>>,
    transactions_model: Ghost<Map<TransactionId, TransactionRecordView>>,
}

/// The walk from `d` through parents, once at `c` after `n` steps, goes on
/// from `c`.
proof fn lemma_ancestor_shift(blocks: Map<BlockId, BlockView>, d: BlockId, n: nat, k: nat)
    ensures
        ancestor_at(blocks, d, n + k) == match ancestor_at(blocks, d, n) {
            Some(c) => ancestor_at(blocks, c, k),
            None => None,
        },
    decreases n,
{
    if n > 0 && blocks.contains_key(d) && blocks[d].parent != d {
        lemma_ancestor_shift(blocks, blocks[d].parent, (n - 1) as nat, k);
        assert((n + k - 1) as nat == (n - 1) as nat + k);
    }
}

/// Once the walk from `d` has ended, walking further adds nothing.
proof fn lemma_walk_stops(blocks: Map<BlockId, BlockView>, d: BlockId, n: nat, m: nat)
    requires
        ancestor_at(blocks, d, n) is None,
        n <= m,
    ensures
        walk(blocks, d, m) == walk(blocks, d, n),
    decreases m,
{
    if m > n {
        lemma_walk_stops(blocks, d, n, (m - 1) as nat);
        lemma_ancestor_shift(blocks, d, n, (m - 1 - n) as nat);
        assert(n + (m - 1 - n) as nat == (m - 1) as nat);
    }
}

impl MemoryStateStore {
    /// The blocks `walkv` in reverse order, leaving out dummy blocks unless
    /// `include_dummy`.
    fn reverse_filter(walkv: &Vec<Block>, include_dummy: bool) -> (r: Vec<Block>)
        ensures
            block_views(r@) == block_views(walkv@).reverse().filter(
                |b: BlockView| include_dummy || !b.is_dummy,
            ),
    {
        let ghost pred = |b: BlockView| include_dummy || !b.is_dummy;
        let ghost rev = block_views(walkv@).reverse();
        let w = walkv.len();
        let mut r: Vec<Block> = Vec::new();
        let mut t: usize = 0;
        while t < w
            invariant
                w == walkv@.len(),
                rev == block_views(walkv@).reverse(),
                pred == (|b: BlockView| include_dummy || !b.is_dummy),
                t <= w,
                block_views(r@) == rev.subrange(0, t as int).filter(pred),
            decreases w - t,
        {
            let b = &walkv[w - 1 - t];
            assert(rev[t as int] == b@);
            let ghost before = r@;
            assert(rev.subrange(0, t + 1).drop_last() =~= rev.subrange(0, t as int));
            if include_dummy || !b.is_dummy() {
                r.push(b.clone());
                assert(block_views(r@) =~= block_views(before).push(b@));
            }
            assert(rev.subrange(0, t + 1).filter(pred) == if pred(b@) {
                rev.subrange(0, t as int).filter(pred).push(b@)
            } else {
                rev.subrange(0, t as int).filter(pred)
            }) by {
                reveal_with_fuel(Seq::filter, 1);
                assert(rev.subrange(0, t + 1).last() == b@);
            }
            t = t + 1;
        }
        assert(rev.subrange(0, w as int) =~= rev);
        r
    }

    /// An empty store with no markers set.
    pub fn new() -> (r: Self)
        ensures
            r.inv(),
            r.model() == (StoreModel {
                blocks: Map::empty(),
                block_order: Seq::empty(),
                qcs: Map::empty(),
                high_qc: None,
                locked: None,
                last_executed: None,
                foreign_counters: Map::empty(),
                transactions: Map::empty(),
                substates: Seq::empty(),
                votes: Seq::empty(),
            }),
    {
        let r = MemoryStateStore {
            blocks: Vec::new(),
            qcs: Vec::new(),
            high_qc: None,
            locked: None,
            last_executed: None,
            foreign_counters: Vec::new(),
            transactions: Vec::new(),
            substates: Vec::new(),
            votes: Vec::new(),
            blocks_model: Ghost(Map::empty()),
            qcs_model: Ghost(Map::empty()),
            counters_model: Ghost(Map::empty()),
            transactions_model: Ghost(Map::empty()),
        };
        assert(r.blocks@.map_values(|b: Block| b@.id) =~= Seq::empty());
        r
    }

    /// The index of the block stored under `id`.
    fn find_block(&self, id: &BlockId) -> (r: Option<usize>)
        requires
            self.inv(),
        ensures
            r is Some <==> self.model().blocks.contains_key(*id),
            r matches Some(i) ==> i < self.blocks@.len() && self.blocks@[i as int]@.id == *id
                && self.model().blocks[*id] == self.blocks@[i as int]@,
    {
        let mut i: usize = 0;
        while i < self.blocks.len()
            invariant
                i <= self.blocks@.len(),
                forall|j: int| 0 <= j < i ==> self.blocks@[j]@.id != *id,
                self.inv(),
            decreases self.blocks@.len() - i,
        {
            if self.blocks[i].id().equals(id) {
                assert(self.blocks@[i as int] == self.blocks@[i as int]);
                return Some(i);
            }
            i = i + 1;
        }
        None
    }

    /// The index of the certificate stored under `id`.
    fn find_qc(&self, id: &QcId) -> (r: Option<usize>)
        requires
            self.inv(),
        ensures
            r is Some <==> self.model().qcs.contains_key(*id),
            r matches Some(i) ==> i < self.qcs@.len() && self.qcs@[i as int].qc_id == *id
                && self.model().qcs[*id] == self.qcs@[i as int],
    {
        let mut i: usize = 0;
        while i < self.qcs.len()
            invariant
                i <= self.qcs@.len(),
                forall|j: int| 0 <= j < i ==> self.qcs@[j].qc_id != *id,
                self.inv(),
            decreases self.qcs@.len() - i,
        {
            if self.qcs[i].qc_id.equals(id) {
                assert(self.qcs@[i as int] == self.qcs@[i as int]);
                return Some(i);
            }
            i = i + 1;
        }
        None
    }

    /// The index of the counters stored for `id`.
    fn find_counters(&self, id: &BlockId) -> (r: Option<usize>)
        requires
            self.inv(),
        ensures
            r is Some <==> self.model().foreign_counters.contains_key(*id),
            r matches Some(i) ==> i < self.foreign_counters@.len()
                && self.foreign_counters@[i as int].0 == *id
                && self.model().foreign_counters[*id] == self.foreign_counters@[i as int].1@,
    {
        let mut i: usize = 0;
        while i < self.foreign_counters.len()
            invariant
                i <= self.foreign_counters@.len(),
                forall|j: int| 0 <= j < i ==> self.foreign_counters@[j].0 != *id,
                self.inv(),
            decreases self.foreign_counters@.len() - i,
        {
            if self.foreign_counters[i].0.equals(id) {
                assert(self.foreign_counters@[i as int] == self.foreign_counters@[i as int]);
                return Some(i);
            }
            i = i + 1;
        }
        None
    }
}

impl MemoryStateStore {
    /// Each block record is in the block model under its identifier, and
    /// the model holds nothing else; no two records share an identifier.
    closed spec fn blocks_inv(&self) -> bool {
        &&& forall|i: int|
            #![trigger self.blocks@[i]]
            0 <= i < self.blocks@.len() ==> self.blocks_model@.contains_key(self.blocks@[i]@.id)
                && self.blocks_model@[self.blocks@[i]@.id] == self.blocks@[i]@
        &&& forall|k: BlockId| #[trigger]
            self.blocks_model@.contains_key(k) ==> exists|i: int|
                #![trigger self.blocks@[i]]
                0 <= i < self.blocks@.len() && self.blocks@[i]@.id == k
        &&& forall|i: int, j: int|
            #![trigger self.blocks@[i], self.blocks@[j]]
            0 <= i < self.blocks@.len() && 0 <= j < self.blocks@.len() && i != j
                ==> self.blocks@[i]@.id != self.blocks@[j]@.id
    }

    /// Each certificate record is in the certificate model under its
    /// identifier, and the model holds nothing else.
    closed spec fn qcs_inv(&self) -> bool {
        &&& forall|i: int|
            #![trigger self.qcs@[i]]
            0 <= i < self.qcs@.len() ==> self.qcs_model@.contains_key(self.qcs@[i].qc_id)
                && self.qcs_model@[self.qcs@[i].qc_id] == self.qcs@[i]
        &&& forall|k: QcId| #[trigger]
            self.qcs_model@.contains_key(k) ==> exists|i: int|
                #![trigger self.qcs@[i]]
                0 <= i < self.qcs@.len() && self.qcs@[i].qc_id == k
    }

    /// Each counters record is in the counters model under its block, and
    /// the model holds nothing else; no two records share a block.
    closed spec fn counters_inv(&self) -> bool {
        &&& forall|i: int|
            #![trigger self.foreign_counters@[i]]
            0 <= i < self.foreign_counters@.len() ==> self.counters_model@.contains_key(
                self.foreign_counters@[i].0,
            ) && self.counters_model@[self.foreign_counters@[i].0]
                == self.foreign_counters@[i].1@
        &&& forall|k: BlockId| #[trigger]
            self.counters_model@.contains_key(k) ==> exists|i: int|
                #![trigger self.foreign_counters@[i]]
                0 <= i < self.foreign_counters@.len() && self.foreign_counters@[i].0 == k
        &&& forall|i: int, j: int|
            #![trigger self.foreign_counters@[i], self.foreign_counters@[j]]
            0 <= i < self.foreign_counters@.len() && 0 <= j < self.foreign_counters@.len() && i
                != j ==> self.foreign_counters@[i].0 != self.foreign_counters@[j].0
    }

    /// Each transaction record is in the transaction model under its
    /// identifier, and the model holds nothing else.
    closed spec fn transactions_inv(&self) -> bool {
        &&& forall|i: int|
            #![trigger self.transactions@[i]]
            0 <= i < self.transactions@.len() ==> self.transactions_model@.contains_key(
                self.transactions@[i].transaction_id,
            ) && self.transactions_model@[self.transactions@[i].transaction_id]
                == self.transactions@[i]@
        &&& forall|k: TransactionId| #[trigger]
            self.transactions_model@.contains_key(k) ==> exists|i: int|
                #![trigger self.transactions@[i]]
                0 <= i < self.transactions@.len() && self.transactions@[i].transaction_id == k
    }

    /// The index of the transaction stored under `id`.
    fn find_transaction(&self, id: &TransactionId) -> (r: Option<usize>)
        requires
            self.inv(),
        ensures
            r is Some <==> self.model().transactions.contains_key(*id),
            r matches Some(i) ==> i < self.transactions@.len()
                && self.transactions@[i as int].transaction_id == *id
                && self.model().transactions[*id] == self.transactions@[i as int]@,
    {
        let mut i: usize = 0;
        while i < self.transactions.len()
            invariant
                i <= self.transactions@.len(),
                forall|j: int| 0 <= j < i ==> self.transactions@[j].transaction_id != *id,
                self.inv(),
            decreases self.transactions@.len() - i,
        {
            if self.transactions[i].transaction_id.equals(id) {
                assert(self.transactions@[i as int] == self.transactions@[i as int]);
                return Some(i);
            }
            i = i + 1;
        }
        None
    }

    /// Whether `v` holds the address `a`.
    fn holds_address(v: &Vec<SubstateAddress>, a: &SubstateAddress) -> (r: bool)
        ensures
            r == v@.contains(*a),
    {
        let mut i: usize = 0;
        while i < v.len()
            invariant
                i <= v@.len(),
                forall|j: int| 0 <= j < i ==> v@[j] != *a,
            decreases v@.len() - i,
        {
            if v[i].equals(a) {
                return true;
            }
            i = i + 1;
        }
        false
    }

    /// A store whose tables and models are those of `before` keeps its
    /// invariant, whatever its markers.
    proof fn lemma_frame(&self, before: &Self)
        requires
            before.inv(),
            self.blocks == before.blocks,
            self.blocks_model == before.blocks_model,
            self.qcs == before.qcs,
            self.qcs_model == before.qcs_model,
            self.foreign_counters == before.foreign_counters,
            self.counters_model == before.counters_model,
            self.transactions == before.transactions,
            self.transactions_model == before.transactions_model,
        ensures
            self.inv(),
    {
        assert(self.blocks_inv());
        assert(self.qcs_inv());
        assert(self.counters_inv());
        assert(self.transactions_inv());
    }

    /// As many blocks are stored as the block table holds records.
    proof fn lemma_blocks_len(&self)
        requires
            self.inv(),
        ensures
            self.model().blocks.len() == self.blocks@.len(),
    {
        let ids = self.blocks@.map_values(|b: Block| b@.id);
        assert(ids.no_duplicates()) by {
            assert forall|i: int, j: int|
                0 <= i < ids.len() && 0 <= j < ids.len() && i != j implies ids[i] != ids[j] by {
                assert(self.blocks@[i] == self.blocks@[i]);
                assert(self.blocks@[j] == self.blocks@[j]);
            }
        }
        ids.unique_seq_to_set();
        assert forall|k: BlockId| #[trigger]
            self.blocks_model@.dom().contains(k) <==> ids.to_set().contains(k) by {
            if self.blocks_model@.contains_key(k) {
                let i = choose|i: int|
                    #![trigger self.blocks@[i]]
                    0 <= i < self.blocks@.len() && self.blocks@[i]@.id == k;
                assert(ids[i] == k);
            }
            if ids.contains(k) {
                let i = choose|i: int| 0 <= i < ids.len() && ids[i] == k;
                assert(self.blocks@[i] == self.blocks@[i]);
            }
        }
        assert(self.blocks_model@.dom() =~= ids.to_set());
    }
}

impl StateStoreReadTransaction for MemoryStateStore {
    closed spec fn model(&self) -> StoreModel {
        StoreModel {
            blocks: self.blocks_model@,
            block_order: self.blocks@.map_values(|b: Block| b@.id),
            qcs: self.qcs_model@,
            high_qc: self.high_qc,
            locked: self.locked,
            last_executed: self.last_executed,
            foreign_counters: self.counters_model@,
            transactions: self.transactions_model@,
            substates: self.substates@,
            votes: self.votes@,
        }
    }

    closed spec fn inv(&self) -> bool {
        &&& self.blocks_inv()
        &&& self.qcs_inv()
        &&& self.counters_inv()
        &&& self.transactions_inv()
    }

    open spec fn healthy(&self) -> bool {
        true
    }

    proof fn lemma_keyed_by_id(&self) {
        assert forall|k: BlockId| #[trigger] self.model().blocks.contains_key(k) implies self.model().blocks[k].id == k by {
            let i = choose|i: int| #![trigger self.blocks@[i]] 0 <= i < self.blocks@.len() && self.blocks@[i]@.id == k;
            assert(self.blocks@[i] == self.blocks@[i]);
        }
        assert forall|k: QcId| #[trigger] self.model().qcs.contains_key(k) implies self.model().qcs[k].qc_id == k by {
            let i = choose|i: int| #![trigger self.qcs@[i]] 0 <= i < self.qcs@.len() && self.qcs@[i].qc_id == k;
            assert(self.qcs@[i] == self.qcs@[i]);
        }
        assert forall|t: TransactionId| #[trigger] self.model().transactions.contains_key(t) implies self.model().transactions[t].transaction_id == t by {
            let i = choose|i: int| #![trigger self.transactions@[i]] 0 <= i < self.transactions@.len() && self.transactions@[i].transaction_id == t;
            assert(self.transactions@[i] == self.transactions@[i]);
        }
    }

    fn blocks_get(&self, id: &BlockId) -> (r: Result<Block, StorageError>) {
        match self.find_block(id) {
            Some(i) => Ok(self.blocks[i].clone()),
            None => Err(
                StorageError::NotFound { item: String::from_str("Block"), key: id.to_hex() },
            ),
        }
    }

    fn blocks_get_tip(&self) -> (r: Result<Block, StorageError>) {
        proof {
            self.lemma_blocks_len();
        }
        if self.blocks.len() == 0 {
            return Err(
                StorageError::NotFound {
                    item: String::from_str("Block"),
                    key: String::from_str("tip"),
                },
            );
        }
        let mut best: usize = 0;
        let mut i: usize = 1;
        while i < self.blocks.len()
            invariant
                self.inv(),
                best < i <= self.blocks@.len(),
                forall|j: int|
                    0 <= j < i ==> #[trigger] self.blocks@[j]@.height.0 <= self.blocks@[best as int]@.height.0,
            decreases self.blocks@.len() - i,
        {
            if self.blocks[i].height().0 > self.blocks[best].height().0 {
                best = i;
            }
            i = i + 1;
        }
        let r = self.blocks[best].clone();
        assert(self.blocks@[best as int] == self.blocks@[best as int]);
        assert forall|k: BlockId| #[trigger]
            self.model().blocks.contains_key(k) implies self.model().blocks[k].height.0
                <= r@.height.0 by {
            let idx = choose|idx: int|
                #![trigger self.blocks@[idx]]
                0 <= idx < self.blocks@.len() && self.blocks@[idx]@.id == k;
            assert(self.blocks@[idx]@.height.0 <= self.blocks@[best as int]@.height.0);
        }
        Ok(r)
    }

    fn blocks_max_height(&self) -> (r: Result<NodeHeight, StorageError>) {
        match self.blocks_get_tip() {
            Ok(b) => {
                assert(self.model().blocks.contains_key(b@.id));
                Ok(b.height())
            },
            Err(e) => Err(e),
        }
    }

    fn blocks_get_total_leader_fee_for_epoch(
        &self,
        epoch: Epoch,
        validator_public_key: &PublicKey,
    ) -> (r: Result<u64, StorageError>) {
        let ghost blocks = self.model().blocks;
        let ghost f = add_fee(blocks);
        let ghost p = of_epoch_by(blocks, epoch, *validator_public_key);
        let ghost mut seen: Set<BlockId> = Set::empty();
        let mut sum: u128 = 0;
        let mut i: usize = 0;
        proof {
            vstd::set::fold::lemma_fold_empty(0int, f);
        }
        while i < self.blocks.len()
            invariant
                self.inv(),
                blocks == self.model().blocks,
                f == add_fee(blocks),
                p == of_epoch_by(blocks, epoch, *validator_public_key),
                i <= self.blocks@.len(),
                seen.finite(),
                forall|k: BlockId|
                    #[trigger] seen.contains(k) <==> (exists|idx: int|
                        #![trigger self.blocks@[idx]]
                        0 <= idx < i && self.blocks@[idx]@.id == k && p(k)),
                sum == seen.fold(0int, f),
                sum <= i * 0xffff_ffff_ffff_ffffu128,
            decreases self.blocks@.len() - i,
        {
            assert(self.blocks@[i as int] == self.blocks@[i as int]);
            let b = &self.blocks[i];
            let ghost k = b@.id;
            let ghost before = seen;
            if b.epoch() == epoch && b.proposed_by().equals(validator_public_key) {
                assert(p(k));
                assert(!before.contains(k)) by {
                    if before.contains(k) {
                        let idx = choose|idx: int|
                            #![trigger self.blocks@[idx]]
                            0 <= idx < i && self.blocks@[idx]@.id == k && p(k);
                        assert(self.blocks@[idx] == self.blocks@[idx]);
                    }
                }
                proof {
                    vstd::set::fold::lemma_fold_insert(before, 0int, f, k);
                    seen = before.insert(k);
                }
                assert(i * 0xffff_ffff_ffff_ffffu128 + 0xffff_ffff_ffff_ffffu128 == (i + 1)
                    * 0xffff_ffff_ffff_ffffu128) by (nonlinear_arith);
                assert((i + 1) * 0xffff_ffff_ffff_ffffu128 <= 0x1_0000_0000_0000_0000u128
                    * 0xffff_ffff_ffff_ffffu128) by (nonlinear_arith)
                    requires
                        i + 1 <= 0x1_0000_0000_0000_0000u128,
                ;
                sum = sum + b.total_leader_fee() as u128;
            } else {
                assert(!p(k));
            }
            assert forall|x: BlockId| #[trigger] seen.contains(x) <==> (exists|idx: int|
                #![trigger self.blocks@[idx]]
                0 <= idx < i + 1 && self.blocks@[idx]@.id == x && p(x)) by {
                if seen.contains(x) && !before.contains(x) {
                    assert(self.blocks@[i as int]@.id == x);
                }
                if exists|idx: int|
                    #![trigger self.blocks@[idx]]
                    0 <= idx < i + 1 && self.blocks@[idx]@.id == x && p(x) {
                    let idx = choose|idx: int|
                        #![trigger self.blocks@[idx]]
                        0 <= idx < i + 1 && self.blocks@[idx]@.id == x && p(x);
                    if idx < i {
                        assert(before.contains(x));
                    }
                }
            }
            assert((i + 1) * 0xffff_ffff_ffff_ffffu128 == i * 0xffff_ffff_ffff_ffffu128
                + 0xffff_ffff_ffff_ffffu128) by (nonlinear_arith);
            i = i + 1;
        }
        assert(seen =~= blocks.dom().filter(p)) by {
            assert forall|x: BlockId| seen.contains(x) <==> blocks.dom().filter(p).contains(x) by {
                if blocks.dom().filter(p).contains(x) {
                    let idx = choose|idx: int|
                        #![trigger self.blocks@[idx]]
                        0 <= idx < self.blocks@.len() && self.blocks@[idx]@.id == x;
                }
                if seen.contains(x) {
                    let idx = choose|idx: int|
                        #![trigger self.blocks@[idx]]
                        0 <= idx < i && self.blocks@[idx]@.id == x && p(x);
                    assert(self.blocks@[idx] == self.blocks@[idx]);
                }
            }
        }
        if sum > 0xffff_ffff_ffff_ffffu128 {
            return Err(
                StorageError::QueryError {
                    reason: String::from_str("total leader fee does not fit"),
                },
            );
        }
        Ok(sum as u64)
    }

    fn blocks_get_paginated(&self, limit: u64, offset: u64, ordering: Option<SortOrder>) -> (r:
        Result<Vec<Block>, StorageError>) {
        let ghost m = self.model();
        let ghost all = blocks_in_order(m, ordering);
        let n = self.blocks.len();
        let descending = match ordering {
            Some(SortOrder::Descending) => true,
            _ => false,
        };
        let start: usize = if offset <= n as u64 {
            offset as usize
        } else {
            n
        };
        let end: usize = if limit <= (n - start) as u64 {
            start + limit as usize
        } else {
            n
        };
        assert(all.len() == n);
        assert(all.subrange(start as int, end as int) == blocks_page(m, limit, offset, ordering));
        let mut r: Vec<Block> = Vec::new();
        let mut p: usize = start;
        while p < end
            invariant
                self.inv(),
                m == self.model(),
                all == blocks_in_order(m, ordering),
                n == self.blocks@.len(),
                all.len() == n,
                descending == (ordering == Some(SortOrder::Descending)),
                start <= p <= end <= n,
                block_views(r@) == all.subrange(start as int, p as int),
            decreases end - p,
        {
            let idx = if descending {
                n - 1 - p
            } else {
                p
            };
            let b = self.blocks[idx].clone();
            assert(self.blocks@[idx as int] == self.blocks@[idx as int]);
            assert(all[p as int] == b@);
            let ghost before = r@;
            r.push(b);
            assert(block_views(r@) =~= block_views(before).push(b@));
            assert(all.subrange(start as int, p + 1) =~= all.subrange(start as int, p as int).push(b@));
            p = p + 1;
        }
        Ok(r)
    }

    fn blocks_get_count(&self) -> (r: Result<i64, StorageError>) {
        proof {
            self.lemma_blocks_len();
        }
        let n = self.blocks.len();
        if (n as u64) > 0x7fff_ffff_ffff_ffffu64 {
            return Err(
                StorageError::QueryError {
                    reason: String::from_str("blocks_get_count: too many blocks"),
                },
            );
        }
        Ok(n as i64)
    }

    fn blocks_get_all_by_parent(&self, parent: &BlockId) -> (r: Result<Vec<Block>, StorageError>) {
        let mut r: Vec<Block> = Vec::new();
        let mut i: usize = 0;
        while i < self.blocks.len()
            invariant
                self.inv(),
                i <= self.blocks@.len(),
                forall|j: int|
                    0 <= j < r@.len() ==> {
                        &&& self.model().blocks.contains_key(#[trigger] r@[j]@.id)
                        &&& self.model().blocks[r@[j]@.id] == r@[j]@
                        &&& r@[j]@.parent == *parent
                        &&& exists|idx: int|
                            #![trigger self.blocks@[idx]]
                            0 <= idx < i && self.blocks@[idx]@.id == r@[j]@.id
                    },
                forall|idx: int|
                    #![trigger self.blocks@[idx]]
                    0 <= idx < i && self.blocks@[idx]@.parent == *parent ==> exists|j: int|
                        0 <= j < r@.len() && r@[j]@.id == self.blocks@[idx]@.id,
                forall|a: int, b: int| 0 <= a < b < r@.len() ==> r@[a]@.id != r@[b]@.id,
            decreases self.blocks@.len() - i,
        {
            assert(self.blocks@[i as int] == self.blocks@[i as int]);
            let ghost old_r = r@;
            if self.blocks[i].parent().equals(parent) {
                r.push(self.blocks[i].clone());
                assert forall|a: int, b: int| 0 <= a < b < r@.len() implies r@[a]@.id
                    != r@[b]@.id by {
                    if b == r@.len() - 1 {
                        let idx = choose|idx: int|
                            #![trigger self.blocks@[idx]]
                            0 <= idx < i && self.blocks@[idx]@.id == old_r[a]@.id;
                        assert(self.blocks@[idx] == self.blocks@[idx]);
                    }
                }
                assert(r@[r@.len() - 1]@.id == self.blocks@[i as int]@.id);
            }
            assert forall|idx: int|
                #![trigger self.blocks@[idx]]
                0 <= idx < i + 1 && self.blocks@[idx]@.parent == *parent implies exists|j: int|
                    0 <= j < r@.len() && r@[j]@.id == self.blocks@[idx]@.id by {
                if idx < i {
                    let j = choose|j: int| 0 <= j < old_r.len() && old_r[j]@.id == self.blocks@[idx]@.id;
                    assert(r@[j] == old_r[j]);
                } else {
                    assert(r@[r@.len() - 1]@.id == self.blocks@[idx]@.id);
                }
            }
            i = i + 1;
        }
        let ghost views = block_views(r@);
        assert forall|k: BlockId| #[trigger]
            self.model().blocks.contains_key(k) && self.model().blocks[k].parent == *parent
                implies exists|j: int| 0 <= j < views.len() && views[j].id == k by {
            let idx = choose|idx: int|
                #![trigger self.blocks@[idx]]
                0 <= idx < self.blocks@.len() && self.blocks@[idx]@.id == k;
            let j = choose|j: int| 0 <= j < r@.len() && r@[j]@.id == self.blocks@[idx]@.id;
            assert(views[j].id == k);
        }
        Ok(r)
    }

    fn blocks_get_any_with_epoch_range(
        &self,
        start: Epoch,
        end: Epoch,
        proposer: Option<&PublicKey>,
    ) -> (r: Result<Vec<Block>, StorageError>) {
        let ghost p = |b: BlockView|
            start.0 <= b.epoch.0 <= end.0 && match proposer {
                Some(pk) => b.proposed_by == *pk,
                None => true,
            };
        let mut r: Vec<Block> = Vec::new();
        let mut i: usize = 0;
        while i < self.blocks.len()
            invariant
                self.inv(),
                p == (|b: BlockView|
                    start.0 <= b.epoch.0 <= end.0 && match proposer {
                        Some(pk) => b.proposed_by == *pk,
                        None => true,
                    }),
                i <= self.blocks@.len(),
                forall|j: int|
                    0 <= j < r@.len() ==> {
                        &&& self.model().blocks.contains_key(#[trigger] r@[j]@.id)
                        &&& self.model().blocks[r@[j]@.id] == r@[j]@
                        &&& p(r@[j]@)
                        &&& exists|idx: int|
                            #![trigger self.blocks@[idx]]
                            0 <= idx < i && self.blocks@[idx]@.id == r@[j]@.id
                    },
                forall|idx: int|
                    #![trigger self.blocks@[idx]]
                    0 <= idx < i && p(self.blocks@[idx]@) ==> exists|j: int|
                        0 <= j < r@.len() && r@[j]@.id == self.blocks@[idx]@.id,
                forall|a: int, b: int| 0 <= a < b < r@.len() ==> r@[a]@.id != r@[b]@.id,
            decreases self.blocks@.len() - i,
        {
            assert(self.blocks@[i as int] == self.blocks@[i as int]);
            let epoch = self.blocks[i].epoch();
            let by_proposer = match proposer {
                Some(pk) => self.blocks[i].proposed_by().equals(pk),
                None => true,
            };
            let ghost old_r = r@;
            if start.0 <= epoch.0 && epoch.0 <= end.0 && by_proposer {
                r.push(self.blocks[i].clone());
                assert forall|a: int, b: int| 0 <= a < b < r@.len() implies r@[a]@.id
                    != r@[b]@.id by {
                    if b == r@.len() - 1 {
                        let idx = choose|idx: int|
                            #![trigger self.blocks@[idx]]
                            0 <= idx < i && self.blocks@[idx]@.id == old_r[a]@.id;
                        assert(self.blocks@[idx] == self.blocks@[idx]);
                    }
                }
                assert(r@[r@.len() - 1]@.id == self.blocks@[i as int]@.id);
            }
            assert forall|idx: int|
                #![trigger self.blocks@[idx]]
                0 <= idx < i + 1 && p(self.blocks@[idx]@) implies exists|j: int|
                    0 <= j < r@.len() && r@[j]@.id == self.blocks@[idx]@.id by {
                if idx < i {
                    let j = choose|j: int| 0 <= j < old_r.len() && old_r[j]@.id == self.blocks@[idx]@.id;
                    assert(r@[j] == old_r[j]);
                } else {
                    assert(r@[r@.len() - 1]@.id == self.blocks@[idx]@.id);
                }
            }
            i = i + 1;
        }
        let ghost views = block_views(r@);
        assert forall|k: BlockId| #[trigger]
            self.model().blocks.contains_key(k) && p(self.model().blocks[k]) implies exists|j: int|
                0 <= j < views.len() && views[j].id == k by {
            let idx = choose|idx: int|
                #![trigger self.blocks@[idx]]
                0 <= idx < self.blocks@.len() && self.blocks@[idx]@.id == k;
            let j = choose|j: int| 0 <= j < r@.len() && r@[j]@.id == self.blocks@[idx]@.id;
            assert(views[j].id == k);
        }
        Ok(r)
    }

    fn blocks_get_parent_chain(&self, id: &BlockId, limit: usize) -> (r: Result<
        Vec<Block>,
        StorageError,
    >) {
        if self.find_block(id).is_none() {
            return Err(
                StorageError::QueryError {
                    reason: String::from_str("blocks_get_parent_chain: block does not exist"),
                },
            );
        }
        let ghost blocks = self.model().blocks;
        let ghost d = *id;
        let mut r: Vec<Block> = Vec::new();
        let mut cur: BlockId = *id;
        let mut n: usize = 0;
        while n < limit
            invariant
                self.inv(),
                blocks == self.model().blocks,
                d == *id,
                n <= limit,
                blocks.contains_key(cur),
                ancestor_at(blocks, d, n as nat) == Some(cur),
                block_views(r@) == walk(blocks, d, n as nat),
            decreases limit - n,
        {
            let i = match self.find_block(&cur) {
                Some(i) => i,
                None => {
                    assert(false);
                    return Ok(r);
                },
            };
            let ghost before = r@;
            r.push(self.blocks[i].clone());
            assert(block_views(r@) =~= block_views(before).push(blocks[cur]));
            assert(walk(blocks, d, (n + 1) as nat) == walk(blocks, d, n as nat).push(blocks[cur]));
            let parent = *self.blocks[i].parent();
            proof {
                lemma_ancestor_shift(blocks, d, n as nat, 1);
            }
            n = n + 1;
            if parent.equals(&cur) || self.find_block(&parent).is_none() {
                proof {
                    if parent != cur {
                        assert(ancestor_at(blocks, parent, 0) == None::<BlockId>);
                    }
                    assert(ancestor_at(blocks, cur, 1) == None::<BlockId>);
                    lemma_walk_stops(blocks, d, n as nat, limit as nat);
                }
                return Ok(r);
            }
            proof {
                assert(ancestor_at(blocks, parent, 0) == Some(parent));
                assert(ancestor_at(blocks, cur, 1) == Some(parent));
            }
            cur = parent;
        }
        Ok(r)
    }

    fn blocks_get_all_between(
        &self,
        start: &BlockId,
        end: &BlockId,
        include_dummy: bool,
    ) -> (r: Result<Vec<Block>, StorageError>) {
        if self.find_block(end).is_none() {
            return Err(
                StorageError::QueryError {
                    reason: String::from_str("blocks_get_all_between: block does not exist"),
                },
            );
        }
        proof {
            self.lemma_blocks_len();
        }
        let ghost blocks = self.model().blocks;
        let ghost e = *end;
        let ghost fuel: nat = blocks.len() + 1;
        let len = self.blocks.len();
        let mut walkv: Vec<Block> = Vec::new();
        let mut cur: BlockId = *end;
        let mut n: usize = 0;
        while n <= len
            invariant
                self.inv(),
                blocks == self.model().blocks,
                e == *end,
                len == self.blocks@.len(),
                blocks.len() == len,
                fuel == blocks.len() + 1,
                n <= len,
                blocks.contains_key(cur),
                ancestor_at(blocks, e, n as nat) == Some(cur),
                block_views(walkv@) == walk(blocks, e, n as nat),
                steps_before(blocks, e, *start, 0, fuel) == steps_before(
                    blocks,
                    e,
                    *start,
                    n as nat,
                    (fuel - n) as nat,
                ),
            decreases len - n,
        {
            if cur.equals(start) {
                return Ok(Self::reverse_filter(&walkv, include_dummy));
            }
            let i = match self.find_block(&cur) {
                Some(i) => i,
                None => {
                    assert(false);
                    return Ok(Self::reverse_filter(&walkv, include_dummy));
                },
            };
            let ghost before = walkv@;
            walkv.push(self.blocks[i].clone());
            assert(block_views(walkv@) =~= block_views(before).push(blocks[cur]));
            assert(walk(blocks, e, (n + 1) as nat) == walk(blocks, e, n as nat).push(blocks[cur]));
            assert(steps_before(blocks, e, *start, n as nat, (fuel - n) as nat) == steps_before(
                blocks,
                e,
                *start,
                (n + 1) as nat,
                (fuel - n - 1) as nat,
            ));
            if n == len {
                return Ok(Self::reverse_filter(&walkv, include_dummy));
            }
            let parent = *self.blocks[i].parent();
            proof {
                lemma_ancestor_shift(blocks, e, n as nat, 1);
            }
            n = n + 1;
            if parent.equals(&cur) || self.find_block(&parent).is_none() {
                proof {
                    if parent != cur {
                        assert(ancestor_at(blocks, parent, 0) == None::<BlockId>);
                    }
                    assert(ancestor_at(blocks, cur, 1) == None::<BlockId>);
                }
                return Ok(Self::reverse_filter(&walkv, include_dummy));
            }
            proof {
                assert(ancestor_at(blocks, parent, 0) == Some(parent));
                assert(ancestor_at(blocks, cur, 1) == Some(parent));
            }
            cur = parent;
        }
        Ok(Self::reverse_filter(&walkv, include_dummy))
    }

    fn blocks_exists(&self, id: &BlockId) -> (r: Result<bool, StorageError>) {
        Ok(self.find_block(id).is_some())
    }

    fn blocks_is_ancestor(&self, descendant: &BlockId, ancestor: &BlockId) -> (r: Result<
        bool,
        StorageError,
    >) {
        if self.find_block(descendant).is_none() || self.find_block(ancestor).is_none() {
            return Err(
                StorageError::QueryError {
                    reason: String::from_str("blocks_is_ancestor: block does not exist"),
                },
            );
        }
        let ghost blocks = self.model().blocks;
        let ghost d = *descendant;
        proof {
            self.lemma_blocks_len();
        }
        assert(blocks.contains_key(d) && blocks.contains_key(*ancestor));
        let len = self.blocks.len();
        let mut cur: BlockId = *descendant;
        let mut n: usize = 0;
        while n <= len
            invariant
                self.inv(),
                blocks == self.model().blocks,
                len == self.blocks@.len(),
                blocks.len() == len,
                blocks.contains_key(cur),
                blocks.contains_key(d),
                blocks.contains_key(*ancestor),
                d == *descendant,
                ancestor_at(blocks, d, n as nat) == Some(cur),
                forall|m: nat| m < n ==> ancestor_at(blocks, d, m) != Some(*ancestor),
            decreases len + 1 - n,
        {
            if cur.equals(ancestor) {
                assert(ancestor_at(blocks, d, n as nat) == Some(*ancestor));
                return Ok(true);
            }
            let i = match self.find_block(&cur) {
                Some(i) => i,
                None => {
                    assert(false);
                    return Ok(false);
                },
            };
            let parent = *self.blocks[i].parent();
            if parent.equals(&cur) || self.find_block(&parent).is_none() {
                assert forall|m: nat| m <= blocks.len() implies ancestor_at(blocks, d, m) != Some(
                    *ancestor,
                ) by {
                    if m > n {
                        lemma_ancestor_shift(blocks, d, n as nat, (m - n) as nat);
                        assert(ancestor_at(blocks, d, m) == ancestor_at(blocks, cur, (m - n) as nat));
                        if parent != cur {
                            assert(ancestor_at(blocks, parent, (m - n - 1) as nat) == None::<BlockId>);
                        }
                        assert(ancestor_at(blocks, cur, (m - n) as nat) == None::<BlockId>);
                    }
                }
                return Ok(false);
            }
            if n == len {
                return Ok(false);
            }
            proof {
                lemma_ancestor_shift(blocks, d, n as nat, 1);
                assert(ancestor_at(blocks, parent, 0) == Some(parent));
                assert(ancestor_at(blocks, cur, 1) == Some(parent));
            }
            cur = parent;
            n = n + 1;
        }
        assert forall|m: nat| m <= blocks.len() implies ancestor_at(blocks, d, m) != Some(
            *ancestor,
        ) by {}
        Ok(false)
    }

    fn quorum_certificates_get(&self, id: &QcId) -> (r: Result<QuorumCertificate, StorageError>) {
        match self.find_qc(id) {
            Some(i) => Ok(self.qcs[i]),
            None => Err(
                StorageError::NotFound {
                    item: String::from_str("QuorumCertificate"),
                    key: id.0.to_hex(),
                },
            ),
        }
    }

    fn high_qc_get(&self) -> (r: Result<HighQc, StorageError>) {
        match self.high_qc {
            Some(h) => Ok(h),
            None => Err(
                StorageError::NotFound {
                    item: String::from_str("HighQc"),
                    key: String::from_str("latest"),
                },
            ),
        }
    }

    fn locked_block_get(&self) -> (r: Result<LockedBlock, StorageError>) {
        match self.locked {
            Some(l) => Ok(l),
            None => Err(
                StorageError::NotFound {
                    item: String::from_str("LockedBlock"),
                    key: String::from_str("latest"),
                },
            ),
        }
    }

    fn last_executed_get(&self) -> (r: Result<LastExecuted, StorageError>) {
        match self.last_executed {
            Some(l) => Ok(l),
            None => Err(
                StorageError::NotFound {
                    item: String::from_str("LastExecuted"),
                    key: String::from_str("latest"),
                },
            ),
        }
    }

    fn transactions_get(&self, id: &TransactionId) -> (r: Result<TransactionRecord, StorageError>) {
        match self.find_transaction(id) {
            Some(i) => Ok(self.transactions[i].clone()),
            None => Err(
                StorageError::NotFound { item: String::from_str("Transaction"), key: id.to_hex() },
            ),
        }
    }

    fn substates_get_all_for_transaction(&self, id: &TransactionId) -> (r: Result<
        Vec<SubstateRecord>,
        StorageError,
    >) {
        let mut r: Vec<SubstateRecord> = Vec::new();
        let mut i: usize = 0;
        while i < self.substates.len()
            invariant
                i <= self.substates@.len(),
                r@ == substates_for(self.substates@.subrange(0, i as int), *id),
            decreases self.substates@.len() - i,
        {
            let s = self.substates[i];
            let touched = s.created_by_transaction.equals(id) || match s.destroyed {
                Some(d) => d.by_transaction.equals(id),
                None => false,
            };
            assert(self.substates@.subrange(0, i + 1).drop_last() =~= self.substates@.subrange(
                0,
                i as int,
            ));
            if touched {
                r.push(s);
            }
            proof {
                let f = |x: SubstateRecord| touched_by(x, *id);
                assert(self.substates@.subrange(0, i + 1).filter(f) == self.substates@.subrange(
                    0,
                    i as int,
                ).filter(f) + if f(s) { seq![s] } else { Seq::empty() }) by {
                    reveal_with_fuel(Seq::filter, 1);
                    assert(self.substates@.subrange(0, i + 1).last() == s);
                }
                assert(r@ =~= substates_for(self.substates@.subrange(0, i + 1), *id));
            }
            i = i + 1;
        }
        assert(self.substates@.subrange(0, self.substates@.len() as int) =~= self.substates@);
        Ok(r)
    }

    fn transactions_fetch_involved_shards(&self, ids: &Vec<TransactionId>) -> (r: Result<
        Vec<SubstateAddress>,
        StorageError,
    >) {
        let ghost m = self.model();
        let mut r: Vec<SubstateAddress> = Vec::new();
        let mut i: usize = 0;
        while i < ids.len()
            invariant
                self.inv(),
                m == self.model(),
                i <= ids@.len(),
                r@.no_duplicates(),
                forall|a: SubstateAddress|
                    r@.contains(a) <==> exists|k: int| 0 <= k < i && #[trigger] involves(m, ids@[k], a),
            decreases ids@.len() - i,
        {
            let t = ids[i];
            match self.find_transaction(&t) {
                Some(j) => {
                    let shards = &self.transactions[j].involved_shards;
                    assert(m.transactions[t].involved_shards == shards@);
                    let mut q: usize = 0;
                    while q < shards.len()
                        invariant
                            m == self.model(),
                            i < ids@.len(),
                            t == ids@[i as int],
                            m.transactions.contains_key(t),
                            m.transactions[t].involved_shards == shards@,
                            q <= shards@.len(),
                            r@.no_duplicates(),
                            forall|a: SubstateAddress|
                                r@.contains(a) <==> (exists|k: int| 0 <= k < i && #[trigger] involves(m, ids@[k], a))
                                    || exists|p: int| 0 <= p < q && shards@[p] == a,
                        decreases shards@.len() - q,
                    {
                        let a = shards[q];
                        let ghost before = r@;
                        let held = Self::holds_address(&r, &a);
                        if !held {
                            r.push(a);
                            assert forall|x: SubstateAddress| r@.contains(x) <==> before.contains(x) || x == a by {
                                if r@.contains(x) && x != a {
                                    let y = choose|y: int| 0 <= y < r@.len() && r@[y] == x;
                                    assert(before[y] == x);
                                }
                                if before.contains(x) {
                                    let y = choose|y: int| 0 <= y < before.len() && before[y] == x;
                                    assert(r@[y] == x);
                                }
                                if x == a {
                                    assert(r@[before.len() as int] == x);
                                }
                            }
                        }
                        assert forall|x: SubstateAddress|
                            r@.contains(x) <==> (exists|k: int| 0 <= k < i && #[trigger] involves(m, ids@[k], x))
                                || exists|p: int| 0 <= p < q + 1 && shards@[p] == x by {
                            assert(r@.contains(x) <==> before.contains(x) || x == a);
                            if x == a {
                                assert(shards@[q as int] == x);
                            }
                            if exists|p: int| 0 <= p < q + 1 && shards@[p] == x {
                                let p = choose|p: int| 0 <= p < q + 1 && shards@[p] == x;
                                if p < q {
                                    assert(exists|p: int| 0 <= p < q && shards@[p] == x);
                                }
                            }
                        }
                        q = q + 1;
                    }
                    assert forall|a: SubstateAddress|
                        r@.contains(a) <==> exists|k: int| 0 <= k < i + 1 && #[trigger] involves(m, ids@[k], a) by {
                        if r@.contains(a) && !(exists|k: int| 0 <= k < i && #[trigger] involves(m, ids@[k], a)) {
                            let p = choose|p: int| 0 <= p < shards@.len() && shards@[p] == a;
                            assert(involves(m, ids@[i as int], a));
                        }
                        if exists|k: int| 0 <= k < i + 1 && #[trigger] involves(m, ids@[k], a) {
                            let k = choose|k: int| 0 <= k < i + 1 && #[trigger] involves(m, ids@[k], a);
                            if k == i {
                                assert(shards@.contains(a));
                            }
                        }
                    }
                },
                None => {
                    assert forall|a: SubstateAddress|
                        r@.contains(a) <==> exists|k: int| 0 <= k < i + 1 && #[trigger] involves(m, ids@[k], a) by {
                        if exists|k: int| 0 <= k < i + 1 && #[trigger] involves(m, ids@[k], a) {
                            let k = choose|k: int| 0 <= k < i + 1 && #[trigger] involves(m, ids@[k], a);
                            assert(k != i);
                        }
                    }
                },
            }
            i = i + 1;
        }
        assert(r@.to_set() =~= involved_shards_of(m, ids@));
        Ok(r)
    }

    fn votes_get_for_block(&self, block_id: &BlockId) -> (r: Result<Vec<Vote>, StorageError>) {
        let mut r: Vec<Vote> = Vec::new();
        let mut i: usize = 0;
        while i < self.votes.len()
            invariant
                i <= self.votes@.len(),
                r@ == votes_for(self.votes@.subrange(0, i as int), *block_id),
            decreases self.votes@.len() - i,
        {
            let v = self.votes[i];
            assert(self.votes@.subrange(0, i + 1).drop_last() =~= self.votes@.subrange(0, i as int));
            if v.block_id.equals(block_id) {
                r.push(v);
            }
            proof {
                let f = |x: Vote| x.block_id == *block_id;
                assert(self.votes@.subrange(0, i + 1).filter(f) == self.votes@.subrange(
                    0,
                    i as int,
                ).filter(f) + if f(v) { seq![v] } else { Seq::empty() }) by {
                    reveal_with_fuel(Seq::filter, 1);
                    assert(self.votes@.subrange(0, i + 1).last() == v);
                }
                assert(r@ =~= votes_for(self.votes@.subrange(0, i + 1), *block_id));
            }
            i = i + 1;
        }
        assert(self.votes@.subrange(0, self.votes@.len() as int) =~= self.votes@);
        Ok(r)
    }

    fn foreign_send_counters_get(&self, block_id: &BlockId) -> (r: Result<
        ForeignSendCounters,
        StorageError,
    >) {
        match self.find_counters(block_id) {
            Some(i) => Ok(self.foreign_counters[i].1.clone()),
            None => Err(
                StorageError::NotFound {
                    item: String::from_str("ForeignSendCounters"),
                    key: block_id.to_hex(),
                },
            ),
        }
    }
}

impl StateStoreWriteTransaction for MemoryStateStore {
    fn blocks_insert(&mut self, block: &Block) -> (r: Result<(), StorageError>) {
        if self.find_block(block.id()).is_some() {
            return Err(
                StorageError::QueryError {
                    reason: String::from_str("blocks_insert: block already exists"),
                },
            );
        }
        let ghost old_blocks = self.blocks@;
        let ghost old_model = self.blocks_model@;
        self.blocks.push(block.clone());
        self.blocks_model = Ghost(self.blocks_model@.insert(block@.id, block@));
        assert forall|j: int| #![trigger self.blocks@[j]] 0 <= j < self.blocks@.len() implies self.blocks_model@.contains_key(self.blocks@[j]@.id)
                && self.blocks_model@[self.blocks@[j]@.id] == self.blocks@[j]@ by {
            if j < old_blocks.len() {
                assert(old_blocks[j] == old_blocks[j]);
            }
        }
        assert forall|k: BlockId| #[trigger]
            self.blocks_model@.contains_key(k) implies exists|i: int|
                #![trigger self.blocks@[i]]
                0 <= i < self.blocks@.len() && self.blocks@[i]@.id == k by {
            if k == block@.id {
                assert(self.blocks@[old_blocks.len() as int]@.id == k);
            } else {
                assert(old_model.contains_key(k));
                let i = choose|i: int| #![trigger old_blocks[i]] 0 <= i < old_blocks.len() && old_blocks[i]@.id == k;
                assert(self.blocks@[i]@.id == k);
            }
        }
        assert forall|a: int, b: int|
            #![trigger self.blocks@[a], self.blocks@[b]]
            0 <= a < self.blocks@.len() && 0 <= b < self.blocks@.len() && a != b
                implies self.blocks@[a]@.id != self.blocks@[b]@.id by {
            if a < old_blocks.len() {
                assert(old_blocks[a] == old_blocks[a]);
            }
            if b < old_blocks.len() {
                assert(old_blocks[b] == old_blocks[b]);
            }
        }
        proof {
            assert(self.qcs == old(self).qcs);
            assert(self.qcs_model == old(self).qcs_model);
            assert(self.foreign_counters == old(self).foreign_counters);
            assert(self.counters_model == old(self).counters_model);
            assert(self.transactions == old(self).transactions);
            assert(self.transactions_model == old(self).transactions_model);
            assert(self.blocks@.map_values(|b: Block| b@.id) =~= old_blocks.map_values(|b: Block| b@.id).push(block@.id));
        }

        Ok(())
    }

    fn blocks_set_flags(
        &mut self,
        id: &BlockId,
        is_committed: Option<bool>,
        is_processed: Option<bool>,
    ) -> (r: Result<(), StorageError>) {
        let i = match self.find_block(id) {
            Some(i) => i,
            None => {
                return Err(
                    StorageError::NotFound { item: String::from_str("Block"), key: id.to_hex() },
                );
            },
        };
        let updated = self.blocks[i].with_flags(is_committed, is_processed);
        let ghost old_blocks = self.blocks@;
        let ghost old_model = self.blocks_model@;
        self.blocks[i] = updated;
        self.blocks_model = Ghost(self.blocks_model@.insert(*id, updated@));
        assert forall|j: int| #![trigger self.blocks@[j]] 0 <= j < self.blocks@.len() implies self.blocks_model@.contains_key(self.blocks@[j]@.id)
                && self.blocks_model@[self.blocks@[j]@.id] == self.blocks@[j]@ by {
            if j != i {
                assert(old_blocks[j] == old_blocks[j]);
                assert(old_blocks[i as int] == old_blocks[i as int]);
            }
        }
        assert forall|k: BlockId| #[trigger]
            self.blocks_model@.contains_key(k) implies exists|j: int|
                #![trigger self.blocks@[j]]
                0 <= j < self.blocks@.len() && self.blocks@[j]@.id == k by {
            assert(old_model.contains_key(k));
            let j = choose|j: int| #![trigger old_blocks[j]] 0 <= j < old_blocks.len() && old_blocks[j]@.id == k;
            assert(self.blocks@[j]@.id == k);
        }
        assert forall|a: int, b: int|
            #![trigger self.blocks@[a], self.blocks@[b]]
            0 <= a < self.blocks@.len() && 0 <= b < self.blocks@.len() && a != b
                implies self.blocks@[a]@.id != self.blocks@[b]@.id by {
            assert(old_blocks[a] == old_blocks[a]);
            assert(old_blocks[b] == old_blocks[b]);
        }
        proof {
            assert(self.qcs == old(self).qcs);
            assert(self.qcs_model == old(self).qcs_model);
            assert(self.foreign_counters == old(self).foreign_counters);
            assert(self.counters_model == old(self).counters_model);
            assert(self.transactions == old(self).transactions);
            assert(self.transactions_model == old(self).transactions_model);
            assert(self.blocks@.map_values(|b: Block| b@.id) =~= old_blocks.map_values(|b: Block| b@.id));
        }

        Ok(())
    }

    fn quorum_certificates_insert(&mut self, qc: &QuorumCertificate) -> (r: Result<
        (),
        StorageError,
    >) {
        if self.find_qc(&qc.qc_id).is_some() {
            return Err(
                StorageError::QueryError {
                    reason: String::from_str("quorum_certificates_insert: already exists"),
                },
            );
        }
        let ghost old_qcs = self.qcs@;
        let ghost old_model = self.qcs_model@;
        self.qcs.push(*qc);
        self.qcs_model = Ghost(self.qcs_model@.insert(qc.qc_id, *qc));
        assert forall|j: int| #![trigger self.qcs@[j]] 0 <= j < self.qcs@.len() implies self.qcs_model@.contains_key(self.qcs@[j].qc_id)
                && self.qcs_model@[self.qcs@[j].qc_id] == self.qcs@[j] by {
            if j < old_qcs.len() {
                assert(old_qcs[j] == old_qcs[j]);
            }
        }
        assert forall|k: QcId| #[trigger]
            self.qcs_model@.contains_key(k) implies exists|i: int|
                #![trigger self.qcs@[i]]
                0 <= i < self.qcs@.len() && self.qcs@[i].qc_id == k by {
            if k == qc.qc_id {
                assert(self.qcs@[old_qcs.len() as int].qc_id == k);
            } else {
                assert(old_model.contains_key(k));
                let i = choose|i: int| #![trigger old_qcs[i]] 0 <= i < old_qcs.len() && old_qcs[i].qc_id == k;
                assert(self.qcs@[i].qc_id == k);
            }
        }
        proof {
            assert(self.blocks == old(self).blocks);
            assert(self.blocks_model == old(self).blocks_model);
            assert(self.foreign_counters == old(self).foreign_counters);
            assert(self.counters_model == old(self).counters_model);
            assert(self.transactions == old(self).transactions);
            assert(self.transactions_model == old(self).transactions_model);
        }

        Ok(())
    }

    fn transactions_insert(&mut self, record: &TransactionRecord) -> (r: Result<(), StorageError>) {
        if self.find_transaction(&record.transaction_id).is_some() {
            return Err(
                StorageError::QueryError {
                    reason: String::from_str("transactions_insert: already exists"),
                },
            );
        }
        let ghost old_txs = self.transactions@;
        let ghost old_model = self.transactions_model@;
        self.transactions.push(record.clone());
        self.transactions_model = Ghost(
            self.transactions_model@.insert(record.transaction_id, record@),
        );
        assert forall|j: int| #![trigger self.transactions@[j]] 0 <= j < self.transactions@.len() implies self.transactions_model@.contains_key(self.transactions@[j].transaction_id)
                && self.transactions_model@[self.transactions@[j].transaction_id] == self.transactions@[j]@ by {
            if j < old_txs.len() {
                assert(old_txs[j] == old_txs[j]);
            }
        }
        assert forall|k: TransactionId| #[trigger]
            self.transactions_model@.contains_key(k) implies exists|i: int|
                #![trigger self.transactions@[i]]
                0 <= i < self.transactions@.len() && self.transactions@[i].transaction_id == k by {
            if k == record.transaction_id {
                assert(self.transactions@[old_txs.len() as int].transaction_id == k);
            } else {
                assert(old_model.contains_key(k));
                let i = choose|i: int| #![trigger old_txs[i]] 0 <= i < old_txs.len() && old_txs[i].transaction_id == k;
                assert(self.transactions@[i].transaction_id == k);
            }
        }
        proof {
            assert(self.blocks == old(self).blocks);
            assert(self.blocks_model == old(self).blocks_model);
            assert(self.qcs == old(self).qcs);
            assert(self.qcs_model == old(self).qcs_model);
            assert(self.foreign_counters == old(self).foreign_counters);
            assert(self.counters_model == old(self).counters_model);
        }
        Ok(())
    }

    fn substates_insert(&mut self, record: &SubstateRecord) -> (r: Result<(), StorageError>) {
        self.substates.push(*record);
        proof {
            self.lemma_frame(old(self));
        }
        Ok(())
    }

    fn votes_insert(&mut self, vote: &Vote) -> (r: Result<(), StorageError>) {
        self.votes.push(*vote);
        proof {
            self.lemma_frame(old(self));
        }
        Ok(())
    }

    fn high_qc_set(&mut self, high_qc: &HighQc) -> (r: Result<(), StorageError>) {
        let ghost before = *self;
        self.high_qc = Some(*high_qc);
        assert(self.blocks@ == before.blocks@);
        assert(self.blocks_model@ == before.blocks_model@);
        assert(before.inv());
        assert(self.blocks == before.blocks);
        assert(self.qcs == before.qcs);
        assert(self.foreign_counters == before.foreign_counters);
        assert(self.counters_model == before.counters_model);
        assert(self.qcs_model == before.qcs_model);
        assert(self.blocks_model == before.blocks_model);
        assert(self.inv());
        Ok(())
    }

    fn locked_block_set(&mut self, locked: &LockedBlock) -> (r: Result<(), StorageError>) {
        self.locked = Some(*locked);
        proof {
            self.lemma_frame(old(self));
        }
        Ok(())
    }

    fn last_executed_set(&mut self, last_executed: &LastExecuted) -> (r: Result<(), StorageError>) {
        self.last_executed = Some(*last_executed);
        proof {
            self.lemma_frame(old(self));
        }
        Ok(())
    }

    fn foreign_send_counters_set(
        &mut self,
        counters: &ForeignSendCounters,
        block_id: &BlockId,
    ) -> (r: Result<(), StorageError>) {
        let ghost old_entries = self.foreign_counters@;
        let ghost old_model = self.counters_model@;
        let found = self.find_counters(block_id);
        match found {
            Some(i) => {
                self.foreign_counters[i] = (*block_id, counters.clone());
            },
            None => {
                self.foreign_counters.push((*block_id, counters.clone()));
            },
        }
        self.counters_model = Ghost(self.counters_model@.insert(*block_id, counters@));
        assert forall|j: int| #![trigger self.foreign_counters@[j]] 0 <= j < self.foreign_counters@.len() implies self.counters_model@.contains_key(self.foreign_counters@[j].0)
                && self.counters_model@[self.foreign_counters@[j].0] == self.foreign_counters@[j].1@ by {
            if j < old_entries.len() {
                assert(old_entries[j] == old_entries[j]);
                if let Some(i) = found {
                    assert(old_entries[i as int] == old_entries[i as int]);
                }
            }
        }
        assert forall|k: BlockId| #[trigger]
            self.counters_model@.contains_key(k) implies exists|j: int|
                #![trigger self.foreign_counters@[j]]
                0 <= j < self.foreign_counters@.len() && self.foreign_counters@[j].0 == k by {
            if k == *block_id {
                match found {
                    Some(i) => {
                        assert(self.foreign_counters@[i as int].0 == k);
                    },
                    None => {
                        assert(self.foreign_counters@[old_entries.len() as int].0 == k);
                    },
                }
            } else {
                assert(old_model.contains_key(k));
                let j = choose|j: int| #![trigger old_entries[j]] 0 <= j < old_entries.len() && old_entries[j].0 == k;
                assert(self.foreign_counters@[j].0 == k);
            }
        }
        assert(self.transactions == old(self).transactions);
        assert(self.transactions_model == old(self).transactions_model);
        assert forall|a: int, b: int|
            #![trigger self.foreign_counters@[a], self.foreign_counters@[b]]
            0 <= a < self.foreign_counters@.len() && 0 <= b < self.foreign_counters@.len() && a != b
                implies self.foreign_counters@[a].0 != self.foreign_counters@[b].0 by {
            if a < old_entries.len() {
                assert(old_entries[a] == old_entries[a]);
            }
            if b < old_entries.len() {
                assert(old_entries[b] == old_entries[b]);
            }
        }
        proof {
            assert(self.blocks == old(self).blocks);
            assert(self.blocks_model == old(self).blocks_model);
            assert(self.qcs == old(self).qcs);
            assert(self.qcs_model == old(self).qcs_model);
        }

        Ok(())
    }
}

/// Hooks that record the calls made to them, refuse the block `fail_on`,
/// where one is given, and, where `commit_blocks` is set, mark the blocks
/// handed to the commit hook as committed in the store.
pub struct RecordingHooks {
    /// The markers and blocks the lock hook was handed, in order.
    pub locked: Vec<(LockedBlock, BlockId)>,
    /// The markers and blocks the commit hook was handed, in order.
    pub committed: Vec<(LastExecuted, BlockId)>,
    /// The block that both hooks refuse.
    pub fail_on: Option<BlockId>,
    /// Whether the commit hook marks each block it is handed as committed
    /// in the store.
    pub commit_blocks: bool,
    /// The calls, with what each returned.
    pub log: Ghost<Seq<HookCall<StorageError>>>,
}

impl RecordingHooks {
    /// Hooks that have recorded nothing and refuse no block.
    pub fn new() -> (r: Self)
        ensures
            r.locked@.len() == 0,
            r.committed@.len() == 0,
            r.fail_on is None,
            !r.commit_blocks,
            r.log@.len() == 0,
    {
        RecordingHooks {
            locked: Vec::new(),
            committed: Vec::new(),
            fail_on: None,
            commit_blocks: false,
            log: Ghost(Seq::empty()),
        }
    }

    /// Hooks that have recorded nothing, refuse no block, and mark each
    /// block handed to the commit hook as committed in the store.
    pub fn committing() -> (r: Self)
        ensures
            r.locked@.len() == 0,
            r.committed@.len() == 0,
            r.fail_on is None,
            r.commit_blocks,
            r.log@.len() == 0,
    {
        RecordingHooks {
            locked: Vec::new(),
            committed: Vec::new(),
            fail_on: None,
            commit_blocks: true,
            log: Ghost(Seq::empty()),
        }
    }

    /// Hooks that have recorded nothing and refuse the block `block_id`.
    pub fn failing_on(block_id: BlockId) -> (r: Self)
        ensures
            r.locked@.len() == 0,
            r.committed@.len() == 0,
            r.fail_on == Some(block_id),
            !r.commit_blocks,
            r.log@.len() == 0,
    {
        RecordingHooks {
            locked: Vec::new(),
            committed: Vec::new(),
            fail_on: Some(block_id),
            commit_blocks: false,
            log: Ghost(Seq::empty()),
        }
    }

    /// Whether the hooks refuse `block_id`.
    fn refuses(&self, block_id: &BlockId) -> (r: bool)
        ensures
            r == (self.fail_on == Some(*block_id)),
    {
        match &self.fail_on {
            Some(f) => f.equals(block_id),
            None => false,
        }
    }
}

/// The error with which recording hooks refuse a block.
fn refusal() -> (r: StorageError)
    ensures
        r is QueryError,
{
    StorageError::QueryError { reason: String::from_str("block refused by hook") }
}

impl<TTx: StateStoreWriteTransaction> BlockHooks<TTx, StorageError> for RecordingHooks {
    open spec fn calls(&self) -> Seq<HookCall<StorageError>> {
        self.log@
    }

    fn on_lock_block(&mut self, tx: &mut TTx, locked: &LockedBlock, block: &Block) -> (r: Result<
        (),
        StorageError,
    >)
        ensures
            r is Ok <==> old(self).fail_on != Some(block@.id),
            final(self).locked@ == old(self).locked@.push((*locked, block@.id)),
            final(self).committed@ == old(self).committed@,
            final(self).fail_on == old(self).fail_on,
            *final(tx) == *old(tx),
    {
        let ghost entry = tx.model();
        self.locked.push((*locked, *block.id()));
        let r = if self.refuses(block.id()) {
            Err(refusal())
        } else {
            Ok(())
        };
        proof {
            self.log@ = self.log@.push(HookCall::Lock { locked: *locked, block: block@, store: entry, outcome: r });
        }
        r
    }

    fn on_commit(&mut self, tx: &mut TTx, last_executed: &LastExecuted, block: &Block) -> (r: Result<
        (),
        StorageError,
    >)
        ensures
            old(self).fail_on == Some(block@.id) ==> r is Err,
            final(self).committed@ == old(self).committed@.push((*last_executed, block@.id)),
            final(self).locked@ == old(self).locked@,
            final(self).fail_on == old(self).fail_on,
            final(self).commit_blocks == old(self).commit_blocks,
            !old(self).commit_blocks || old(self).fail_on == Some(block@.id) ==> *final(tx) == *old(
                tx,
            ) && (r is Ok <==> old(self).fail_on != Some(block@.id)),
    {
        let ghost entry = tx.model();
        self.committed.push((*last_executed, *block.id()));
        let r = if self.refuses(block.id()) {
            Err(refusal())
        } else if self.commit_blocks {
            let ghost before = tx.model();
            let c = block.commit(tx);
            proof {
                if c is Ok {
                    let k = block@.id;
                    assert(tx.model().blocks.dom() =~= before.blocks.dom());
                    assert forall|j: BlockId| #[trigger] tx.model().blocks.contains_key(j) implies same_links(tx.model().blocks[j], before.blocks[j]) by {}
                }
            }
            c
        } else {
            Ok(())
        };
        proof {
            self.log@ = self.log@.push(
                HookCall::Commit {
                    last_executed: *last_executed,
                    block: block@,
                    store: entry,
                    outcome: r,
                },
            );
        }
        r
    }
}

} // verus!
