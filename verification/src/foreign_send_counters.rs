//! Per-block counters of the messages sent to each foreign shard, used for
//! reliable broadcast between shards.
use vstd::prelude::*;

use std::collections::HashMap;

use crate::block::BlockId;
use crate::error::StorageError;
use crate::state_store::{StateStoreReadTransaction, StateStoreWriteTransaction, StoreModel};

verus! {

broadcast use vstd::std_specs::hash::group_hash_axioms;

/// Counters of messages sent to foreign shards, by shard number.
#[derive(Debug)]
pub struct ForeignSendCounters {
    counters: HashMap<u32, u64>,
}

impl View for ForeignSendCounters {
    type V = Map<u32, u64>;

    closed spec fn view(&self) -> Map<u32, u64> {
        self.counters@
    }
}

/// The counter of `shard` in `m`: zero where there is none.
pub open spec fn counter_of(m: Map<u32, u64>, shard: u32) -> u64 {
    if m.contains_key(shard) {
        m[shard]
    } else {
        0
    }
}

/// `m` with the counter of every shard in `shards` incremented once per
/// occurrence, in order.
pub open spec fn incremented(m: Map<u32, u64>, shards: Seq<u32>) -> Map<u32, u64>
    decreases shards.len(),
{
    if shards.len() == 0 {
        m
    } else {
        let prev = incremented(m, shards.drop_last());
        prev.insert(shards.last(), (counter_of(prev, shards.last()) + 1) as u64)
    }
}

impl ForeignSendCounters {
    /// No counters.
    pub fn new() -> (r: Self)
        ensures
            r@ == Map::<u32, u64>::empty(),
    {
        ForeignSendCounters { counters: HashMap::new() }
    }

    /// Adds one to the counter of `shard`, starting from zero.
    pub fn increment_counter(&mut self, shard: u32)
        requires
            counter_of(old(self)@, shard) < u64::MAX,
        ensures
            final(self)@ == old(self)@.insert(shard, (counter_of(old(self)@, shard) + 1) as u64),
    {
        let current: u64 = match self.counters.get(&shard) {
            Some(v) => *v,
            None => 0,
        };
        self.counters.insert(shard, current + 1);
    }

    /// The counter of `shard`, if there is one.
    pub fn get_count(&self, shard: u32) -> (r: Option<u64>)
        ensures
            r == (if self@.contains_key(shard) {
                Some(self@[shard])
            } else {
                None
            }),
    {
        match self.counters.get(&shard) {
            Some(v) => Some(*v),
            None => None,
        }
    }

    /// Whether there is no counter.
    pub fn is_empty(&self) -> (r: bool)
        ensures
            r == (self@.len() == 0),
    {
        self.counters.is_empty()
    }
}

/// The counters stored for `block_id` in `m`, or none where nothing is
/// stored for it.
pub open spec fn stored_counters_or_empty(m: StoreModel, block_id: BlockId) -> Map<u32, u64> {
    if m.foreign_counters.contains_key(block_id) {
        m.foreign_counters[block_id]
    } else {
        Map::empty()
    }
}

/// Incrementing other shards leaves the counter of `shard` as it was.
pub proof fn lemma_incremented_other(m: Map<u32, u64>, shards: Seq<u32>, shard: u32)
    requires
        !shards.contains(shard),
    ensures
        counter_of(incremented(m, shards), shard) == counter_of(m, shard),
    decreases shards.len(),
{
    if shards.len() > 0 {
        assert(!shards.drop_last().contains(shard)) by {
            if shards.drop_last().contains(shard) {
                let i = choose|i: int| 0 <= i < shards.drop_last().len() && shards.drop_last()[i] == shard;
                assert(shards[i] == shard);
            }
        }
        lemma_incremented_other(m, shards.drop_last(), shard);
        assert(shards[shards.len() - 1] != shard);
    }
}

impl ForeignSendCounters {
    /// The counters stored for `block_id`, or no counters where none are
    /// stored.
    pub fn get_or_default<TTx: StateStoreReadTransaction>(tx: &mut TTx, block_id: &BlockId) -> (r:
        Result<Self, StorageError>)
        requires
            old(tx).inv(),
        ensures
            final(tx).inv(),
            final(tx).healthy() == old(tx).healthy(),
            final(tx).model() == old(tx).model(),
            r matches Ok(c) ==> c@ == stored_counters_or_empty(old(tx).model(), *block_id),
            old(tx).healthy() ==> r is Ok,
    {
        match tx.foreign_send_counters_get(block_id) {
            Ok(c) => Ok(c),
            Err(e) => {
                if e.is_not_found() {
                    Ok(ForeignSendCounters::new())
                } else {
                    Err(e)
                }
            },
        }
    }

    /// Stores these counters for `block_id`.
    pub fn set<TTx: StateStoreWriteTransaction>(&self, tx: &mut TTx, block_id: &BlockId) -> (r:
        Result<(), StorageError>)
        requires
            old(tx).inv(),
        ensures
            final(tx).inv(),
            final(tx).healthy() == old(tx).healthy(),
            old(tx).healthy() ==> r is Ok,
            final(tx).model() == if r is Ok {
                (StoreModel {
                foreign_counters: old(tx).model().foreign_counters.insert(*block_id, self@),
                ..old(tx).model()
            })
            } else {
                old(tx).model()
            },
    {
        tx.foreign_send_counters_set(self, block_id)
    }
}

impl Clone for ForeignSendCounters {
    fn clone(&self) -> (r: Self)
        ensures
            r@ == self@,
    {
        ForeignSendCounters { counters: self.counters.clone() }
    }
}

} // verus!
