//! Validators' votes for blocks, as the store holds them.
use vstd::prelude::*;

use crate::block::BlockId;
use crate::common::{Epoch, PublicKey, ValidatorSchnorrSignature};
use crate::error::StorageError;
use crate::hash::FixedHash;
use crate::state_store::{votes_for, StateStoreReadTransaction, StateStoreWriteTransaction, StoreModel};

verus! {

/// What a validator votes for a block.
#[derive(Clone, Copy, Debug, PartialEq, Eq, Structural)]
pub enum QuorumDecision {
    Accept,
    Reject,
}

/// A validator's signature together with the validator's public key.
#[derive(Clone, Copy, Debug)]
pub struct ValidatorSignature {
    pub public_key: PublicKey,
    pub signature: ValidatorSchnorrSignature,
}

/// A validator's vote for a block.
#[derive(Clone, Copy, Debug)]
pub struct Vote {
    pub epoch: Epoch,
    pub block_id: BlockId,
    pub decision: QuorumDecision,
    pub sender_leaf_hash: FixedHash,
    pub signature: ValidatorSignature,
}

impl Vote {
    /// The stored votes for `block_id`, in the order they were stored.
    pub fn get_for_block<TTx: StateStoreReadTransaction>(tx: &mut TTx, block_id: &BlockId) -> (r:
        Result<Vec<Vote>, StorageError>)
        requires
            old(tx).inv(),
        ensures
            final(tx).inv(),
            final(tx).healthy() == old(tx).healthy(),
            final(tx).model() == old(tx).model(),
            r matches Ok(v) ==> v@ == votes_for(old(tx).model().votes, *block_id),
            old(tx).healthy() ==> r is Ok,
    {
        tx.votes_get_for_block(block_id)
    }

    /// Stores the vote after those already stored.
    pub fn save<TTx: StateStoreWriteTransaction>(&self, tx: &mut TTx) -> (r: Result<
        (),
        StorageError,
    >)
        requires
            old(tx).inv(),
        ensures
            final(tx).inv(),
            final(tx).healthy() == old(tx).healthy(),
            old(tx).healthy() ==> r is Ok,
            final(tx).model() == if r is Ok {
                (StoreModel {
                votes: old(tx).model().votes.push(*self),
                ..old(tx).model()
            })
            } else {
                old(tx).model()
            },
    {
        tx.votes_insert(self)
    }
}

/// A saved vote is read back last among the votes for its block, and the
/// votes for every other block are as they were.
pub proof fn lemma_saved_vote_is_read_back(m: StoreModel, vote: Vote, block_id: BlockId)
    ensures
        votes_for(m.votes.push(vote), block_id) == if block_id == vote.block_id {
            votes_for(m.votes, block_id).push(vote)
        } else {
            votes_for(m.votes, block_id)
        },
{
    m.votes.lemma_filter_push(vote, |v: Vote| v.block_id == block_id);
}

} // verus!
