//! Transaction records and the substates that transactions create and
//! destroy, as the consensus models read them from the store.
use vstd::prelude::*;

use crate::command::TransactionId;
use crate::hash::FixedHash;
use crate::quorum::{QcId, QuorumCertificate};

verus! {

/// The identifier of a substate: a 32-byte hash.
#[derive(Debug, Clone, Copy)]
pub struct SubstateId(pub FixedHash);

/// The changes to the substates that a transaction made: the versions it
/// brought up and the versions it took down.
#[derive(Debug)]
pub struct SubstateDiff {
    pub up_substates: Vec<(SubstateId, u32)>,
    pub down_substates: Vec<(SubstateId, u32)>,
}

/// The contents of a substate diff.
pub struct SubstateDiffView {
    pub up_substates: Seq<(SubstateId, u32)>,
    pub down_substates: Seq<(SubstateId, u32)>,
}

impl View for SubstateDiff {
    type V = SubstateDiffView;

    open spec fn view(&self) -> SubstateDiffView {
        SubstateDiffView { up_substates: self.up_substates@, down_substates: self.down_substates@ }
    }
}

/// A copy of the versions `v`.
fn copy_versions(v: &Vec<(SubstateId, u32)>) -> (r: Vec<(SubstateId, u32)>)
    ensures
        r@ == v@,
{
    let mut r: Vec<(SubstateId, u32)> = Vec::new();
    let mut i: usize = 0;
    while i < v.len()
        invariant
            i <= v@.len(),
            r@ == v@.subrange(0, i as int),
        decreases v@.len() - i,
    {
        r.push(v[i]);
        assert(r@ =~= v@.subrange(0, i + 1));
        i = i + 1;
    }
    assert(v@.subrange(0, v@.len() as int) =~= v@);
    r
}

impl Clone for SubstateDiff {
    fn clone(&self) -> (r: Self)
        ensures
            r@ == self@,
    {
        SubstateDiff {
            up_substates: copy_versions(&self.up_substates),
            down_substates: copy_versions(&self.down_substates),
        }
    }
}

/// The result of executing a transaction: accepted with the substate
/// changes it makes, or rejected.
#[derive(Debug)]
pub enum TransactionResult {
    Accept(SubstateDiff),
    Reject,
}

/// The contents of a transaction result.
pub enum TransactionResultView {
    Accept(SubstateDiffView),
    Reject,
}

impl View for TransactionResult {
    type V = TransactionResultView;

    open spec fn view(&self) -> TransactionResultView {
        match self {
            TransactionResult::Accept(d) => TransactionResultView::Accept(d@),
            TransactionResult::Reject => TransactionResultView::Reject,
        }
    }
}

impl TransactionResult {
    /// The substate diff of an accepted transaction.
    pub fn into_accept(self) -> (r: Option<SubstateDiff>)
        ensures
            match self@ {
                TransactionResultView::Accept(d) => r matches Some(x) && x@ == d,
                TransactionResultView::Reject => r is None,
            },
    {
        match self {
            TransactionResult::Accept(d) => Some(d),
            TransactionResult::Reject => None,
        }
    }
}

impl Clone for TransactionResult {
    fn clone(&self) -> (r: Self)
        ensures
            r@ == self@,
    {
        match self {
            TransactionResult::Accept(d) => TransactionResult::Accept(d.clone()),
            TransactionResult::Reject => TransactionResult::Reject,
        }
    }
}

/// The address of a substate version in the shard space: a 32-byte hash.
#[derive(Debug, Clone, Copy)]
pub struct SubstateAddress(pub FixedHash);

impl SubstateAddress {
    /// Whether two addresses are equal.
    pub fn equals(&self, other: &Self) -> (r: bool)
        ensures
            r == (*self == *other),
    {
        self.0.equals(&other.0)
    }
}

/// A copy of the addresses `v`.
fn copy_addresses(v: &Vec<SubstateAddress>) -> (r: Vec<SubstateAddress>)
    ensures
        r@ == v@,
{
    let mut r: Vec<SubstateAddress> = Vec::new();
    let mut i: usize = 0;
    while i < v.len()
        invariant
            i <= v@.len(),
            r@ == v@.subrange(0, i as int),
        decreases v@.len() - i,
    {
        r.push(v[i]);
        assert(r@ =~= v@.subrange(0, i + 1));
        i = i + 1;
    }
    assert(v@.subrange(0, v@.len() as int) =~= v@);
    r
}

/// A transaction as stored: its identifier, the substate addresses that
/// its transaction involves (its inputs and input references) and, once
/// executed, its result.
#[derive(Debug)]
pub struct TransactionRecord {
    pub transaction_id: TransactionId,
    pub involved_shards: Vec<SubstateAddress>,
    pub result: Option<TransactionResult>,
}

/// The contents of a transaction record.
pub struct TransactionRecordView {
    pub transaction_id: TransactionId,
    pub involved_shards: Seq<SubstateAddress>,
    pub result: Option<TransactionResultView>,
}

impl View for TransactionRecord {
    type V = TransactionRecordView;

    open spec fn view(&self) -> TransactionRecordView {
        TransactionRecordView {
            transaction_id: self.transaction_id,
            involved_shards: self.involved_shards@,
            result: match self.result {
                Some(r) => Some(r@),
                None => None,
            },
        }
    }
}

impl Clone for TransactionRecord {
    fn clone(&self) -> (r: Self)
        ensures
            r@ == self@,
    {
        TransactionRecord {
            transaction_id: self.transaction_id,
            involved_shards: copy_addresses(&self.involved_shards),
            result: match &self.result {
                Some(r) => Some(r.clone()),
                None => None,
            },
        }
    }
}

/// The destruction of a substate: the transaction that destroyed it and
/// the certificate that justified that.
#[derive(Debug, Clone, Copy)]
pub struct SubstateDestroyed {
    pub by_transaction: TransactionId,
    pub justify: QcId,
}

/// A version of a substate as stored: which transaction created it under
/// which certificate, and its destruction if it has been destroyed.
#[derive(Debug, Clone, Copy)]
pub struct SubstateRecord {
    pub substate_id: SubstateId,
    pub version: u32,
    pub created_by_transaction: TransactionId,
    pub created_justify: QcId,
    pub destroyed: Option<SubstateDestroyed>,
}

impl SubstateRecord {
    /// The destruction of the substate, if it has been destroyed.
    pub fn destroyed(&self) -> (r: Option<&SubstateDestroyed>)
        ensures
            r is Some == self.destroyed is Some,
            r matches Some(d) ==> *d == self.destroyed->0,
    {
        self.destroyed.as_ref()
    }

    /// The substate as created.
    pub fn to_substate_data(&self) -> (r: SubstateData)
        ensures
            r == substate_data_of(*self),
    {
        SubstateData {
            substate_id: self.substate_id,
            version: self.version,
            created_by_transaction: self.created_by_transaction,
        }
    }
}

/// A substate version and the transaction that created it.
#[derive(Debug, Clone, Copy)]
pub struct SubstateData {
    pub substate_id: SubstateId,
    pub version: u32,
    pub created_by_transaction: TransactionId,
}

/// The substate data of a record.
pub open spec fn substate_data_of(s: SubstateRecord) -> SubstateData {
    SubstateData {
        substate_id: s.substate_id,
        version: s.version,
        created_by_transaction: s.created_by_transaction,
    }
}

/// A proof that a substate was created: the certificate under which it was
/// created, and the substate.
#[derive(Debug, Clone, Copy)]
pub struct SubstateCreatedProof {
    pub created_qc: QuorumCertificate,
    pub substate: SubstateData,
}

/// A proof that a substate was destroyed: the substate version, the
/// certificate under which it was destroyed, and the transaction that
/// destroyed it.
#[derive(Debug, Clone, Copy)]
pub struct SubstateDestroyedProof {
    pub substate_id: SubstateId,
    pub version: u32,
    pub justify: QuorumCertificate,
    pub destroyed_by_transaction: TransactionId,
}

/// A change to a substate that a block commits.
#[derive(Debug, Clone, Copy)]
pub enum SubstateUpdate {
    Create(SubstateCreatedProof),
    Destroy(SubstateDestroyedProof),
}

} // verus!
