//! Quorum certificates and the chain markers that point at blocks: the
//! high QC, the locked block, the last executed block and the like.
use vstd::prelude::*;

use crate::block::{Block, BlockId};
use crate::common::{Epoch, NodeHeight};
use crate::error::StorageError;
use crate::hash::FixedHash;
use crate::state_store::{StateStoreReadTransaction, StateStoreWriteTransaction, StoreModel};

verus! {

/// The identifier of a quorum certificate.
#[derive(Clone, Copy, Debug, Hash)]
pub struct QcId(pub FixedHash);

impl QcId {
    /// The identifier of the genesis certificate: all bytes zero.
    pub fn genesis() -> (r: Self)
        ensures
            r.0@ == crate::hash::zero_bytes(32),
    {
        QcId(FixedHash::zero())
    }

    /// Whether two identifiers are equal.
    pub fn equals(&self, other: &Self) -> (r: bool)
        ensures
            r == (*self == *other),
    {
        self.0.equals(&other.0)
    }
}

/// A certificate that a quorum of validators voted for a block.
#[derive(Clone, Copy, Debug)]
pub struct QuorumCertificate {
    pub qc_id: QcId,
    pub block_id: BlockId,
    pub block_height: NodeHeight,
    pub epoch: Epoch,
}

/// The genesis certificate: for the zero block, at height and epoch zero.
pub open spec fn genesis_qc_spec() -> QuorumCertificate {
    QuorumCertificate {
        qc_id: QcId(FixedHash(crate::hash::zero_array())),
        block_id: BlockId(FixedHash(crate::hash::zero_array())),
        block_height: NodeHeight(0),
        epoch: Epoch(0),
    }
}

/// The high-QC marker that points at the certificate `qc`.
pub open spec fn as_high_qc_spec(qc: QuorumCertificate) -> HighQc {
    HighQc { block_id: qc.block_id, block_height: qc.block_height, qc_id: qc.qc_id }
}

impl QuorumCertificate {
    /// The genesis certificate.
    pub fn genesis() -> (r: Self)
        ensures
            r == genesis_qc_spec(),
    {
        let r = QuorumCertificate {
            qc_id: QcId::genesis(),
            block_id: BlockId::genesis(),
            block_height: NodeHeight(0),
            epoch: Epoch(0),
        };
        proof {
            crate::hash::lemma_zero_array();
            crate::hash::lemma_fixed_hash_view_eq(r.qc_id.0, FixedHash(crate::hash::zero_array()));
            crate::hash::lemma_fixed_hash_view_eq(r.block_id.0, FixedHash(crate::hash::zero_array()));
        }
        r
    }

    /// The identifier of the certificate.
    pub fn id(&self) -> (r: &QcId)
        ensures
            *r == self.qc_id,
    {
        &self.qc_id
    }

    /// The block the certificate is for.
    pub fn block_id(&self) -> (r: &BlockId)
        ensures
            *r == self.block_id,
    {
        &self.block_id
    }

    /// The height of the block the certificate is for.
    pub fn block_height(&self) -> (r: NodeHeight)
        ensures
            r == self.block_height,
    {
        self.block_height
    }

    /// The epoch of the certificate.
    pub fn epoch(&self) -> (r: Epoch)
        ensures
            r == self.epoch,
    {
        self.epoch
    }

    /// The high-QC marker that points at this certificate.
    pub fn as_high_qc(&self) -> (r: HighQc)
        ensures
            r == as_high_qc_spec(*self),
    {
        HighQc { block_id: self.block_id, block_height: self.block_height, qc_id: self.qc_id }
    }
}

/// The highest certificate seen, by block height.
#[derive(Clone, Copy, Debug)]
pub struct HighQc {
    pub block_id: BlockId,
    pub block_height: NodeHeight,
    pub qc_id: QcId,
}

impl HighQc {
    /// The identifier of the certificate.
    pub fn qc_id(&self) -> (r: &QcId)
        ensures
            *r == self.qc_id,
    {
        &self.qc_id
    }

    /// The height of the certified block.
    pub fn block_height(&self) -> (r: NodeHeight)
        ensures
            r == self.block_height,
    {
        self.block_height
    }
}

/// The block that this node is locked on.
#[derive(Clone, Copy, Debug)]
pub struct LockedBlock {
    pub height: NodeHeight,
    pub block_id: BlockId,
}

/// The last block whose commands were executed.
#[derive(Clone, Copy, Debug)]
pub struct LastExecuted {
    pub height: NodeHeight,
    pub block_id: BlockId,
}

/// The last block this node voted for.
#[derive(Clone, Copy, Debug)]
pub struct LastVoted {
    pub height: NodeHeight,
    pub block_id: BlockId,
}

/// The leaf of the chain.
#[derive(Clone, Copy, Debug)]
pub struct LeafBlock {
    pub height: NodeHeight,
    pub block_id: BlockId,
}

/// The last block this node proposed.
#[derive(Clone, Copy, Debug)]
pub struct LastProposed {
    pub height: NodeHeight,
    pub block_id: BlockId,
}

/// What updating the high QC with `qc` leaves in store `m`, and the high QC
/// it returns; `None` where it fails: there is no high-QC marker, or its
/// certificate is not stored. The marker moves to `qc`, which is stored if
/// it is not yet, exactly when `qc` certifies a higher block.
pub open spec fn spec_update_high_qc(m: StoreModel, qc: QuorumCertificate) -> Option<
    (HighQc, StoreModel),
> {
    match m.high_qc {
        None => None,
        Some(h) => if !m.qcs.contains_key(h.qc_id) {
            None
        } else {
            let stored = m.qcs[h.qc_id];
            if stored.block_height.0 < qc.block_height.0 {
                let qcs = if m.qcs.contains_key(qc.qc_id) {
                    m.qcs
                } else {
                    m.qcs.insert(qc.qc_id, qc)
                };
                Some(
                    (
                        as_high_qc_spec(qc),
                        StoreModel { qcs, high_qc: Some(as_high_qc_spec(qc)), ..m },
                    ),
                )
            } else {
                Some((as_high_qc_spec(stored), m))
            }
        },
    }
}

impl QuorumCertificate {
    /// The certificate stored under `id`.
    pub fn get<TTx: StateStoreReadTransaction>(tx: &mut TTx, id: &QcId) -> (r: Result<
        Self,
        StorageError,
    >)
        requires
            old(tx).inv(),
        ensures
            final(tx).inv(),
            final(tx).healthy() == old(tx).healthy(),
            final(tx).model() == old(tx).model(),
            match r {
                Ok(qc) => old(tx).model().qcs.contains_key(*id) && qc == old(tx).model().qcs[*id],
                Err(e) => (e is NotFound ==> (!old(tx).model().qcs.contains_key(*id))) && (old(tx).healthy() ==> e is NotFound),
            },
    {
        tx.quorum_certificates_get(id)
    }

    /// The block this certificate is for.
    pub fn get_block<TTx: StateStoreReadTransaction>(&self, tx: &mut TTx) -> (r: Result<
        Block,
        StorageError,
    >)
        requires
            old(tx).inv(),
        ensures
            final(tx).inv(),
            final(tx).healthy() == old(tx).healthy(),
            final(tx).model() == old(tx).model(),
            match r {
                Ok(b) => old(tx).model().blocks.contains_key(self.block_id) && b@ == old(
                    tx,
                ).model().blocks[self.block_id] && b@.id == self.block_id,
                Err(e) => (e is NotFound ==> (!old(tx).model().blocks.contains_key(self.block_id))) && (old(tx).healthy() ==> e is NotFound),
            },
    {
        proof {
            tx.lemma_keyed_by_id();
        }
        tx.blocks_get(&self.block_id)
    }

    /// Stores the certificate unless one is already stored under its
    /// identifier; returns whether it was stored.
    pub fn save<TTx: StateStoreWriteTransaction>(&self, tx: &mut TTx) -> (r: Result<
        bool,
        StorageError,
    >)
        requires
            old(tx).inv(),
        ensures
            final(tx).inv(),
            final(tx).healthy() == old(tx).healthy(),
            r matches Ok(saved) ==> saved == !old(tx).model().qcs.contains_key(self.qc_id),
            old(tx).healthy() ==> r is Ok,
            final(tx).model() == (if r is Err || old(tx).model().qcs.contains_key(self.qc_id) {
                old(tx).model()
            } else {
                StoreModel {
                    qcs: old(tx).model().qcs.insert(self.qc_id, *self),
                    ..old(tx).model()
                }
            }),
    {
        match tx.quorum_certificates_get(&self.qc_id) {
            Ok(_) => Ok(false),
            Err(_) => {
                match tx.quorum_certificates_insert(self) {
                    Ok(()) => Ok(true),
                    Err(e) => Err(e),
                }
            },
        }
    }

    /// Makes this certificate the high QC if it certifies a higher block
    /// than the current high QC; returns the high QC after the update.
    pub fn update_high_qc<TTx: StateStoreWriteTransaction>(&self, tx: &mut TTx) -> (r: Result<
        HighQc,
        StorageError,
    >)
        requires
            old(tx).inv(),
        ensures
            final(tx).inv(),
            final(tx).healthy() == old(tx).healthy(),
            old(tx).healthy() ==> match spec_update_high_qc(old(tx).model(), *self) {
                Some((h, m)) => r matches Ok(hq) && hq == h && final(tx).model() == m,
                None => (r matches Err(e) && e is NotFound) && final(tx).model() == old(tx).model(),
            },
            r matches Ok(hq) ==> (spec_update_high_qc(old(tx).model(), *self) matches Some((h, m))
                && hq == h && final(tx).model() == m),
            r is Err ==> final(tx).model() == old(tx).model() || final(tx).model() == (StoreModel {
                qcs: old(tx).model().qcs.insert(self.qc_id, *self),
                ..old(tx).model()
            }),
    {
        let high_qc = match tx.high_qc_get() {
            Ok(h) => h,
            Err(e) => return Err(e),
        };
        let high_qc = match QuorumCertificate::get(tx, &high_qc.qc_id) {
            Ok(qc) => qc,
            Err(e) => return Err(e),
        };
        if high_qc.block_height().0 < self.block_height().0 {
            match self.save(tx) {
                Ok(_) => {},
                Err(e) => return Err(e),
            }
            let new_high = self.as_high_qc();
            match tx.high_qc_set(&new_high) {
                Ok(()) => {},
                Err(e) => return Err(e),
            }
            Ok(new_high)
        } else {
            Ok(high_qc.as_high_qc())
        }
    }
}

impl LockedBlock {
    /// The locked-block marker.
    pub fn get<TTx: StateStoreReadTransaction>(tx: &mut TTx) -> (r: Result<Self, StorageError>)
        requires
            old(tx).inv(),
        ensures
            final(tx).inv(),
            final(tx).healthy() == old(tx).healthy(),
            final(tx).model() == old(tx).model(),
            match r {
                Ok(l) => old(tx).model().locked == Some(l),
                Err(e) => (e is NotFound ==> (old(tx).model().locked is None)) && (old(tx).healthy() ==> e is NotFound),
            },
    {
        tx.locked_block_get()
    }

    /// The locked block.
    pub fn get_block<TTx: StateStoreReadTransaction>(&self, tx: &mut TTx) -> (r: Result<
        Block,
        StorageError,
    >)
        requires
            old(tx).inv(),
        ensures
            final(tx).inv(),
            final(tx).healthy() == old(tx).healthy(),
            final(tx).model() == old(tx).model(),
            match r {
                Ok(b) => old(tx).model().blocks.contains_key(self.block_id) && b@ == old(
                    tx,
                ).model().blocks[self.block_id],
                Err(e) => (e is NotFound ==> (!old(tx).model().blocks.contains_key(self.block_id))) && (old(tx).healthy() ==> e is NotFound),
            },
    {
        tx.blocks_get(&self.block_id)
    }

    /// Makes this the locked-block marker.
    pub fn set<TTx: StateStoreWriteTransaction>(&self, tx: &mut TTx) -> (r: Result<
        (),
        StorageError,
    >)
        requires
            old(tx).inv(),
        ensures
            final(tx).inv(),
            final(tx).healthy() == old(tx).healthy(),
            old(tx).healthy() ==> r is Ok,
            final(tx).model() == if r is Ok {
                (StoreModel { locked: Some(*self), ..old(tx).model() })
            } else {
                old(tx).model()
            },
    {
        tx.locked_block_set(self)
    }
}

impl LastExecuted {
    /// The last-executed marker.
    pub fn get<TTx: StateStoreReadTransaction>(tx: &mut TTx) -> (r: Result<Self, StorageError>)
        requires
            old(tx).inv(),
        ensures
            final(tx).inv(),
            final(tx).healthy() == old(tx).healthy(),
            final(tx).model() == old(tx).model(),
            match r {
                Ok(l) => old(tx).model().last_executed == Some(l),
                Err(e) => (e is NotFound ==> (old(tx).model().last_executed is None)) && (old(tx).healthy() ==> e is NotFound),
            },
    {
        tx.last_executed_get()
    }

    /// Makes this the last-executed marker.
    pub fn set<TTx: StateStoreWriteTransaction>(&self, tx: &mut TTx) -> (r: Result<
        (),
        StorageError,
    >)
        requires
            old(tx).inv(),
        ensures
            final(tx).inv(),
            final(tx).healthy() == old(tx).healthy(),
            old(tx).healthy() ==> r is Ok,
            final(tx).model() == if r is Ok {
                (StoreModel { last_executed: Some(*self), ..old(tx).model() })
            } else {
                old(tx).model()
            },
    {
        tx.last_executed_set(self)
    }
}

} // verus!
