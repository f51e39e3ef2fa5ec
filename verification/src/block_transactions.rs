//! What a block's commands lead to in the store: its transaction records,
//! the substate updates it commits, and the substate diffs of the
//! transactions it commits.
use vstd::prelude::*;

use crate::block::{transaction_ids, Block, BlockView};
use crate::command::{Command, TransactionAtom, TransactionId};
use crate::error::StorageError;
use crate::hash::hex_lower;
use crate::quorum::QuorumCertificate;
use crate::state_store::{involved_shards_of, substates_for, StateStoreReadTransaction, StoreModel};
use crate::transaction::{
    substate_data_of, SubstateCreatedProof, SubstateDestroyedProof, SubstateDiff,
    SubstateAddress, SubstateDiffView, SubstateRecord, SubstateUpdate, TransactionRecord, TransactionRecordView,
    TransactionResultView,
};

verus! {

/// The transactions of the accept commands of `cmds` whose decision is to
/// commit, in order.
pub open spec fn committed_accepts(cmds: Seq<Command>) -> Seq<TransactionAtom>
    decreases cmds.len(),
{
    if cmds.len() == 0 {
        Seq::empty()
    } else {
        let prefix = committed_accepts(cmds.drop_last());
        match cmds.last() {
            Command::Accept(t) => if t.decision is Commit {
                prefix.push(t)
            } else {
                prefix
            },
            _ => prefix,
        }
    }
}

/// The proof that substate version `s` was created, where the certificate
/// it was created under is stored.
pub open spec fn created_update(m: StoreModel, s: SubstateRecord) -> Option<SubstateUpdate> {
    if m.qcs.contains_key(s.created_justify) {
        Some(
            SubstateUpdate::Create(
                SubstateCreatedProof {
                    created_qc: m.qcs[s.created_justify],
                    substate: substate_data_of(s),
                },
            ),
        )
    } else {
        None
    }
}

/// The update that transaction `t` commits for substate version `s`: a
/// destruction where `s` was destroyed by another transaction than the one
/// that created it, otherwise a creation. `None` where the certificate it
/// needs is not stored.
pub open spec fn substate_update_of(m: StoreModel, t: TransactionId, s: SubstateRecord) -> Option<
    SubstateUpdate,
> {
    match s.destroyed {
        Some(d) => if s.created_by_transaction == t {
            created_update(m, s)
        } else if m.qcs.contains_key(d.justify) {
            Some(
                SubstateUpdate::Destroy(
                    SubstateDestroyedProof {
                        substate_id: s.substate_id,
                        version: s.version,
                        justify: m.qcs[d.justify],
                        destroyed_by_transaction: d.by_transaction,
                    },
                ),
            )
        } else {
            None
        },
        None => created_update(m, s),
    }
}

/// The updates that transaction `t` commits for the versions `ss`, in order;
/// `None` where one of them cannot be made.
pub open spec fn updates_of_records(m: StoreModel, t: TransactionId, ss: Seq<SubstateRecord>) -> Option<
    Seq<SubstateUpdate>,
>
    decreases ss.len(),
{
    if ss.len() == 0 {
        Some(Seq::empty())
    } else {
        match (updates_of_records(m, t, ss.drop_last()), substate_update_of(m, t, ss.last())) {
            (Some(p), Some(u)) => Some(p.push(u)),
            _ => None,
        }
    }
}

/// The updates that the transactions `ts` commit, transaction by
/// transaction; `None` where one of them cannot be made.
pub open spec fn updates_of_transactions(m: StoreModel, ts: Seq<TransactionAtom>) -> Option<
    Seq<SubstateUpdate>,
>
    decreases ts.len(),
{
    if ts.len() == 0 {
        Some(Seq::empty())
    } else {
        match (
            updates_of_transactions(m, ts.drop_last()),
            updates_of_records(m, ts.last().id, substates_for(m.substates, ts.last().id)),
        ) {
            (Some(p), Some(q)) => Some(p + q),
            _ => None,
        }
    }
}

/// The substate updates that block `b` commits in store `m`.
pub open spec fn spec_substate_updates(m: StoreModel, b: BlockView) -> Option<Seq<SubstateUpdate>> {
    updates_of_transactions(m, committed_accepts(b.commands))
}

/// What a committed transaction `t` commits for the substate versions `ss`
/// it touched, where every update can be made: one update per version, in
/// order. A version that `t` created gives a creation, carrying the
/// certificate stored under its creating justification, whether or not it
/// has been destroyed since; so does a version never destroyed. A version
/// created by another transaction and destroyed gives a destruction, carrying
/// the certificate stored under the destroying justification and the
/// destroying transaction.
pub proof fn lemma_substate_updates_by_creator(m: StoreModel, t: TransactionId, ss: Seq<SubstateRecord>)
    requires
        updates_of_records(m, t, ss) is Some,
    ensures
        updates_of_records(m, t, ss)->0.len() == ss.len(),
        forall|i: int|
            0 <= i < ss.len() && (ss[i].created_by_transaction == t || ss[i].destroyed is None)
                ==> m.qcs.contains_key(ss[i].created_justify) && #[trigger] updates_of_records(
                m,
                t,
                ss,
            )->0[i] == SubstateUpdate::Create(
                SubstateCreatedProof {
                    created_qc: m.qcs[ss[i].created_justify],
                    substate: substate_data_of(ss[i]),
                },
            ),
        forall|i: int|
            0 <= i < ss.len() && ss[i].created_by_transaction != t && ss[i].destroyed is Some
                ==> m.qcs.contains_key(ss[i].destroyed->0.justify) && #[trigger] updates_of_records(
                m,
                t,
                ss,
            )->0[i] == SubstateUpdate::Destroy(
                SubstateDestroyedProof {
                    substate_id: ss[i].substate_id,
                    version: ss[i].version,
                    justify: m.qcs[ss[i].destroyed->0.justify],
                    destroyed_by_transaction: ss[i].destroyed->0.by_transaction,
                },
            ),
    decreases ss.len(),
{
    if ss.len() > 0 {
        let rest = ss.drop_last();
        assert(updates_of_records(m, t, rest) is Some);
        lemma_substate_updates_by_creator(m, t, rest);
        let us = updates_of_records(m, t, ss)->0;
        let ps = updates_of_records(m, t, rest)->0;
        assert(us == ps.push(substate_update_of(m, t, ss.last())->0));
        assert forall|i: int| 0 <= i < rest.len() implies ss[i] == rest[i] && us[i] == ps[i] by {}
    }
}

/// The substate diff of an executed and accepted transaction.
pub open spec fn accepted_diff(r: TransactionRecordView) -> Option<SubstateDiffView> {
    match r.result {
        Some(TransactionResultView::Accept(d)) => Some(d),
        _ => None,
    }
}

/// The substate diffs of the accepted ones among the transactions `ts` as
/// stored in `m`, in order.
pub open spec fn diffs_of(m: StoreModel, ts: Seq<TransactionAtom>) -> Seq<SubstateDiffView>
    decreases ts.len(),
{
    if ts.len() == 0 {
        Seq::empty()
    } else {
        let prefix = diffs_of(m, ts.drop_last());
        match accepted_diff(m.transactions[ts.last().id]) {
            Some(d) => prefix.push(d),
            None => prefix,
        }
    }
}

/// Whether a transaction is stored in `m`.
pub open spec fn tx_present(m: StoreModel) -> spec_fn(TransactionId) -> bool {
    |id: TransactionId| m.transactions.contains_key(id)
}

/// Whether a transaction is not stored in `m`.
pub open spec fn tx_absent(m: StoreModel) -> spec_fn(TransactionId) -> bool {
    |id: TransactionId| !m.transactions.contains_key(id)
}

/// The identifiers among `ids` of transactions not stored in `m`, in order.
pub open spec fn missing_ids(m: StoreModel, ids: Seq<TransactionId>) -> Seq<TransactionId> {
    ids.filter(tx_absent(m))
}

/// The identifiers `ids` in hexadecimal, separated by a comma and a space.
pub open spec fn join_hex(ids: Seq<TransactionId>) -> Seq<char>
    decreases ids.len(),
{
    if ids.len() == 0 {
        Seq::empty()
    } else if ids.len() == 1 {
        hex_lower(ids[0].0@)
    } else {
        join_hex(ids.drop_last()) + ", "@ + hex_lower(ids.last().0@)
    }
}

/// Where the updates for a prefix of the versions cannot be made, those for
/// all of them cannot either.
proof fn lemma_records_none_extends(m: StoreModel, t: TransactionId, ss: Seq<SubstateRecord>, j: int)
    requires
        0 <= j <= ss.len(),
        updates_of_records(m, t, ss.subrange(0, j)) is None,
    ensures
        updates_of_records(m, t, ss) is None,
    decreases ss.len(),
{
    if j < ss.len() {
        assert(ss.drop_last().subrange(0, j) =~= ss.subrange(0, j));
        lemma_records_none_extends(m, t, ss.drop_last(), j);
    } else {
        assert(ss.subrange(0, j) =~= ss);
    }
}

/// Where the updates for a prefix of the transactions cannot be made, those
/// for all of them cannot either.
proof fn lemma_transactions_none_extends(m: StoreModel, ts: Seq<TransactionAtom>, i: int)
    requires
        0 <= i <= ts.len(),
        updates_of_transactions(m, ts.subrange(0, i)) is None,
    ensures
        updates_of_transactions(m, ts) is None,
    decreases ts.len(),
{
    if i < ts.len() {
        assert(ts.drop_last().subrange(0, i) =~= ts.subrange(0, i));
        lemma_transactions_none_extends(m, ts.drop_last(), i);
    } else {
        assert(ts.subrange(0, i) =~= ts);
    }
}

/// Filtering by a predicate that every element meets keeps them all.
proof fn lemma_filter_all_true<A>(s: Seq<A>, p: spec_fn(A) -> bool)
    requires
        forall|i: int| 0 <= i < s.len() ==> p(s[i]),
    ensures
        s.filter(p) == s,
    decreases s.len(),
{
    reveal(Seq::filter);
    if s.len() > 0 {
        lemma_filter_all_true(s.drop_last(), p);
        assert(s.drop_last().push(s.last()) =~= s);
    }
}

/// The transactions of the accept commands of `cmds` whose decision is to
/// commit.
fn collect_committed_accepts(cmds: &[Command]) -> (r: Vec<TransactionAtom>)
    ensures
        r@ == committed_accepts(cmds@),
{
    let mut r: Vec<TransactionAtom> = Vec::new();
    let mut i: usize = 0;
    while i < cmds.len()
        invariant
            i <= cmds@.len(),
            r@ == committed_accepts(cmds@.subrange(0, i as int)),
        decreases cmds@.len() - i,
    {
        assert(cmds@.subrange(0, i + 1).drop_last() =~= cmds@.subrange(0, i as int));
        match cmds[i].accept() {
            Some(t) => {
                if t.decision.is_commit() {
                    r.push(*t);
                }
            },
            None => {},
        }
        i = i + 1;
    }
    assert(cmds@.subrange(0, cmds@.len() as int) =~= cmds@);
    r
}

impl TransactionRecord {
    /// The records of the stored transactions among `ids`, and the
    /// identifiers among `ids` of those not stored, each in the order of
    /// `ids`.
    pub fn get_any<TTx: StateStoreReadTransaction>(tx: &mut TTx, ids: &Vec<TransactionId>) -> (r:
        Result<(Vec<TransactionRecord>, Vec<TransactionId>), StorageError>)
        requires
            old(tx).inv(),
        ensures
            final(tx).inv(),
            final(tx).healthy() == old(tx).healthy(),
            final(tx).model() == old(tx).model(),
            old(tx).healthy() ==> r is Ok,
            r matches Ok((found, missing)) ==> missing@ == missing_ids(old(tx).model(), ids@)
                && found@.len() == ids@.filter(tx_present(old(tx).model())).len() && forall|k: int|
                0 <= k < found@.len() ==> found@[k]@ == old(tx).model().transactions[ids@.filter(
                    tx_present(old(tx).model()),
                )[k]],
    {
        let ghost m = tx.model();
        let ghost present = tx_present(m);
        let ghost absent = tx_absent(m);
        let mut found: Vec<TransactionRecord> = Vec::new();
        let mut missing: Vec<TransactionId> = Vec::new();
        let mut i: usize = 0;
        while i < ids.len()
            invariant
                tx.inv(),
                tx.model() == m,
                tx.healthy() == old(tx).healthy(),
                present == tx_present(m),
                absent == tx_absent(m),
                i <= ids@.len(),
                missing@ == ids@.subrange(0, i as int).filter(absent),
                found@.len() == ids@.subrange(0, i as int).filter(present).len(),
                forall|k: int|
                    0 <= k < found@.len() ==> found@[k]@ == m.transactions[ids@.subrange(
                        0,
                        i as int,
                    ).filter(present)[k]],
            decreases ids@.len() - i,
        {
            let ghost prev = ids@.subrange(0, i as int);
            let ghost next = ids@.subrange(0, i + 1);
            assert(next.drop_last() =~= prev);
            assert(next.last() == ids@[i as int]);
            match tx.transactions_get(&ids[i]) {
                Ok(rec) => {
                    found.push(rec);
                    assert(present(next.last()));
                    assert(next.filter(present) == prev.filter(present).push(ids@[i as int])) by {
                        reveal_with_fuel(Seq::filter, 1);
                        assert(next.len() > 0);
                        assert(next.drop_last() == prev);
                    }
                    assert(next.filter(absent) == prev.filter(absent)) by {
                        reveal_with_fuel(Seq::filter, 1);
                        assert(next.len() > 0);
                        assert(next.drop_last() == prev);
                        assert(!absent(next.last()));
                    }
                },
                Err(e) => {
                    if !e.is_not_found() {
                        return Err(e);
                    }
                    missing.push(ids[i]);
                    assert(next.filter(present) == prev.filter(present)) by {
                        reveal_with_fuel(Seq::filter, 1);
                    }
                    assert(next.filter(absent) == prev.filter(absent).push(ids@[i as int])) by {
                        reveal_with_fuel(Seq::filter, 1);
                    }
                },
            }
            i = i + 1;
        }
        assert(ids@.subrange(0, ids@.len() as int) =~= ids@);
        Ok((found, missing))
    }
}

/// The identifiers `ids` in hexadecimal, separated by a comma and a space.
fn join_ids_hex(ids: &Vec<TransactionId>) -> (r: String)
    ensures
        r@ == join_hex(ids@),
{
    let mut r = String::new();
    let mut i: usize = 0;
    while i < ids.len()
        invariant
            i <= ids@.len(),
            r@ == join_hex(ids@.subrange(0, i as int)),
        decreases ids@.len() - i,
    {
        proof {
            reveal_strlit(", ");
        }
        assert(ids@.subrange(0, i + 1).drop_last() =~= ids@.subrange(0, i as int));
        if i > 0 {
            r.append(", ");
        }
        let h = ids[i].to_hex();
        r.append(h.as_str());
        assert(ids@.subrange(0, i + 1).last() == ids@[i as int]);
        if i == 0 {
            assert(ids@.subrange(0, 1)[0] == ids@[0]);
        }
        i = i + 1;
    }
    assert(ids@.subrange(0, ids@.len() as int) =~= ids@);
    r
}

impl Block {
    /// The substate addresses involved in the block's stored transactions,
    /// each once.
    pub fn find_involved_shards<TTx: StateStoreReadTransaction>(&self, tx: &mut TTx) -> (r: Result<
        Vec<SubstateAddress>,
        StorageError,
    >)
        requires
            old(tx).inv(),
        ensures
            final(tx).inv(),
            final(tx).healthy() == old(tx).healthy(),
            final(tx).model() == old(tx).model(),
            r matches Ok(v) ==> v@.no_duplicates() && v@.to_set() == involved_shards_of(
                old(tx).model(),
                transaction_ids(self@.commands),
            ),
            old(tx).healthy() ==> r is Ok,
    {
        let ids = self.all_transaction_ids();
        tx.transactions_fetch_involved_shards(&ids)
    }

    /// The records of the block's transactions, in the order of its
    /// commands; fails where any of them is not stored, naming those.
    pub fn get_transactions<TTx: StateStoreReadTransaction>(&self, tx: &mut TTx) -> (r: Result<
        Vec<TransactionRecord>,
        StorageError,
    >)
        requires
            old(tx).inv(),
        ensures
            final(tx).inv(),
            final(tx).healthy() == old(tx).healthy(),
            final(tx).model() == old(tx).model(),
            (old(tx).healthy() || r is Ok) ==> ({
                let ids = transaction_ids(self@.commands);
                let missing = missing_ids(old(tx).model(), ids);
                if missing.len() > 0 {
                    r matches Err(StorageError::NotFound { item, key }) && item@ == "Transaction"@
                        && key@ == join_hex(missing)
                } else {
                    r matches Ok(found) && found@.len() == ids.len() && forall|k: int|
                        0 <= k < ids.len() ==> found@[k]@ == old(tx).model().transactions[ids[k]]
                            && found@[k].transaction_id == ids[k]
                }
            }),
    {
        let ids = self.all_transaction_ids();
        let (found, missing) = match TransactionRecord::get_any(tx, &ids) {
            Ok(fm) => fm,
            Err(e) => return Err(e),
        };
        if missing.len() > 0 {
            return Err(
                StorageError::NotFound {
                    item: String::from_str("Transaction"),
                    key: join_ids_hex(&missing),
                },
            );
        }
        proof {
            tx.lemma_keyed_by_id();
            let m = old(tx).model();
            let present = tx_present(m);
            let absent = tx_absent(m);
            assert(ids@.filter(absent).len() == 0);
            assert forall|k: int| 0 <= k < ids@.len() implies present(ids@[k]) by {
                if !present(ids@[k]) {
                    ids@.lemma_filter_contains(absent, k);
                    assert(ids@.filter(absent).contains(ids@[k]));
                }
            }
            lemma_filter_all_true(ids@, present);
        }
        Ok(found)
    }

    /// The substate updates that the block commits: for each transaction it
    /// accepts with a commit decision, each version that transaction created
    /// or destroyed, as a creation or a destruction with the certificate
    /// that justified it. Fails where a certificate is not stored.
    pub fn get_substate_updates<TTx: StateStoreReadTransaction>(&self, tx: &mut TTx) -> (r: Result<
        Vec<SubstateUpdate>,
        StorageError,
    >)
        requires
            old(tx).inv(),
        ensures
            final(tx).inv(),
            final(tx).healthy() == old(tx).healthy(),
            final(tx).model() == old(tx).model(),
            committed_accepts(self@.commands).len() == 0 ==> (r matches Ok(v) && v@ == Seq::<
                SubstateUpdate,
            >::empty()),
            (old(tx).healthy() || r is Ok) ==> match spec_substate_updates(old(tx).model(), self@) {
                Some(u) => r matches Ok(v) && v@ == u,
                None => r matches Err(e) && e is NotFound,
            },
    {
        let ghost m = tx.model();
        let committed = collect_committed_accepts(self.commands().as_slice());
        let mut updates: Vec<SubstateUpdate> = Vec::new();
        let mut i: usize = 0;
        while i < committed.len()
            invariant
                tx.inv(),
                tx.model() == m,
                tx.healthy() == old(tx).healthy(),
                m == old(tx).model(),
                i <= committed@.len(),
                committed@ == committed_accepts(self@.commands),
                updates_of_transactions(m, committed@.subrange(0, i as int)) == Some(updates@),
            decreases committed@.len() - i,
        {
            let t = committed[i];
            let substates = match tx.substates_get_all_for_transaction(&t.id) {
                Ok(v) => v,
                Err(e) => return Err(e),
            };
            let ghost before = updates@;
            let mut j: usize = 0;
            while j < substates.len()
                invariant
                    tx.inv(),
                    tx.model() == m,
                    tx.healthy() == old(tx).healthy(),
                    m == old(tx).model(),
                    i < committed@.len(),
                    committed@ == committed_accepts(self@.commands),
                    t == committed@[i as int],
                    substates@ == substates_for(m.substates, t.id),
                    updates_of_transactions(m, committed@.subrange(0, i as int)) == Some(before),
                    j <= substates@.len(),
                    updates_of_records(m, t.id, substates@.subrange(0, j as int)) matches Some(q)
                        && updates@ == before + q,
                decreases substates@.len() - j,
            {
                let s = substates[j];
                let ghost q_prev = updates_of_records(m, t.id, substates@.subrange(0, j as int))->0;
                assert(substates@.subrange(0, j + 1).drop_last() =~= substates@.subrange(
                    0,
                    j as int,
                ));
                assert(substates@.subrange(0, j + 1).last() == s);
                let update = match s.destroyed() {
                    Some(destroyed) => {
                        if s.created_by_transaction.equals(&t.id) {
                            match QuorumCertificate::get(tx, &s.created_justify) {
                                Ok(created_qc) => SubstateUpdate::Create(
                                    SubstateCreatedProof {
                                        created_qc,
                                        substate: s.to_substate_data(),
                                    },
                                ),
                                Err(e) => {
                                    proof {
                                        if e is NotFound {
                                            lemma_records_none_extends(m, t.id, substates@, j + 1);
                                            lemma_transactions_none_extends(
                                                m,
                                                committed@,
                                                i + 1,
                                            );
                                            assert(committed@.subrange(0, i + 1).drop_last()
                                                =~= committed@.subrange(0, i as int));
                                        }
                                    }
                                    return Err(e);
                                },
                            }
                        } else {
                            match QuorumCertificate::get(tx, &destroyed.justify) {
                                Ok(justify) => SubstateUpdate::Destroy(
                                    SubstateDestroyedProof {
                                        substate_id: s.substate_id,
                                        version: s.version,
                                        justify,
                                        destroyed_by_transaction: destroyed.by_transaction,
                                    },
                                ),
                                Err(e) => {
                                    proof {
                                        if e is NotFound {
                                            lemma_records_none_extends(m, t.id, substates@, j + 1);
                                            lemma_transactions_none_extends(
                                                m,
                                                committed@,
                                                i + 1,
                                            );
                                            assert(committed@.subrange(0, i + 1).drop_last()
                                                =~= committed@.subrange(0, i as int));
                                        }
                                    }
                                    return Err(e);
                                },
                            }
                        }
                    },
                    None => {
                        match QuorumCertificate::get(tx, &s.created_justify) {
                            Ok(created_qc) => SubstateUpdate::Create(
                                SubstateCreatedProof { created_qc, substate: s.to_substate_data() },
                            ),
                            Err(e) => {
                                proof {
                                    if e is NotFound {
                                        lemma_records_none_extends(m, t.id, substates@, j + 1);
                                        lemma_transactions_none_extends(m, committed@, i + 1);
                                        assert(committed@.subrange(0, i + 1).drop_last()
                                            =~= committed@.subrange(0, i as int));
                                    }
                                }
                                return Err(e);
                            },
                        }
                    },
                };
                assert(substate_update_of(m, t.id, s) == Some(update));
                updates.push(update);
                assert(updates@ =~= before + q_prev.push(update));
                j = j + 1;
            }
            assert(substates@.subrange(0, substates@.len() as int) =~= substates@);
            assert(committed@.subrange(0, i + 1).drop_last() =~= committed@.subrange(0, i as int));
            assert(committed@.subrange(0, i + 1).last() == t);
            i = i + 1;
        }
        assert(committed@.subrange(0, committed@.len() as int) =~= committed@);
        Ok(updates)
    }

    /// The substate diffs of the transactions the block accepts with a
    /// commit decision and whose execution was accepted, in order; fails
    /// where any of those transactions is not stored.
    pub fn get_all_substate_diffs<TTx: StateStoreReadTransaction>(&self, tx: &mut TTx) -> (r:
        Result<Vec<SubstateDiff>, StorageError>)
        requires
            old(tx).inv(),
        ensures
            final(tx).inv(),
            final(tx).healthy() == old(tx).healthy(),
            final(tx).model() == old(tx).model(),
            (old(tx).healthy() || r is Ok) ==> ({
                let ts = committed_accepts(self@.commands);
                if forall|k: int|
                    0 <= k < ts.len() ==> old(tx).model().transactions.contains_key(
                        #[trigger] ts[k].id,
                    ) {
                    r matches Ok(v) && v@.len() == diffs_of(old(tx).model(), ts).len() && forall|
                        k: int,
                    | 0 <= k < v@.len() ==> v@[k]@ == diffs_of(old(tx).model(), ts)[k]
                } else {
                    r matches Err(e) && e is NotFound
                }
            }),
    {
        let ghost m = tx.model();
        let committed = collect_committed_accepts(self.commands().as_slice());
        let mut records: Vec<TransactionRecord> = Vec::new();
        let mut i: usize = 0;
        while i < committed.len()
            invariant
                tx.inv(),
                tx.model() == m,
                tx.healthy() == old(tx).healthy(),
                i <= committed@.len(),
                committed@ == committed_accepts(self@.commands),
                records@.len() == i,
                forall|k: int|
                    0 <= k < i ==> m.transactions.contains_key(#[trigger] committed@[k].id)
                        && records@[k]@ == m.transactions[committed@[k].id],
            decreases committed@.len() - i,
        {
            match tx.transactions_get(committed[i].id()) {
                Ok(rec) => records.push(rec),
                Err(e) => return Err(e),
            }
            i = i + 1;
        }
        let mut diffs: Vec<SubstateDiff> = Vec::new();
        let mut j: usize = 0;
        while j < records.len()
            invariant
                j <= records@.len(),
                records@.len() == committed@.len(),
                forall|k: int|
                    0 <= k < records@.len() ==> records@[k]@ == m.transactions[#[trigger] committed@[k].id],
                diffs@.len() == diffs_of(m, committed@.subrange(0, j as int)).len(),
                forall|k: int|
                    0 <= k < diffs@.len() ==> diffs@[k]@ == diffs_of(
                        m,
                        committed@.subrange(0, j as int),
                    )[k],
            decreases records@.len() - j,
        {
            assert(committed@.subrange(0, j + 1).drop_last() =~= committed@.subrange(0, j as int));
            assert(committed@.subrange(0, j + 1).last() == committed@[j as int]);
            assert(records@[j as int]@ == m.transactions[committed@[j as int].id]);
            match &records[j].result {
                Some(res) => {
                    match res.clone().into_accept() {
                        Some(d) => {
                            diffs.push(d);
                        },
                        None => {},
                    }
                },
                None => {},
            }
            j = j + 1;
        }
        assert(committed@.subrange(0, committed@.len() as int) =~= committed@);
        Ok(diffs)
    }
}

} // verus!
