use indexmap::IndexMap;
use tari_dan_models::block::{Block, BlockId};
use tari_dan_models::command::{Command, CommandSet, Decision, TransactionAtom, TransactionId};
use tari_dan_models::common::{Epoch, Network, NodeHeight, PublicKey, ValidatorSchnorrSignature};
use tari_dan_models::error::StorageError;
use tari_dan_models::hash::FixedHash;
use tari_dan_models::memory_store::MemoryStateStore;
use tari_dan_models::quorum::{QcId, QuorumCertificate};
use tari_dan_models::state_store::{SortOrder, StateStoreWriteTransaction};
use tari_dan_models::transaction::{
    SubstateAddress, SubstateDestroyed, SubstateDiff, SubstateId, SubstateRecord, SubstateUpdate,
    TransactionRecord, TransactionResult,
};
use tari_dan_models::vote::{QuorumDecision, ValidatorSignature, Vote};

fn hash_of(b: u8) -> FixedHash {
    FixedHash([b; 32])
}

fn qc_for(block: &Block, id: u8) -> QuorumCertificate {
    QuorumCertificate {
        qc_id: QcId(hash_of(id)),
        block_id: *block.id(),
        block_height: block.height(),
        epoch: block.epoch(),
    }
}

fn block_on(parent: &Block, epoch: u64, proposer: u8, fee: u64, commands: CommandSet) -> Block {
    Block::new(
        Network::LocalNet,
        *parent.id(),
        qc_for(parent, 0xa0),
        NodeHeight(parent.height().0 + 1),
        Epoch(epoch),
        PublicKey([proposer; 32]),
        commands,
        hash_of(0),
        fee,
        IndexMap::new(),
        None,
    )
}

/// Genesis, then `a` and `b` on it (epoch 1, proposers 1 and 2), then `c`
/// on `a` (epoch 2, proposer 1).
fn tree() -> (MemoryStateStore, Block, Block, Block, Block) {
    let mut store = MemoryStateStore::new();
    let genesis = Block::genesis(Network::LocalNet);
    let a = block_on(&genesis, 1, 1, 5, CommandSet::new());
    let b = block_on(&genesis, 1, 2, 7, CommandSet::new());
    let c = block_on(&a, 2, 1, 11, CommandSet::new());
    for blk in [&genesis, &a, &b, &c] {
        assert!(blk.save(&mut store).unwrap());
    }
    (store, genesis, a, b, c)
}

fn ids(blocks: &[Block]) -> Vec<BlockId> {
    blocks.iter().map(|b| *b.id()).collect()
}

#[test]
fn tip_count_and_max_height() {
    let mut empty = MemoryStateStore::new();
    assert!(Block::get_tip(&mut empty).unwrap_err().is_not_found());
    assert!(Block::max_height(&mut empty).unwrap_err().is_not_found());
    assert_eq!(Block::get_count(&mut empty).unwrap(), 0);

    let (mut store, _g, _a, _b, c) = tree();
    assert_eq!(Block::get_tip(&mut store).unwrap().id(), c.id());
    assert_eq!(Block::max_height(&mut store).unwrap(), NodeHeight(2));
    assert_eq!(Block::get_count(&mut store).unwrap(), 4);
}

#[test]
fn children_of_a_block() {
    let (mut store, g, a, b, c) = tree();
    let mut kids = ids(&g.get_child_blocks(&mut store).unwrap());
    kids.sort_by_key(|id| id.as_bytes().to_vec());
    let mut expected = vec![*a.id(), *b.id()];
    expected.sort_by_key(|id| id.as_bytes().to_vec());
    assert_eq!(kids, expected);
    assert_eq!(ids(&a.get_child_blocks(&mut store).unwrap()), vec![*c.id()]);
    assert!(c.get_child_blocks(&mut store).unwrap().is_empty());
}

#[test]
fn parent_chain_is_nearest_first_and_limited() {
    let (mut store, g, a, b, c) = tree();
    assert_eq!(ids(&c.get_parent_chain(&mut store, 10).unwrap()), vec![*c.id(), *a.id(), *g.id()]);
    assert_eq!(ids(&c.get_parent_chain(&mut store, 2).unwrap()), vec![*c.id(), *a.id()]);
    assert!(c.get_parent_chain(&mut store, 0).unwrap().is_empty());
    let stray = block_on(&b, 1, 3, 0, CommandSet::new());
    assert!(stray.get_parent_chain(&mut store, 3).is_err());
}

#[test]
fn blocks_between_are_lowest_first() {
    let (mut store, g, a, _b, c) = tree();
    let between = Block::get_all_blocks_between(&mut store, g.id(), c.id(), true).unwrap();
    assert_eq!(ids(&between), vec![*a.id(), *c.id()]);
    let from_a = Block::get_all_blocks_between(&mut store, a.id(), c.id(), false).unwrap();
    assert_eq!(ids(&from_a), vec![*c.id()]);
    assert!(Block::get_all_blocks_between(&mut store, g.id(), &BlockId::new(hash_of(0x44)), true).is_err());
}

#[test]
fn blocks_between_leave_out_dummies_unless_asked() {
    let (mut store, g, a, _b, _c) = tree();
    let dummy = Block::dummy_block(
        Network::LocalNet,
        *a.id(),
        PublicKey([9; 32]),
        NodeHeight(2),
        qc_for(&a, 0xa1),
        Epoch(1),
        hash_of(0),
    );
    assert!(dummy.save(&mut store).unwrap());
    let top = block_on(&dummy, 1, 1, 0, CommandSet::new());
    assert!(top.save(&mut store).unwrap());
    let with = Block::get_all_blocks_between(&mut store, g.id(), top.id(), true).unwrap();
    assert_eq!(ids(&with), vec![*a.id(), *dummy.id(), *top.id()]);
    let without = Block::get_all_blocks_between(&mut store, g.id(), top.id(), false).unwrap();
    assert_eq!(ids(&without), vec![*a.id(), *top.id()]);
}

#[test]
fn leader_fees_by_epoch_and_proposer() {
    let (mut store, _g, _a, _b, _c) = tree();
    assert_eq!(Block::get_total_due_for_epoch(&mut store, Epoch(1), &PublicKey([1; 32])).unwrap(), 5);
    assert_eq!(Block::get_total_due_for_epoch(&mut store, Epoch(1), &PublicKey([2; 32])).unwrap(), 7);
    assert_eq!(Block::get_total_due_for_epoch(&mut store, Epoch(2), &PublicKey([1; 32])).unwrap(), 11);
    assert_eq!(Block::get_total_due_for_epoch(&mut store, Epoch(3), &PublicKey([1; 32])).unwrap(), 0);
}

#[test]
fn blocks_in_an_epoch_range() {
    let (mut store, _g, a, b, c) = tree();
    let mut all = ids(&Block::get_any_with_epoch_range_for_validator(&mut store, Epoch(1)..=Epoch(2), None).unwrap());
    all.sort_by_key(|id| id.as_bytes().to_vec());
    let mut expected = vec![*a.id(), *b.id(), *c.id()];
    expected.sort_by_key(|id| id.as_bytes().to_vec());
    assert_eq!(all, expected);
    let by_one = Block::get_any_with_epoch_range_for_validator(&mut store, Epoch(2)..=Epoch(5), Some(&PublicKey([1; 32])))
        .unwrap();
    assert_eq!(ids(&by_one), vec![*c.id()]);
    let by_two = Block::get_any_with_epoch_range_for_validator(&mut store, Epoch(2)..=Epoch(5), Some(&PublicKey([2; 32])))
        .unwrap();
    assert!(by_two.is_empty());
}

fn accept(b: u8, decision: Decision) -> Command {
    Command::Accept(TransactionAtom { id: TransactionId(hash_of(b)), decision, transaction_fee: 1 })
}

fn commands(list: Vec<Command>) -> CommandSet {
    CommandSet::from_vec(list)
}

#[test]
fn transactions_of_a_block_or_the_missing_ones() {
    let (mut store, g, _a, _b, _c) = tree();
    let block = block_on(&g, 1, 1, 0, commands(vec![accept(0x31, Decision::Commit), accept(0x32, Decision::Abort)]));
    match block.get_transactions(&mut store) {
        Err(StorageError::NotFound { item, key }) => {
            assert_eq!(item, "Transaction");
            assert_eq!(key, format!("{}, {}", "31".repeat(32), "32".repeat(32)));
        },
        other => panic!("unexpected {:?}", other.map(|v| v.len())),
    }
    store
        .transactions_insert(&TransactionRecord { transaction_id: TransactionId(hash_of(0x31)), involved_shards: vec![], result: None })
        .unwrap();
    match block.get_transactions(&mut store) {
        Err(StorageError::NotFound { item, key }) => {
            assert_eq!(item, "Transaction");
            assert_eq!(key, "32".repeat(32));
        },
        other => panic!("unexpected {:?}", other.map(|v| v.len())),
    }
    store
        .transactions_insert(&TransactionRecord {
            transaction_id: TransactionId(hash_of(0x32)),
            involved_shards: vec![],
            result: Some(TransactionResult::Reject),
        })
        .unwrap();
    let found = block.get_transactions(&mut store).unwrap();
    assert_eq!(found.len(), 2);
    assert_eq!(found[0].transaction_id, TransactionId(hash_of(0x31)));
    assert_eq!(found[1].transaction_id, TransactionId(hash_of(0x32)));
}

fn diff(up: u8, down: u8) -> SubstateDiff {
    SubstateDiff {
        up_substates: vec![(SubstateId(hash_of(up)), 1)],
        down_substates: vec![(SubstateId(hash_of(down)), 0)],
    }
}

fn versions(v: &[(SubstateId, u32)]) -> Vec<(FixedHash, u32)> {
    v.iter().map(|(id, n)| (id.0, *n)).collect()
}

#[test]
fn substate_diffs_of_committed_accepted_transactions() {
    let (mut store, g, _a, _b, _c) = tree();
    let block = block_on(
        &g,
        1,
        1,
        0,
        commands(vec![
            accept(0x41, Decision::Commit),
            accept(0x42, Decision::Abort),
            accept(0x43, Decision::Commit),
            accept(0x44, Decision::Commit),
        ]),
    );
    assert!(block.get_all_substate_diffs(&mut store).is_err());
    let records = [
        (0x41, Some(TransactionResult::Accept(diff(1, 2)))),
        (0x42, Some(TransactionResult::Accept(diff(3, 4)))),
        (0x43, Some(TransactionResult::Reject)),
        (0x44, Some(TransactionResult::Accept(diff(5, 6)))),
    ];
    for (id, result) in records {
        store.transactions_insert(&TransactionRecord { transaction_id: TransactionId(hash_of(id)), involved_shards: vec![], result }).unwrap();
    }
    let diffs = block.get_all_substate_diffs(&mut store).unwrap();
    assert_eq!(diffs.len(), 2);
    assert_eq!(versions(&diffs[0].up_substates), vec![(hash_of(1), 1)]);
    assert_eq!(versions(&diffs[0].down_substates), vec![(hash_of(2), 0)]);
    assert_eq!(versions(&diffs[1].up_substates), vec![(hash_of(5), 1)]);
}

#[test]
fn substate_updates_of_committed_transactions() {
    let (mut store, g, a, _b, _c) = tree();
    let created_qc = qc_for(&g, 0x51);
    let destroyed_qc = qc_for(&a, 0x52);
    assert!(created_qc.save(&mut store).unwrap());
    let t1 = TransactionId(hash_of(0x61));
    let t2 = TransactionId(hash_of(0x62));
    // Created by t1 and still up.
    store
        .substates_insert(&SubstateRecord {
            substate_id: SubstateId(hash_of(0x71)),
            version: 0,
            created_by_transaction: t1,
            created_justify: created_qc.qc_id,
            destroyed: None,
        })
        .unwrap();
    // Created earlier, destroyed by t1.
    store
        .substates_insert(&SubstateRecord {
            substate_id: SubstateId(hash_of(0x72)),
            version: 3,
            created_by_transaction: t2,
            created_justify: created_qc.qc_id,
            destroyed: Some(SubstateDestroyed { by_transaction: t1, justify: destroyed_qc.qc_id }),
        })
        .unwrap();
    let block = block_on(&g, 1, 1, 0, commands(vec![accept(0x61, Decision::Commit), accept(0x62, Decision::Abort)]));
    // The certificate of the destruction is not stored yet.
    assert!(block.get_substate_updates(&mut store).is_err());
    assert!(destroyed_qc.save(&mut store).unwrap());
    let updates = block.get_substate_updates(&mut store).unwrap();
    assert_eq!(updates.len(), 2);
    match updates[0] {
        SubstateUpdate::Create(p) => {
            assert_eq!(p.created_qc.qc_id.0, created_qc.qc_id.0);
            assert_eq!(p.substate.substate_id.0, hash_of(0x71));
            assert_eq!(p.substate.created_by_transaction, t1);
        },
        _ => panic!("expected a creation"),
    }
    match updates[1] {
        SubstateUpdate::Destroy(p) => {
            assert_eq!(p.substate_id.0, hash_of(0x72));
            assert_eq!(p.version, 3);
            assert_eq!(p.justify.qc_id.0, destroyed_qc.qc_id.0);
            assert_eq!(p.destroyed_by_transaction, t1);
        },
        _ => panic!("expected a destruction"),
    }
}

#[test]
fn block_display_string() {
    let g = Block::genesis(Network::LocalNet);
    assert_eq!(g.to_display_string(), format!("[0, {}, 0 command(s)]", g.id().to_hex()));
    let zero = Block::zero_block(Network::LocalNet);
    assert_eq!(zero.to_display_string(), format!("[0, {}, 0 command(s)]", "0".repeat(64)));
    let b = block_on(&g, 1, 1, 0, commands(vec![accept(1, Decision::Commit), accept(2, Decision::Commit)]));
    assert_eq!(b.to_display_string(), format!("[1, {}, 2 command(s)]", b.id().to_hex()));
    let mut high = block_on(&g, 1, 1, 0, CommandSet::new());
    high = Block::load(
        *high.id(),
        Network::LocalNet,
        *high.parent(),
        *high.justify(),
        NodeHeight(1234),
        Epoch(1),
        PublicKey([1; 32]),
        CommandSet::new(),
        hash_of(0),
        0,
        false,
        false,
        false,
        IndexMap::new(),
        None,
        time::PrimitiveDateTime::MIN,
    );
    assert_eq!(high.to_display_string(), format!("[1234, {}, 0 command(s)]", high.id().to_hex()));
}

#[test]
fn block_id_conversions() {
    let from_hash: BlockId = BlockId::from(hash_of(3));
    assert_eq!(from_hash.hash(), &hash_of(3));
    let from_slice = BlockId::try_from(&[3u8; 32][..]).unwrap();
    assert_eq!(from_slice, from_hash);
    let from_vec = BlockId::try_from(vec![3u8; 32]).unwrap();
    assert_eq!(from_vec, from_hash);
    assert!(BlockId::try_from(vec![3u8; 31]).is_err());
    assert!(BlockId::try_from(&[3u8; 33][..]).is_err());
}

#[test]
fn pages_of_blocks_in_stored_order() {
    let (mut store, g, a, b, c) = tree();
    let all = Block::get_paginated(&mut store, 10, 0, None).unwrap();
    assert_eq!(ids(&all), vec![*g.id(), *a.id(), *b.id(), *c.id()]);
    let asc = Block::get_paginated(&mut store, 2, 1, Some(SortOrder::Ascending)).unwrap();
    assert_eq!(ids(&asc), vec![*a.id(), *b.id()]);
    let desc = Block::get_paginated(&mut store, 3, 0, Some(SortOrder::Descending)).unwrap();
    assert_eq!(ids(&desc), vec![*c.id(), *b.id(), *a.id()]);
    let tail = Block::get_paginated(&mut store, 5, 3, Some(SortOrder::Descending)).unwrap();
    assert_eq!(ids(&tail), vec![*g.id()]);
    assert!(Block::get_paginated(&mut store, 5, 4, None).unwrap().is_empty());
    assert!(Block::get_paginated(&mut store, 0, 0, None).unwrap().is_empty());
    assert!(Block::get_paginated(&mut store, u64::MAX, u64::MAX, None).unwrap().is_empty());
}

fn vote(block: &Block, decision: QuorumDecision, voter: u8) -> Vote {
    Vote {
        epoch: Epoch(1),
        block_id: *block.id(),
        decision,
        sender_leaf_hash: hash_of(voter),
        signature: ValidatorSignature {
            public_key: PublicKey([voter; 32]),
            signature: ValidatorSchnorrSignature { public_nonce: [voter; 32], signature: [voter; 32] },
        },
    }
}

#[test]
fn votes_of_a_block_in_stored_order() {
    let (mut store, _g, a, b, _c) = tree();
    assert!(a.get_votes(&mut store).unwrap().is_empty());
    vote(&a, QuorumDecision::Accept, 1).save(&mut store).unwrap();
    vote(&b, QuorumDecision::Accept, 2).save(&mut store).unwrap();
    vote(&a, QuorumDecision::Reject, 3).save(&mut store).unwrap();
    let for_a = a.get_votes(&mut store).unwrap();
    assert_eq!(for_a.len(), 2);
    assert_eq!(for_a[0].decision, QuorumDecision::Accept);
    assert_eq!(for_a[0].signature.public_key, PublicKey([1; 32]));
    assert_eq!(for_a[1].decision, QuorumDecision::Reject);
    assert_eq!(for_a[1].sender_leaf_hash, hash_of(3));
    let for_b = Vote::get_for_block(&mut store, b.id()).unwrap();
    assert_eq!(for_b.len(), 1);
    assert_eq!(for_b[0].signature.public_key, PublicKey([2; 32]));
}

#[test]
fn involved_shards_of_stored_transactions_once_each() {
    let (mut store, g, _a, _b, _c) = tree();
    let block = block_on(&g, 1, 1, 0, commands(vec![accept(0x81, Decision::Commit), accept(0x82, Decision::Abort), accept(0x83, Decision::Commit)]));
    assert!(block.find_involved_shards(&mut store).unwrap().is_empty());
    let addr = |b: u8| SubstateAddress(hash_of(b));
    store
        .transactions_insert(&TransactionRecord {
            transaction_id: TransactionId(hash_of(0x81)),
            involved_shards: vec![addr(1), addr(2), addr(1)],
            result: None,
        })
        .unwrap();
    store
        .transactions_insert(&TransactionRecord {
            transaction_id: TransactionId(hash_of(0x82)),
            involved_shards: vec![addr(2), addr(3)],
            result: None,
        })
        .unwrap();
    let mut found: Vec<FixedHash> = block.find_involved_shards(&mut store).unwrap().iter().map(|a| a.0).collect();
    found.sort_by_key(|h| h.0);
    assert_eq!(found, vec![hash_of(1), hash_of(2), hash_of(3)]);
}

#[test]
fn proposer_address_comparison() {
    let (_store, g, a, _b, _c) = tree();
    assert_eq!(a.is_proposed_by_addr(&PublicKey([1; 32])), Some(true));
    assert_eq!(a.is_proposed_by_addr(&PublicKey([2; 32])), Some(false));
    assert_eq!(g.is_proposed_by_addr(&PublicKey([0; 32])), Some(true));
}

#[test]
fn substate_updates_of_block_without_commits_is_empty() {
    let mut store = MemoryStateStore::new();
    let zero = Block::zero_block(Network::LocalNet);
    assert_eq!(zero.get_substate_updates(&mut store).unwrap().len(), 0);
    let aborting = block_on(&zero, 1, 1, 0, commands(vec![accept(0x62, Decision::Abort)]));
    assert_eq!(aborting.get_substate_updates(&mut store).unwrap().len(), 0);
}

#[test]
fn extends_reads_nothing_for_itself_or_its_parent() {
    let mut store = MemoryStateStore::new();
    let zero = Block::zero_block(Network::LocalNet);
    let child = block_on(&zero, 1, 1, 0, CommandSet::new());
    assert!(!zero.extends(&mut store, zero.id()).unwrap());
    assert!(!child.extends(&mut store, child.id()).unwrap());
    assert!(child.extends(&mut store, zero.id()).unwrap());
}
