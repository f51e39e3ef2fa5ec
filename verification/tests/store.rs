use indexmap::IndexMap;
use tari_dan_models::block::{Block, BlockId};
use tari_dan_models::command::CommandSet;
use tari_dan_models::common::{Epoch, Network, NodeHeight, PublicKey, Shard};
use tari_dan_models::error::StorageError;
use tari_dan_models::foreign_send_counters::ForeignSendCounters;
use tari_dan_models::hash::FixedHash;
use tari_dan_models::memory_store::{MemoryStateStore, RecordingHooks};
use tari_dan_models::quorum::{LastExecuted, LockedBlock, QcId, QuorumCertificate};
use tari_dan_models::state_store::{StateStoreReadTransaction, StateStoreWriteTransaction};

fn qc_for(block: &Block) -> QuorumCertificate {
    QuorumCertificate {
        qc_id: QcId(FixedHash([0x10 + block.height().0 as u8; 32])),
        block_id: *block.id(),
        block_height: block.height(),
        epoch: Epoch(0),
    }
}

fn child_of(parent: &Block, indexes: IndexMap<u32, u64>) -> Block {
    Block::new(
        Network::LocalNet,
        *parent.id(),
        qc_for(parent),
        NodeHeight(parent.height().0 + 1),
        Epoch(0),
        PublicKey([1; 32]),
        CommandSet::new(),
        FixedHash([0; 32]),
        0,
        indexes,
        None,
    )
}

/// A store holding the zero block, the genesis block and three blocks on
/// top of it, locked and executed at genesis.
fn chain() -> (MemoryStateStore, Vec<Block>) {
    let mut store = MemoryStateStore::new();
    let zero = Block::zero_block(Network::LocalNet);
    let genesis = Block::genesis(Network::LocalNet);
    let b1 = child_of(&genesis, IndexMap::new());
    let b2 = child_of(&b1, IndexMap::new());
    let b3 = child_of(&b2, IndexMap::new());
    for b in [&zero, &genesis, &b1, &b2, &b3] {
        assert!(b.save(&mut store).unwrap());
    }
    let gqc = QuorumCertificate::genesis();
    assert!(gqc.save(&mut store).unwrap());
    store.high_qc_set(&gqc.as_high_qc()).unwrap();
    LockedBlock { height: NodeHeight(0), block_id: *genesis.id() }.set(&mut store).unwrap();
    LastExecuted { height: NodeHeight(0), block_id: *genesis.id() }.set(&mut store).unwrap();
    (store, vec![zero, genesis, b1, b2, b3])
}

fn lock_ids(hooks: &RecordingHooks) -> Vec<BlockId> {
    hooks.locked.iter().map(|(_, b)| *b).collect()
}

fn commit_ids(hooks: &RecordingHooks) -> Vec<BlockId> {
    hooks.committed.iter().map(|(_, b)| *b).collect()
}

#[test]
fn save_inserts_only_once() {
    let mut store = MemoryStateStore::new();
    let g = Block::genesis(Network::LocalNet);
    assert!(!g.exists_in_store(&mut store).unwrap());
    assert!(g.save(&mut store).unwrap());
    assert!(!g.save(&mut store).unwrap());
    assert!(g.exists_in_store(&mut store).unwrap());
    assert!(g.insert(&mut store).is_err());
    let back = Block::get(&mut store, g.id()).unwrap();
    assert_eq!(back.id(), g.id());
}

#[test]
fn get_missing_block_is_not_found() {
    let mut store = MemoryStateStore::new();
    let err = Block::get(&mut store, &BlockId::new(FixedHash([5; 32]))).unwrap_err();
    assert!(err.is_not_found());
    assert!(!Block::record_exists(&mut store, &BlockId::new(FixedHash([5; 32]))).unwrap());
}

#[test]
fn processed_and_committed_flags() {
    let (mut store, blocks) = chain();
    let b2 = &blocks[3];
    assert!(!Block::has_been_processed(&mut store, b2.id()).unwrap());
    b2.set_as_processed(&mut store).unwrap();
    assert!(Block::has_been_processed(&mut store, b2.id()).unwrap());
    assert!(!Block::get(&mut store, b2.id()).unwrap().is_committed());
    b2.commit(&mut store).unwrap();
    assert!(Block::get(&mut store, b2.id()).unwrap().is_committed());
    assert!(!Block::has_been_processed(&mut store, &BlockId::new(FixedHash([9; 32]))).unwrap());
    let orphan = child_of(&blocks[4], IndexMap::new());
    assert!(orphan.commit(&mut store).is_err());
}

#[test]
fn parent_of_zero_block_is_not_found() {
    let (mut store, blocks) = chain();
    match blocks[0].get_parent(&mut store) {
        Err(StorageError::NotFound { item, key }) => {
            assert_eq!(item, "Block");
            assert_eq!(key, "0".repeat(64));
        },
        other => panic!("unexpected {:?}", other.map(|b| *b.id())),
    }
    let p = blocks[3].get_parent(&mut store).unwrap();
    assert_eq!(p.id(), blocks[2].id());
    assert!(blocks[3].parent_exists(&mut store).unwrap());
}

#[test]
fn extends_follows_parents() {
    let (mut store, blocks) = chain();
    let b3 = &blocks[4];
    assert!(!b3.extends(&mut store, b3.id()).unwrap());
    assert!(b3.extends(&mut store, blocks[3].id()).unwrap());
    assert!(b3.extends(&mut store, blocks[2].id()).unwrap());
    assert!(b3.extends(&mut store, blocks[1].id()).unwrap());
    assert!(b3.extends(&mut store, blocks[0].id()).unwrap());
    assert!(!blocks[2].extends(&mut store, b3.id()).unwrap());
    let unknown = BlockId::new(FixedHash([0x77; 32]));
    assert!(b3.extends(&mut store, &unknown).is_err());
}

#[test]
fn is_safe_by_liveness_or_safety() {
    let (mut store, blocks) = chain();
    // Locked on b2.
    blocks[3].as_locked_block().set(&mut store).unwrap();
    // b3 extends b2: safe.
    assert!(blocks[4].is_safe(&mut store).unwrap());
    // A fork from b1 justified by b1 does not extend b2 and its
    // justification is not higher: unsafe.
    let fork = Block::new(
        Network::LocalNet,
        *blocks[2].id(),
        qc_for(&blocks[2]),
        NodeHeight(3),
        Epoch(0),
        PublicKey([2; 32]),
        CommandSet::new(),
        FixedHash([1; 32]),
        0,
        IndexMap::new(),
        None,
    );
    assert!(!fork.is_safe(&mut store).unwrap());
    // A fork whose justification is above the locked height: safe.
    let mut high = qc_for(&blocks[4]);
    high.block_id = *blocks[2].id();
    let live = Block::new(
        Network::LocalNet,
        *blocks[2].id(),
        high,
        NodeHeight(6),
        Epoch(0),
        PublicKey([2; 32]),
        CommandSet::new(),
        FixedHash([1; 32]),
        0,
        IndexMap::new(),
        None,
    );
    assert!(live.is_safe(&mut store).unwrap());
}

#[test]
fn is_safe_without_lock_fails() {
    let mut store = MemoryStateStore::new();
    let g = Block::genesis(Network::LocalNet);
    assert!(g.is_safe(&mut store).is_err());
}

#[test]
fn three_chain_locks_and_commits() {
    let (mut store, blocks) = chain();
    let b4 = child_of(&blocks[4], IndexMap::new());
    let mut hooks = RecordingHooks::new();
    let high_qc = b4.update_nodes::<_, _, StorageError>(&mut store, &mut hooks).unwrap();
    assert_eq!(&high_qc.block_id, blocks[4].id());
    assert_eq!(high_qc.block_height, NodeHeight(3));
    // b2 is locked, after the lock hook ran for b1 and b2.
    assert_eq!(lock_ids(&hooks), vec![*blocks[2].id(), *blocks[3].id()]);
    // Each lock call is handed the lock as it was: at genesis.
    assert!(hooks.locked.iter().all(|(l, _)| l.height == NodeHeight(0) && &l.block_id == blocks[1].id()));
    let locked = LockedBlock::get(&mut store).unwrap();
    assert_eq!(&locked.block_id, blocks[3].id());
    assert_eq!(locked.height, NodeHeight(2));
    // b1 is committed.
    assert_eq!(commit_ids(&hooks), vec![*blocks[2].id()]);
    assert!(hooks.committed.iter().all(|(e, _)| e.height == NodeHeight(0) && &e.block_id == blocks[1].id()));
    let last = LastExecuted::get(&mut store).unwrap();
    assert_eq!(&last.block_id, blocks[2].id());
    let stored = store.high_qc_get().unwrap();
    assert_eq!(&stored.block_id, blocks[4].id());
}

#[test]
fn update_nodes_without_commit_node_only_updates_high_qc() {
    let (mut store, blocks) = chain();
    let stranger = Block::genesis(Network::Igor);
    let orphan = child_of(&stranger, IndexMap::new());
    let mut hooks = RecordingHooks::new();
    let hq = orphan.update_nodes::<_, _, StorageError>(&mut store, &mut hooks).unwrap();
    assert_eq!(hq.block_height, NodeHeight(0));
    assert!(hooks.locked.is_empty());
    assert!(hooks.committed.is_empty());
    let locked = LockedBlock::get(&mut store).unwrap();
    assert_eq!(&locked.block_id, blocks[1].id());
}

#[test]
fn update_nodes_needs_high_qc() {
    let mut store = MemoryStateStore::new();
    let g = Block::genesis(Network::LocalNet);
    let mut hooks = RecordingHooks::new();
    assert!(g.update_nodes::<_, _, StorageError>(&mut store, &mut hooks).is_err());
}

#[test]
fn foreign_send_counters_carry_over_and_increment() {
    let (mut store, blocks) = chain();
    let mut carried = ForeignSendCounters::new();
    carried.increment_counter(7);
    carried.set(&mut store, blocks[4].id()).unwrap();
    let mut idx = IndexMap::new();
    idx.insert(7u32, 100u64);
    idx.insert(8u32, 100u64);
    let b4 = child_of(&blocks[4], idx);
    b4.save_foreign_send_counters(&mut store).unwrap();
    let counters = ForeignSendCounters::get_or_default(&mut store, b4.id()).unwrap();
    assert_eq!(counters.get_count(7), Some(2));
    assert_eq!(counters.get_count(8), Some(1));
    assert_eq!(counters.get_count(9), None);
    // A block without counters, justified by one without, stores nothing.
    let b5 = Block::new(
        Network::LocalNet,
        *blocks[3].id(),
        qc_for(&blocks[3]),
        NodeHeight(3),
        Epoch(0),
        PublicKey([9; 32]),
        CommandSet::new(),
        FixedHash([0; 32]),
        0,
        IndexMap::new(),
        None,
    );
    b5.save_foreign_send_counters(&mut store).unwrap();
    assert!(store.foreign_send_counters_get(b5.id()).is_err());
    let _ = Shard(0);
}

#[test]
fn commit_catches_up_on_blocks_not_yet_executed() {
    let (mut store, mut blocks) = chain();
    let b4 = child_of(&blocks[4], IndexMap::new());
    assert!(b4.save(&mut store).unwrap());
    blocks.push(b4);
    let b5 = child_of(&blocks[5], IndexMap::new());
    let mut hooks = RecordingHooks::new();
    b5.update_nodes::<_, _, StorageError>(&mut store, &mut hooks).unwrap();
    // Commit node b4, pre-commit b3, prepare b2: b1..b3 become locked and
    // b1, b2 committed, each lowest first.
    assert_eq!(lock_ids(&hooks), vec![*blocks[2].id(), *blocks[3].id(), *blocks[4].id()]);
    assert_eq!(commit_ids(&hooks), vec![*blocks[2].id(), *blocks[3].id()]);
    assert_eq!(&LockedBlock::get(&mut store).unwrap().block_id, blocks[4].id());
    assert_eq!(&LastExecuted::get(&mut store).unwrap().block_id, blocks[3].id());
    // A second update with the same block locks and commits nothing more.
    let mut again = RecordingHooks::new();
    b5.update_nodes::<_, _, StorageError>(&mut store, &mut again).unwrap();
    assert!(again.locked.is_empty());
    assert!(again.committed.is_empty());
}

#[test]
fn failing_lock_hook_stops_the_commit_rule() {
    let (mut store, blocks) = chain();
    let b4 = child_of(&blocks[4], IndexMap::new());
    // The lock hook refuses b2: b1 is locked first, then b2 is refused.
    let mut hooks = RecordingHooks::failing_on(*blocks[3].id());
    let err = b4.update_nodes::<_, _, StorageError>(&mut store, &mut hooks).unwrap_err();
    assert!(matches!(err, StorageError::QueryError { .. }));
    assert_eq!(lock_ids(&hooks), vec![*blocks[2].id(), *blocks[3].id()]);
    assert!(hooks.committed.is_empty());
    // Neither marker moved; the high QC did.
    assert_eq!(&LockedBlock::get(&mut store).unwrap().block_id, blocks[1].id());
    assert_eq!(&LastExecuted::get(&mut store).unwrap().block_id, blocks[1].id());
    assert_eq!(&store.high_qc_get().unwrap().block_id, blocks[4].id());
}

#[test]
fn failing_commit_hook_leaves_last_executed() {
    let (mut store, blocks) = chain();
    let b4 = child_of(&blocks[4], IndexMap::new());
    let mut hooks = RecordingHooks::failing_on(*blocks[2].id());
    // b1 is refused by the lock hook first.
    assert!(b4.update_nodes::<_, _, StorageError>(&mut store, &mut hooks).is_err());
    assert_eq!(lock_ids(&hooks), vec![*blocks[2].id()]);
    assert!(hooks.committed.is_empty());
    // With the lock already moved to b2, b1 is refused by the commit hook.
    LockedBlock { height: NodeHeight(2), block_id: *blocks[3].id() }.set(&mut store).unwrap();
    let mut hooks = RecordingHooks::failing_on(*blocks[2].id());
    assert!(b4.update_nodes::<_, _, StorageError>(&mut store, &mut hooks).is_err());
    assert!(hooks.locked.is_empty());
    assert_eq!(commit_ids(&hooks), vec![*blocks[2].id()]);
    assert_eq!(&LastExecuted::get(&mut store).unwrap().block_id, blocks[1].id());
}

#[test]
fn commit_hook_may_mark_blocks_committed() {
    let (mut store, blocks) = chain();
    let b4 = child_of(&blocks[4], IndexMap::new());
    let mut hooks = RecordingHooks::committing();
    b4.update_nodes::<_, _, StorageError>(&mut store, &mut hooks).unwrap();
    assert_eq!(commit_ids(&hooks), vec![*blocks[2].id()]);
    assert!(Block::get(&mut store, blocks[2].id()).unwrap().is_committed());
    assert!(!Block::get(&mut store, blocks[3].id()).unwrap().is_committed());
    assert_eq!(&LastExecuted::get(&mut store).unwrap().block_id, blocks[2].id());
}

fn child_at(parent: &Block, height: u64) -> Block {
    Block::new(
        Network::LocalNet,
        *parent.id(),
        qc_for(parent),
        NodeHeight(height),
        Epoch(0),
        PublicKey([1; 32]),
        CommandSet::new(),
        FixedHash([0; 32]),
        0,
        IndexMap::new(),
        None,
    )
}

#[test]
fn commit_rule_follows_parents_whatever_their_heights() {
    let (mut store, blocks) = chain();
    let genesis = &blocks[1];
    // Heights along the chain do not descend: a is higher than its child b.
    let a = child_at(genesis, 3);
    let b = child_at(&a, 2);
    let c = child_at(&b, 4);
    for blk in [&a, &b, &c] {
        assert!(blk.save(&mut store).unwrap());
    }
    let d = child_at(&c, 5);
    let mut hooks = RecordingHooks::new();
    d.update_nodes::<_, _, StorageError>(&mut store, &mut hooks).unwrap();
    assert_eq!(lock_ids(&hooks), vec![*a.id(), *b.id()]);
    assert_eq!(commit_ids(&hooks), vec![*a.id()]);
    assert_eq!(&LockedBlock::get(&mut store).unwrap().block_id, b.id());
    assert_eq!(&LastExecuted::get(&mut store).unwrap().block_id, a.id());
}
