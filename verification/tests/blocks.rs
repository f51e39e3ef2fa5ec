use indexmap::IndexMap;
use tari_dan_models::block::{Block, BlockId};
use tari_dan_models::command::{Command, CommandSet, Decision, ForeignProposal, TransactionAtom, TransactionId};
use tari_dan_models::common::{Epoch, Network, NodeHeight, PublicKey, Shard, ValidatorSchnorrSignature};
use tari_dan_models::hash::FixedHash;
use tari_dan_models::quorum::{QcId, QuorumCertificate};

fn hash_of(b: u8) -> FixedHash {
    FixedHash([b; 32])
}

fn atom(b: u8, decision: Decision) -> TransactionAtom {
    TransactionAtom { id: TransactionId(hash_of(b)), decision, transaction_fee: 10 }
}

fn qc_for(block: BlockId, height: u64) -> QuorumCertificate {
    QuorumCertificate { qc_id: QcId(hash_of(0xee)), block_id: block, block_height: NodeHeight(height), epoch: Epoch(1) }
}

fn sample_block(commands: CommandSet, indexes: IndexMap<u32, u64>) -> Block {
    Block::new(
        Network::LocalNet,
        BlockId::new(hash_of(1)),
        qc_for(BlockId::new(hash_of(1)), 4),
        NodeHeight(5),
        Epoch(1),
        PublicKey([7; 32]),
        commands,
        hash_of(9),
        42,
        indexes,
        None,
    )
}

#[test]
fn block_id_genesis_is_all_zero() {
    let id = BlockId::genesis();
    assert!(id.is_genesis());
    assert_eq!(id.as_bytes(), &[0u8; 32][..]);
    assert!(!BlockId::new(hash_of(1)).is_genesis());
    assert_eq!(BlockId::byte_size(), 32);
}

#[test]
fn block_id_from_bytes_needs_32_bytes() {
    assert!(BlockId::try_from_bytes(&[1u8; 31]).is_err());
    assert!(BlockId::try_from_bytes(&[1u8; 33]).is_err());
    let id = BlockId::try_from_bytes(&[3u8; 32]).unwrap();
    assert_eq!(id, BlockId::new(hash_of(3)));
}

#[test]
fn block_id_hex_is_lower_case() {
    let mut bytes = [0u8; 32];
    bytes[0] = 0xab;
    bytes[31] = 0x0f;
    let id = BlockId::new(FixedHash(bytes));
    let hex = id.to_hex();
    assert_eq!(hex.len(), 64);
    assert!(hex.starts_with("ab00"));
    assert!(hex.ends_with("000f"));
}

#[test]
fn new_block_id_is_its_hash() {
    let block = sample_block(CommandSet::new(), IndexMap::new());
    assert_eq!(*block.id().hash(), block.calculate_hash());
    assert!(!block.is_dummy());
    assert!(!block.is_processed());
    assert!(!block.is_committed());
    assert_eq!(block.height(), NodeHeight(5));
    assert_eq!(block.total_leader_fee(), 42);
    assert!(block.justifies_parent());
}

#[test]
fn block_hash_is_a_known_value() {
    // The hash of the genesis block of the local network.
    let block = Block::genesis(Network::LocalNet);
    let again = Block::genesis(Network::LocalNet);
    assert_eq!(block.id(), again.id());
    let other = Block::genesis(Network::Esmeralda);
    assert_ne!(block.id(), other.id());
    assert_eq!(block.parent(), &BlockId::genesis());
}

#[test]
fn hash_ignores_flags_and_signature() {
    let mut a = sample_block(CommandSet::new(), IndexMap::new());
    let b = sample_block(CommandSet::new(), IndexMap::new());
    a.set_signature(ValidatorSchnorrSignature { public_nonce: [1; 32], signature: [2; 32] });
    assert_eq!(a.calculate_hash(), b.calculate_hash());
    assert!(a.get_signature().is_some());
    assert!(b.get_signature().is_none());
}

#[test]
fn hash_depends_on_commands_and_counters() {
    let mut cmds = CommandSet::new();
    cmds.insert(Command::Accept(atom(5, Decision::Commit)));
    let with_cmd = sample_block(cmds, IndexMap::new());
    let without = sample_block(CommandSet::new(), IndexMap::new());
    assert_ne!(with_cmd.id(), without.id());
    let mut idx = IndexMap::new();
    idx.insert(3u32, 1u64);
    let with_idx = sample_block(CommandSet::new(), idx);
    assert_ne!(with_idx.id(), without.id());
}

#[test]
fn zero_block_is_committed_with_zero_id() {
    let z = Block::zero_block(Network::MainNet);
    assert!(z.is_genesis());
    assert!(z.is_committed());
    assert!(!z.is_processed());
    assert_eq!(z.parent(), &BlockId::genesis());
    assert_eq!(z.command_count(), 0);
}

#[test]
fn dummy_block_has_no_commands() {
    let d = Block::dummy_block(
        Network::LocalNet,
        BlockId::new(hash_of(4)),
        PublicKey([1; 32]),
        NodeHeight(8),
        qc_for(BlockId::new(hash_of(4)), 7),
        Epoch(2),
        hash_of(6),
    );
    assert!(d.is_dummy());
    assert!(!d.is_processed());
    assert_eq!(d.command_count(), 0);
    assert_eq!(d.merkle_root(), &hash_of(6));
    assert_eq!(d.total_leader_fee(), 0);
    assert_eq!(*d.id().hash(), d.calculate_hash());
}

#[test]
fn command_set_keeps_one_command_per_key() {
    let mut cmds = CommandSet::new();
    assert!(cmds.insert(Command::Prepare(atom(1, Decision::Commit))));
    assert!(!cmds.insert(Command::Prepare(atom(1, Decision::Commit))));
    // Another command of the same transaction takes the same place.
    assert!(!cmds.insert(Command::Accept(atom(1, Decision::Commit))));
    assert_eq!(cmds.len(), 1);
    assert!(cmds.contains(&Command::Prepare(atom(1, Decision::Commit))));
    assert!(!cmds.contains(&Command::Accept(atom(1, Decision::Commit))));
    let from = CommandSet::from_vec(vec![
        Command::Prepare(atom(2, Decision::Abort)),
        Command::Accept(atom(2, Decision::Commit)),
        Command::Prepare(atom(2, Decision::Abort)),
    ]);
    assert_eq!(from.len(), 1);
    assert!(matches!(from.as_slice()[0], Command::Prepare(_)));
}

#[test]
fn command_set_is_ordered_whatever_the_insertion_order() {
    let fp = |shard: u32, b: u8| Command::ForeignProposal(ForeignProposal { shard: Shard(shard), block_id: BlockId::new(hash_of(b)) });
    let list = vec![
        Command::Accept(atom(9, Decision::Commit)),
        fp(2, 1),
        Command::Prepare(atom(3, Decision::Commit)),
        fp(1, 7),
        fp(1, 4),
        Command::LocalPrepared(atom(5, Decision::Abort)),
    ];
    let forward = CommandSet::from_vec(list.clone());
    let mut reversed = CommandSet::new();
    for c in list.iter().rev() {
        assert!(reversed.insert(*c));
    }
    let keys = |set: &CommandSet| -> Vec<(u8, u32, u8)> {
        set.as_slice()
            .iter()
            .map(|c| match c {
                Command::ForeignProposal(p) => (0, p.shard.0, p.block_id.as_bytes()[0]),
                Command::Prepare(t) | Command::LocalPrepared(t) | Command::Accept(t) => (1, 0, t.id.0 .0[0]),
            })
            .collect()
    };
    let expected = vec![(0, 1, 4), (0, 1, 7), (0, 2, 1), (1, 0, 3), (1, 0, 5), (1, 0, 9)];
    assert_eq!(keys(&forward), expected);
    assert_eq!(keys(&reversed), expected);
    let a = sample_block(forward, IndexMap::new());
    let b = sample_block(reversed, IndexMap::new());
    assert_eq!(a.id(), b.id());
}

#[test]
fn command_order_compares_all_identifier_bytes() {
    let mut low = [7u8; 32];
    low[31] = 1;
    let mut high = [7u8; 32];
    high[31] = 2;
    let mut cmds = CommandSet::new();
    cmds.insert(Command::Prepare(TransactionAtom { id: TransactionId(FixedHash(high)), decision: Decision::Commit, transaction_fee: 0 }));
    cmds.insert(Command::Prepare(TransactionAtom { id: TransactionId(FixedHash(low)), decision: Decision::Commit, transaction_fee: 0 }));
    let ids = sample_block(cmds, IndexMap::new()).all_transaction_ids();
    assert_eq!(ids, vec![TransactionId(FixedHash(low)), TransactionId(FixedHash(high))]);
}

#[test]
fn transaction_ids_and_foreign_proposals_in_order() {
    let mut cmds = CommandSet::new();
    cmds.insert(Command::Prepare(atom(1, Decision::Commit)));
    cmds.insert(Command::ForeignProposal(ForeignProposal { shard: Shard(3), block_id: BlockId::new(hash_of(8)) }));
    cmds.insert(Command::Accept(atom(2, Decision::Abort)));
    let block = sample_block(cmds, IndexMap::new());
    let ids = block.all_transaction_ids();
    assert_eq!(ids, vec![TransactionId(hash_of(1)), TransactionId(hash_of(2))]);
    let props = block.all_foreign_proposals();
    assert_eq!(props.len(), 1);
    assert_eq!(props[0].shard, Shard(3));
    assert_eq!(block.command_count(), 3);
}

#[test]
fn foreign_counter_lookup() {
    let mut idx = IndexMap::new();
    idx.insert(4u32, 11u64);
    let block = sample_block(CommandSet::new(), idx);
    assert_eq!(block.get_foreign_counter(&Shard(4)), Some(11));
    assert_eq!(block.get_foreign_counter(&Shard(5)), None);
    let copy = block.clone();
    assert_eq!(copy.get_foreign_counter(&Shard(4)), Some(11));
    assert_eq!(copy.foreign_indexes().len(), 1);
    assert_eq!(copy.calculate_hash(), block.calculate_hash());
}

#[test]
fn markers_point_at_block() {
    let block = sample_block(CommandSet::new(), IndexMap::new());
    let l = block.as_locked_block();
    assert_eq!(l.height, NodeHeight(5));
    assert_eq!(&l.block_id, block.id());
    assert_eq!(&block.as_last_executed().block_id, block.id());
    assert_eq!(&block.as_last_voted().block_id, block.id());
    assert_eq!(&block.as_leaf_block().block_id, block.id());
    assert_eq!(block.as_last_proposed().height, NodeHeight(5));
}
