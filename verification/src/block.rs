//! Blocks of the HotStuff chain and their identifiers.
use vstd::prelude::*;

use indexmap::IndexMap;
use time::PrimitiveDateTime;

use crate::command::{
    command_foreign_proposal, command_transaction, commands_sorted, lemma_sorted_commands_unique,
    Command, CommandSet, ForeignProposal, TransactionId,
};
use crate::common::{Epoch, Network, NodeAddressable, NodeHeight, PublicKey, Shard, ValidatorSchnorrSignature};
use crate::encoding::{
    enc_commands, enc_entries, enc_qc, enc_u64, extend_bytes, push_commands, push_entries, push_qc,
    push_u64,
};
use crate::error::FixedHashSizeError;
use crate::hash::{all_zero, blake2b_256, blake2b_256_digest, hex_lower, zero_bytes, FixedHash};
use crate::index_map::{
    entries_get, index_map_clone, index_map_entries, index_map_get, index_map_new, index_map_to_vec,
};
use crate::quorum::{
    genesis_qc_spec, LastExecuted, LastProposed, LastVoted, LeafBlock, LockedBlock,
    QuorumCertificate,
};

verus! {

/// The identifier of a block: the hash of its contents.
#[derive(Clone, Copy, Debug, Hash)]
pub struct BlockId(pub FixedHash);

impl View for BlockId {
    type V = Seq<u8>;

    open spec fn view(&self) -> Seq<u8> {
        self.0@
    }
}

/// Whether `id` is the identifier of the zero block, all of whose bytes
/// are zero.
pub open spec fn is_genesis_id(id: BlockId) -> bool {
    all_zero(id@)
}

impl BlockId {
    /// The identifier of the zero block: all bytes zero.
    pub fn genesis() -> (r: Self)
        ensures
            r@ == crate::hash::zero_bytes(32),
            is_genesis_id(r),
    {
        BlockId(FixedHash::zero())
    }

    /// The identifier with the given hash.
    pub fn new(hash: FixedHash) -> (r: Self)
        ensures
            r.0 == hash,
            r@ == hash@,
    {
        BlockId(hash)
    }

    /// The hash of the identifier.
    pub fn hash(&self) -> (r: &FixedHash)
        ensures
            *r == self.0,
    {
        &self.0
    }

    /// The bytes of the identifier.
    pub fn as_bytes(&self) -> (r: &[u8])
        ensures
            r@ == self@,
    {
        self.0.as_slice()
    }

    /// Whether this is the identifier of the zero block.
    pub fn is_genesis(&self) -> (r: bool)
        ensures
            r == is_genesis_id(*self),
    {
        self.0.is_zero()
    }

    /// The number of bytes in an identifier.
    pub fn byte_size() -> (r: usize)
        ensures
            r == 32,
    {
        FixedHash::byte_size()
    }

    /// Whether two identifiers are equal.
    pub fn equals(&self, other: &Self) -> (r: bool)
        ensures
            r == (*self == *other),
            r == (self@ == other@),
    {
        self.0.equals(&other.0)
    }

    /// The lower-case hexadecimal rendering of the identifier.
    pub fn to_hex(&self) -> (r: String)
        ensures
            r@ == hex_lower(self@),
    {
        self.0.to_hex()
    }

    /// The identifier whose bytes are `value`; fails unless there are
    /// exactly 32 of them.
    pub fn try_from_bytes(value: &[u8]) -> (r: Result<Self, FixedHashSizeError>)
        ensures
            r is Ok <==> value@.len() == 32,
            r matches Ok(id) ==> id@ == value@,
    {
        if value.len() != 32 {
            return Err(FixedHashSizeError);
        }
        let mut bytes = [0u8; 32];
        let mut i: usize = 0;
        while i < 32
            invariant
                i <= 32,
                value@.len() == 32,
                bytes@.len() == 32,
                forall|j: int| 0 <= j < i ==> bytes@[j] == value@[j],
            decreases 32 - i,
        {
            bytes[i] = value[i];
            i = i + 1;
        }
        assert(bytes@ =~= value@);
        Ok(BlockId(FixedHash::from_bytes(bytes)))
    }
}

impl From<FixedHash> for BlockId {
    fn from(value: FixedHash) -> (r: Self) {
        BlockId(value)
    }
}

impl vstd::std_specs::convert::FromSpecImpl<FixedHash> for BlockId {
    open spec fn obeys_from_spec() -> bool {
        true
    }

    open spec fn from_spec(v: FixedHash) -> BlockId {
        BlockId(v)
    }
}

/// A 32-byte array that holds `bytes`.
pub open spec fn array_of(bytes: Seq<u8>) -> [u8; 32] {
    choose|a: [u8; 32]| #[trigger] a@ == bytes
}

/// The identifier with the bytes `bytes`, where there are 32 of them.
pub open spec fn block_id_from_bytes(bytes: Seq<u8>) -> Result<BlockId, FixedHashSizeError> {
    if bytes.len() == 32 {
        Ok(BlockId(FixedHash(array_of(bytes))))
    } else {
        Err(FixedHashSizeError)
    }
}

/// The identifier that `try_from_bytes` builds is the one that
/// `block_id_from_bytes` names.
proof fn lemma_block_id_from_bytes(bytes: Seq<u8>, r: Result<BlockId, FixedHashSizeError>)
    requires
        r is Ok <==> bytes.len() == 32,
        r matches Ok(id) ==> id@ == bytes,
    ensures
        r == block_id_from_bytes(bytes),
{
    match r {
        Ok(id) => {
            let w = id.0.0;
            assert(w@ == bytes);
            assert(exists|a: [u8; 32]| #[trigger] a@ == bytes);
            let a = array_of(bytes);
            crate::hash::lemma_bytes32_view_eq(a, w);
            assert(id == BlockId(FixedHash(a)));
        },
        Err(e) => {
            assert(e == FixedHashSizeError);
        },
    }
}

impl TryFrom<&[u8]> for BlockId {
    type Error = FixedHashSizeError;

    fn try_from(value: &[u8]) -> (r: Result<Self, Self::Error>)
        ensures
            r is Ok <==> value@.len() == 32,
            r matches Ok(id) ==> id@ == value@,
    {
        let r = Self::try_from_bytes(value);
        proof {
            lemma_block_id_from_bytes(value@, r);
        }
        r
    }
}

impl vstd::std_specs::convert::TryFromSpecImpl<&[u8]> for BlockId {
    open spec fn obeys_try_from_spec() -> bool {
        true
    }

    open spec fn try_from_spec(v: &[u8]) -> Result<BlockId, FixedHashSizeError> {
        block_id_from_bytes(v@)
    }
}

impl TryFrom<Vec<u8>> for BlockId {
    type Error = FixedHashSizeError;

    fn try_from(value: Vec<u8>) -> (r: Result<Self, Self::Error>)
        ensures
            r is Ok <==> value@.len() == 32,
            r matches Ok(id) ==> id@ == value@,
    {
        let r = Self::try_from_bytes(value.as_slice());
        proof {
            lemma_block_id_from_bytes(value@, r);
        }
        r
    }
}

impl vstd::std_specs::convert::TryFromSpecImpl<Vec<u8>> for BlockId {
    open spec fn obeys_try_from_spec() -> bool {
        true
    }

    open spec fn try_from_spec(v: Vec<u8>) -> Result<BlockId, FixedHashSizeError> {
        block_id_from_bytes(v@)
    }
}

impl PartialEq for BlockId {
    fn eq(&self, other: &Self) -> (r: bool) {
        self.equals(other)
    }
}

impl Eq for BlockId {}

impl vstd::std_specs::cmp::PartialEqSpecImpl for BlockId {
    open spec fn obeys_eq_spec() -> bool {
        true
    }

    open spec fn eq_spec(&self, other: &BlockId) -> bool {
        *self == *other
    }
}

/// Declares `time::PrimitiveDateTime` to Verus as an opaque type.
#[verifier::external_type_specification]
#[verifier::external_body]
pub struct ExPrimitiveDateTime(PrimitiveDateTime);

/// A block of the HotStuff chain.
#[derive(Debug)]
pub struct Block {
    // Header
    id: BlockId,
    network: Network,
    parent: BlockId,
    justify: QuorumCertificate,
    height: NodeHeight,
    epoch: Epoch,
    proposed_by: PublicKey,
    total_leader_fee: u64,
    // Body
    merkle_root: FixedHash,
    commands: CommandSet,
    /// A dummy block fills a gap left by a leader that failed to propose.
    /// This flag is metadata: it is not part of the block hash.
    is_dummy: bool,
    /// Whether the block locked objects and made transaction stage
    /// transitions.
    is_processed: bool,
    /// Whether the block has been committed.
    is_committed: bool,
    /// A counter for each foreign shard, for reliable broadcast.
    foreign_indexes: IndexMap<u32, u64>,
    /// When the block was stored.
    stored_at: Option<PrimitiveDateTime>,
    /// The proposer's signature of the block.
    signature: Option<ValidatorSchnorrSignature>,
}

/// The contents of a block as plain values.
pub struct BlockView {
    pub id: BlockId,
    pub network: Network,
    pub parent: BlockId,
    pub justify: QuorumCertificate,
    pub height: NodeHeight,
    pub epoch: Epoch,
    pub proposed_by: PublicKey,
    pub total_leader_fee: u64,
    pub merkle_root: FixedHash,
    pub commands: Seq<Command>,
    pub is_dummy: bool,
    pub is_processed: bool,
    pub is_committed: bool,
    pub foreign_indexes: Seq<(u32, u64)>,
    pub stored_at: Option<PrimitiveDateTime>,
    pub signature: Option<ValidatorSchnorrSignature>,
}

impl View for Block {
    type V = BlockView;

    closed spec fn view(&self) -> BlockView {
        BlockView {
            id: self.id,
            network: self.network,
            parent: self.parent,
            justify: self.justify,
            height: self.height,
            epoch: self.epoch,
            proposed_by: self.proposed_by,
            total_leader_fee: self.total_leader_fee,
            merkle_root: self.merkle_root,
            commands: self.commands@,
            is_dummy: self.is_dummy,
            is_processed: self.is_processed,
            is_committed: self.is_committed,
            foreign_indexes: index_map_entries(self.foreign_indexes),
            stored_at: self.stored_at,
            signature: self.signature,
        }
    }
}

/// The domain label that starts every block hash preimage: the ASCII bytes
/// of `com.tari.dan.consensus.block`.
pub open spec fn block_hash_label() -> Seq<u8> {
    seq![
        99u8, 111, 109, 46, 116, 97, 114, 105, 46, 100, 97, 110, 46, 99, 111, 110, 115, 101, 110,
        115, 117, 115, 46, 98, 108, 111, 99, 107,
    ]
}

/// The bytes from which a block's hash is computed: the label, then the
/// network, parent, justifying certificate, height, epoch, proposer and
/// merkle root, then the commands and the foreign counters, each preceded
/// by its count. Identifier, flags, timestamp and signature are not part
/// of it.
pub open spec fn block_hash_preimage(b: BlockView) -> Seq<u8> {
    block_hash_label() + seq![crate::common::network_byte(b.network)] + b.parent@ + enc_qc(
        b.justify,
    ) + enc_u64(b.height.0) + enc_u64(b.epoch.0) + b.proposed_by@ + b.merkle_root@ + enc_u64(
        b.commands.len() as u64,
    ) + enc_commands(b.commands) + enc_u64(b.foreign_indexes.len() as u64) + enc_entries(
        b.foreign_indexes,
    )
}

/// The hash of a block's contents.
pub open spec fn block_hash(b: BlockView) -> Seq<u8> {
    blake2b_256(block_hash_preimage(b))
}

/// The identifiers of the transactions of `cmds`, in order.
pub open spec fn transaction_ids(cmds: Seq<Command>) -> Seq<TransactionId>
    decreases cmds.len(),
{
    if cmds.len() == 0 {
        Seq::empty()
    } else {
        let prefix = transaction_ids(cmds.drop_last());
        match command_transaction(cmds.last()) {
            Some(t) => prefix.push(t.id),
            None => prefix,
        }
    }
}

/// The foreign proposals among `cmds`, in order.
pub open spec fn foreign_proposals(cmds: Seq<Command>) -> Seq<ForeignProposal>
    decreases cmds.len(),
{
    if cmds.len() == 0 {
        Seq::empty()
    } else {
        let prefix = foreign_proposals(cmds.drop_last());
        match command_foreign_proposal(cmds.last()) {
            Some(p) => prefix.push(p),
            None => prefix,
        }
    }
}

impl Block {
    /// A new block. Its identifier is the hash of its contents; it is not a
    /// dummy, not processed, not committed and not yet stored.
    pub fn new(
        network: Network,
        parent: BlockId,
        justify: QuorumCertificate,
        height: NodeHeight,
        epoch: Epoch,
        proposed_by: PublicKey,
        commands: CommandSet,
        merkle_root: FixedHash,
        total_leader_fee: u64,
        sorted_foreign_indexes: IndexMap<u32, u64>,
        signature: Option<ValidatorSchnorrSignature>,
    ) -> (r: Self)
        ensures
            r@.network == network,
            r@.parent == parent,
            r@.justify == justify,
            r@.height == height,
            r@.epoch == epoch,
            r@.proposed_by == proposed_by,
            r@.commands == commands@,
            r@.merkle_root == merkle_root,
            r@.total_leader_fee == total_leader_fee,
            r@.foreign_indexes == index_map_entries(sorted_foreign_indexes),
            r@.signature == signature,
            !r@.is_dummy,
            !r@.is_processed,
            !r@.is_committed,
            r@.stored_at is None,
            r@.id@ == block_hash(r@),
    {
        let mut block = Block {
            id: BlockId::genesis(),
            network,
            parent,
            justify,
            height,
            epoch,
            proposed_by,
            merkle_root,
            commands,
            total_leader_fee,
            is_dummy: false,
            is_processed: false,
            is_committed: false,
            foreign_indexes: sorted_foreign_indexes,
            stored_at: None,
            signature,
        };
        let hash = block.calculate_hash();
        block.id = BlockId::new(hash);
        block
    }

    /// A block with every field given, as read back from storage.
    pub fn load(
        id: BlockId,
        network: Network,
        parent: BlockId,
        justify: QuorumCertificate,
        height: NodeHeight,
        epoch: Epoch,
        proposed_by: PublicKey,
        commands: CommandSet,
        merkle_root: FixedHash,
        total_leader_fee: u64,
        is_dummy: bool,
        is_processed: bool,
        is_committed: bool,
        sorted_foreign_indexes: IndexMap<u32, u64>,
        signature: Option<ValidatorSchnorrSignature>,
        created_at: PrimitiveDateTime,
    ) -> (r: Self)
        ensures
            r@ == (BlockView {
                id,
                network,
                parent,
                justify,
                height,
                epoch,
                proposed_by,
                total_leader_fee,
                merkle_root,
                commands: commands@,
                is_dummy,
                is_processed,
                is_committed,
                foreign_indexes: index_map_entries(sorted_foreign_indexes),
                stored_at: Some(created_at),
                signature,
            }),
    {
        Block {
            id,
            network,
            parent,
            justify,
            height,
            epoch,
            proposed_by,
            merkle_root,
            commands,
            total_leader_fee,
            is_dummy,
            is_processed,
            is_committed,
            foreign_indexes: sorted_foreign_indexes,
            stored_at: Some(created_at),
            signature,
        }
    }

    /// The first block of a network: the child of the zero block at height
    /// and epoch zero, justified by the genesis certificate, with no
    /// commands.
    pub fn genesis(network: Network) -> (r: Self)
        ensures
            r@.network == network,
            r@.parent@ == zero_bytes(32),
            r@.justify == genesis_qc_spec(),
            r@.height.0 == 0,
            r@.epoch.0 == 0,
            r@.proposed_by@ == zero_bytes(32),
            r@.commands.len() == 0,
            r@.merkle_root@ == zero_bytes(32),
            r@.total_leader_fee == 0,
            r@.foreign_indexes.len() == 0,
            r@.signature is None,
            !r@.is_dummy,
            !r@.is_processed,
            !r@.is_committed,
            r@.stored_at is None,
            r@.id@ == block_hash(r@),
    {
        Self::new(
            network,
            BlockId::genesis(),
            QuorumCertificate::genesis(),
            NodeHeight(0),
            Epoch(0),
            PublicKey::default_key(),
            CommandSet::new(),
            FixedHash::zero(),
            0,
            index_map_new(),
            None,
        )
    }

    /// The parent of all genesis blocks. Its identifier, like its parent's,
    /// is the zero identifier, and it counts as committed.
    pub fn zero_block(network: Network) -> (r: Self)
        ensures
            r@.network == network,
            r@.id@ == zero_bytes(32),
            r@.parent@ == zero_bytes(32),
            r@.justify == genesis_qc_spec(),
            r@.height.0 == 0,
            r@.epoch.0 == 0,
            r@.proposed_by@ == zero_bytes(32),
            r@.commands.len() == 0,
            r@.merkle_root@ == zero_bytes(32),
            r@.total_leader_fee == 0,
            r@.foreign_indexes.len() == 0,
            r@.signature is None,
            !r@.is_dummy,
            !r@.is_processed,
            r@.is_committed,
            r@.stored_at is None,
    {
        Block {
            network,
            id: BlockId::genesis(),
            parent: BlockId::genesis(),
            justify: QuorumCertificate::genesis(),
            height: NodeHeight(0),
            epoch: Epoch(0),
            proposed_by: PublicKey::default_key(),
            merkle_root: FixedHash::zero(),
            commands: CommandSet::new(),
            total_leader_fee: 0,
            is_dummy: false,
            is_processed: false,
            is_committed: true,
            foreign_indexes: index_map_new(),
            stored_at: None,
            signature: None,
        }
    }

    /// A dummy block: an empty block that stands in for a proposal that a
    /// leader failed to make. It carries the parent's merkle root.
    pub fn dummy_block(
        network: Network,
        parent: BlockId,
        proposed_by: PublicKey,
        node_height: NodeHeight,
        high_qc: QuorumCertificate,
        epoch: Epoch,
        parent_merkle_root: FixedHash,
    ) -> (r: Self)
        ensures
            r@.network == network,
            r@.parent == parent,
            r@.justify == high_qc,
            r@.height == node_height,
            r@.epoch == epoch,
            r@.proposed_by == proposed_by,
            r@.commands.len() == 0,
            r@.merkle_root == parent_merkle_root,
            r@.total_leader_fee == 0,
            r@.foreign_indexes.len() == 0,
            r@.signature is None,
            r@.is_dummy,
            !r@.is_processed,
            !r@.is_committed,
            r@.stored_at is None,
            r@.id@ == block_hash(r@),
    {
        let mut block = Self::new(
            network,
            parent,
            high_qc,
            node_height,
            epoch,
            proposed_by,
            CommandSet::new(),
            parent_merkle_root,
            0,
            index_map_new(),
            None,
        );
        block.is_dummy = true;
        block.is_processed = false;
        block
    }

    /// The hash of the block's contents.
    pub fn calculate_hash(&self) -> (r: FixedHash)
        ensures
            r@ == block_hash(self@),
    {
        let mut pre: Vec<u8> = vec![
            99u8, 111, 109, 46, 116, 97, 114, 105, 46, 100, 97, 110, 46, 99, 111, 110, 115, 101,
            110, 115, 117, 115, 46, 98, 108, 111, 99, 107,
        ];
        assert(pre@ =~= block_hash_label());
        pre.push(self.network.as_byte());
        extend_bytes(&mut pre, self.parent.as_bytes());
        push_qc(&mut pre, &self.justify);
        push_u64(&mut pre, self.height.0);
        push_u64(&mut pre, self.epoch.0);
        extend_bytes(&mut pre, self.proposed_by.as_bytes());
        extend_bytes(&mut pre, self.merkle_root.as_slice());
        let cmds = self.commands.as_slice();
        push_u64(&mut pre, cmds.len() as u64);
        push_commands(&mut pre, cmds);
        let entries = index_map_to_vec(&self.foreign_indexes);
        push_u64(&mut pre, entries.len() as u64);
        push_entries(&mut pre, entries.as_slice());
        assert(pre@ =~= block_hash_preimage(self@));
        FixedHash::from_bytes(blake2b_256_digest(pre.as_slice()))
    }
}

impl Block {
    /// Whether this is the zero block, by its identifier.
    pub fn is_genesis(&self) -> (r: bool)
        ensures
            r == is_genesis_id(self@.id),
    {
        self.id.is_genesis()
    }

    /// The identifiers of the transactions of the block's commands, in
    /// order.
    pub fn all_transaction_ids(&self) -> (r: Vec<TransactionId>)
        ensures
            r@ == transaction_ids(self@.commands),
    {
        let cmds = self.commands.as_slice();
        let mut r: Vec<TransactionId> = Vec::new();
        let mut i: usize = 0;
        while i < cmds.len()
            invariant
                i <= cmds@.len(),
                cmds@ == self@.commands,
                r@ == transaction_ids(cmds@.subrange(0, i as int)),
            decreases cmds@.len() - i,
        {
            assert(cmds@.subrange(0, i + 1).drop_last() =~= cmds@.subrange(0, i as int));
            match cmds[i].transaction() {
                Some(t) => r.push(t.id),
                None => {},
            }
            i = i + 1;
        }
        assert(cmds@.subrange(0, cmds@.len() as int) =~= cmds@);
        r
    }

    /// The foreign proposals among the block's commands, in order.
    pub fn all_foreign_proposals(&self) -> (r: Vec<ForeignProposal>)
        ensures
            r@ == foreign_proposals(self@.commands),
    {
        let cmds = self.commands.as_slice();
        let mut r: Vec<ForeignProposal> = Vec::new();
        let mut i: usize = 0;
        while i < cmds.len()
            invariant
                i <= cmds@.len(),
                cmds@ == self@.commands,
                r@ == foreign_proposals(cmds@.subrange(0, i as int)),
            decreases cmds@.len() - i,
        {
            assert(cmds@.subrange(0, i + 1).drop_last() =~= cmds@.subrange(0, i as int));
            match cmds[i].foreign_proposal() {
                Some(p) => r.push(*p),
                None => {},
            }
            i = i + 1;
        }
        assert(cmds@.subrange(0, cmds@.len() as int) =~= cmds@);
        r
    }

    /// The number of commands.
    pub fn command_count(&self) -> (r: usize)
        ensures
            r == self@.commands.len(),
    {
        self.commands.len()
    }

    /// The locked-block marker for this block.
    pub fn as_locked_block(&self) -> (r: LockedBlock)
        ensures
            r == (LockedBlock { height: self@.height, block_id: self@.id }),
    {
        LockedBlock { height: self.height, block_id: self.id }
    }

    /// The last-executed marker for this block.
    pub fn as_last_executed(&self) -> (r: LastExecuted)
        ensures
            r == (LastExecuted { height: self@.height, block_id: self@.id }),
    {
        LastExecuted { height: self.height, block_id: self.id }
    }

    /// The last-voted marker for this block.
    pub fn as_last_voted(&self) -> (r: LastVoted)
        ensures
            r == (LastVoted { height: self@.height, block_id: self@.id }),
    {
        LastVoted { height: self.height, block_id: self.id }
    }

    /// The leaf-block marker for this block.
    pub fn as_leaf_block(&self) -> (r: LeafBlock)
        ensures
            r == (LeafBlock { height: self@.height, block_id: self@.id }),
    {
        LeafBlock { height: self.height, block_id: self.id }
    }

    /// The last-proposed marker for this block.
    pub fn as_last_proposed(&self) -> (r: LastProposed)
        ensures
            r == (LastProposed { height: self@.height, block_id: self@.id }),
    {
        LastProposed { height: self.height, block_id: self.id }
    }

    /// The block's identifier.
    pub fn id(&self) -> (r: &BlockId)
        ensures
            *r == self@.id,
    {
        &self.id
    }

    /// The block's network.
    pub fn network(&self) -> (r: Network)
        ensures
            r == self@.network,
    {
        self.network
    }

    /// The parent's identifier.
    pub fn parent(&self) -> (r: &BlockId)
        ensures
            *r == self@.parent,
    {
        &self.parent
    }

    /// The certificate that justifies the block.
    pub fn justify(&self) -> (r: &QuorumCertificate)
        ensures
            *r == self@.justify,
    {
        &self.justify
    }

    /// Whether the justifying certificate is for the parent.
    pub fn justifies_parent(&self) -> (r: bool)
        ensures
            r == (self@.justify.block_id == self@.parent),
    {
        self.justify.block_id().equals(&self.parent)
    }

    /// The block's height.
    pub fn height(&self) -> (r: NodeHeight)
        ensures
            r == self@.height,
    {
        self.height
    }

    /// The block's epoch.
    pub fn epoch(&self) -> (r: Epoch)
        ensures
            r == self@.epoch,
    {
        self.epoch
    }

    /// The total fee due to the leader.
    pub fn total_leader_fee(&self) -> (r: u64)
        ensures
            r == self@.total_leader_fee,
    {
        self.total_leader_fee
    }

    /// The proposer's public key.
    pub fn proposed_by(&self) -> (r: &PublicKey)
        ensures
            *r == self@.proposed_by,
    {
        &self.proposed_by
    }

    /// The merkle root of the state after the block.
    pub fn merkle_root(&self) -> (r: &FixedHash)
        ensures
            *r == self@.merkle_root,
    {
        &self.merkle_root
    }

    /// The block's commands.
    pub fn commands(&self) -> (r: &CommandSet)
        ensures
            r@ == self@.commands,
    {
        &self.commands
    }

    /// The block's commands, consuming the block.
    pub fn into_commands(self) -> (r: CommandSet)
        ensures
            r@ == self@.commands,
    {
        self.commands
    }

    /// Whether the block is a dummy block.
    pub fn is_dummy(&self) -> (r: bool)
        ensures
            r == self@.is_dummy,
    {
        self.is_dummy
    }

    /// Whether the block has been processed.
    pub fn is_processed(&self) -> (r: bool)
        ensures
            r == self@.is_processed,
    {
        self.is_processed
    }

    /// Whether the block has been committed.
    pub fn is_committed(&self) -> (r: bool)
        ensures
            r == self@.is_committed,
    {
        self.is_committed
    }

    /// The counter the block holds for a foreign shard, if any.
    pub fn get_foreign_counter(&self, bucket: &Shard) -> (r: Option<u64>)
        ensures
            r == entries_get(self@.foreign_indexes, bucket.0),
    {
        index_map_get(&self.foreign_indexes, bucket.0)
    }

    /// The counters for foreign shards.
    pub fn foreign_indexes(&self) -> (r: &IndexMap<u32, u64>)
        ensures
            index_map_entries(*r) == self@.foreign_indexes,
    {
        &self.foreign_indexes
    }

    /// The proposer's signature, if the block is signed.
    pub fn get_signature(&self) -> (r: Option<&ValidatorSchnorrSignature>)
        ensures
            r is Some == self@.signature is Some,
            r matches Some(s) ==> *s == self@.signature->0,
    {
        self.signature.as_ref()
    }

    /// Signs the block; nothing else changes.
    pub fn set_signature(&mut self, signature: ValidatorSchnorrSignature)
        ensures
            final(self)@ == (BlockView { signature: Some(signature), ..old(self)@ }),
    {
        self.signature = Some(signature);
    }

    /// The block with the committed and processed flags replaced where a
    /// new value is given.
    pub(crate) fn with_flags(&self, is_committed: Option<bool>, is_processed: Option<bool>) -> (r: Block)
        ensures
            r@ == crate::state_store::with_flags(self@, is_committed, is_processed),
    {
        let mut r = self.clone();
        match is_committed {
            Some(c) => r.is_committed = c,
            None => {},
        }
        match is_processed {
            Some(p) => r.is_processed = p,
            None => {},
        }
        r
    }
}

/// The decimal digits of `n`, most significant first.
pub open spec fn decimal(n: nat) -> Seq<char>
    decreases n,
{
    if n < 10 {
        seq![crate::hash::hex_digit(n as u8)]
    } else {
        decimal(n / 10) + seq![crate::hash::hex_digit((n % 10) as u8)]
    }
}

/// Appends the decimal digits of `n`.
pub fn push_decimal(out: &mut String, n: u64)
    ensures
        final(out)@ == old(out)@ + decimal(n as nat),
    decreases n,
{
    if n >= 10 {
        push_decimal(out, n / 10);
    }
    out.append(crate::hash::hex_digit_str((n % 10) as u8));
    assert(out@ =~= old(out)@ + decimal(n as nat));
}

/// How a block is shown: its height, its identifier and its number of
/// commands.
pub open spec fn block_display(b: BlockView) -> Seq<char> {
    "["@ + decimal(b.height.0 as nat) + ", "@ + hex_lower(b.id@) + ", "@ + decimal(
        b.commands.len(),
    ) + " command(s)]"@
}

impl Block {
    /// Whether the block was proposed by `address`: `None` where no address
    /// of that kind derives from the proposer's public key.
    pub fn is_proposed_by_addr<A: NodeAddressable>(&self, address: &A) -> (r: Option<bool>)
        ensures
            r == match A::address_of(self@.proposed_by) {
                Some(a) => Some(a == *address),
                None => None,
            },
    {
        match A::try_from_public_key(&self.proposed_by) {
            Some(a) => Some(a.same_address(address)),
            None => None,
        }
    }

    /// The block as shown to people: `[height, id, n command(s)]`.
    pub fn to_display_string(&self) -> (r: String)
        ensures
            r@ == block_display(self@),
    {
        proof {
            reveal_strlit("[");
            reveal_strlit(", ");
            reveal_strlit(" command(s)]");
        }
        let mut r = String::new();
        r.append("[");
        push_decimal(&mut r, self.height.0);
        r.append(", ");
        let id = self.id.to_hex();
        r.append(id.as_str());
        r.append(", ");
        push_decimal(&mut r, self.commands.len() as u64);
        r.append(" command(s)]");
        r
    }
}

impl Clone for Block {
    fn clone(&self) -> (r: Self)
        ensures
            r@ == self@,
    {
        Block {
            id: self.id,
            network: self.network,
            parent: self.parent,
            justify: self.justify,
            height: self.height,
            epoch: self.epoch,
            proposed_by: self.proposed_by,
            total_leader_fee: self.total_leader_fee,
            merkle_root: self.merkle_root,
            commands: self.commands.clone(),
            is_dummy: self.is_dummy,
            is_processed: self.is_processed,
            is_committed: self.is_committed,
            foreign_indexes: index_map_clone(&self.foreign_indexes),
            stored_at: self.stored_at,
            signature: self.signature,
        }
    }
}

/// The hash of a block depends only on its hashed contents: two blocks that
/// agree on network, parent, justification, height, epoch, proposer,
/// merkle root, commands and foreign counters have the same hash, whatever
/// their identifiers, flags, timestamps and signatures.
pub proof fn lemma_block_hash_ignores_metadata(a: BlockView, b: BlockView)
    requires
        a.network == b.network,
        a.parent == b.parent,
        a.justify == b.justify,
        a.height == b.height,
        a.epoch == b.epoch,
        a.proposed_by == b.proposed_by,
        a.merkle_root == b.merkle_root,
        a.commands == b.commands,
        a.foreign_indexes == b.foreign_indexes,
    ensures
        block_hash(a) == block_hash(b),
{
}

/// The hash of a block does not depend on the order in which its commands
/// were gathered: two blocks that agree on their hashed contents and whose
/// command sets, each kept in the command order, hold the same commands
/// have the same hash.
pub proof fn lemma_block_hash_ignores_command_order(a: BlockView, b: BlockView)
    requires
        a.network == b.network,
        a.parent == b.parent,
        a.justify == b.justify,
        a.height == b.height,
        a.epoch == b.epoch,
        a.proposed_by == b.proposed_by,
        a.merkle_root == b.merkle_root,
        commands_sorted(a.commands),
        commands_sorted(b.commands),
        a.commands.to_set() == b.commands.to_set(),
        a.foreign_indexes == b.foreign_indexes,
    ensures
        block_hash(a) == block_hash(b),
{
    lemma_sorted_commands_unique(a.commands, b.commands);
}

/// The bytes of a block's hash preimage that come before its merkle root:
/// the label, the network, the parent, the justifying certificate, the
/// height, the epoch and the proposer.
pub open spec fn preimage_before_merkle_root(b: BlockView) -> Seq<u8> {
    block_hash_label() + seq![crate::common::network_byte(b.network)] + b.parent@ + enc_qc(b.justify)
        + enc_u64(b.height.0) + enc_u64(b.epoch.0) + b.proposed_by@
}

/// The merkle root of a block is hashed: its hash preimage starts with the
/// label, network, parent, justification, height, epoch and proposer, and
/// the merkle root's bytes follow right after them. So blocks that agree on
/// those fields and differ in their merkle roots have different preimages.
pub proof fn lemma_block_hash_covers_merkle_root(a: BlockView, b: BlockView)
    ensures
        block_hash_preimage(a).subrange(
            preimage_before_merkle_root(a).len() as int,
            preimage_before_merkle_root(a).len() + 32int,
        ) == a.merkle_root@,
        block_hash_preimage(a).subrange(0, preimage_before_merkle_root(a).len() as int)
            == preimage_before_merkle_root(a),
        a.network == b.network && a.parent == b.parent && a.justify == b.justify && a.height
            == b.height && a.epoch == b.epoch && a.proposed_by == b.proposed_by && a.merkle_root@
            != b.merkle_root@ ==> block_hash_preimage(a) != block_hash_preimage(b),
{
    let p1 = preimage_before_merkle_root(a);
    let q = p1 + a.merkle_root@;
    assert(a.merkle_root@.len() == 32);
    assert(block_hash_preimage(a).subrange(0, q.len() as int) =~= q);
    assert(block_hash_preimage(a).subrange(p1.len() as int, p1.len() + 32int) =~= a.merkle_root@);
    assert(block_hash_preimage(a).subrange(0, p1.len() as int) =~= p1);
    let p2 = preimage_before_merkle_root(b);
    let q2 = p2 + b.merkle_root@;
    assert(b.merkle_root@.len() == 32);
    assert(block_hash_preimage(b).subrange(0, q2.len() as int) =~= q2);
    assert(block_hash_preimage(b).subrange(p2.len() as int, p2.len() + 32int) =~= b.merkle_root@);
}

/// Whether a command carries a transaction: every command but a foreign
/// proposal does.
pub open spec fn carries_transaction(c: Command) -> bool {
    !(c is ForeignProposal)
}

/// The commands among `cmds` that carry a transaction, in order.
pub open spec fn transaction_commands(cmds: Seq<Command>) -> Seq<Command> {
    cmds.filter(|c: Command| carries_transaction(c))
}

/// The transaction identifiers of a list of commands: one for each command
/// that carries a transaction, in command order, the identifier of that
/// command's transaction.
pub proof fn lemma_transaction_ids_of_commands(cmds: Seq<Command>)
    ensures
        transaction_ids(cmds).len() == transaction_commands(cmds).len(),
        forall|i: int|
            0 <= i < transaction_ids(cmds).len() ==> match #[trigger] transaction_commands(cmds)[i] {
                Command::Prepare(t) => transaction_ids(cmds)[i] == t.id,
                Command::LocalPrepared(t) => transaction_ids(cmds)[i] == t.id,
                Command::Accept(t) => transaction_ids(cmds)[i] == t.id,
                Command::ForeignProposal(_) => false,
            },
    decreases cmds.len(),
{
    if cmds.len() > 0 {
        let rest = cmds.drop_last();
        lemma_transaction_ids_of_commands(rest);
        let p = |c: Command| carries_transaction(c);
        assert(cmds =~= rest.push(cmds.last()));
        rest.lemma_filter_push(cmds.last(), p);
        assert(transaction_commands(cmds) == if carries_transaction(cmds.last()) {
            transaction_commands(rest).push(cmds.last())
        } else {
            transaction_commands(rest)
        });
        let ids = transaction_ids(cmds);
        let rids = transaction_ids(rest);
        assert forall|i: int| 0 <= i < rids.len() implies ids[i] == rids[i] && transaction_commands(
            cmds,
        )[i] == transaction_commands(rest)[i] by {}
    }
}

} // verus!
