//! Small value types shared by the consensus models: epochs, heights,
//! shards, networks, public keys and proposer signatures.
use vstd::prelude::*;

use crate::hash::bytes32_equal;

verus! {

/// A consensus epoch number.
#[derive(Clone, Copy, Debug, PartialEq, Eq, Structural, Hash, PartialOrd, Ord)]
pub struct Epoch(pub u64);

impl Epoch {
    /// Epoch zero.
    pub fn zero() -> (r: Self)
        ensures
            r.0 == 0,
    {
        Epoch(0)
    }

    /// The epoch number.
    pub fn as_u64(&self) -> (r: u64)
        ensures
            r == self.0,
    {
        self.0
    }
}

/// The height of a node (block) in the chain.
#[derive(Clone, Copy, Debug, PartialEq, Eq, Structural, Hash, PartialOrd, Ord)]
pub struct NodeHeight(pub u64);

impl NodeHeight {
    /// Height zero.
    pub fn zero() -> (r: Self)
        ensures
            r.0 == 0,
    {
        NodeHeight(0)
    }

    /// The height as a number.
    pub fn as_u64(&self) -> (r: u64)
        ensures
            r == self.0,
    {
        self.0
    }
}

/// A shard (bucket) number.
#[derive(Clone, Copy, Debug, PartialEq, Eq, Structural, Hash, PartialOrd, Ord)]
pub struct Shard(pub u32);

impl Shard {
    /// The shard number.
    pub fn as_u32(&self) -> (r: u32)
        ensures
            r == self.0,
    {
        self.0
    }
}

/// The Tari network a block belongs to.
#[derive(Clone, Copy, Debug, PartialEq, Eq, Structural, Hash)]
pub enum Network {
    MainNet,
    StageNet,
    NextNet,
    LocalNet,
    Igor,
    Esmeralda,
}

/// The byte that identifies each network.
pub open spec fn network_byte(n: Network) -> u8 {
    match n {
        Network::MainNet => 0x00,
        Network::StageNet => 0x01,
        Network::NextNet => 0x02,
        Network::LocalNet => 0x10,
        Network::Igor => 0x24,
        Network::Esmeralda => 0x26,
    }
}

impl Network {
    /// The byte that identifies this network.
    pub fn as_byte(&self) -> (r: u8)
        ensures
            r == network_byte(*self),
    {
        match self {
            Network::MainNet => 0x00,
            Network::StageNet => 0x01,
            Network::NextNet => 0x02,
            Network::LocalNet => 0x10,
            Network::Igor => 0x24,
            Network::Esmeralda => 0x26,
        }
    }
}

/// A public key, held as its 32-byte compressed encoding.
#[derive(Clone, Copy, Debug, Hash)]
pub struct PublicKey(pub [u8; 32]);

impl View for PublicKey {
    type V = Seq<u8>;

    open spec fn view(&self) -> Seq<u8> {
        self.0@
    }
}

impl PublicKey {
    /// The default key, whose encoding is all zero bytes.
    pub fn default_key() -> (r: Self)
        ensures
            r@ == crate::hash::zero_bytes(32),
    {
        let r = PublicKey([0u8; 32]);
        assert(r@ =~= crate::hash::zero_bytes(32));
        r
    }

    /// The encoded bytes of the key.
    pub fn as_bytes(&self) -> (r: &[u8])
        ensures
            r@ == self@,
    {
        vstd::array::array_as_slice(&self.0)
    }

    /// Whether two keys have the same encoding.
    pub fn equals(&self, other: &Self) -> (r: bool)
        ensures
            r == (*self == *other),
            r == (self@ == other@),
    {
        bytes32_equal(&self.0, &other.0)
    }
}

impl PartialEq for PublicKey {
    fn eq(&self, other: &Self) -> (r: bool) {
        self.equals(other)
    }
}

impl Eq for PublicKey {}

impl vstd::std_specs::cmp::PartialEqSpecImpl for PublicKey {
    open spec fn obeys_eq_spec() -> bool {
        true
    }

    open spec fn eq_spec(&self, other: &PublicKey) -> bool {
        *self == *other
    }
}

/// A kind of node address that may be derived from a validator's public
/// key.
pub trait NodeAddressable: Sized {
    /// The address derived from `public_key`, where there is one.
    spec fn address_of(public_key: PublicKey) -> Option<Self>;

    /// The address derived from `public_key`, where there is one.
    fn try_from_public_key(public_key: &PublicKey) -> (r: Option<Self>)
        ensures
            r == Self::address_of(*public_key),
    ;

    /// Whether two addresses are the same.
    fn same_address(&self, other: &Self) -> (r: bool)
        ensures
            r == (*self == *other),
    ;
}

/// A public key is an address in itself.
impl NodeAddressable for PublicKey {
    open spec fn address_of(public_key: PublicKey) -> Option<Self> {
        Some(public_key)
    }

    fn try_from_public_key(public_key: &PublicKey) -> (r: Option<Self>) {
        Some(*public_key)
    }

    fn same_address(&self, other: &Self) -> (r: bool) {
        self.equals(other)
    }
}

/// A Schnorr signature made by a validator: its public nonce and its
/// signature scalar, each as 32 bytes.
#[derive(Clone, Copy, Debug, Hash)]
pub struct ValidatorSchnorrSignature {
    pub public_nonce: [u8; 32],
    pub signature: [u8; 32],
}

} // verus!
