//! Fixed-size 32-byte hashes, their lower-case hex rendering, and the
//! Blake2b-256 digest used to derive identifiers.
use vstd::prelude::*;

verus! {

/// The number of bytes in a `FixedHash`.
pub const FIXED_HASH_SIZE: usize = 32;

/// A 32-byte hash value.
#[derive(Clone, Copy, Debug, Hash)]
pub struct FixedHash(pub [u8; 32]);

impl View for FixedHash {
    type V = Seq<u8>;

    open spec fn view(&self) -> Seq<u8> {
        self.0@
    }
}

/// The sequence of `n` zero bytes.
pub open spec fn zero_bytes(n: nat) -> Seq<u8> {
    Seq::new(n, |i: int| 0u8)
}

/// The 32-byte array of zeros.
pub open spec fn zero_array() -> [u8; 32] {
    vstd::array::spec_array_fill_for_copy_type::<u8, 32>(0u8)
}

/// The zero array holds 32 zero bytes.
pub proof fn lemma_zero_array()
    ensures
        zero_array()@ == zero_bytes(32),
{
    broadcast use vstd::array::group_array_axioms;

    assert(zero_array()@ =~= zero_bytes(32));
}

/// Whether every byte of `s` is zero.
pub open spec fn all_zero(s: Seq<u8>) -> bool {
    forall|i: int| 0 <= i < s.len() ==> s[i] == 0u8
}

impl FixedHash {
    /// The hash whose bytes are all zero.
    pub fn zero() -> (r: Self)
        ensures
            r@ == zero_bytes(32),
    {
        let r = FixedHash([0u8; 32]);
        assert(r@ =~= zero_bytes(32));
        r
    }

    /// Wraps the given bytes.
    pub fn from_bytes(bytes: [u8; 32]) -> (r: Self)
        ensures
            r@ == bytes@,
    {
        FixedHash(bytes)
    }

    /// The number of bytes in a hash.
    pub fn byte_size() -> (r: usize)
        ensures
            r == 32,
    {
        FIXED_HASH_SIZE
    }

    /// The bytes of this hash.
    pub fn as_slice(&self) -> (r: &[u8])
        ensures
            r@ == self@,
    {
        vstd::array::array_as_slice(&self.0)
    }

    /// Whether every byte is zero.
    pub fn is_zero(&self) -> (r: bool)
        ensures
            r == all_zero(self@),
    {
        broadcast use vstd::array::group_array_axioms;

        let mut i: usize = 0;
        while i < 32
            invariant
                i <= 32,
                self@.len() == 32,
                forall|j: int| 0 <= j < i ==> self@[j] == 0u8,
            decreases 32 - i,
        {
            if self.0[i] != 0 {
                return false;
            }
            i = i + 1;
        }
        true
    }

    /// Byte-wise equality of two hashes.
    pub fn equals(&self, other: &Self) -> (r: bool)
        ensures
            r == (self@ == other@),
            r == (*self == *other),
    {
        bytes32_equal(&self.0, &other.0)
    }
}

impl PartialEq for FixedHash {
    fn eq(&self, other: &Self) -> (r: bool) {
        self.equals(other)
    }
}

impl Eq for FixedHash {}

impl vstd::std_specs::cmp::PartialEqSpecImpl for FixedHash {
    open spec fn obeys_eq_spec() -> bool {
        true
    }

    open spec fn eq_spec(&self, other: &FixedHash) -> bool {
        *self == *other
    }
}

/// Two hashes are the same value exactly when their bytes agree.
pub broadcast proof fn lemma_fixed_hash_view_eq(a: FixedHash, b: FixedHash)
    ensures
        (#[trigger] a@ == #[trigger] b@) == (a == b),
{
    lemma_bytes32_view_eq(a.0, b.0);
}

/// Two 32-byte arrays are the same value exactly when their bytes agree.
pub proof fn lemma_bytes32_view_eq(a: [u8; 32], b: [u8; 32])
    ensures
        (a@ == b@) == (a == b),
{
    broadcast use vstd::array::group_array_axioms;

    if a@ == b@ {
        assert(a =~= b);
    }
}

/// Whether `a` and `b` agree on their first `i` bytes.
pub open spec fn agree_below(a: Seq<u8>, b: Seq<u8>, i: int) -> bool {
    forall|j: int| 0 <= j < i ==> a[j] == b[j]
}

/// The lexicographic order of byte strings: `a` comes before `b` where, at
/// the first byte in which they differ, `a` has the smaller byte.
pub open spec fn bytes_lt(a: Seq<u8>, b: Seq<u8>) -> bool {
    exists|i: int| 0 <= i < a.len() && 0 <= i < b.len() && #[trigger] agree_below(a, b, i) && a[i] < b[i]
}

/// The lexicographic order of byte strings is transitive.
pub proof fn lemma_bytes_lt_transitive(a: Seq<u8>, b: Seq<u8>, c: Seq<u8>)
    requires
        bytes_lt(a, b),
        bytes_lt(b, c),
    ensures
        bytes_lt(a, c),
{
    let i = choose|i: int| 0 <= i < a.len() && 0 <= i < b.len() && #[trigger] agree_below(a, b, i) && a[i] < b[i];
    let k = choose|k: int| 0 <= k < b.len() && 0 <= k < c.len() && #[trigger] agree_below(b, c, k) && b[k] < c[k];
    let m = if i < k { i } else { k };
    assert(agree_below(a, c, m));
}

/// The lexicographic order of byte strings is asymmetric, so irreflexive.
pub proof fn lemma_bytes_lt_asymmetric(a: Seq<u8>, b: Seq<u8>)
    requires
        bytes_lt(a, b),
    ensures
        !bytes_lt(b, a),
        a != b,
{
    let i = choose|i: int| 0 <= i < a.len() && 0 <= i < b.len() && #[trigger] agree_below(a, b, i) && a[i] < b[i];
    if bytes_lt(b, a) {
        let k = choose|k: int| 0 <= k < b.len() && 0 <= k < a.len() && #[trigger] agree_below(b, a, k) && b[k] < a[k];
        if i < k {
            assert(b[i] == a[i]);
        } else if k < i {
            assert(a[k] == b[k]);
        }
    }
}

/// The lexicographic comparison of two 32-byte arrays: negative where `a`
/// comes first, positive where `b` does, zero where they are equal.
pub fn compare_bytes32(a: &[u8; 32], b: &[u8; 32]) -> (r: i8)
    ensures
        r < 0 <==> bytes_lt(a@, b@),
        r > 0 <==> bytes_lt(b@, a@),
        r == 0 <==> a@ == b@,
{
    let mut i: usize = 0;
    while i < 32
        invariant
            i <= 32,
            a@.len() == 32,
            b@.len() == 32,
            agree_below(a@, b@, i as int),
        decreases 32 - i,
    {
        if a[i] < b[i] {
            assert(agree_below(a@, b@, i as int));
            proof {
                lemma_bytes_lt_asymmetric(a@, b@);
            }
            return -1;
        }
        if a[i] > b[i] {
            assert(agree_below(b@, a@, i as int));
            proof {
                lemma_bytes_lt_asymmetric(b@, a@);
            }
            return 1;
        }
        i = i + 1;
    }
    assert(a@ =~= b@);
    assert(!bytes_lt(a@, b@));
    assert(!bytes_lt(b@, a@));
    0
}

/// Byte-wise equality of two 32-byte arrays.
pub fn bytes32_equal(a: &[u8; 32], b: &[u8; 32]) -> (r: bool)
    ensures
        r == (a@ == b@),
        r == (*a == *b),
{
    broadcast use vstd::array::group_array_axioms;

    let mut i: usize = 0;
    while i < 32
        invariant
            i <= 32,
            a@.len() == 32,
            b@.len() == 32,
            forall|j: int| 0 <= j < i ==> a@[j] == b@[j],
        decreases 32 - i,
    {
        if a[i] != b[i] {
            return false;
        }
        i = i + 1;
    }
    assert(a@ =~= b@);
    proof {
        lemma_bytes32_view_eq(*a, *b);
    }
    true
}

/// The Blake2b digest with a 256-bit output of `data`.
pub uninterp spec fn blake2b_256(data: Seq<u8>) -> Seq<u8>;

/// Computes the Blake2b-256 digest of `data` with the `blake2` crate.
#[verifier::external_body]
pub(crate) fn blake2b_256_digest(data: &[u8]) -> (r: [u8; 32])
    ensures
        r@ == blake2b_256(data@),
{
    let out = <blake2::Blake2b<blake2::digest::consts::U32> as blake2::Digest>::digest(data);
    out.into()
}

/// The lower-case hexadecimal digit for `n`, which must be below 16.
pub open spec fn hex_digit(n: u8) -> char {
    if n < 10 {
        (('0' as u8) + n) as char
    } else {
        (('a' as u8) + (n - 10)) as char
    }
}

/// The lower-case hexadecimal rendering of `bytes`, two digits per byte,
/// high nibble first.
pub open spec fn hex_lower(bytes: Seq<u8>) -> Seq<char>
    decreases bytes.len(),
{
    if bytes.len() == 0 {
        Seq::empty()
    } else {
        hex_lower(bytes.drop_last()) + seq![
            hex_digit(bytes.last() / 16),
            hex_digit(bytes.last() % 16),
        ]
    }
}

/// The one-character string holding the hexadecimal digit of `n`.
pub(crate) fn hex_digit_str(n: u8) -> (r: &'static str)
    requires
        n < 16,
    ensures
        r@ == seq![hex_digit(n)],
{
    proof {
        reveal_strlit("0");
        reveal_strlit("1");
        reveal_strlit("2");
        reveal_strlit("3");
        reveal_strlit("4");
        reveal_strlit("5");
        reveal_strlit("6");
        reveal_strlit("7");
        reveal_strlit("8");
        reveal_strlit("9");
        reveal_strlit("a");
        reveal_strlit("b");
        reveal_strlit("c");
        reveal_strlit("d");
        reveal_strlit("e");
        reveal_strlit("f");
    }
    let r = match n {
        0 => "0",
        1 => "1",
        2 => "2",
        3 => "3",
        4 => "4",
        5 => "5",
        6 => "6",
        7 => "7",
        8 => "8",
        9 => "9",
        10 => "a",
        11 => "b",
        12 => "c",
        13 => "d",
        14 => "e",
        _ => "f",
    };
    assert(r@ =~= seq![hex_digit(n)]);
    r
}

/// Renders `bytes` as lower-case hexadecimal.
pub fn to_hex(bytes: &[u8]) -> (r: String)
    ensures
        r@ == hex_lower(bytes@),
{
    let mut r = String::new();
    let mut i: usize = 0;
    while i < bytes.len()
        invariant
            i <= bytes@.len(),
            r@ == hex_lower(bytes@.subrange(0, i as int)),
        decreases bytes@.len() - i,
    {
        let b = bytes[i];
        r.append(hex_digit_str(b / 16));
        r.append(hex_digit_str(b % 16));
        assert(bytes@.subrange(0, i + 1).drop_last() =~= bytes@.subrange(0, i as int));
        i = i + 1;
    }
    assert(bytes@.subrange(0, bytes@.len() as int) =~= bytes@);
    r
}

impl FixedHash {
    /// The lower-case hexadecimal rendering of this hash.
    pub fn to_hex(&self) -> (r: String)
        ensures
            r@ == hex_lower(self@),
    {
        to_hex(self.as_slice())
    }
}

} // verus!
