//! The instructions of a transaction, and their hash.
use vstd::prelude::*;

use vstd::string::StrSliceExecFns;

use crate::common::PublicKey;
use crate::encoding::{enc_u32, enc_u64, extend_bytes, push_u32, push_u64};
use crate::hash::{blake2b_256, blake2b_256_digest, hex_lower, FixedHash};

verus! {

/// The address of a template: a 32-byte hash.
#[derive(Debug, Clone, Copy)]
pub struct TemplateAddress(pub FixedHash);

/// The address of a component: a 32-byte hash.
#[derive(Debug, Clone, Copy)]
pub struct ComponentAddress(pub FixedHash);

/// An argument of a call: a value from the workspace, by key, or a literal
/// encoded value.
#[derive(Debug, Clone)]
pub enum Arg {
    Workspace(Vec<u8>),
    Literal(Vec<u8>),
}

/// The level of a log message.
#[derive(Debug, Clone, Copy, PartialEq, Eq, Structural)]
pub enum LogLevel {
    Error,
    Warn,
    Info,
    Debug,
}

/// A commitment signature: its public nonce and two scalars, 32 bytes each.
#[derive(Debug, Clone, Copy)]
pub struct CommitmentSignature {
    pub public_nonce: [u8; 32],
    pub u: [u8; 32],
    pub v: [u8; 32],
}

/// A proof that a leaf is in a merkle mountain range: the size of the
/// range, the path of sibling hashes, and the peaks.
#[derive(Debug, Clone)]
pub struct MerkleProof {
    pub mmr_size: u64,
    pub path: Vec<FixedHash>,
    pub peaks: Vec<FixedHash>,
}

/// An instruction of a transaction.
#[derive(Debug, Clone)]
pub enum Instruction {
    CallFunction { template_address: TemplateAddress, function: String, args: Vec<Arg> },
    CallMethod { component_address: ComponentAddress, method: String, args: Vec<Arg> },
    PutLastInstructionOutputOnWorkspace { key: Vec<u8> },
    EmitLog { level: LogLevel, message: String },
    ImportUtxo {
        commitment: PublicKey,
        proof_of_knowledge: CommitmentSignature,
        proof_of_existence: MerkleProof,
    },
}

/// The encoding of the characters `s`, each as its 32-bit code point.
pub open spec fn enc_chars(s: Seq<char>) -> Seq<u8>
    decreases s.len(),
{
    if s.len() == 0 {
        Seq::empty()
    } else {
        enc_chars(s.drop_last()) + enc_u32(s.last() as u32)
    }
}

/// The encoding of a string: its length, then its characters.
pub open spec fn enc_string(s: Seq<char>) -> Seq<u8> {
    enc_u64(s.len() as u64) + enc_chars(s)
}

/// The encoding of a byte string: its length, then its bytes.
pub open spec fn enc_byte_string(b: Seq<u8>) -> Seq<u8> {
    enc_u64(b.len() as u64) + b
}

/// The encoding of an argument: a tag byte, then its bytes.
pub open spec fn enc_arg(a: Arg) -> Seq<u8> {
    match a {
        Arg::Workspace(v) => seq![0u8] + enc_byte_string(v@),
        Arg::Literal(v) => seq![1u8] + enc_byte_string(v@),
    }
}

/// The concatenated encodings of `args`.
pub open spec fn enc_arg_list(args: Seq<Arg>) -> Seq<u8>
    decreases args.len(),
{
    if args.len() == 0 {
        Seq::empty()
    } else {
        enc_arg_list(args.drop_last()) + enc_arg(args.last())
    }
}

/// The encoding of a list of arguments: its length, then each argument.
pub open spec fn enc_args(args: Seq<Arg>) -> Seq<u8> {
    enc_u64(args.len() as u64) + enc_arg_list(args)
}

/// The concatenated bytes of `hashes`.
pub open spec fn enc_hash_list(hashes: Seq<FixedHash>) -> Seq<u8>
    decreases hashes.len(),
{
    if hashes.len() == 0 {
        Seq::empty()
    } else {
        enc_hash_list(hashes.drop_last()) + hashes.last()@
    }
}

/// The encoding of a list of hashes: its length, then each hash.
pub open spec fn enc_hashes(hashes: Seq<FixedHash>) -> Seq<u8> {
    enc_u64(hashes.len() as u64) + enc_hash_list(hashes)
}

/// The byte that encodes a log level.
pub open spec fn log_level_byte(l: LogLevel) -> u8 {
    match l {
        LogLevel::Error => 0,
        LogLevel::Warn => 1,
        LogLevel::Info => 2,
        LogLevel::Debug => 3,
    }
}

/// The encoding of an instruction: a tag byte for its kind, then its
/// fields in order.
pub open spec fn enc_instruction(i: Instruction) -> Seq<u8> {
    match i {
        Instruction::CallFunction { template_address, function, args } => seq![0u8]
            + template_address.0@ + enc_string(function@) + enc_args(args@),
        Instruction::CallMethod { component_address, method, args } => seq![1u8]
            + component_address.0@ + enc_string(method@) + enc_args(args@),
        Instruction::PutLastInstructionOutputOnWorkspace { key } => seq![2u8] + enc_byte_string(
            key@,
        ),
        Instruction::EmitLog { level, message } => seq![3u8, log_level_byte(level)] + enc_string(
            message@,
        ),
        Instruction::ImportUtxo { commitment, proof_of_knowledge, proof_of_existence } => seq![4u8]
            + commitment@ + proof_of_knowledge.public_nonce@ + proof_of_knowledge.u@
            + proof_of_knowledge.v@ + enc_u64(proof_of_existence.mmr_size) + enc_hashes(
            proof_of_existence.path@,
        ) + enc_hashes(proof_of_existence.peaks@),
    }
}

/// The domain label that starts every instruction hash preimage: the ASCII
/// bytes of `com.tari.dan.instruction`.
pub open spec fn instruction_hash_label() -> Seq<u8> {
    seq![
        99u8, 111, 109, 46, 116, 97, 114, 105, 46, 100, 97, 110, 46, 105, 110, 115, 116, 114,
        117, 99, 116, 105, 111, 110,
    ]
}

/// The hash of an instruction.
pub open spec fn instruction_hash(i: Instruction) -> Seq<u8> {
    blake2b_256(instruction_hash_label() + enc_instruction(i))
}

/// Appends the encoding of a string.
fn push_string(out: &mut Vec<u8>, s: &String)
    ensures
        final(out)@ == old(out)@ + enc_string(s@),
{
    let st = s.as_str();
    let n = st.unicode_len();
    push_u64(out, n as u64);
    let ghost start = out@;
    let mut i: usize = 0;
    while i < n
        invariant
            i <= n,
            n == s@.len(),
            st@ == s@,
            out@ == start + enc_chars(s@.subrange(0, i as int)),
        decreases n - i,
    {
        let c = st.get_char(i);
        push_u32(out, c as u32);
        assert(s@.subrange(0, i + 1).drop_last() =~= s@.subrange(0, i as int));
        assert(out@ =~= start + enc_chars(s@.subrange(0, i + 1)));
        i = i + 1;
    }
    assert(s@.subrange(0, n as int) =~= s@);
    assert(out@ =~= old(out)@ + enc_string(s@));
}

/// Appends the encoding of a byte string.
fn push_byte_string(out: &mut Vec<u8>, b: &Vec<u8>)
    ensures
        final(out)@ == old(out)@ + enc_byte_string(b@),
{
    push_u64(out, b.len() as u64);
    extend_bytes(out, b.as_slice());
    assert(out@ =~= old(out)@ + enc_byte_string(b@));
}

/// Appends the encoding of a list of arguments.
fn push_args(out: &mut Vec<u8>, args: &Vec<Arg>)
    ensures
        final(out)@ == old(out)@ + enc_args(args@),
{
    push_u64(out, args.len() as u64);
    let ghost start = out@;
    let mut i: usize = 0;
    while i < args.len()
        invariant
            i <= args@.len(),
            out@ == start + enc_arg_list(args@.subrange(0, i as int)),
        decreases args@.len() - i,
    {
        match &args[i] {
            Arg::Workspace(v) => {
                out.push(0u8);
                push_byte_string(out, v);
            },
            Arg::Literal(v) => {
                out.push(1u8);
                push_byte_string(out, v);
            },
        }
        assert(args@.subrange(0, i + 1).drop_last() =~= args@.subrange(0, i as int));
        assert(out@ =~= start + enc_arg_list(args@.subrange(0, i + 1)));
        i = i + 1;
    }
    assert(args@.subrange(0, args@.len() as int) =~= args@);
    assert(out@ =~= old(out)@ + enc_args(args@));
}

/// Appends the encoding of a list of hashes.
fn push_hashes(out: &mut Vec<u8>, hashes: &Vec<FixedHash>)
    ensures
        final(out)@ == old(out)@ + enc_hashes(hashes@),
{
    push_u64(out, hashes.len() as u64);
    let ghost start = out@;
    let mut i: usize = 0;
    while i < hashes.len()
        invariant
            i <= hashes@.len(),
            out@ == start + enc_hash_list(hashes@.subrange(0, i as int)),
        decreases hashes@.len() - i,
    {
        extend_bytes(out, hashes[i].as_slice());
        assert(hashes@.subrange(0, i + 1).drop_last() =~= hashes@.subrange(0, i as int));
        assert(out@ =~= start + enc_hash_list(hashes@.subrange(0, i + 1)));
        i = i + 1;
    }
    assert(hashes@.subrange(0, hashes@.len() as int) =~= hashes@);
    assert(out@ =~= old(out)@ + enc_hashes(hashes@));
}

impl Instruction {
    /// The bytes from which the instruction's hash is computed.
    pub fn encode(&self) -> (r: Vec<u8>)
        ensures
            r@ == enc_instruction(*self),
    {
        let mut out: Vec<u8> = Vec::new();
        match self {
            Instruction::CallFunction { template_address, function, args } => {
                out.push(0u8);
                extend_bytes(&mut out, template_address.0.as_slice());
                push_string(&mut out, function);
                push_args(&mut out, args);
            },
            Instruction::CallMethod { component_address, method, args } => {
                out.push(1u8);
                extend_bytes(&mut out, component_address.0.as_slice());
                push_string(&mut out, method);
                push_args(&mut out, args);
            },
            Instruction::PutLastInstructionOutputOnWorkspace { key } => {
                out.push(2u8);
                push_byte_string(&mut out, key);
            },
            Instruction::EmitLog { level, message } => {
                out.push(3u8);
                let l: u8 = match level {
                    LogLevel::Error => 0,
                    LogLevel::Warn => 1,
                    LogLevel::Info => 2,
                    LogLevel::Debug => 3,
                };
                out.push(l);
                push_string(&mut out, message);
            },
            Instruction::ImportUtxo { commitment, proof_of_knowledge, proof_of_existence } => {
                out.push(4u8);
                extend_bytes(&mut out, commitment.as_bytes());
                extend_bytes(
                    &mut out,
                    vstd::array::array_as_slice(&proof_of_knowledge.public_nonce),
                );
                extend_bytes(&mut out, vstd::array::array_as_slice(&proof_of_knowledge.u));
                extend_bytes(&mut out, vstd::array::array_as_slice(&proof_of_knowledge.v));
                push_u64(&mut out, proof_of_existence.mmr_size);
                push_hashes(&mut out, &proof_of_existence.path);
                push_hashes(&mut out, &proof_of_existence.peaks);
            },
        }
        assert(out@ =~= enc_instruction(*self));
        out
    }

    /// The hash of the instruction.
    pub fn hash(&self) -> (r: FixedHash)
        ensures
            r@ == instruction_hash(*self),
    {
        let mut pre: Vec<u8> = vec![
            99u8, 111, 109, 46, 116, 97, 114, 105, 46, 100, 97, 110, 46, 105, 110, 115, 116,
            114, 117, 99, 116, 105, 111, 110,
        ];
        assert(pre@ =~= instruction_hash_label());
        let body = self.encode();
        extend_bytes(&mut pre, body.as_slice());
        FixedHash::from_bytes(blake2b_256_digest(pre.as_slice()))
    }
}

/// The `Debug` rendering of a list of call arguments, as std's formatting
/// machinery gives it.
pub uninterp spec fn args_debug(args: Seq<Arg>) -> Seq<char>;

/// The `Debug` rendering of a byte string.
pub uninterp spec fn bytes_debug(bytes: Seq<u8>) -> Seq<char>;

/// The `Debug` rendering of a string: quoted, with its special characters
/// escaped.
pub uninterp spec fn str_debug(s: Seq<char>) -> Seq<char>;

/// The `Debug` rendering of a public key with the given bytes.
pub uninterp spec fn public_key_debug(key: Seq<u8>) -> Seq<char>;

/// The `Debug` rendering of a commitment signature.
pub uninterp spec fn commitment_signature_debug(sig: CommitmentSignature) -> Seq<char>;

/// The `Debug` rendering of a merkle proof.
pub uninterp spec fn merkle_proof_debug(proof: MerkleProof) -> Seq<char>;

/// Renders call arguments with std's `format!` in their `Debug` form; the
/// text is named by `args_debug`, not stated.
#[verifier::external_body]
fn args_debug_string(args: &Vec<Arg>) -> (r: String)
    ensures
        r@ == args_debug(args@),
{
    format!("{:?}", args)
}

/// Renders a byte string with std's `format!` in its `Debug` form; the
/// text is named by `bytes_debug`, not stated.
#[verifier::external_body]
fn bytes_debug_string(bytes: &Vec<u8>) -> (r: String)
    ensures
        r@ == bytes_debug(bytes@),
{
    format!("{:?}", bytes)
}

/// Renders a string with std's `format!` in its `Debug` form; the text is
/// named by `str_debug`, not stated.
#[verifier::external_body]
fn str_debug_string(s: &String) -> (r: String)
    ensures
        r@ == str_debug(s@),
{
    format!("{:?}", s)
}

/// Renders a public key with std's `format!` in its `Debug` form; the text
/// is named by `public_key_debug`, not stated.
#[verifier::external_body]
fn public_key_debug_string(key: &PublicKey) -> (r: String)
    ensures
        r@ == public_key_debug(key@),
{
    format!("{:?}", key)
}

/// Renders a commitment signature with std's `format!` in its `Debug`
/// form; the text is named by `commitment_signature_debug`, not stated.
#[verifier::external_body]
fn commitment_signature_debug_string(sig: &CommitmentSignature) -> (r: String)
    ensures
        r@ == commitment_signature_debug(*sig),
{
    format!("{:?}", sig)
}

/// Renders a merkle proof with std's `format!` in its `Debug` form; the
/// text is named by `merkle_proof_debug`, not stated.
#[verifier::external_body]
fn merkle_proof_debug_string(proof: &MerkleProof) -> (r: String)
    ensures
        r@ == merkle_proof_debug(*proof),
{
    format!("{:?}", proof)
}

/// The name of a log level.
pub open spec fn log_level_name(l: LogLevel) -> Seq<char> {
    match l {
        LogLevel::Error => "Error"@,
        LogLevel::Warn => "Warn"@,
        LogLevel::Info => "Info"@,
        LogLevel::Debug => "Debug"@,
    }
}

/// How an instruction is shown: its kind and its fields by name, addresses
/// in hexadecimal, names as they are, and the other fields in their
/// `Debug` renderings.
pub open spec fn instruction_display(i: Instruction) -> Seq<char> {
    match i {
        Instruction::CallFunction { template_address, function, args } => "CallFunction { template_address: "@
            + hex_lower(template_address.0@) + ", function: "@ + function@ + ", args: "@
            + args_debug(args@) + " }"@,
        Instruction::CallMethod { component_address, method, args } => "CallMethod { component_address: component_"@
            + hex_lower(component_address.0@) + ", method: "@ + method@ + ", args: "@
            + args_debug(args@) + " }"@,
        Instruction::PutLastInstructionOutputOnWorkspace { key } => "PutLastInstructionOutputOnWorkspace { key: "@
            + bytes_debug(key@) + " }"@,
        Instruction::EmitLog { level, message } => "EmitLog { level: "@ + log_level_name(level)
            + ", message: "@ + str_debug(message@) + " }"@,
        Instruction::ImportUtxo { commitment, proof_of_knowledge, proof_of_existence } => "ImportUtxo { commitment: "@
            + public_key_debug(commitment@) + ", proof_of_knowledge: "@
            + commitment_signature_debug(proof_of_knowledge) + ", proof_of_existence: "@
            + merkle_proof_debug(proof_of_existence) + " }"@,
    }
}

impl LogLevel {
    /// The name of this level.
    pub fn name(&self) -> (r: &'static str)
        ensures
            r@ == log_level_name(*self),
    {
        proof {
            reveal_strlit("Error");
            reveal_strlit("Warn");
            reveal_strlit("Info");
            reveal_strlit("Debug");
        }
        match self {
            LogLevel::Error => "Error",
            LogLevel::Warn => "Warn",
            LogLevel::Info => "Info",
            LogLevel::Debug => "Debug",
        }
    }
}

impl Instruction {
    /// The instruction as shown to people.
    pub fn to_display_string(&self) -> (r: String)
        ensures
            r@ == instruction_display(*self),
    {
        proof {
            reveal_strlit("CallFunction { template_address: ");
            reveal_strlit("CallMethod { component_address: component_");
            reveal_strlit(", function: ");
            reveal_strlit(", method: ");
            reveal_strlit(", args: ");
            reveal_strlit(" }");
            reveal_strlit("PutLastInstructionOutputOnWorkspace { key: ");
            reveal_strlit("EmitLog { level: ");
            reveal_strlit(", message: ");
            reveal_strlit("ImportUtxo { commitment: ");
            reveal_strlit(", proof_of_knowledge: ");
            reveal_strlit(", proof_of_existence: ");
        }
        let mut r = String::new();
        match self {
            Instruction::CallFunction { template_address, function, args } => {
                r.append("CallFunction { template_address: ");
                let hex = template_address.0.to_hex();
                r.append(hex.as_str());
                r.append(", function: ");
                r.append(function.as_str());
                r.append(", args: ");
                let a = args_debug_string(args);
                r.append(a.as_str());
                r.append(" }");
            },
            Instruction::CallMethod { component_address, method, args } => {
                r.append("CallMethod { component_address: component_");
                let hex = component_address.0.to_hex();
                r.append(hex.as_str());
                r.append(", method: ");
                r.append(method.as_str());
                r.append(", args: ");
                let a = args_debug_string(args);
                r.append(a.as_str());
                r.append(" }");
            },
            Instruction::PutLastInstructionOutputOnWorkspace { key } => {
                r.append("PutLastInstructionOutputOnWorkspace { key: ");
                let k = bytes_debug_string(key);
                r.append(k.as_str());
                r.append(" }");
            },
            Instruction::EmitLog { level, message } => {
                r.append("EmitLog { level: ");
                r.append(level.name());
                r.append(", message: ");
                let m = str_debug_string(message);
                r.append(m.as_str());
                r.append(" }");
            },
            Instruction::ImportUtxo { commitment, proof_of_knowledge, proof_of_existence } => {
                r.append("ImportUtxo { commitment: ");
                let c = public_key_debug_string(commitment);
                r.append(c.as_str());
                r.append(", proof_of_knowledge: ");
                let p = commitment_signature_debug_string(proof_of_knowledge);
                r.append(p.as_str());
                r.append(", proof_of_existence: ");
                let e = merkle_proof_debug_string(proof_of_existence);
                r.append(e.as_str());
                r.append(" }");
            },
        }
        r
    }
}

} // verus!
