//! The byte encodings from which identifiers are hashed: integers in
//! little-endian order, hashes as their 32 bytes, and sequences preceded by
//! their length.
use vstd::prelude::*;

use vstd::bytes::{spec_u32_to_le_bytes, spec_u64_to_le_bytes, u32_to_le_bytes, u64_to_le_bytes};

use crate::command::{Command, Decision, TransactionAtom};
use crate::quorum::QuorumCertificate;

verus! {

/// The little-endian encoding of a 64-bit integer.
pub open spec fn enc_u64(x: u64) -> Seq<u8> {
    spec_u64_to_le_bytes(x)
}

/// The little-endian encoding of a 32-bit integer.
pub open spec fn enc_u32(x: u32) -> Seq<u8> {
    spec_u32_to_le_bytes(x)
}

/// The encoding of a quorum certificate: its identifier, block, height
/// and epoch.
pub open spec fn enc_qc(qc: QuorumCertificate) -> Seq<u8> {
    qc.qc_id.0@ + qc.block_id@ + enc_u64(qc.block_height.0) + enc_u64(qc.epoch.0)
}

/// The byte that encodes a decision.
pub open spec fn decision_byte(d: Decision) -> u8 {
    match d {
        Decision::Commit => 1,
        Decision::Abort => 0,
    }
}

/// The encoding of a transaction atom.
pub open spec fn enc_atom(a: TransactionAtom) -> Seq<u8> {
    a.id.0@ + seq![decision_byte(a.decision)] + enc_u64(a.transaction_fee)
}

/// The encoding of a command: a tag byte for its kind, then its contents.
pub open spec fn enc_command(c: Command) -> Seq<u8> {
    match c {
        Command::Prepare(a) => seq![0u8] + enc_atom(a),
        Command::LocalPrepared(a) => seq![1u8] + enc_atom(a),
        Command::Accept(a) => seq![2u8] + enc_atom(a),
        Command::ForeignProposal(p) => seq![3u8] + enc_u32(p.shard.0) + p.block_id@,
    }
}

/// The concatenated encodings of `s`.
pub open spec fn enc_commands(s: Seq<Command>) -> Seq<u8>
    decreases s.len(),
{
    if s.len() == 0 {
        Seq::empty()
    } else {
        enc_commands(s.drop_last()) + enc_command(s.last())
    }
}

/// The concatenated encodings of the `(shard, counter)` entries `s`.
pub open spec fn enc_entries(s: Seq<(u32, u64)>) -> Seq<u8>
    decreases s.len(),
{
    if s.len() == 0 {
        Seq::empty()
    } else {
        enc_entries(s.drop_last()) + enc_u32(s.last().0) + enc_u64(s.last().1)
    }
}

/// Appends `bytes` to `out`.
pub fn extend_bytes(out: &mut Vec<u8>, bytes: &[u8])
    ensures
        final(out)@ == old(out)@ + bytes@,
{
    let mut i: usize = 0;
    while i < bytes.len()
        invariant
            i <= bytes@.len(),
            out@ == old(out)@ + bytes@.subrange(0, i as int),
        decreases bytes@.len() - i,
    {
        out.push(bytes[i]);
        assert(bytes@.subrange(0, i + 1) =~= bytes@.subrange(0, i as int).push(bytes@[i as int]));
        i = i + 1;
    }
    assert(bytes@.subrange(0, bytes@.len() as int) =~= bytes@);
}

/// Appends the encoding of `x`.
pub fn push_u64(out: &mut Vec<u8>, x: u64)
    ensures
        final(out)@ == old(out)@ + enc_u64(x),
{
    let b = u64_to_le_bytes(x);
    extend_bytes(out, b.as_slice());
}

/// Appends the encoding of `x`.
pub fn push_u32(out: &mut Vec<u8>, x: u32)
    ensures
        final(out)@ == old(out)@ + enc_u32(x),
{
    let b = u32_to_le_bytes(x);
    extend_bytes(out, b.as_slice());
}

/// Appends the encoding of a quorum certificate.
pub fn push_qc(out: &mut Vec<u8>, qc: &QuorumCertificate)
    ensures
        final(out)@ == old(out)@ + enc_qc(*qc),
{
    extend_bytes(out, qc.qc_id.0.as_slice());
    extend_bytes(out, qc.block_id.as_bytes());
    push_u64(out, qc.block_height.0);
    push_u64(out, qc.epoch.0);
    assert(out@ =~= old(out)@ + enc_qc(*qc));
}

/// Appends the encoding of a transaction atom.
fn push_atom(out: &mut Vec<u8>, a: &TransactionAtom)
    ensures
        final(out)@ == old(out)@ + enc_atom(*a),
{
    extend_bytes(out, a.id.0.as_slice());
    let d: u8 = match a.decision {
        Decision::Commit => 1,
        Decision::Abort => 0,
    };
    out.push(d);
    push_u64(out, a.transaction_fee);
    assert(out@ =~= old(out)@ + enc_atom(*a));
}

/// Appends the encoding of a command.
pub fn push_command(out: &mut Vec<u8>, c: &Command)
    ensures
        final(out)@ == old(out)@ + enc_command(*c),
{
    match c {
        Command::Prepare(a) => {
            out.push(0u8);
            push_atom(out, a);
        },
        Command::LocalPrepared(a) => {
            out.push(1u8);
            push_atom(out, a);
        },
        Command::Accept(a) => {
            out.push(2u8);
            push_atom(out, a);
        },
        Command::ForeignProposal(p) => {
            out.push(3u8);
            push_u32(out, p.shard.0);
            extend_bytes(out, p.block_id.as_bytes());
        },
    }
    assert(out@ =~= old(out)@ + enc_command(*c));
}

/// Appends the encodings of `cmds`.
pub fn push_commands(out: &mut Vec<u8>, cmds: &[Command])
    ensures
        final(out)@ == old(out)@ + enc_commands(cmds@),
{
    let mut i: usize = 0;
    while i < cmds.len()
        invariant
            i <= cmds@.len(),
            out@ == old(out)@ + enc_commands(cmds@.subrange(0, i as int)),
        decreases cmds@.len() - i,
    {
        push_command(out, &cmds[i]);
        assert(cmds@.subrange(0, i + 1).drop_last() =~= cmds@.subrange(0, i as int));
        assert(out@ =~= old(out)@ + enc_commands(cmds@.subrange(0, i + 1)));
        i = i + 1;
    }
    assert(cmds@.subrange(0, cmds@.len() as int) =~= cmds@);
}

/// Appends the encodings of the `(shard, counter)` entries `entries`.
pub fn push_entries(out: &mut Vec<u8>, entries: &[(u32, u64)])
    ensures
        final(out)@ == old(out)@ + enc_entries(entries@),
{
    let mut i: usize = 0;
    while i < entries.len()
        invariant
            i <= entries@.len(),
            out@ == old(out)@ + enc_entries(entries@.subrange(0, i as int)),
        decreases entries@.len() - i,
    {
        let (k, v) = entries[i];
        push_u32(out, k);
        push_u64(out, v);
        assert(entries@.subrange(0, i + 1).drop_last() =~= entries@.subrange(0, i as int));
        assert(out@ =~= old(out)@ + enc_entries(entries@.subrange(0, i + 1)));
        i = i + 1;
    }
    assert(entries@.subrange(0, entries@.len() as int) =~= entries@);
}

} // verus!
