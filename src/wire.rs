//! Fixed-width big-endian integers on the wire.
use crate::error::MessageError;
use vstd::prelude::*;

verus! {

/// The 16-bit value whose big-endian bytes are `hi`, `lo`.
pub open spec fn be16(hi: u8, lo: u8) -> u16 {
    (hi as int * 256 + lo as int) as u16
}

/// The 16-bit value stored big-endian at `pos`.
pub open spec fn be16_at(s: Seq<u8>, pos: int) -> u16 {
    be16(s[pos], s[pos + 1])
}

/// The 32-bit value stored big-endian at `pos`.
pub open spec fn be32_at(s: Seq<u8>, pos: int) -> u32 {
    (s[pos] as int * 0x1000000 + s[pos + 1] as int * 0x10000 + s[pos + 2] as int * 0x100
        + s[pos + 3] as int) as u32
}

/// The big-endian bytes of a 16-bit value.
pub open spec fn u16_wire(v: u16) -> Seq<u8> {
    seq![(v / 256) as u8, (v % 256) as u8]
}

/// The big-endian bytes of a 32-bit value.
pub open spec fn u32_wire(v: u32) -> Seq<u8> {
    seq![
        (v / 0x1000000) as u8,
        ((v / 0x10000) % 256) as u8,
        ((v / 0x100) % 256) as u8,
        (v % 256) as u8,
    ]
}

/// Reads the big-endian `u16` at `pos`; fails when fewer than two bytes remain.
pub fn read_u16(input: &[u8], pos: usize) -> (r: Result<(u16, usize), MessageError>)
    ensures
        pos + 2 <= input@.len() ==> (r matches Ok((v, p)) && v == be16_at(input@, pos as int)
            && p == pos + 2),
        pos + 2 > input@.len() ==> r == Err::<(u16, usize), MessageError>(
            MessageError::ParsingError,
        ),
{
    if pos >= input.len() || input.len() - pos < 2 {
        return Err(MessageError::ParsingError);
    }
    let v: u16 = (input[pos] as u16) * 256 + input[pos + 1] as u16;
    Ok((v, pos + 2))
}

/// Reads the big-endian `u32` at `pos`; fails when fewer than four bytes remain.
pub fn read_u32(input: &[u8], pos: usize) -> (r: Result<(u32, usize), MessageError>)
    ensures
        pos + 4 <= input@.len() ==> (r matches Ok((v, p)) && v == be32_at(input@, pos as int)
            && p == pos + 4),
        pos + 4 > input@.len() ==> r == Err::<(u32, usize), MessageError>(
            MessageError::ParsingError,
        ),
{
    if pos >= input.len() || input.len() - pos < 4 {
        return Err(MessageError::ParsingError);
    }
    let v: u32 = (input[pos] as u32) * 0x1000000 + (input[pos + 1] as u32) * 0x10000
        + (input[pos + 2] as u32) * 0x100 + input[pos + 3] as u32;
    Ok((v, pos + 4))
}

/// Appends the big-endian bytes of `v`.
pub fn push_u16(buf: &mut Vec<u8>, v: u16)
    ensures
        final(buf)@ == old(buf)@ + u16_wire(v),
{
    buf.push((v / 256) as u8);
    buf.push((v % 256) as u8);
    assert(final(buf)@ =~= old(buf)@ + u16_wire(v));
}

/// Appends the big-endian bytes of `v`.
pub fn push_u32(buf: &mut Vec<u8>, v: u32)
    ensures
        final(buf)@ == old(buf)@ + u32_wire(v),
{
    buf.push((v / 0x1000000) as u8);
    buf.push(((v / 0x10000) % 256) as u8);
    buf.push(((v / 0x100) % 256) as u8);
    buf.push((v % 256) as u8);
    assert(final(buf)@ =~= old(buf)@ + u32_wire(v));
}

/// Reading back the bytes of a `u16` gives the value.
pub proof fn lemma_u16_round_trip(v: u16)
    ensures
        be16_at(u16_wire(v), 0) == v,
{
}

/// Reading back the bytes of a `u32` gives the value.
pub proof fn lemma_u32_round_trip(v: u32)
    ensures
        be32_at(u32_wire(v), 0) == v,
{
}

} // verus!

verus! {

/// Appends the bytes of `src`.
pub fn append_bytes(dst: &mut Vec<u8>, src: &[u8])
    ensures
        final(dst)@ == old(dst)@ + src@,
{
    let mut i: usize = 0;
    while i < src.len()
        invariant
            i <= src@.len(),
            dst@ == old(dst)@ + src@.take(i as int),
        decreases src@.len() - i,
    {
        dst.push(src[i]);
        i = i + 1;
        assert(dst@ =~= old(dst)@ + src@.take(i as int));
    }
    assert(src@.take(i as int) =~= src@);
}

} // verus!
