//! Fixed-width integers as bytes, in both orders.
//!
//! The CCSDS primary header is big-endian; everything cFS itself puts behind it
//! is host order, which here means little-endian.

use vstd::prelude::*;

verus! {

/// The big-endian 16-bit number at offset `i`.
pub open spec fn be16_at(s: Seq<u8>, i: int) -> int {
    s[i] * 0x100 + s[i + 1]
}

/// The big-endian 32-bit number at offset `i`.
pub open spec fn be32_at(s: Seq<u8>, i: int) -> int {
    be16_at(s, i) * 0x1_0000 + be16_at(s, i + 2)
}

/// The little-endian 16-bit number at offset `i`.
pub open spec fn le16_at(s: Seq<u8>, i: int) -> int {
    s[i] + s[i + 1] * 0x100
}

/// The little-endian 32-bit number at offset `i`.
pub open spec fn le32_at(s: Seq<u8>, i: int) -> int {
    le16_at(s, i) + le16_at(s, i + 2) * 0x1_0000
}

/// The little-endian 64-bit number at offset `i`.
pub open spec fn le64_at(s: Seq<u8>, i: int) -> int {
    le32_at(s, i) + le32_at(s, i + 4) * 0x1_0000_0000
}

/// `x` as two bytes, most significant first.
pub open spec fn be16(x: u16) -> Seq<u8> {
    seq![(x / 0x100) as u8, (x % 0x100) as u8]
}

/// `x` as two bytes, least significant first.
pub open spec fn le16(x: u16) -> Seq<u8> {
    seq![(x % 0x100) as u8, (x / 0x100) as u8]
}

/// `x` as four bytes, least significant first.
pub open spec fn le32(x: u32) -> Seq<u8> {
    le16((x % 0x1_0000) as u16) + le16((x / 0x1_0000) as u16)
}

/// `x` as eight bytes, least significant first.
pub open spec fn le64(x: u64) -> Seq<u8> {
    le32((x % 0x1_0000_0000) as u32) + le32((x / 0x1_0000_0000) as u32)
}

/// Reading back a 32-bit number that stands at offset `i` gives the number.
pub proof fn le32_reads_back(x: u32, s: Seq<u8>, i: int)
    requires
        0 <= i,
        i + 4 <= s.len(),
        s.subrange(i, i + 4) == le32(x),
    ensures
        le32_at(s, i) == x,
{
    let w = s.subrange(i, i + 4);
    assert(s[i] == w[0] && s[i + 1] == w[1] && s[i + 2] == w[2] && s[i + 3] == w[3]);
    let lo = (x % 0x1_0000) as u16;
    let hi = (x / 0x1_0000) as u16;
    assert(w[0] == le16(lo)[0] && w[1] == le16(lo)[1]);
    assert(w[2] == le16(hi)[0] && w[3] == le16(hi)[1]);
}

/// Reading back a 64-bit number that stands at offset `i` gives the number.
pub proof fn le64_reads_back(x: u64, s: Seq<u8>, i: int)
    requires
        0 <= i,
        i + 8 <= s.len(),
        s.subrange(i, i + 8) == le64(x),
    ensures
        le64_at(s, i) == x,
{
    let lo = (x % 0x1_0000_0000) as u32;
    let hi = (x / 0x1_0000_0000) as u32;
    let w = s.subrange(i, i + 8);
    assert(s.subrange(i, i + 4) =~= w.subrange(0, 4));
    assert(s.subrange(i + 4, i + 8) =~= w.subrange(4, 8));
    assert(w.subrange(0, 4) =~= le32(lo));
    assert(w.subrange(4, 8) =~= le32(hi));
    le32_reads_back(lo, s, i);
    le32_reads_back(hi, s, i + 4);
}

pub fn read_be16(buf: &[u8], i: usize) -> (x: u16)
    requires
        i + 2 <= buf@.len(),
    ensures
        x == be16_at(buf@, i as int),
{
    buf[i] as u16 * 0x100 + buf[i + 1] as u16
}

pub fn read_be32(buf: &[u8], i: usize) -> (x: u32)
    requires
        i + 4 <= buf@.len(),
    ensures
        x == be32_at(buf@, i as int),
{
    assert(i + 4 <= buf.len());
    read_be16(buf, i) as u32 * 0x1_0000 + read_be16(buf, i + 2) as u32
}

pub fn read_le16(buf: &[u8], i: usize) -> (x: u16)
    requires
        i + 2 <= buf@.len(),
    ensures
        x == le16_at(buf@, i as int),
{
    buf[i] as u16 + buf[i + 1] as u16 * 0x100
}

pub fn read_le32(buf: &[u8], i: usize) -> (x: u32)
    requires
        i + 4 <= buf@.len(),
    ensures
        x == le32_at(buf@, i as int),
{
    assert(i + 4 <= buf.len());
    read_le16(buf, i) as u32 + read_le16(buf, i + 2) as u32 * 0x1_0000
}

pub fn read_le64(buf: &[u8], i: usize) -> (x: u64)
    requires
        i + 8 <= buf@.len(),
    ensures
        x == le64_at(buf@, i as int),
{
    assert(i + 8 <= buf.len());
    read_le32(buf, i) as u64 + read_le32(buf, i + 4) as u64 * 0x1_0000_0000
}

pub fn push_be16(out: &mut Vec<u8>, x: u16)
    ensures
        final(out)@ == old(out)@ + be16(x),
{
    out.push((x / 0x100) as u8);
    out.push((x % 0x100) as u8);
}

pub fn push_le16(out: &mut Vec<u8>, x: u16)
    ensures
        final(out)@ == old(out)@ + le16(x),
{
    out.push((x % 0x100) as u8);
    out.push((x / 0x100) as u8);
}

pub fn push_le32(out: &mut Vec<u8>, x: u32)
    ensures
        final(out)@ == old(out)@ + le32(x),
{
    push_le16(out, (x % 0x1_0000) as u16);
    push_le16(out, (x / 0x1_0000) as u16);
}

pub fn push_le64(out: &mut Vec<u8>, x: u64)
    ensures
        final(out)@ == old(out)@ + le64(x),
{
    push_le32(out, (x % 0x1_0000_0000) as u32);
    push_le32(out, (x / 0x1_0000_0000) as u32);
}

/// Append a run of bytes.
pub fn push_all(out: &mut Vec<u8>, bytes: &[u8])
    ensures
        final(out)@ == old(out)@ + bytes@,
{
    out.extend_from_slice(bytes);
    assert(out@ =~= old(out)@ + bytes@);
}

/// A copy of the bytes from offset `from` on.
pub fn tail(buf: &[u8], from: usize) -> (out: Vec<u8>)
    requires
        from <= buf@.len(),
    ensures
        out@ == buf@.skip(from as int),
{
    let mut out: Vec<u8> = Vec::new();
    push_all(&mut out, &buf[from..buf.len()]);
    out
}

} // verus!
