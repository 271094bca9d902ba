use vstd::prelude::*;

verus! {

/// The two big-endian bytes of `x`.
pub open spec fn be16_bytes(x: u16) -> Seq<u8> {
    seq![(x / 256) as u8, (x % 256) as u8]
}

/// The four big-endian bytes of `x`.
pub open spec fn be32_bytes(x: u32) -> Seq<u8> {
    seq![(x / 0x100_0000) as u8, ((x / 0x1_0000) % 256) as u8, ((x / 256) % 256) as u8, (x % 256) as u8]
}

/// The big-endian 16-bit value stored at `s[i..i + 2]`.
pub open spec fn be16_at(s: Seq<u8>, i: int) -> u16 {
    (s[i] as int * 256 + s[i + 1] as int) as u16
}

/// The big-endian 32-bit value stored at `s[i..i + 4]`.
pub open spec fn be32_at(s: Seq<u8>, i: int) -> u32 {
    (s[i] as int * 0x100_0000 + s[i + 1] as int * 0x1_0000 + s[i + 2] as int * 256 + s[i
        + 3] as int) as u32
}

pub proof fn lemma_be16_roundtrip(x: u16)
    ensures
        be16_at(be16_bytes(x), 0) == x,
        be16_bytes(x).len() == 2,
{
}

pub proof fn lemma_be32_roundtrip(x: u32)
    ensures
        be32_at(be32_bytes(x), 0) == x,
        be32_bytes(x).len() == 4,
{
}

/// Reads the big-endian 16-bit value at `data[at..at + 2]`.
pub fn read_be16(data: &[u8], at: usize) -> (r: u16)
    requires
        at + 2 <= data@.len(),
    ensures
        r == be16_at(data@, at as int),
{
    (data[at] as u16) * 256 + data[at + 1] as u16
}

/// Reads the big-endian 32-bit value at `data[at..at + 4]`.
pub fn read_be32(data: &[u8], at: usize) -> (r: u32)
    requires
        at + 4 <= data@.len(),
    ensures
        r == be32_at(data@, at as int),
{
    (data[at] as u32) * 0x100_0000 + (data[at + 1] as u32) * 0x1_0000 + (data[at + 2] as u32)
        * 256 + data[at + 3] as u32
}

/// Appends the big-endian bytes of `x`.
pub fn push_be16(buf: &mut Vec<u8>, x: u16)
    ensures
        final(buf)@ == old(buf)@ + be16_bytes(x),
{
    buf.push((x / 256) as u8);
    buf.push((x % 256) as u8);
}

/// Appends the big-endian bytes of `x`.
pub fn push_be32(buf: &mut Vec<u8>, x: u32)
    ensures
        final(buf)@ == old(buf)@ + be32_bytes(x),
{
    buf.push((x / 0x100_0000) as u8);
    buf.push(((x / 0x1_0000) % 256) as u8);
    buf.push(((x / 256) % 256) as u8);
    buf.push((x % 256) as u8);
}

/// Appends all of `bytes`.
pub fn push_bytes(buf: &mut Vec<u8>, bytes: &[u8])
    ensures
        final(buf)@ == old(buf)@ + bytes@,
{
    buf.extend_from_slice(bytes);
}

/// Copies `data[start..end]` into a new vector.
pub fn copy_range(data: &[u8], start: usize, end: usize) -> (r: Vec<u8>)
    requires
        start <= end <= data@.len(),
    ensures
        r@ == data@.subrange(start as int, end as int),
{
    let mut r: Vec<u8> = Vec::with_capacity(end - start);
    let mut i = start;
    while i < end
        invariant
            start <= i <= end <= data@.len(),
            r@ == data@.subrange(start as int, i as int),
        decreases end - i,
    {
        r.push(data[i]);
        i = i + 1;
    }
    r
}

/// The high byte of `x`.
pub open spec fn hi(x: u16) -> u8 {
    (x / 256) as u8
}

/// The low byte of `x`.
pub open spec fn lo(x: u16) -> u8 {
    (x % 256) as u8
}

/// The length of `s` as a `usize`.
pub open spec fn seq_len(s: Seq<u8>) -> usize {
    s.len() as usize
}

/// What follows the first `n` bytes of `s`.
pub open spec fn seq_from(s: Seq<u8>, n: usize) -> Seq<u8> {
    s.subrange(n as int, s.len() as int)
}

/// The high byte of `x`.
pub fn hi_byte(x: u16) -> (r: u8)
    ensures
        r == hi(x),
{
    (x / 256) as u8
}

/// The low byte of `x`.
pub fn lo_byte(x: u16) -> (r: u8)
    ensures
        r == lo(x),
{
    (x % 256) as u8
}

} // verus!
