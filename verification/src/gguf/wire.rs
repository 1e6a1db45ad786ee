//! Little-endian fixed-width integers, as GGUF stores them.
use vstd::prelude::*;

verus! {

/// The two bytes of `x`, least significant first.
pub open spec fn le16(x: u16) -> Seq<u8> {
    seq![x as u8, (x >> 8u16) as u8]
}

/// The four bytes of `x`, least significant first.
pub open spec fn le32(x: u32) -> Seq<u8> {
    seq![x as u8, (x >> 8u32) as u8, (x >> 16u32) as u8, (x >> 24u32) as u8]
}

/// The eight bytes of `x`, least significant first.
pub open spec fn le64(x: u64) -> Seq<u8> {
    seq![
        x as u8,
        (x >> 8u64) as u8,
        (x >> 16u64) as u8,
        (x >> 24u64) as u8,
        (x >> 32u64) as u8,
        (x >> 40u64) as u8,
        (x >> 48u64) as u8,
        (x >> 56u64) as u8,
    ]
}

pub open spec fn from_le16(b0: u8, b1: u8) -> u16 {
    (b0 as u16) | ((b1 as u16) << 8u16)
}

pub open spec fn from_le32(b0: u8, b1: u8, b2: u8, b3: u8) -> u32 {
    (b0 as u32) | ((b1 as u32) << 8u32) | ((b2 as u32) << 16u32) | ((b3 as u32) << 24u32)
}

pub open spec fn from_le64(b0: u8, b1: u8, b2: u8, b3: u8, b4: u8, b5: u8, b6: u8, b7: u8) -> u64 {
    (b0 as u64) | ((b1 as u64) << 8u64) | ((b2 as u64) << 16u64) | ((b3 as u64) << 24u64)
        | ((b4 as u64) << 32u64) | ((b5 as u64) << 40u64) | ((b6 as u64) << 48u64) | ((b7
        as u64) << 56u64)
}

/// The 16-bit value stored at `pos` in `b`.
pub open spec fn get16(b: Seq<u8>, pos: int) -> u16 {
    from_le16(b[pos], b[pos + 1])
}

/// The 32-bit value stored at `pos` in `b`.
pub open spec fn get32(b: Seq<u8>, pos: int) -> u32 {
    from_le32(b[pos], b[pos + 1], b[pos + 2], b[pos + 3])
}

/// The 64-bit value stored at `pos` in `b`.
pub open spec fn get64(b: Seq<u8>, pos: int) -> u64 {
    from_le64(b[pos], b[pos + 1], b[pos + 2], b[pos + 3], b[pos + 4], b[pos + 5], b[pos + 6], b[pos + 7])
}

pub proof fn lemma_le16_round_trip(x: u16)
    ensures
        from_le16(x as u8, (x >> 8u16) as u8) == x,
{
    assert(((x as u8) as u16) | ((((x >> 8u16) as u8) as u16) << 8u16) == x) by (bit_vector);
}

pub proof fn lemma_le32_round_trip(x: u32)
    ensures
        from_le32(x as u8, (x >> 8u32) as u8, (x >> 16u32) as u8, (x >> 24u32) as u8) == x,
{
    assert(((x as u8) as u32) | ((((x >> 8u32) as u8) as u32) << 8u32) | ((((x >> 16u32) as u8) as u32) << 16u32)
        | ((((x >> 24u32) as u8) as u32) << 24u32) == x) by (bit_vector);
}

pub proof fn lemma_le64_round_trip(x: u64)
    ensures
        from_le64(
            x as u8,
            (x >> 8u64) as u8,
            (x >> 16u64) as u8,
            (x >> 24u64) as u8,
            (x >> 32u64) as u8,
            (x >> 40u64) as u8,
            (x >> 48u64) as u8,
            (x >> 56u64) as u8,
        ) == x,
{
    assert(((x as u8) as u64) | ((((x >> 8u64) as u8) as u64) << 8u64) | ((((x >> 16u64) as u8) as u64) << 16u64)
        | ((((x >> 24u64) as u8) as u64) << 24u64) | ((((x >> 32u64) as u8) as u64) << 32u64)
        | ((((x >> 40u64) as u8) as u64) << 40u64) | ((((x >> 48u64) as u8) as u64) << 48u64)
        | ((((x >> 56u64) as u8) as u64) << 56u64) == x) by (bit_vector);
}

/// Reading the bytes that `le16` wrote at `pos` gives back the value.
pub proof fn lemma_get16_le16(b: Seq<u8>, pos: int, x: u16)
    requires
        0 <= pos,
        pos + 2 <= b.len(),
        b.subrange(pos, pos + 2) == le16(x),
    ensures
        get16(b, pos) == x,
{
    assert(b[pos] == b.subrange(pos, pos + 2)[0]);
    assert(b[pos + 1] == b.subrange(pos, pos + 2)[1]);
    lemma_le16_round_trip(x);
}

/// Reading the bytes that `le32` wrote at `pos` gives back the value.
pub proof fn lemma_get32_le32(b: Seq<u8>, pos: int, x: u32)
    requires
        0 <= pos,
        pos + 4 <= b.len(),
        b.subrange(pos, pos + 4) == le32(x),
    ensures
        get32(b, pos) == x,
{
    let s = b.subrange(pos, pos + 4);
    assert(b[pos] == s[0] && b[pos + 1] == s[1] && b[pos + 2] == s[2] && b[pos + 3] == s[3]);
    lemma_le32_round_trip(x);
}

/// Reading the bytes that `le64` wrote at `pos` gives back the value.
pub proof fn lemma_get64_le64(b: Seq<u8>, pos: int, x: u64)
    requires
        0 <= pos,
        pos + 8 <= b.len(),
        b.subrange(pos, pos + 8) == le64(x),
    ensures
        get64(b, pos) == x,
{
    let s = b.subrange(pos, pos + 8);
    assert(b[pos] == s[0] && b[pos + 1] == s[1] && b[pos + 2] == s[2] && b[pos + 3] == s[3]);
    assert(b[pos + 4] == s[4] && b[pos + 5] == s[5] && b[pos + 6] == s[6] && b[pos + 7] == s[7]);
    lemma_le64_round_trip(x);
}

/// Appends the little-endian bytes of `x`.
pub fn put_u16(b: &mut Vec<u8>, x: u16)
    ensures
        final(b)@ == old(b)@ + le16(x),
{
    b.push(x as u8);
    b.push((x >> 8u16) as u8);
}

/// Appends the little-endian bytes of `x`.
pub fn put_u32(b: &mut Vec<u8>, x: u32)
    ensures
        final(b)@ == old(b)@ + le32(x),
{
    b.push(x as u8);
    b.push((x >> 8u32) as u8);
    b.push((x >> 16u32) as u8);
    b.push((x >> 24u32) as u8);
}

/// Appends the little-endian bytes of `x`.
pub fn put_u64(b: &mut Vec<u8>, x: u64)
    ensures
        final(b)@ == old(b)@ + le64(x),
{
    b.push(x as u8);
    b.push((x >> 8u64) as u8);
    b.push((x >> 16u64) as u8);
    b.push((x >> 24u64) as u8);
    b.push((x >> 32u64) as u8);
    b.push((x >> 40u64) as u8);
    b.push((x >> 48u64) as u8);
    b.push((x >> 56u64) as u8);
}

/// The 16-bit value at `pos`.
pub fn read_u16_at(b: &[u8], pos: usize) -> (r: u16)
    requires
        pos + 2 <= b@.len(),
    ensures
        r == get16(b@, pos as int),
{
    (b[pos] as u16) | ((b[pos + 1] as u16) << 8u16)
}

/// The 32-bit value at `pos`.
pub fn read_u32_at(b: &[u8], pos: usize) -> (r: u32)
    requires
        pos + 4 <= b@.len(),
    ensures
        r == get32(b@, pos as int),
{
    (b[pos] as u32) | ((b[pos + 1] as u32) << 8u32) | ((b[pos + 2] as u32) << 16u32) | ((b[pos
        + 3] as u32) << 24u32)
}

/// The 64-bit value at `pos`.
pub fn read_u64_at(b: &[u8], pos: usize) -> (r: u64)
    requires
        pos + 8 <= b@.len(),
    ensures
        r == get64(b@, pos as int),
{
    (b[pos] as u64) | ((b[pos + 1] as u64) << 8u64) | ((b[pos + 2] as u64) << 16u64) | ((b[pos
        + 3] as u64) << 24u64) | ((b[pos + 4] as u64) << 32u64) | ((b[pos + 5] as u64) << 40u64)
        | ((b[pos + 6] as u64) << 48u64) | ((b[pos + 7] as u64) << 56u64)
}

} // verus!
