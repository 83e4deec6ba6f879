//! Little-endian byte helpers shared by every wire format.

use vstd::prelude::*;

verus! {

/// The unsigned 16-bit value stored little-endian in `b0`, `b1`.
pub open spec fn u16_le(b0: u8, b1: u8) -> u16 {
    (b0 as int + 256 * (b1 as int)) as u16
}

/// The signed 16-bit value stored little-endian (two's complement) in `b0`, `b1`.
pub open spec fn i16_le(b0: u8, b1: u8) -> i16 {
    let u = b0 as int + 256 * (b1 as int);
    (if u >= 0x8000 { u - 0x10000 } else { u }) as i16
}

/// The unsigned 32-bit value stored little-endian in four bytes.
pub open spec fn u32_le(b0: u8, b1: u8, b2: u8, b3: u8) -> u32 {
    (b0 as int + 256 * (b1 as int) + 65536 * (b2 as int) + 16777216 * (b3 as int)) as u32
}

/// The little-endian bytes of a 16-bit value.
pub open spec fn le16(x: u16) -> Seq<u8> {
    seq![(x % 256) as u8, (x / 256) as u8]
}

/// The two's-complement little-endian bytes of a signed 16-bit value.
pub open spec fn le16_signed(x: i16) -> Seq<u8> {
    le16((if x < 0 { x + 0x10000 } else { x as int }) as u16)
}

/// The little-endian bytes of a 32-bit value.
pub open spec fn le32(x: u32) -> Seq<u8> {
    seq![(x % 256) as u8, (x / 256 % 256) as u8, (x / 65536 % 256) as u8, (x / 16777216) as u8]
}

/// The byte a signed 8-bit value is stored as (two's complement).
pub open spec fn i8_byte(x: i8) -> u8 {
    (if x < 0 { x + 256 } else { x as int }) as u8
}

/// The two's-complement byte `b` read as a signed 8-bit value.
pub open spec fn byte_i8(b: u8) -> i8 {
    (if b >= 128 { b - 256 } else { b as int }) as i8
}

/// Decodes an unsigned 16-bit little-endian value.
pub fn read_u16(b0: u8, b1: u8) -> (r: u16)
    ensures
        r == u16_le(b0, b1),
{
    b0 as u16 + (b1 as u16) * 256
}

/// Decodes a signed 16-bit little-endian value.
pub fn read_i16(b0: u8, b1: u8) -> (r: i16)
    ensures
        r == i16_le(b0, b1),
{
    let u: i32 = b0 as i32 + (b1 as i32) * 256;
    if u >= 0x8000 {
        (u - 0x10000) as i16
    } else {
        u as i16
    }
}

/// Decodes an unsigned 32-bit little-endian value.
pub fn read_u32(b0: u8, b1: u8, b2: u8, b3: u8) -> (r: u32)
    ensures
        r == u32_le(b0, b1, b2, b3),
{
    b0 as u32 + (b1 as u32) * 256 + (b2 as u32) * 65536 + (b3 as u32) * 16777216
}

/// The byte a signed 8-bit value is stored as.
pub fn write_i8(x: i8) -> (r: u8)
    ensures
        r == i8_byte(x),
{
    if x < 0 {
        (x as i16 + 256) as u8
    } else {
        x as u8
    }
}

/// Reads a stored byte as a signed 8-bit value.
pub fn read_i8(b: u8) -> (r: i8)
    ensures
        r == byte_i8(b),
{
    if b >= 128 {
        (b as i16 - 256) as i8
    } else {
        b as i8
    }
}

/// Appends the little-endian bytes of `x`.
pub fn push_u16(out: &mut Vec<u8>, x: u16)
    ensures
        final(out)@ == old(out)@ + le16(x),
{
    out.push((x % 256) as u8);
    out.push((x / 256) as u8);
}

/// Appends the two's-complement little-endian bytes of `x`.
pub fn push_i16(out: &mut Vec<u8>, x: i16)
    ensures
        final(out)@ == old(out)@ + le16_signed(x),
{
    let u: u16 = if x < 0 {
        (x as i32 + 0x10000) as u16
    } else {
        x as u16
    };
    push_u16(out, u);
}

/// Appends the little-endian bytes of `x`.
pub fn push_u32(out: &mut Vec<u8>, x: u32)
    ensures
        final(out)@ == old(out)@ + le32(x),
{
    out.push((x % 256) as u8);
    out.push((x / 256 % 256) as u8);
    out.push((x / 65536 % 256) as u8);
    out.push((x / 16777216) as u8);
}

/// Appends every byte of `src`.
pub fn push_all(out: &mut Vec<u8>, src: &[u8])
    ensures
        final(out)@ == old(out)@ + src@,
{
    let ghost start = out@;
    let mut i: usize = 0;
    while i < src.len()
        invariant
            i <= src@.len(),
            out@ == start + src@.subrange(0, i as int),
        decreases src@.len() - i,
    {
        out.push(src[i]);
        i = i + 1;
        assert(src@.subrange(0, i as int) == src@.subrange(0, i - 1 as int).push(src@[i - 1]));
    }
    assert(src@.subrange(0, src@.len() as int) == src@);
}

/// The signed round trip: writing a 16-bit value and reading it back.
pub proof fn lemma_i16_roundtrip(x: i16)
    ensures
        i16_le(le16_signed(x)[0], le16_signed(x)[1]) == x,
{
}

/// The little-endian round trip: writing a 16-bit value and reading it back.
pub proof fn lemma_u16_roundtrip(x: u16)
    ensures
        u16_le(le16(x)[0], le16(x)[1]) == x,
{
}

/// The little-endian round trip: writing a 32-bit value and reading it back.
pub proof fn lemma_u32_roundtrip(x: u32)
    ensures
        u32_le(le32(x)[0], le32(x)[1], le32(x)[2], le32(x)[3]) == x,
{
}

} // verus!
