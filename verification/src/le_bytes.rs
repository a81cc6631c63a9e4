//! Little-endian encoding of the integers that a WAV header holds.
use vstd::prelude::*;

verus! {

/// The two bytes of `x`, least significant first (what `u16::to_le_bytes` gives).
pub open spec fn le_u16(x: u16) -> Seq<u8> {
    seq![(x % 256) as u8, (x / 256) as u8]
}

/// The four bytes of `x`, least significant first (what `u32::to_le_bytes` gives).
pub open spec fn le_u32(x: u32) -> Seq<u8> {
    seq![
        (x % 256) as u8,
        ((x / 256) % 256) as u8,
        ((x / 65536) % 256) as u8,
        (x / 16777216) as u8,
    ]
}

/// The two's-complement bit pattern of `x` read as an unsigned 16-bit number.
pub open spec fn i16_bits(x: i16) -> u16 {
    if x < 0 {
        (x + 65536) as u16
    } else {
        x as u16
    }
}

/// The two bytes of `x`, least significant first (what `i16::to_le_bytes` gives).
pub open spec fn le_i16(x: i16) -> Seq<u8> {
    le_u16(i16_bits(x))
}

/// The unsigned number that two little-endian bytes stand for.
pub open spec fn u16_value(s: Seq<u8>) -> int
    recommends
        s.len() == 2,
{
    s[0] + 256 * s[1]
}

/// The unsigned number that four little-endian bytes stand for.
pub open spec fn u32_value(s: Seq<u8>) -> int
    recommends
        s.len() == 4,
{
    s[0] + 256 * s[1] + 65536 * s[2] + 16777216 * s[3]
}

/// The signed number that two little-endian bytes stand for (what `i16::from_le_bytes` gives).
pub open spec fn i16_value(s: Seq<u8>) -> int
    recommends
        s.len() == 2,
{
    if u16_value(s) >= 32768 {
        u16_value(s) - 65536
    } else {
        u16_value(s)
    }
}

/// Reading back the two bytes written for `x` gives `x`.
pub proof fn lemma_u16_roundtrip(x: u16)
    ensures
        le_u16(x).len() == 2,
        u16_value(le_u16(x)) == x,
{
}

/// Reading back the four bytes written for `x` gives `x`.
pub proof fn lemma_u32_roundtrip(x: u32)
    ensures
        le_u32(x).len() == 4,
        u32_value(le_u32(x)) == x,
{
}

/// Reading back the two bytes written for a signed `x` gives `x`.
pub proof fn lemma_i16_roundtrip(x: i16)
    ensures
        le_i16(x).len() == 2,
        i16_value(le_i16(x)) == x,
{
    lemma_u16_roundtrip(i16_bits(x));
}

/// The little-endian bytes of `x`.
pub fn u16_to_le_bytes(x: u16) -> (r: Vec<u8>)
    ensures
        r@ == le_u16(x),
{
    let mut r: Vec<u8> = Vec::new();
    r.push((x % 256) as u8);
    r.push((x / 256) as u8);
    r
}

/// The little-endian bytes of `x`.
pub fn u32_to_le_bytes(x: u32) -> (r: Vec<u8>)
    ensures
        r@ == le_u32(x),
{
    let mut r: Vec<u8> = Vec::new();
    r.push((x % 256) as u8);
    r.push(((x / 256) % 256) as u8);
    r.push(((x / 65536) % 256) as u8);
    r.push((x / 16777216) as u8);
    r
}

/// The two's-complement little-endian bytes of `x`.
pub fn i16_to_le_bytes(x: i16) -> (r: Vec<u8>)
    ensures
        r@ == le_i16(x),
{
    let bits: u16 = if x < 0 {
        (x as i32 + 65536) as u16
    } else {
        x as u16
    };
    u16_to_le_bytes(bits)
}

/// The signed number that the bytes `lo`, `hi` stand for, least significant first.
pub fn i16_from_le_bytes(lo: u8, hi: u8) -> (r: i16)
    ensures
        r == i16_value(seq![lo, hi]),
{
    let u: u32 = lo as u32 + 256 * hi as u32;
    if u >= 32768 {
        (u as i32 - 65536) as i16
    } else {
        u as i16
    }
}

} // verus!
