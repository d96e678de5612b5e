//! Big-endian byte order for the fixed-width integers of the wire format.
//!
//! Every multi-byte integer of the protocol (header fields, length prefixes,
//! 32-bit value payloads) is written most significant byte first.

use vstd::prelude::*;

verus! {

/// The two big-endian bytes of a 16-bit integer.
pub open spec fn be16(x: u16) -> Seq<u8> {
    seq![(x / 0x100) as u8, (x % 0x100) as u8]
}

/// The 16-bit integer whose big-endian bytes are `b0 b1`.
pub open spec fn be16_val(b0: u8, b1: u8) -> u16 {
    ((b0 as int) * 0x100 + (b1 as int)) as u16
}

/// The four big-endian bytes of a 32-bit integer.
pub open spec fn be32(x: u32) -> Seq<u8> {
    be16((x / 0x10000) as u16) + be16((x % 0x10000) as u16)
}

/// The 32-bit integer whose big-endian bytes are `b0 b1 b2 b3`.
pub open spec fn be32_val(b0: u8, b1: u8, b2: u8, b3: u8) -> u32 {
    ((be16_val(b0, b1) as int) * 0x10000 + (be16_val(b2, b3) as int)) as u32
}

/// The four big-endian bytes of a signed 32-bit integer (two's complement).
pub open spec fn be_i32(v: i32) -> Seq<u8> {
    be32(v as u32)
}

/// The signed 32-bit integer whose big-endian bytes are `b0 b1 b2 b3`.
pub open spec fn be_i32_val(b0: u8, b1: u8, b2: u8, b3: u8) -> i32 {
    be32_val(b0, b1, b2, b3) as i32
}

pub proof fn lemma_be16_roundtrip(x: u16)
    ensures
        be16(x).len() == 2,
        be16_val(be16(x)[0], be16(x)[1]) == x,
{
    vstd::arithmetic::div_mod::lemma_fundamental_div_mod(x as int, 0x100);
}

pub proof fn lemma_be32_roundtrip(x: u32)
    ensures
        be32(x).len() == 4,
        be32_val(be32(x)[0], be32(x)[1], be32(x)[2], be32(x)[3]) == x,
{
    lemma_be16_roundtrip((x / 0x10000) as u16);
    lemma_be16_roundtrip((x % 0x10000) as u16);
    vstd::arithmetic::div_mod::lemma_fundamental_div_mod(x as int, 0x10000);
}

pub proof fn lemma_be_i32_roundtrip(v: i32)
    ensures
        be_i32(v).len() == 4,
        be_i32_val(be_i32(v)[0], be_i32(v)[1], be_i32(v)[2], be_i32(v)[3]) == v,
{
    lemma_be32_roundtrip(v as u32);
    assert(((v as u32) as i32) == v) by (bit_vector);
}

/// Append the two big-endian bytes of `x` to `out`.
pub fn push_be16(out: &mut Vec<u8>, x: u16)
    ensures
        final(out)@ == old(out)@ + be16(x),
{
    out.push((x / 0x100) as u8);
    out.push((x % 0x100) as u8);
    assert(out@ =~= old(out)@ + be16(x));
}

/// Append the four big-endian bytes of `x` to `out`.
pub fn push_be32(out: &mut Vec<u8>, x: u32)
    ensures
        final(out)@ == old(out)@ + be32(x),
{
    push_be16(out, (x / 0x10000) as u16);
    push_be16(out, (x % 0x10000) as u16);
    assert(out@ =~= old(out)@ + be32(x));
}

/// Append the four big-endian bytes of the signed integer `v` to `out`.
pub fn push_be_i32(out: &mut Vec<u8>, v: i32)
    ensures
        final(out)@ == old(out)@ + be_i32(v),
{
    push_be32(out, #[verifier::truncate] (v as u32));
}

/// The 16-bit integer read from two big-endian bytes.
pub fn be16_of(b0: u8, b1: u8) -> (x: u16)
    ensures
        x == be16_val(b0, b1),
{
    (b0 as u16) * 0x100 + (b1 as u16)
}

/// The 32-bit integer read from four big-endian bytes.
pub fn be32_of(b0: u8, b1: u8, b2: u8, b3: u8) -> (x: u32)
    ensures
        x == be32_val(b0, b1, b2, b3),
{
    (be16_of(b0, b1) as u32) * 0x10000 + (be16_of(b2, b3) as u32)
}

/// The signed 32-bit integer read from four big-endian bytes.
pub fn be_i32_of(b0: u8, b1: u8, b2: u8, b3: u8) -> (x: i32)
    ensures
        x == be_i32_val(b0, b1, b2, b3),
{
    #[verifier::truncate] (be32_of(b0, b1, b2, b3) as i32)
}

} // verus!
