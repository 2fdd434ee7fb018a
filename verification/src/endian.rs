//! Big-endian layouts of the fixed-width integers that travel on the wire.
//!
//! Every multi-byte integer of the protocol is written most significant byte
//! first. The layouts are given as arithmetic on the value, and the lemmas
//! show that reading a layout back yields the value it was made from.

use vstd::prelude::*;

verus! {

/// The two bytes of `v`, most significant first.
pub open spec fn u16_be(v: u16) -> Seq<u8> {
    seq![(v / 0x100) as u8, (v % 0x100) as u8]
}

/// The value that two bytes stand for, most significant first.
pub open spec fn u16_from_be(b: Seq<u8>) -> u16
    recommends
        b.len() == 2,
{
    (b[0] * 0x100 + b[1]) as u16
}

/// The four bytes of `v`, most significant first.
pub open spec fn u32_be(v: u32) -> Seq<u8> {
    seq![
        (v / 0x100_0000) as u8,
        (v / 0x1_0000 % 0x100) as u8,
        (v / 0x100 % 0x100) as u8,
        (v % 0x100) as u8,
    ]
}

/// The value that four bytes stand for, most significant first.
pub open spec fn u32_from_be(b: Seq<u8>) -> u32
    recommends
        b.len() == 4,
{
    (b[0] * 0x100_0000 + b[1] * 0x1_0000 + b[2] * 0x100 + b[3]) as u32
}

/// The eight bytes of `v`, most significant first: the high word, then the low word.
pub open spec fn u64_be(v: u64) -> Seq<u8> {
    u32_be((v / 0x1_0000_0000) as u32) + u32_be((v % 0x1_0000_0000) as u32)
}

/// The value that eight bytes stand for, most significant first.
pub open spec fn u64_from_be(b: Seq<u8>) -> u64
    recommends
        b.len() == 8,
{
    (u32_from_be(b.subrange(0, 4)) * 0x1_0000_0000 + u32_from_be(b.subrange(4, 8))) as u64
}

/// The two's complement bit pattern of a signed 32-bit integer.
pub open spec fn i32_bits(v: i32) -> u32 {
    if v >= 0 {
        v as u32
    } else {
        (v + 0x1_0000_0000) as u32
    }
}

/// The signed integer that a 32-bit two's complement pattern stands for.
pub open spec fn i32_from_bits(u: u32) -> i32 {
    if u < 0x8000_0000 {
        u as i32
    } else {
        (u - 0x1_0000_0000) as i32
    }
}

/// The four bytes of a signed integer, two's complement, most significant first.
pub open spec fn i32_be(v: i32) -> Seq<u8> {
    u32_be(i32_bits(v))
}

/// The signed integer that four bytes stand for.
pub open spec fn i32_from_be(b: Seq<u8>) -> i32
    recommends
        b.len() == 4,
{
    i32_from_bits(u32_from_be(b))
}

/// A 16-bit value survives being laid out and read back.
pub proof fn lemma_u16_round_trip(v: u16)
    ensures
        u16_be(v).len() == 2,
        u16_from_be(u16_be(v)) == v,
{
}

/// A 32-bit value survives being laid out and read back.
pub proof fn lemma_u32_round_trip(v: u32)
    ensures
        u32_be(v).len() == 4,
        u32_from_be(u32_be(v)) == v,
{
}

/// A 64-bit value survives being laid out and read back.
pub proof fn lemma_u64_round_trip(v: u64)
    ensures
        u64_be(v).len() == 8,
        u64_from_be(u64_be(v)) == v,
{
    let hi = (v / 0x1_0000_0000) as u32;
    let lo = (v % 0x1_0000_0000) as u32;
    lemma_u32_round_trip(hi);
    lemma_u32_round_trip(lo);
    assert(u64_be(v).subrange(0, 4) =~= u32_be(hi));
    assert(u64_be(v).subrange(4, 8) =~= u32_be(lo));
}

/// A signed 32-bit value survives being laid out and read back.
pub proof fn lemma_i32_round_trip(v: i32)
    ensures
        i32_be(v).len() == 4,
        i32_from_be(i32_be(v)) == v,
{
    lemma_u32_round_trip(i32_bits(v));
}

} // verus!
