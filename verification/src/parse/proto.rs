use vstd::prelude::*;

pub mod fixed;
pub mod variable;

verus! {

/// The first byte of every frame on the wire, in both formats.
pub const START: u8 = 0xAA;

/// The two bytes of a 16-bit number, least significant first.
pub open spec fn le_u16(x: u16) -> Seq<u8> {
    seq![x as u8, (x >> 8u16) as u8]
}

/// The four bytes of a 32-bit number, least significant first.
pub open spec fn le_u32(x: u32) -> Seq<u8> {
    seq![x as u8, (x >> 8u32) as u8, (x >> 16u32) as u8, (x >> 24u32) as u8]
}

/// The 16-bit number whose bytes, least significant first, are `b0, b1`.
pub open spec fn u16_of_le(b0: u8, b1: u8) -> u16 {
    (b0 as u16) | ((b1 as u16) << 8u16)
}

/// The 32-bit number whose bytes, least significant first, are `b0 .. b3`.
pub open spec fn u32_of_le(b0: u8, b1: u8, b2: u8, b3: u8) -> u32 {
    (b0 as u32) | ((b1 as u32) << 8u32) | ((b2 as u32) << 16u32) | ((b3 as u32) << 24u32)
}

pub(crate) fn u16_to_le(x: u16) -> (r: [u8; 2])
    ensures
        r@ == le_u16(x),
{
    let r = [x as u8, (x >> 8u16) as u8];
    assert(r@ =~= le_u16(x));
    r
}

pub(crate) fn u32_to_le(x: u32) -> (r: [u8; 4])
    ensures
        r@ == le_u32(x),
{
    let r = [x as u8, (x >> 8u32) as u8, (x >> 16u32) as u8, (x >> 24u32) as u8];
    assert(r@ =~= le_u32(x));
    r
}

pub(crate) fn u16_from_le(b0: u8, b1: u8) -> (r: u16)
    ensures
        r == u16_of_le(b0, b1),
{
    (b0 as u16) | ((b1 as u16) << 8u16)
}

pub(crate) fn u32_from_le(b0: u8, b1: u8, b2: u8, b3: u8) -> (r: u32)
    ensures
        r == u32_of_le(b0, b1, b2, b3),
{
    (b0 as u32) | ((b1 as u32) << 8u32) | ((b2 as u32) << 16u32) | ((b3 as u32) << 24u32)
}

/// Reading back the bytes of a 16-bit number gives the number.
pub proof fn lemma_le_u16_roundtrip(x: u16)
    ensures
        u16_of_le(le_u16(x)[0], le_u16(x)[1]) == x,
{
    assert(((x as u8) as u16) | ((((x >> 8u16) as u8) as u16) << 8u16) == x) by (bit_vector);
}

/// Reading back the bytes of a 32-bit number gives the number.
pub proof fn lemma_le_u32_roundtrip(x: u32)
    ensures
        u32_of_le(le_u32(x)[0], le_u32(x)[1], le_u32(x)[2], le_u32(x)[3]) == x,
{
    assert(((x as u8) as u32) | ((((x >> 8u32) as u8) as u32) << 8u32) | ((((x >> 16u32) as u8)
        as u32) << 16u32) | ((((x >> 24u32) as u8) as u32) << 24u32) == x) by (bit_vector);
}

} // verus!
