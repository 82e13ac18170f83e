//! Four-byte transfers. A word is held least significant byte first, as the
//! x86 holds it, so that a word read from four bytes and written elsewhere
//! carries those four bytes over in their order.

use vstd::prelude::*;

verus! {

/// The word whose four bytes, from the lowest address up, are `b0` to `b3`.
pub open spec fn word_of(b0: u8, b1: u8, b2: u8, b3: u8) -> u32 {
    (b0 as u32) | ((b1 as u32) << 8) | ((b2 as u32) << 16) | ((b3 as u32) << 24)
}

/// Byte `k` of `w`, counted from the lowest address: `k` is 0, 1, 2 or 3.
pub open spec fn lane(w: u32, k: int) -> u8 {
    if k == 0 {
        (w & 0xff) as u8
    } else if k == 1 {
        ((w >> 8) & 0xff) as u8
    } else if k == 2 {
        ((w >> 16) & 0xff) as u8
    } else {
        ((w >> 24) & 0xff) as u8
    }
}

/// Taking a word apart gives back the bytes it was made of.
pub proof fn lemma_lanes_of_word(b0: u8, b1: u8, b2: u8, b3: u8)
    ensures
        lane(word_of(b0, b1, b2, b3), 0) == b0,
        lane(word_of(b0, b1, b2, b3), 1) == b1,
        lane(word_of(b0, b1, b2, b3), 2) == b2,
        lane(word_of(b0, b1, b2, b3), 3) == b3,
{
    let w = word_of(b0, b1, b2, b3);
    assert((w & 0xff) as u8 == b0 && ((w >> 8) & 0xff) as u8 == b1 && ((w >> 16) & 0xff) as u8
        == b2 && ((w >> 24) & 0xff) as u8 == b3) by (bit_vector)
        requires
            w == (b0 as u32) | ((b1 as u32) << 8) | ((b2 as u32) << 16) | ((b3 as u32) << 24),
    ;
}

/// Whether `x` is a multiple of four, as the mask test on its two low bits
/// decides it.
pub fn aligned(x: usize) -> (r: bool)
    ensures
        r == (x % 4 == 0),
{
    assert((x & 3) == 0 <==> x % 4 == 0) by (bit_vector);
    (x & 3) == 0
}

/// The word that holds `byte` in each of its four lanes.
pub fn splat(byte: u8) -> (w: u32)
    ensures
        w == word_of(byte, byte, byte, byte),
{
    let wide: u32 = byte as u32;
    let w: u32 = (wide << 24) | (wide << 16) | (wide << 8) | wide;
    assert(w == word_of(byte, byte, byte, byte)) by (bit_vector)
        requires
            wide == byte as u32,
            w == (wide << 24) | (wide << 16) | (wide << 8) | wide,
    ;
    w
}

/// Reads the four bytes at offset `at` as one word.
pub fn load_word(mem: &[u8], at: usize) -> (w: u32)
    requires
        at + 4 <= mem@.len(),
    ensures
        w == word_of(mem@[at as int], mem@[at + 1], mem@[at + 2], mem@[at + 3]),
{
    let b0: u32 = mem[at] as u32;
    let b1: u32 = mem[at + 1] as u32;
    let b2: u32 = mem[at + 2] as u32;
    let b3: u32 = mem[at + 3] as u32;
    b0 | (b1 << 8) | (b2 << 16) | (b3 << 24)
}

/// Writes `w` over the four bytes at offset `at`.
pub fn store_word(mem: &mut [u8], at: usize, w: u32)
    requires
        at + 4 <= old(mem)@.len(),
    ensures
        final(mem)@ == old(mem)@.update(at as int, lane(w, 0)).update(at + 1, lane(w, 1)).update(
            at + 2,
            lane(w, 2),
        ).update(at + 3, lane(w, 3)),
{
    assert((w & 0xff) < 256 && ((w >> 8) & 0xff) < 256 && ((w >> 16) & 0xff) < 256 && ((w >> 24)
        & 0xff) < 256) by (bit_vector);
    mem[at] = (w & 0xff) as u8;
    mem[at + 1] = ((w >> 8) & 0xff) as u8;
    mem[at + 2] = ((w >> 16) & 0xff) as u8;
    mem[at + 3] = ((w >> 24) & 0xff) as u8;
}

} // verus!
