//! The four primitives: copy, overlap-safe move, fill and compare.
//!
//! Each takes the region it works in as a slice of bytes with the address of
//! its first byte, and its ranges as addresses inside that region. Whether a
//! transfer goes by words is decided once, on the addresses and the length
//! as they were passed.

use crate::laws::{lemma_compared_of_equal, lemma_compared_of_ranges, lemma_copied_up_is_moved};
use crate::model::{compared, copied_up, filled, first_mismatch, in_region, low_byte, moved, range_at};
use crate::word::{aligned, lemma_lanes_of_word, load_word, splat, store_word, word_of};
use vstd::prelude::*;

verus! {

/// Copies `n` bytes from address `src` to address `dst`, lowest address
/// first, and returns `dst`. Ranges that overlap are copied as they stand:
/// bytes already written are read again.
pub fn memcpy(mem: &mut [u8], base: usize, dst: usize, src: usize, n: usize) -> (r: usize)
    requires
        in_region(base, old(mem)@.len(), dst, n),
        in_region(base, old(mem)@.len(), src, n),
    ensures
        r == dst,
        final(mem)@.len() == old(mem)@.len(),
        final(mem)@ == copied_up(old(mem)@, dst - base, src - base, n as nat),
        dst <= src || src + n <= dst ==> final(mem)@ == moved(
            old(mem)@,
            dst - base,
            src - base,
            n as int,
        ),
{
    let ghost m0 = mem@;
    assert(m0.len() == mem.len());
    let ghost d: int = dst - base;
    let ghost s: int = src - base;
    let mut i: usize = 0;
    if aligned(dst) && aligned(src) && aligned(n) {
        let newn: usize = n >> 2;
        assert(newn == n / 4) by (bit_vector)
            requires
                newn == n >> 2,
        ;
        while i < newn
            invariant
                i <= newn,
                n == 4 * newn,
                dst % 4 == 0,
                src % 4 == 0,
                d == dst - base,
                s == src - base,
                in_region(base, m0.len(), dst, n),
                in_region(base, m0.len(), src, n),
                mem@.len() == m0.len(),
                m0.len() <= usize::MAX,
                mem@ == copied_up(m0, d, s, (4 * i) as nat),
            decreases newn - i,
        {
            let ghost p0 = mem@;
            let w: u32 = load_word(mem, src - base + 4 * i);
            store_word(mem, dst - base + 4 * i, w);
            proof {
                let k: int = 4 * i;
                lemma_lanes_of_word(p0[s + k], p0[s + k + 1], p0[s + k + 2], p0[s + k + 3]);
                let p1 = copied_up(m0, d, s, (k + 1) as nat);
                let p2 = copied_up(m0, d, s, (k + 2) as nat);
                let p3 = copied_up(m0, d, s, (k + 3) as nat);
                let p4 = copied_up(m0, d, s, (k + 4) as nat);
                assert(p1 == p0.update(d + k, p0[s + k]));
                assert(p2 == p1.update(d + k + 1, p1[s + k + 1]));
                assert(p3 == p2.update(d + k + 2, p2[s + k + 2]));
                assert(p4 == p3.update(d + k + 3, p3[s + k + 3]));
                assert(mem@ =~= p4);
            }
            i += 1;
        }
        proof {
            if dst <= src || src + n <= dst {
                lemma_copied_up_is_moved(m0, d, s, n as int, n as nat);
            }
        }
        return dst;
    }
    while i < n
        invariant
            i <= n,
            d == dst - base,
            s == src - base,
            in_region(base, m0.len(), dst, n),
            in_region(base, m0.len(), src, n),
            mem@.len() == m0.len(),
            m0.len() <= usize::MAX,
            mem@ == copied_up(m0, d, s, i as nat),
        decreases n - i,
    {
        let b: u8 = mem[src - base + i];
        mem[dst - base + i] = b;
        i += 1;
    }
    proof {
        if dst <= src || src + n <= dst {
            lemma_copied_up_is_moved(m0, d, s, n as int, n as nat);
        }
    }
    dst
}

/// Copies `n` bytes from address `src` to address `dst` and returns `dst`.
/// The ranges may overlap: the destination ends up holding what the source
/// held before the call. Where the destination lies below the source the
/// transfer runs lowest address first, otherwise highest address first.
pub fn memmove(mem: &mut [u8], base: usize, dst: usize, src: usize, n: usize) -> (r: usize)
    requires
        in_region(base, old(mem)@.len(), dst, n),
        in_region(base, old(mem)@.len(), src, n),
    ensures
        r == dst,
        final(mem)@ == moved(old(mem)@, dst - base, src - base, n as int),
{
    if dst < src {
        return memcpy(mem, base, dst, src, n);
    }
    let ghost m0 = mem@;
    assert(m0.len() == mem.len());
    let ghost d: int = dst - base;
    let ghost s: int = src - base;
    if aligned(dst) && aligned(src) && aligned(n) {
        let newn: usize = n >> 2;
        assert(newn == n / 4) by (bit_vector)
            requires
                newn == n >> 2,
        ;
        let mut i: usize = newn;
        assert(mem@ =~= moved(m0, d + n, s + n, 0));
        while i > 0
            invariant
                i <= newn,
                n == 4 * newn,
                src <= dst,
                d == dst - base,
                s == src - base,
                in_region(base, m0.len(), dst, n),
                in_region(base, m0.len(), src, n),
                mem@.len() == m0.len(),
                m0.len() <= usize::MAX,
                mem@ == moved(m0, d + 4 * i, s + 4 * i, n - 4 * i),
            decreases i,
        {
            i -= 1;
            let ghost p0 = mem@;
            let w: u32 = load_word(mem, src - base + 4 * i);
            store_word(mem, dst - base + 4 * i, w);
            proof {
                let k: int = 4 * i;
                lemma_lanes_of_word(p0[s + k], p0[s + k + 1], p0[s + k + 2], p0[s + k + 3]);
                assert(mem@ =~= moved(m0, d + k, s + k, n - k));
            }
        }
        return dst;
    }
    let mut i: usize = n;
    assert(mem@ =~= moved(m0, d + n, s + n, 0));
    while i > 0
        invariant
            i <= n,
            src <= dst,
            d == dst - base,
            s == src - base,
            in_region(base, m0.len(), dst, n),
            in_region(base, m0.len(), src, n),
            mem@.len() == m0.len(),
            m0.len() <= usize::MAX,
            mem@ == moved(m0, d + i, s + i, n - i),
        decreases i,
    {
        i -= 1;
        let b: u8 = mem[src - base + i];
        mem[dst - base + i] = b;
        assert(mem@ =~= moved(m0, d + i, s + i, n - i));
    }
    dst
}

/// Writes the low eight bits of `val` into each of the `n` bytes at address
/// `dst` and returns `dst`.
pub fn memset(mem: &mut [u8], base: usize, dst: usize, val: i32, n: usize) -> (r: usize)
    requires
        in_region(base, old(mem)@.len(), dst, n),
    ensures
        r == dst,
        final(mem)@ == filled(old(mem)@, dst - base, low_byte(val), n as int),
{
    assert(0 <= (val & 0xff) < 256) by (bit_vector);
    let byte: u8 = (val & 0xff) as u8;
    let ghost m0 = mem@;
    assert(m0.len() == mem.len());
    let ghost d: int = dst - base;
    let mut i: usize = 0;
    assert(mem@ =~= filled(m0, d, byte, 0));
    if aligned(dst) && aligned(n) {
        let newval: u32 = splat(byte);
        let newn: usize = n >> 2;
        assert(newn == n / 4) by (bit_vector)
            requires
                newn == n >> 2,
        ;
        while i < newn
            invariant
                i <= newn,
                n == 4 * newn,
                d == dst - base,
                in_region(base, m0.len(), dst, n),
                newval == word_of(byte, byte, byte, byte),
                mem@.len() == m0.len(),
                m0.len() <= usize::MAX,
                mem@ == filled(m0, d, byte, 4 * i),
            decreases newn - i,
        {
            store_word(mem, dst - base + 4 * i, newval);
            proof {
                lemma_lanes_of_word(byte, byte, byte, byte);
                assert(mem@ =~= filled(m0, d, byte, 4 * i + 4));
            }
            i += 1;
        }
        return dst;
    }
    while i < n
        invariant
            i <= n,
            d == dst - base,
            in_region(base, m0.len(), dst, n),
            mem@.len() == m0.len(),
            m0.len() <= usize::MAX,
            mem@ == filled(m0, d, byte, i as int),
        decreases n - i,
    {
        mem[dst - base + i] = byte;
        assert(mem@ =~= filled(m0, d, byte, i + 1));
        i += 1;
    }
    dst
}

/// The difference of two bytes, the first less the second, as a signed
/// integer.
pub fn byte_difference(a: u8, b: u8) -> (r: i32)
    ensures
        r == a - b,
{
    a as i32 - b as i32
}

/// Compares the `n` bytes at address `m1` with the `n` bytes at address `m2`,
/// lowest address first. Returns 0 where they are equal, and otherwise the
/// difference of the two bytes at the first place where they differ, the
/// byte of the first range less that of the second.
pub fn memcmp(mem: &[u8], base: usize, m1: usize, m2: usize, n: usize) -> (r: i32)
    requires
        in_region(base, mem@.len(), m1, n),
        in_region(base, mem@.len(), m2, n),
    ensures
        r == compared(range_at(mem@, base, m1, n), range_at(mem@, base, m2, n)),
        r == 0 <==> range_at(mem@, base, m1, n) == range_at(mem@, base, m2, n),
        forall|i: int|
            first_mismatch(range_at(mem@, base, m1, n), range_at(mem@, base, m2, n), i) ==> r
                == range_at(mem@, base, m1, n)[i] - range_at(mem@, base, m2, n)[i],
{
    assert(mem@.len() == mem.len());
    let ghost x = range_at(mem@, base, m1, n);
    let ghost y = range_at(mem@, base, m2, n);
    let mut i: usize = 0;
    while i < n
        invariant
            i <= n,
            in_region(base, mem@.len(), m1, n),
            in_region(base, mem@.len(), m2, n),
            mem@.len() <= usize::MAX,
            x == range_at(mem@, base, m1, n),
            y == range_at(mem@, base, m2, n),
            forall|j: int| 0 <= j < i ==> x[j] == y[j],
        decreases n - i,
    {
        let a: u8 = mem[m1 - base + i];
        let b: u8 = mem[m2 - base + i];
        if a != b {
            proof {
                lemma_compared_of_ranges(mem@, base, m1, m2, n, i);
            }
            return byte_difference(a, b);
        }
        i += 1
    }
    proof {
        assert(x =~= y);
        lemma_compared_of_equal(x);
    }
    0
}

} // verus!
