//! The mathematical model: memory is a sequence of bytes, and a range is an
//! offset into it and a length.

use vstd::prelude::*;

verus! {

/// Whether the `n` bytes at address `addr` lie inside the region of `len`
/// bytes whose first byte has address `base`. An empty range lies inside
/// every region, whatever its address.
pub open spec fn in_region(base: usize, len: nat, addr: usize, n: usize) -> bool {
    n == 0 || (base <= addr && addr + n <= base + len)
}

/// Whether the `n` bytes at offset `d` and the `n` bytes at offset `s` share
/// no byte.
pub open spec fn disjoint(d: int, s: int, n: int) -> bool {
    d + n <= s || s + n <= d
}

/// Memory `m` after `count` single-byte transfers from offset `s` to offset
/// `d`, lowest address first. Each transfer reads what the earlier ones left.
pub open spec fn copied_up(m: Seq<u8>, d: int, s: int, count: nat) -> Seq<u8>
    decreases count,
{
    if count == 0 {
        m
    } else {
        let p = copied_up(m, d, s, (count - 1) as nat);
        p.update(d + count - 1, p[s + count - 1])
    }
}

/// Memory in which the `n` bytes at offset `d` hold what the `n` bytes at
/// offset `s` held in `m`, and every other byte is as in `m`.
pub open spec fn moved(m: Seq<u8>, d: int, s: int, n: int) -> Seq<u8> {
    Seq::new(
        m.len(),
        |j: int|
            if d <= j < d + n {
                m[s + (j - d)]
            } else {
                m[j]
            },
    )
}

/// Memory in which the `n` bytes at offset `d` all hold `byte`, and every
/// other byte is as in `m`.
pub open spec fn filled(m: Seq<u8>, d: int, byte: u8, n: int) -> Seq<u8> {
    Seq::new(
        m.len(),
        |j: int|
            if d <= j < d + n {
                byte
            } else {
                m[j]
            },
    )
}

/// Memory `m` with each byte of the `n` bytes at offset `d` that lies outside
/// the `n` bytes at offset `s` taken from `saved`, a snapshot of the `n` bytes
/// at offset `d`.
pub open spec fn restored(m: Seq<u8>, saved: Seq<u8>, d: int, s: int, n: int) -> Seq<u8> {
    Seq::new(
        m.len(),
        |j: int|
            if d <= j < d + n && !(s <= j < s + n) {
                saved[j - d]
            } else {
                m[j]
            },
    )
}

/// The low eight bits of `value`.
pub open spec fn low_byte(value: i32) -> u8 {
    (value & 0xff) as u8
}

/// The `n` bytes of `m` from offset `at` on.
pub open spec fn span(m: Seq<u8>, at: int, n: int) -> Seq<u8> {
    Seq::new(n as nat, |k: int| m[at + k])
}

/// The `n` bytes at address `addr` of the region `m` whose first byte has
/// address `base`.
pub open spec fn range_at(m: Seq<u8>, base: usize, addr: usize, n: usize) -> Seq<u8> {
    span(m, addr - base, n as int)
}

/// Whether `i` is the first index at which `x` and `y` differ.
pub open spec fn first_mismatch(x: Seq<u8>, y: Seq<u8>, i: int) -> bool {
    &&& 0 <= i < x.len()
    &&& i < y.len()
    &&& x[i] != y[i]
    &&& forall|j: int| 0 <= j < i ==> x[j] == y[j]
}

/// What comparing `x` with `y` gives: the difference of the two bytes at
/// their first mismatch, the byte of `x` less that of `y`, and zero where
/// they have none.
pub open spec fn compared(x: Seq<u8>, y: Seq<u8>) -> int {
    if exists|i: int| first_mismatch(x, y, i) {
        let i: int = choose|i: int| first_mismatch(x, y, i);
        x[i] - y[i]
    } else {
        0
    }
}

} // verus!
