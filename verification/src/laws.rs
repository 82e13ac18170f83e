//! What holds of the primitives together, stated over the model of memory.

use crate::model::{
    compared, copied_up, disjoint, filled, first_mismatch, moved, range_at, restored, span,
};
use vstd::prelude::*;

verus! {

/// A low-to-high copy of `count` bytes equals the move of those bytes
/// wherever no transfer reads a byte that an earlier one wrote: where the
/// destination does not lie above the source, or lies wholly above it.
pub proof fn lemma_copied_up_is_moved(m: Seq<u8>, d: int, s: int, n: int, count: nat)
    requires
        count <= n,
        n == 0 || (0 <= d && d + n <= m.len()),
        n == 0 || (0 <= s && s + n <= m.len()),
        d <= s || s + n <= d,
    ensures
        copied_up(m, d, s, count) == moved(m, d, s, count as int),
    decreases count,
{
    if count > 0 {
        lemma_copied_up_is_moved(m, d, s, n, (count - 1) as nat);
    }
    assert(copied_up(m, d, s, count) =~= moved(m, d, s, count as int));
}

/// After a move the destination holds what the source held before it, and
/// every byte outside the destination is as it was.
pub proof fn lemma_move_carries_source(m: Seq<u8>, d: int, s: int, n: int)
    requires
        0 <= n,
        0 <= d,
        d + n <= m.len(),
    ensures
        moved(m, d, s, n).len() == m.len(),
        span(moved(m, d, s, n), d, n) == span(m, s, n),
        forall|j: int| 0 <= j < m.len() && !(d <= j < d + n) ==> moved(m, d, s, n)[j] == m[j],
{
    assert(span(moved(m, d, s, n), d, n) =~= span(m, s, n));
}

/// A copy between two ranges that share no byte leaves the destination
/// equal to what the source held, and leaves the source, like every other
/// byte outside the destination, unchanged.
pub proof fn lemma_copy_of_disjoint_ranges(m: Seq<u8>, d: int, s: int, n: nat)
    requires
        0 <= d,
        0 <= s,
        d + n <= m.len(),
        s + n <= m.len(),
        disjoint(d, s, n as int),
    ensures
        copied_up(m, d, s, n).len() == m.len(),
        span(copied_up(m, d, s, n), d, n as int) == span(m, s, n as int),
        span(copied_up(m, d, s, n), s, n as int) == span(m, s, n as int),
        forall|j: int|
            0 <= j < m.len() && !(d <= j < d + n) ==> copied_up(m, d, s, n)[j] == m[j],
{
    lemma_copied_up_is_moved(m, d, s, n as int, n);
    lemma_move_carries_source(m, d, s, n as int);
    assert(span(moved(m, d, s, n as int), s, n as int) =~= span(m, s, n as int));
}

/// A fill leaves each byte of its range equal to the fill byte and every
/// other byte as it was.
pub proof fn lemma_fill_sets_every_byte(m: Seq<u8>, d: int, byte: u8, n: int)
    requires
        0 <= n,
        0 <= d,
        d + n <= m.len(),
    ensures
        filled(m, d, byte, n).len() == m.len(),
        forall|j: int| d <= j < d + n ==> filled(m, d, byte, n)[j] == byte,
        forall|j: int| 0 <= j < m.len() && !(d <= j < d + n) ==> filled(m, d, byte, n)[j] == m[j],
{
}

/// Filling a range twice with one byte gives what filling it once gives.
pub proof fn lemma_fill_twice_is_fill_once(m: Seq<u8>, d: int, byte: u8, n: int)
    ensures
        filled(filled(m, d, byte, n), d, byte, n) == filled(m, d, byte, n),
{
    assert(filled(filled(m, d, byte, n), d, byte, n) =~= filled(m, d, byte, n));
}

/// Moving a range and then moving it back restores the range it was taken
/// from, and every byte outside the two ranges is as it was. A byte of the
/// destination that lies outside the source keeps what the first move put
/// there.
pub proof fn lemma_move_there_and_back(m: Seq<u8>, d: int, s: int, n: int)
    requires
        0 <= n,
        0 <= d,
        0 <= s,
        d + n <= m.len(),
        s + n <= m.len(),
    ensures
        moved(moved(m, d, s, n), s, d, n).len() == m.len(),
        span(moved(moved(m, d, s, n), s, d, n), s, n) == span(m, s, n),
        forall|j: int|
            0 <= j < m.len() && !(d <= j < d + n && !(s <= j < s + n)) ==> moved(
                moved(m, d, s, n),
                s,
                d,
                n,
            )[j] == m[j],
        forall|j: int|
            d <= j < d + n && !(s <= j < s + n) ==> moved(moved(m, d, s, n), s, d, n)[j] == m[s
                + (j - d)],
{
    assert(span(moved(moved(m, d, s, n), s, d, n), s, n) =~= span(m, s, n));
}

/// After a move there and back the whole of memory is as it was, once the
/// bytes of the destination that lie outside the source are put back from a
/// snapshot `saved` taken before the first move.
pub proof fn lemma_move_round_trip(m: Seq<u8>, saved: Seq<u8>, d: int, s: int, n: int)
    requires
        0 <= n,
        0 <= d,
        0 <= s,
        d + n <= m.len(),
        s + n <= m.len(),
        saved == span(m, d, n),
    ensures
        restored(moved(moved(m, d, s, n), s, d, n), saved, d, s, n) == m,
{
    assert(restored(moved(moved(m, d, s, n), s, d, n), saved, d, s, n) =~= m);
}

/// Two sequences have at most one first mismatch.
pub proof fn lemma_first_mismatch_is_unique(x: Seq<u8>, y: Seq<u8>, i: int, k: int)
    requires
        first_mismatch(x, y, i),
        first_mismatch(x, y, k),
    ensures
        i == k,
{
    if i < k {
        assert(x[i] == y[i]);
    } else if k < i {
        assert(x[k] == y[k]);
    }
}

/// Where two sequences first differ at index `i`, they compare as the
/// difference of their bytes at `i`, which is not zero and has the sign of
/// that difference.
pub proof fn lemma_compared_at_first_mismatch(x: Seq<u8>, y: Seq<u8>, i: int)
    requires
        first_mismatch(x, y, i),
    ensures
        compared(x, y) == x[i] - y[i],
        compared(x, y) != 0,
        -255 <= compared(x, y) <= 255,
{
    let k: int = choose|k: int| first_mismatch(x, y, k);
    lemma_first_mismatch_is_unique(x, y, i, k);
}

/// Two ranges of a region that agree on their first `k` bytes and differ at
/// byte `k` compare as the difference of the two bytes there.
pub proof fn lemma_compared_of_ranges(
    m: Seq<u8>,
    base: usize,
    a: usize,
    b: usize,
    n: usize,
    k: usize,
)
    requires
        k < n,
        forall|j: int| 0 <= j < k ==> range_at(m, base, a, n)[j] == range_at(m, base, b, n)[j],
        m[a - base + k] != m[b - base + k],
    ensures
        first_mismatch(range_at(m, base, a, n), range_at(m, base, b, n), k as int),
        compared(range_at(m, base, a, n), range_at(m, base, b, n)) == m[a - base + k] - m[b - base
            + k],
{
    let x = range_at(m, base, a, n);
    let y = range_at(m, base, b, n);
    assert(x[k as int] == m[a - base + k]);
    assert(y[k as int] == m[b - base + k]);
    lemma_compared_at_first_mismatch(x, y, k as int);
}

/// A sequence compares as zero with itself, the empty one too.
pub proof fn lemma_compared_of_equal(x: Seq<u8>)
    ensures
        compared(x, x) == 0,
{
}

/// Two sequences of one length compare as zero exactly where they are equal.
pub proof fn lemma_compared_zero_iff_equal(x: Seq<u8>, y: Seq<u8>)
    requires
        x.len() == y.len(),
    ensures
        compared(x, y) == 0 <==> x == y,
{
    if x == y {
        lemma_compared_of_equal(x);
    } else {
        lemma_unequal_have_first_mismatch(x, y, x.len() as int);
        let i: int = choose|i: int| first_mismatch(x, y, i);
        lemma_compared_at_first_mismatch(x, y, i);
    }
}

/// Two sequences of one length that agree on their first `upto` bytes are
/// equal or have a first mismatch.
pub proof fn lemma_unequal_have_first_mismatch(x: Seq<u8>, y: Seq<u8>, upto: int)
    requires
        x.len() == y.len(),
        0 <= upto <= x.len(),
        forall|j: int| 0 <= j < x.len() - upto ==> x[j] == y[j],
    ensures
        x == y || exists|i: int| first_mismatch(x, y, i),
    decreases upto,
{
    let at: int = x.len() - upto;
    if upto == 0 {
        assert(x =~= y);
    } else if x[at] != y[at] {
        assert(first_mismatch(x, y, at));
    } else {
        lemma_unequal_have_first_mismatch(x, y, upto - 1);
    }
}

} // verus!
