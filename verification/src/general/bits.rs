//! Bit-level utilities on 64-bit square sets.
//!
//! A `u64` is read as the set of the squares whose bit is set. The lemmas of
//! this module let the rest of the crate reason about such sets through
//! [`member`] alone.

use vstd::prelude::*;
use vstd::std_specs::bits::u64_trailing_zeros;
use vstd::std_specs::bits::axiom_u64_trailing_zeros;
use crate::chess::types::square::Square;

verus! {

/// Whether bit `i` of `x` is set.
pub open spec fn member(x: u64, i: int) -> bool {
    0 <= i < 64 && (x >> (i as u64)) & 1 == 1
}

/// The set that holds square `i` alone.
pub open spec fn bit(i: int) -> u64 {
    1u64 << (i as u64)
}

pub broadcast proof fn lemma_member_or(a: u64, b: u64, i: int)
    ensures
        #[trigger] member(a | b, i) == (member(a, i) || member(b, i)),
{
    if 0 <= i < 64 {
        let s = i as u64;
        assert(((a | b) >> s) & 1 == 1 <==> ((a >> s) & 1 == 1 || (b >> s) & 1 == 1))
            by (bit_vector);
    }
}

pub broadcast proof fn lemma_member_and(a: u64, b: u64, i: int)
    ensures
        #[trigger] member(a & b, i) == (member(a, i) && member(b, i)),
{
    if 0 <= i < 64 {
        let s = i as u64;
        assert(((a & b) >> s) & 1 == 1 <==> ((a >> s) & 1 == 1 && (b >> s) & 1 == 1))
            by (bit_vector);
    }
}

pub broadcast proof fn lemma_member_xor(a: u64, b: u64, i: int)
    ensures
        #[trigger] member(a ^ b, i) == (0 <= i < 64 && (member(a, i) != member(b, i))),
{
    if 0 <= i < 64 {
        let s = i as u64;
        assert(((a ^ b) >> s) & 1 == 1 <==> (((a >> s) & 1 == 1) != ((b >> s) & 1 == 1)))
            by (bit_vector);
    }
}

pub broadcast proof fn lemma_member_not(a: u64, i: int)
    ensures
        #[trigger] member(!a, i) == (0 <= i < 64 && !member(a, i)),
{
    if 0 <= i < 64 {
        let s = i as u64;
        assert(((!a) >> s) & 1 == 1 <==> !((a >> s) & 1 == 1)) by (bit_vector)
            requires
                s < 64,
        ;
    }
}

pub broadcast proof fn lemma_member_bit(j: int, i: int)
    requires
        0 <= j < 64,
    ensures
        #[trigger] member(bit(j), i) == (i == j),
{
    if 0 <= i < 64 {
        let s = i as u64;
        let t = j as u64;
        assert(((1u64 << t) >> s) & 1 == 1 <==> s == t) by (bit_vector)
            requires
                s < 64,
                t < 64,
        ;
    }
}

pub broadcast proof fn lemma_member_zero(i: int)
    ensures
        !#[trigger] member(0u64, i),
{
    if 0 <= i < 64 {
        let s = i as u64;
        assert((0u64 >> s) & 1 == 0) by (bit_vector);
    }
}

pub broadcast proof fn lemma_member_full(i: int)
    ensures
        #[trigger] member(u64::MAX, i) == (0 <= i < 64),
{
    if 0 <= i < 64 {
        let s = i as u64;
        assert((0xffff_ffff_ffff_ffffu64 >> s) & 1 == 1) by (bit_vector)
            requires
                s < 64,
        ;
    }
}

pub broadcast group group_bits {
    lemma_member_or,
    lemma_member_and,
    lemma_member_xor,
    lemma_member_not,
    lemma_member_bit,
    lemma_member_zero,
    lemma_member_full,
}

/// Two sets with the same squares are the same word.
pub proof fn lemma_ext(a: u64, b: u64)
    requires
        forall|i: int| 0 <= i < 64 ==> member(a, i) == member(b, i),
    ensures
        a == b,
{
    let x = a ^ b;
    if x != 0 {
        axiom_u64_trailing_zeros(x);
        let t = u64_trailing_zeros(x) as u64;
        assert(member(a, t as int) == member(b, t as int));
        assert((x >> t) & 1 == 1 ==> ((a >> t) & 1 == 1) != ((b >> t) & 1 == 1)) by (bit_vector)
            requires
                x == a ^ b,
        ;
    } else {
        assert(a ^ b == 0 ==> a == b) by (bit_vector);
    }
}

/// A set without squares is the word zero.
pub proof fn lemma_empty(a: u64)
    requires
        forall|i: int| 0 <= i < 64 ==> !member(a, i),
    ensures
        a == 0,
{
    broadcast use group_bits;
    lemma_ext(a, 0);
}

/// A set shares a square with the set of `k` alone exactly if it holds `k`.
pub proof fn lemma_test_bit(x: u64, k: int)
    requires
        0 <= k < 64,
    ensures
        (x & bit(k) != 0) == member(x, k),
{
    broadcast use group_bits;
    if !member(x, k) {
        lemma_empty(x & bit(k));
    } else {
        assert(member(x & bit(k), k));
    }
}

/// A set of squares below `k` alone is a number below two to the `k`.
pub proof fn lemma_small(v: u64, k: int)
    requires
        0 <= k < 64,
        forall|i: int| k <= i < 64 ==> !member(v, i),
    ensures
        v < (1u64 << (k as u64)),
{
    let s = k as u64;
    let w = v >> s;
    assert forall|i: int| 0 <= i < 64 implies !member(w, i) by {
        let j = i as u64;
        assert(((v >> s) >> j) & 1 == 1 ==> (j + s < 64 && (v >> ((j + s) as u64)) & 1 == 1)) by (bit_vector)
            requires
                s < 64,
                j < 64,
        ;
        if member(w, i) {
            assert(member(v, i + k));
        }
    }
    lemma_empty(w);
    assert(v >> s == 0 ==> v < (1u64 << s)) by (bit_vector)
        requires
            s < 64,
    ;
}

/// The lowest square of a set; 64 for the empty set.
pub open spec fn lowest(x: u64) -> int {
    u64_trailing_zeros(x) as int
}

/// `lowest` names a square of a non-empty set, and none of the set lies below it.
pub proof fn lemma_lowest(x: u64)
    ensures
        x == 0 <==> lowest(x) == 64,
        0 <= lowest(x) <= 64,
        x != 0 ==> member(x, lowest(x)),
        forall|j: int| 0 <= j < lowest(x) ==> !member(x, j),
{
    axiom_u64_trailing_zeros(x);
    assert forall|j: int| 0 <= j < lowest(x) implies !member(x, j) by {
        let s = j as u64;
        assert((x >> s) & 1 == 0);
    }
}

/// The number of squares of `x` below `n`.
pub open spec fn count_below(x: u64, n: int) -> nat
    decreases n,
{
    if n <= 0 {
        0
    } else {
        count_below(x, n - 1) + if member(x, n - 1) { 1nat } else { 0nat }
    }
}

/// The number of squares in a set.
pub open spec fn popcount(x: u64) -> nat {
    count_below(x, 64)
}

pub proof fn lemma_count_bound(x: u64, n: int)
    requires
        0 <= n,
    ensures
        count_below(x, n) <= n,
    decreases n,
{
    if n > 0 {
        lemma_count_bound(x, n - 1);
    }
}

/// Squares that are not in the set do not count.
pub proof fn lemma_count_skip(x: u64, lo: int, hi: int)
    requires
        0 <= lo <= hi,
        forall|i: int| lo <= i < hi ==> !member(x, i),
    ensures
        count_below(x, hi) == count_below(x, lo),
    decreases hi - lo,
{
    if lo < hi {
        lemma_count_skip(x, lo, hi - 1);
    }
}

/// Sets that agree below `n` have the same count below `n`.
pub proof fn lemma_count_same(x: u64, y: u64, n: int)
    requires
        forall|i: int| 0 <= i < n ==> member(x, i) == member(y, i),
    ensures
        count_below(x, n) == count_below(y, n),
    decreases n,
{
    if n > 0 {
        lemma_count_same(x, y, n - 1);
    }
}

/// A set that gains exactly the square `k` gains one in count.
pub proof fn lemma_count_gain(x: u64, y: u64, k: int, n: int)
    requires
        0 <= k < 64,
        !member(x, k),
        member(y, k),
        forall|i: int| 0 <= i < 64 && i != k ==> member(x, i) == member(y, i),
        0 <= n <= 64,
    ensures
        count_below(y, n) == count_below(x, n) + if k < n { 1nat } else { 0nat },
    decreases n,
{
    if n > 0 {
        lemma_count_gain(x, y, k, n - 1);
    }
}

/// A set whose count is zero is empty, and the other way round.
pub proof fn lemma_count_zero(x: u64)
    ensures
        popcount(x) == 0 <==> x == 0,
{
    broadcast use group_bits;
    if x == 0 {
        lemma_count_skip(x, 0, 64);
    } else {
        lemma_lowest(x);
        let t = lowest(x);
        lemma_count_pos(x, t, 64);
    }
}

proof fn lemma_count_pos(x: u64, k: int, n: int)
    requires
        0 <= k < n,
        member(x, k),
    ensures
        count_below(x, n) >= 1,
    decreases n,
{
    if k < n - 1 {
        lemma_count_pos(x, k, n - 1);
    }
}

/// A set of one square holds its lowest square and no other.
pub proof fn lemma_count_one(x: u64)
    requires
        popcount(x) == 1,
    ensures
        0 <= lowest(x) < 64,
        forall|i: int| member(x, i) <==> i == lowest(x),
{
    broadcast use group_bits;
    lemma_count_zero(x);
    lemma_lowest(x);
    let l = lowest(x);
    let y = x & !bit(l);
    assert forall|i: int| 0 <= i < 64 && i != l implies member(x, i) == member(y, i) by {}
    lemma_count_gain(y, x, l, 64);
    lemma_count_zero(y);
}

/// A set of two squares or more holds its lowest square and another one.
pub proof fn lemma_count_two(x: u64) -> (other: int)
    requires
        popcount(x) >= 2,
    ensures
        0 <= lowest(x) < 64,
        0 <= other < 64,
        other != lowest(x),
        member(x, lowest(x)),
        member(x, other),
{
    broadcast use group_bits;
    lemma_count_zero(x);
    lemma_lowest(x);
    let l = lowest(x);
    let y = x & !bit(l);
    assert forall|i: int| 0 <= i < 64 && i != l implies member(x, i) == member(y, i) by {}
    lemma_count_gain(y, x, l, 64);
    lemma_count_zero(y);
    lemma_lowest(y);
    lowest(y)
}

/// A set that misses a square has fewer than 64 squares.
pub proof fn lemma_count_missing(x: u64, k: int)
    requires
        0 <= k < 64,
        !member(x, k),
    ensures
        popcount(x) <= 63,
{
    lemma_count_bound(x, k);
    lemma_count_missing_step(x, k, 64);
}

proof fn lemma_count_missing_step(x: u64, k: int, n: int)
    requires
        0 <= k < n,
        !member(x, k),
        count_below(x, k) <= k,
    ensures
        count_below(x, n) <= n - 1,
    decreases n,
{
    if k < n - 1 {
        lemma_count_missing_step(x, k, n - 1);
    }
}

/// `u64::count_ones` of std returns the number of one bits of its argument.
pub assume_specification[ u64::count_ones ](i: u64) -> (r: u32)
    ensures
        r == popcount(i),
;

/// Index of the lowest square of `mask`; 64 when `mask` is empty.
#[inline(always)]
pub fn next(mask: u64) -> (r: u8)
    ensures
        r == lowest(mask),
        mask != 0 ==> r < 64 && member(mask, r as int),
        forall|j: int| 0 <= j < r ==> !member(mask, j),
{
    proof {
        lemma_lowest(mask);
    }
    mask.trailing_zeros() as u8
}

/// Number of squares in `mask`.
#[inline(always)]
pub fn count(mask: u64) -> (r: u8)
    ensures
        r == popcount(mask),
{
    proof {
        lemma_count_bound(mask, 64);
    }
    mask.count_ones() as u8
}

/// `mask` without its lowest square.
#[inline(always)]
pub fn pop(mask: u64) -> (r: u64)
    requires
        mask != 0,
    ensures
        forall|i: int| member(r, i) == (member(mask, i) && i != lowest(mask)),
        popcount(r) + 1 == popcount(mask),
{
    let lsb: u8 = next(mask);
    let new_mask: u64 = mask & !(1u64 << (lsb as u64));
    proof {
        broadcast use group_bits;
        assert(new_mask == mask & !bit(lsb as int));
        assert forall|i: int| member(new_mask, i) == (member(mask, i) && i != lowest(mask)) by {}
        lemma_count_gain(new_mask, mask, lsb as int, 64);
    }
    new_mask
}

/// The squares of `mask`, lowest first.
pub fn all_squares(mask: u64) -> (r: Vec<Square>)
    ensures
        r.len() == popcount(mask),
        forall|k: int| 0 <= k < r.len() ==> member(mask, #[trigger] r[k].idx()),
        forall|i: int| member(mask, i) ==> exists|k: int| 0 <= k < r.len() && #[trigger] r[k].idx() == i,
        forall|j: int, k: int| 0 <= j < k < r.len() ==> r[j].idx() < r[k].idx(),
{
    let mut all_squares: Vec<Square> = Vec::new();
    let mut rest: u64 = mask;
    let ghost mut lo: int = 0;
    while rest != 0
        invariant
            0 <= lo <= 64,
            forall|i: int| member(rest, i) == (member(mask, i) && i >= lo),
            all_squares.len() == count_below(mask, lo),
            forall|k: int| 0 <= k < all_squares.len() ==> member(mask, #[trigger] all_squares[k].idx()),
            forall|k: int| 0 <= k < all_squares.len() ==> #[trigger] all_squares[k].idx() < lo,
            forall|i: int|
                member(mask, i) && i < lo ==> exists|k: int|
                    0 <= k < all_squares.len() && #[trigger] all_squares[k].idx() == i,
            forall|j: int, k: int|
                0 <= j < k < all_squares.len() ==> all_squares[j].idx() < all_squares[k].idx(),
        decreases popcount(rest),
    {
        let lsb: u8 = next(rest);
        let square = Square::from_index(lsb);
        let ghost before = all_squares@;
        all_squares.push(square);
        let next_rest: u64 = pop(rest);
        proof {
            lemma_count_skip(mask, lo, lsb as int);
            assert(member(mask, lsb as int));
            assert forall|i: int|
                member(mask, i) && i < lsb + 1 implies exists|k: int|
                    0 <= k < all_squares.len() && #[trigger] all_squares[k].idx() == i by {
                if i < lo {
                    let k = choose|k: int| 0 <= k < before.len() && #[trigger] before[k].idx() == i;
                    assert(all_squares[k].idx() == i);
                } else {
                    assert(member(rest, i));
                    assert(i == lsb);
                    assert(all_squares[before.len() as int].idx() == i);
                }
            }
            lo = lsb as int + 1;
        }
        rest = next_rest;
    }
    proof {
        assert forall|i: int| lo <= i < 64 implies !member(mask, i) by {
            lemma_member_zero(i);
        }
        lemma_count_skip(mask, lo, 64);
        assert forall|i: int| member(mask, i) implies exists|k: int|
            0 <= k < all_squares.len() && #[trigger] all_squares[k].idx() == i by {
            lemma_member_zero(i);
        }
    }
    all_squares
}

} // verus!
