//! Sums over a window of samples and the integer square root, with the facts
//! that the rolling indicator rests on.

use vstd::prelude::*;

verus! {

/// Sum of the samples of `w`.
pub open spec fn sum_of(w: Seq<u32>) -> nat
    decreases w.len(),
{
    if w.len() == 0 {
        0
    } else {
        sum_of(w.drop_last()) + w.last() as nat
    }
}

/// Sum of the squares of the samples of `w`.
pub open spec fn sum_sq_of(w: Seq<u32>) -> nat
    decreases w.len(),
{
    if w.len() == 0 {
        0
    } else {
        sum_sq_of(w.drop_last()) + (w.last() as nat) * (w.last() as nat)
    }
}

/// Sum of the squared distances of the samples of `w` from `x`.
pub open spec fn sq_dev_of(w: Seq<u32>, x: int) -> int
    decreases w.len(),
{
    if w.len() == 0 {
        0
    } else {
        sq_dev_of(w.drop_last(), x) + (w.last() as int - x) * (w.last() as int - x)
    }
}

/// The count of samples times the sum of their squares, less the square of
/// their sum: the population variance of `w` times the square of its length.
pub open spec fn spread_of(w: Seq<u32>) -> int {
    w.len() * sum_sq_of(w) - sum_of(w) * sum_of(w)
}

/// Whether `s` is the integer part of the square root of `v`.
pub open spec fn is_floor_sqrt(v: nat, s: nat) -> bool {
    s * s <= v < (s + 1) * (s + 1)
}

/// The integer part of the square root of `v`.
pub open spec fn floor_sqrt(v: nat) -> nat {
    choose|s: nat| is_floor_sqrt(v, s)
}

/// Squaring keeps the order of natural numbers.
pub proof fn lemma_square_monotonic(a: nat, b: nat)
    ensures
        a <= b ==> a * a <= b * b,
        a < b ==> a * a < b * b,
{
    assert(a <= b ==> a * a <= b * b) by (nonlinear_arith);
    assert(a < b ==> a * a < b * b) by (nonlinear_arith);
}

/// Every natural number has an integer square root: `floor_sqrt(v)` squared
/// is at most `v`, and the next number squared is more.
pub proof fn lemma_floor_sqrt(v: nat)
    ensures
        is_floor_sqrt(v, floor_sqrt(v)),
    decreases v,
{
    if v == 0 {
        assert(is_floor_sqrt(0, 0)) by (nonlinear_arith);
    } else {
        let u = (v - 1) as nat;
        lemma_floor_sqrt(u);
        let s = floor_sqrt(u);
        if (s + 1) * (s + 1) <= v {
            assert(is_floor_sqrt(v, s + 1)) by (nonlinear_arith)
                requires
                    s * s <= u < (s + 1) * (s + 1),
                    v == u + 1,
                    (s + 1) * (s + 1) <= v,
            ;
        } else {
            assert(is_floor_sqrt(v, s)) by (nonlinear_arith)
                requires
                    s * s <= u < (s + 1) * (s + 1),
                    v == u + 1,
                    !((s + 1) * (s + 1) <= v),
            ;
        }
    }
}

/// The integer part of a square root is unique, so any `s` that brackets `v`
/// is `floor_sqrt(v)`.
pub proof fn lemma_floor_sqrt_unique(v: nat, s: nat)
    requires
        is_floor_sqrt(v, s),
    ensures
        floor_sqrt(v) == s,
{
    let t = floor_sqrt(v);
    assert(is_floor_sqrt(v, t));
    if t < s {
        lemma_square_monotonic(t + 1, s);
    } else if s < t {
        lemma_square_monotonic(s + 1, t);
    }
}

/// Adding a sample adds it to the sum and its square to the sum of squares.
pub proof fn lemma_sums_push(w: Seq<u32>, x: u32)
    ensures
        sum_of(w.push(x)) == sum_of(w) + x,
        sum_sq_of(w.push(x)) == sum_sq_of(w) + (x as nat) * (x as nat),
{
    assert(w.push(x).drop_last() =~= w);
}

/// Removing the oldest sample takes it from the sum and its square from the
/// sum of squares.
pub proof fn lemma_sums_drop_first(w: Seq<u32>)
    requires
        w.len() > 0,
    ensures
        sum_of(w.drop_first()) + w[0] == sum_of(w),
        sum_sq_of(w.drop_first()) + (w[0] as nat) * (w[0] as nat) == sum_sq_of(w),
    decreases w.len(),
{
    if w.len() == 1 {
        assert(w.drop_first() =~= Seq::<u32>::empty());
        assert(w.drop_last() =~= Seq::<u32>::empty());
    } else {
        lemma_sums_drop_first(w.drop_last());
        assert(w.drop_first().drop_last() =~= w.drop_last().drop_first());
        assert(w.drop_last()[0] == w[0]);
        assert(w.drop_first().last() == w.last());
    }
}

/// Each sample fits 32 bits, which bounds both sums by the length.
pub proof fn lemma_sums_bounded(w: Seq<u32>)
    ensures
        sum_of(w) <= w.len() * 0xffff_ffff,
        sum_sq_of(w) <= w.len() * (0xffff_ffff * 0xffff_ffff),
    decreases w.len(),
{
    let square: nat = 0xffff_ffff * 0xffff_ffff;
    assert(square == 18_446_744_065_119_617_025);
    if w.len() > 0 {
        let head = w.drop_last();
        lemma_sums_bounded(head);
        let x = w.last() as nat;
        assert(x * x <= square) by (nonlinear_arith)
            requires
                x <= 0xffff_ffff,
                square == 0xffff_ffff * 0xffff_ffff,
        ;
        assert(head.len() == w.len() - 1);
        assert(sum_of(w) == sum_of(head) + x);
        assert(sum_sq_of(w) == sum_sq_of(head) + x * x);
        assert(w.len() * square == head.len() * square + square) by (nonlinear_arith)
            requires
                head.len() == w.len() - 1,
        ;
        assert(w.len() * 0xffff_ffff == head.len() * 0xffff_ffff + 0xffff_ffff)
            by (nonlinear_arith)
            requires
                head.len() == w.len() - 1,
        ;
    } else {
        assert(w.len() * square == 0) by (nonlinear_arith)
            requires
                w.len() == 0,
        ;
    }
}

/// The squared distances from `x` sum to a value that is not negative and
/// that the two sums give in closed form.
pub proof fn lemma_sq_dev(w: Seq<u32>, x: int)
    ensures
        sq_dev_of(w, x) >= 0,
        sq_dev_of(w, x) == sum_sq_of(w) - 2 * (x * sum_of(w)) + w.len() * (x * x),
    decreases w.len(),
{
    if w.len() > 0 {
        let h = w.drop_last();
        lemma_sq_dev(h, x);
        let y = w.last() as int;
        let n = h.len() as int;
        let s = sum_of(h) as int;
        let q = sum_sq_of(h) as int;
        assert(sum_of(w) == s + y);
        assert(sum_sq_of(w) == q + y * y);
        assert((y - x) * (y - x) >= 0) by (nonlinear_arith);
        assert((q + y * y) - 2 * (x * (s + y)) + (n + 1) * (x * x) == (q - 2 * (x * s) + n * (x
            * x)) + (y - x) * (y - x)) by (nonlinear_arith);
    } else {
        assert(w.len() * (x * x) == 0) by (nonlinear_arith)
            requires
                w.len() == 0,
        ;
        assert(x * sum_of(w) == 0) by (nonlinear_arith)
            requires
                sum_of(w) == 0,
        ;
    }
}

/// The spread of a window is never negative.
pub proof fn lemma_spread_nonnegative(w: Seq<u32>)
    ensures
        spread_of(w) >= 0,
    decreases w.len(),
{
    if w.len() > 0 {
        let h = w.drop_last();
        lemma_spread_nonnegative(h);
        let y = w.last() as int;
        lemma_sq_dev(h, y);
        let n = h.len() as int;
        let s = sum_of(h) as int;
        let q = sum_sq_of(h) as int;
        assert(sum_of(w) == s + y);
        assert(sum_sq_of(w) == q + y * y);
        assert((n + 1) * (q + y * y) - (s + y) * (s + y) == (n * q - s * s) + (q - 2 * (y * s)
            + n * (y * y))) by (nonlinear_arith);
    } else {
        assert(w.len() * sum_sq_of(w) == 0) by (nonlinear_arith)
            requires
                w.len() == 0,
        ;
        assert(sum_of(w) * sum_of(w) == 0) by (nonlinear_arith)
            requires
                sum_of(w) == 0,
        ;
    }
}

/// The integer part of the square root of `v`.
pub fn integer_sqrt(v: u128) -> (r: u64)
    ensures
        r == floor_sqrt(v as nat),
        is_floor_sqrt(v as nat, r as nat),
{
    let mut lo: u128 = 0;
    let mut hi: u128 = 0x1_0000_0000_0000_0000;
    assert(hi * hi > v) by (nonlinear_arith)
        requires
            hi == 0x1_0000_0000_0000_0000,
            v <= u128::MAX,
    ;
    while hi - lo > 1
        invariant
            lo < hi <= 0x1_0000_0000_0000_0000,
            lo * lo <= v < hi * hi,
        decreases hi - lo,
    {
        let mid = lo + (hi - lo) / 2;
        assert(mid * mid <= u128::MAX) by (nonlinear_arith)
            requires
                mid <= 0xffff_ffff_ffff_ffff,
        ;
        if mid * mid <= v {
            lo = mid;
        } else {
            hi = mid;
        }
    }
    proof {
        assert(hi == lo + 1);
        lemma_floor_sqrt_unique(v as nat, lo as nat);
    }
    lo as u64
}

} // verus!
