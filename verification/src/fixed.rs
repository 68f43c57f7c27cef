//! Fixed-point scalars.
//!
//! Every scalar in this crate is an `i64` counting multiples of
//! `1/SCALE`, so `SCALE` itself stands for the real number one.
//! Products are scaled back down with a division that rounds toward
//! zero, mirroring how a truncating conversion from a wider value
//! behaves.

use vstd::prelude::*;
use vstd::arithmetic::div_mod::{
    lemma_div_by_multiple, lemma_div_denominator, lemma_div_is_ordered, lemma_div_pos_is_pos,
};

verus! {

/// The number of fixed-point units that stand for the real number one.
pub const SCALE: i64 = 1_000_000;

/// Largest magnitude allowed for a matrix or vector coordinate
/// (one million in real terms): keeps every product of two
/// coordinates, and every sum of four such products, inside `i128`,
/// and every scaled-down result inside `i64`.
pub const MAX_COORD: i64 = 1_000_000_000_000;

/// Division rounding toward zero, for a positive divisor.
pub open spec fn tdiv(a: int, b: int) -> int
    recommends
        b > 0,
{
    if a >= 0 {
        a / b
    } else {
        -((-a) / b)
    }
}

/// Product of two fixed-point scalars, scaled back to fixed point.
pub open spec fn fp_mul(a: int, b: int) -> int {
    tdiv(a * b, SCALE as int)
}

/// Quotient of two fixed-point scalars, for a positive divisor.
pub open spec fn fp_div(a: int, b: int) -> int
    recommends
        b > 0,
{
    tdiv(a * (SCALE as int), b)
}

/// Magnitude of a truncating quotient is at most the magnitude bound
/// of the dividend divided by the same divisor.
pub proof fn lemma_tdiv_bound(a: int, b: int, m: int)
    requires
        b >= 1,
        0 <= m,
        -m <= a <= m,
    ensures
        -(m / b) <= tdiv(a, b) <= m / b,
{
    lemma_div_pos_is_pos(m, b);
    if a >= 0 {
        lemma_div_pos_is_pos(a, b);
        lemma_div_is_ordered(a, m, b);
    } else {
        lemma_div_pos_is_pos(-a, b);
        lemma_div_is_ordered(-a, m, b);
    }
}

/// A common positive factor of dividend and divisor cancels out of a
/// truncating quotient.
pub proof fn lemma_tdiv_cancel(a: int, b: int, k: int)
    requires
        b > 0,
        k > 0,
    ensures
        tdiv(k * a, k * b) == tdiv(a, b),
{
    if a >= 0 {
        lemma_tdiv_cancel_nonneg(a, b, k);
    } else {
        assert(k * a < 0 && k * b > 0 && -(k * a) == k * -a) by (nonlinear_arith)
            requires a < 0 && b > 0 && k > 0;
        lemma_tdiv_cancel_nonneg(-a, b, k);
        assert(tdiv(k * a, k * b) == -((k * -a) / (k * b)));
        assert(tdiv(a, b) == -((-a) / b));
    }
}

proof fn lemma_tdiv_cancel_nonneg(a: int, b: int, k: int)
    requires
        a >= 0,
        b > 0,
        k > 0,
    ensures
        (k * a) / (k * b) == a / b,
{
    assert(k * a >= 0 && k * b > 0) by (nonlinear_arith)
        requires a >= 0 && b > 0 && k > 0;
    lemma_div_denominator(k * a, k, b);
    assert((k * a) / k == a) by {
        lemma_div_by_multiple(a, k);
        assert(a * k == k * a) by (nonlinear_arith);
    }
}

/// Scaling by a positive factor and dividing it back out is exact,
/// whatever the sign of the scaled value.
pub proof fn lemma_tdiv_mul_exact(a: int, b: int)
    requires
        b > 0,
    ensures
        tdiv(a * b, b) == a,
{
    if a >= 0 {
        assert(a * b >= 0) by (nonlinear_arith)
            requires a >= 0 && b > 0;
        lemma_div_by_multiple(a, b);
    } else {
        assert(a * b < 0 && -(a * b) == (-a) * b) by (nonlinear_arith)
            requires a < 0 && b > 0;
        lemma_div_by_multiple(-a, b);
    }
}

/// Magnitude bound on a product from magnitude bounds on the factors.
pub proof fn lemma_mul_bound(x: int, y: int, bx: int, by_: int)
    by (nonlinear_arith)
    requires
        0 <= bx,
        0 <= by_,
        -bx <= x <= bx,
        -by_ <= y <= by_,
    ensures
        -(bx * by_) <= x * y <= bx * by_,
{
}

/// Division rounding toward zero, computed on `i128` so that callers
/// may accumulate wide intermediate products first.
pub(crate) fn tdiv_i128(a: i128, b: i128) -> (q: i64)
    requires
        b > 0,
        a > i128::MIN,
        -(i64::MAX as int) <= tdiv(a as int, b as int) <= i64::MAX as int,
    ensures
        q as int == tdiv(a as int, b as int),
{
    if a >= 0 {
        let q128: u128 = (a as u128) / (b as u128);
        q128 as i64
    } else {
        let na: i128 = -a;
        let q128: u128 = (na as u128) / (b as u128);
        -(q128 as i64)
    }
}

} // verus!
