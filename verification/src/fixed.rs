//! Fixed-point scalar arithmetic.
//!
//! A scalar is an `i64` holding the real value times [`SCALE`].  Products
//! and quotients are computed exactly in `i128` and then truncated toward
//! zero and saturated into the `i64` range, so every operation is total and
//! has an exact contract.

use vstd::prelude::*;

verus! {

/// Number of fixed-point units in 1.0.
pub const SCALE: i64 = 1_000_000;

/// Truncating (round-toward-zero) integer quotient for a positive divisor,
/// the meaning of `/` on the machine integer types.
pub open spec fn tdiv(a: int, b: int) -> int
    recommends
        b > 0,
{
    if a >= 0 {
        a / b
    } else {
        -((-a) / b)
    }
}

/// Truncating integer quotient for any non-zero divisor.
pub open spec fn tdiv_s(a: int, b: int) -> int
    recommends
        b != 0,
{
    if b > 0 {
        tdiv(a, b)
    } else {
        -tdiv(a, -b)
    }
}

/// Saturate an unbounded integer into the `i64` range.
pub open spec fn clip(a: int) -> int {
    if a > i64::MAX {
        i64::MAX as int
    } else if a < i64::MIN {
        i64::MIN as int
    } else {
        a
    }
}

pub open spec fn fx_add_spec(a: int, b: int) -> int {
    clip(a + b)
}

pub open spec fn fx_sub_spec(a: int, b: int) -> int {
    clip(a - b)
}

pub open spec fn fx_mul_spec(a: int, b: int) -> int {
    clip(tdiv(a * b, SCALE as int))
}

pub open spec fn fx_div_spec(a: int, b: int) -> int
    recommends
        b != 0,
{
    clip(tdiv_s(a * (SCALE as int), b))
}

/// A product of two factors bounded in magnitude stays inside the bound's
/// product, and in particular inside the `i128` range.
pub proof fn lemma_mul_in_i128(a: int, b: int, ba: int, bb: int)
    requires
        -ba <= a <= ba,
        -bb <= b <= bb,
        0 <= ba,
        0 <= bb,
        ba * bb < i128::MAX,
    ensures
        i128::MIN < a * b <= ba * bb,
        -(ba * bb) <= a * b,
{
    assert(a * b <= ba * bb && -(ba * bb) <= a * b) by (nonlinear_arith)
        requires
            -ba <= a <= ba,
            -bb <= b <= bb,
            0 <= ba,
            0 <= bb,
    ;
}

/// Fixed-point sum as an `i64` value (the clip keeps it in range).
pub open spec fn addf(a: i64, b: i64) -> i64 {
    fx_add_spec(a as int, b as int) as i64
}

/// Fixed-point difference as an `i64` value.
pub open spec fn subf(a: i64, b: i64) -> i64 {
    fx_sub_spec(a as int, b as int) as i64
}

/// Fixed-point product as an `i64` value.
pub open spec fn mulf(a: i64, b: i64) -> i64 {
    fx_mul_spec(a as int, b as int) as i64
}

/// Fixed-point quotient as an `i64` value.
pub open spec fn divf(a: i64, b: i64) -> i64
    recommends
        b != 0,
{
    fx_div_spec(a as int, b as int) as i64
}

fn clip64(a: i128) -> (r: i64)
    ensures
        r as int == clip(a as int),
{
    if a > i64::MAX as i128 {
        i64::MAX
    } else if a < i64::MIN as i128 {
        i64::MIN
    } else {
        a as i64
    }
}

/// Saturating fixed-point sum.
pub fn fx_add(a: i64, b: i64) -> (r: i64)
    ensures
        r as int == fx_add_spec(a as int, b as int),
        r == addf(a, b),
{
    clip64(a as i128 + b as i128)
}

/// Saturating fixed-point difference.
pub fn fx_sub(a: i64, b: i64) -> (r: i64)
    ensures
        r as int == fx_sub_spec(a as int, b as int),
        r == subf(a, b),
{
    clip64(a as i128 - b as i128)
}

/// Saturating fixed-point product: the exact product truncated toward zero.
pub fn fx_mul(a: i64, b: i64) -> (r: i64)
    ensures
        r as int == fx_mul_spec(a as int, b as int),
        r == mulf(a, b),
{
    proof {
        lemma_mul_in_i128(a as int, b as int, i64::MAX as int + 1, i64::MAX as int + 1);
    }
    let p: i128 = (a as i128) * (b as i128);
    let q: i128 = p / (SCALE as i128);
    clip64(q)
}

/// Saturating fixed-point quotient: the exact quotient truncated toward zero.
pub fn fx_div(a: i64, b: i64) -> (r: i64)
    requires
        b != 0,
    ensures
        r as int == fx_div_spec(a as int, b as int),
        r == divf(a, b),
{
    proof {
        lemma_mul_in_i128(a as int, SCALE as int, i64::MAX as int + 1, SCALE as int + 1);
    }
    let p: i128 = (a as i128) * (SCALE as i128);
    let q: i128 = if b > 0 {
        p / (b as i128)
    } else {
        -(p / (-(b as i128)))
    };
    clip64(q)
}

/// A truncating quotient is bounded by any bound on the dividend over the
/// divisor.
pub proof fn lemma_tdiv_bound(a: int, b: int, c: int)
    requires
        b > 0,
        0 <= c,
        -(c * b) <= a <= c * b,
    ensures
        -c <= tdiv(a, b) <= c,
{
    if a >= 0 {
        vstd::arithmetic::div_mod::lemma_div_is_ordered(a, c * b, b);
        vstd::arithmetic::div_mod::lemma_div_multiples_vanish(c, b);
        vstd::arithmetic::div_mod::lemma_div_pos_is_pos(a, b);
    } else {
        vstd::arithmetic::div_mod::lemma_div_is_ordered(-a, c * b, b);
        vstd::arithmetic::div_mod::lemma_div_multiples_vanish(c, b);
        vstd::arithmetic::div_mod::lemma_div_pos_is_pos(-a, b);
    }
}

/// A fixed-point square is never negative.
pub proof fn lemma_square_nonneg(x: i64)
    ensures
        mulf(x, x) >= 0,
{
    assert((x as int) * (x as int) >= 0) by (nonlinear_arith);
    vstd::arithmetic::div_mod::lemma_div_pos_is_pos((x as int) * (x as int), SCALE as int);
}

/// `r` is the integer square root of `v`: the greatest integer whose square
/// does not exceed `v`.
pub open spec fn is_isqrt(v: int, r: int) -> bool {
    0 <= r && r * r <= v < (r + 1) * (r + 1)
}

/// The integer square root of `v`, as a value.
pub open spec fn isqrt_of(v: int) -> int {
    choose|r: int| is_isqrt(v, r)
}

/// Two integer square roots of the same value are equal.
pub proof fn lemma_isqrt_unique(v: int, r1: int, r2: int)
    requires
        is_isqrt(v, r1),
        is_isqrt(v, r2),
    ensures
        r1 == r2,
{
    assert(r1 == r2) by (nonlinear_arith)
        requires
            0 <= r1 && r1 * r1 <= v < (r1 + 1) * (r1 + 1),
            0 <= r2 && r2 * r2 <= v < (r2 + 1) * (r2 + 1),
    ;
}

/// Fixed-point square root, rounded down: the result squares (in fixed-point
/// arithmetic) to at most the argument.
pub fn fx_sqrt(a: i64) -> (r: i64)
    requires
        a >= 0,
    ensures
        is_isqrt((a as int) * (SCALE as int), r as int),
        r as int == isqrt_of((a as int) * (SCALE as int)),
{
    proof {
        lemma_mul_in_i128(a as int, SCALE as int, i64::MAX as int, SCALE as int);
    }
    let u: u128 = (a as u128) * (SCALE as u128);
    let mut lo: u128 = 0;
    let mut hi: u128 = 1u128 << 42;
    proof {
        assert((1u128 << 42) == 0x40000000000u128) by (bit_vector);
        assert(u < 0x40000000000u128 * 0x40000000000u128) by (nonlinear_arith)
            requires
                u as int == (a as int) * (SCALE as int),
                0 <= a <= i64::MAX,
        ;
    }
    while hi - lo > 1
        invariant
            lo < hi <= 0x40000000000u128,
            (lo as int) * (lo as int) <= u as int,
            (u as int) < (hi as int) * (hi as int),
        decreases hi - lo,
    {
        let mid: u128 = lo + (hi - lo) / 2;
        proof {
            assert((mid as int) * (mid as int) <= 0x40000000000i128 * 0x40000000000i128)
                by (nonlinear_arith)
                requires
                    mid <= 0x40000000000u128,
            ;
        }
        if mid * mid <= u {
            lo = mid;
        } else {
            hi = mid;
        }
    }
    proof {
        assert(lo < 0x8000000000000000u128);
        assert(is_isqrt((a as int) * (SCALE as int), lo as int));
        lemma_isqrt_unique(
            (a as int) * (SCALE as int),
            lo as int,
            isqrt_of((a as int) * (SCALE as int)),
        );
    }
    lo as i64
}

/// Truncating quotient by a plain positive integer, as an `i64` value.
pub open spec fn divif(a: i64, d: i64) -> i64
    recommends
        d > 0,
{
    tdiv(a as int, d as int) as i64
}

/// Truncating division of a fixed-point value by a plain positive integer.
pub fn fx_divi(a: i64, d: i64) -> (r: i64)
    requires
        d > 0,
    ensures
        r as int == tdiv(a as int, d as int),
        r == divif(a, d),
{
    a / d
}

} // verus!
