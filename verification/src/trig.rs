//! Fixed-point sine and cosine for the rotation matrices.
//!
//! An angle is a fixed-point number of radians.  It is first brought into
//! `(-pi, pi]` by subtracting whole turns, then the cosine (or sine) of its
//! magnitude is evaluated as a nested truncated Taylor sum in fixed-point
//! arithmetic, and the result is clamped into `[-1, 1]`.  The contracts
//! state that evaluation scheme exactly; the scheme itself approximates the
//! real functions to a few fixed-point units.

use vstd::prelude::*;

use crate::fixed::{divif, fx_divi, fx_mul, fx_sub, mulf, subf, tdiv, SCALE};

verus! {

/// Fixed-point value of pi, rounded to the nearest unit.
pub const PI_FX: i64 = 3_141_593;

/// Fixed-point value of two pi, rounded to the nearest unit.
pub const TWO_PI_FX: i64 = 6_283_185;

/// Truncating remainder, the meaning of `%` on the machine integer types
/// for a positive modulus: the sign follows the dividend.
pub open spec fn tmod(a: int, b: int) -> int
    recommends
        b > 0,
{
    if a >= 0 {
        a % b
    } else {
        -((-a) % b)
    }
}

/// The angle with whole turns removed, in `(-TWO_PI_FX/2, PI_FX]`:
/// first the truncating remainder is shifted into `[0, TWO_PI_FX)`, then
/// anything past `PI_FX` is wrapped to the negative side.
pub open spec fn angle_norm(a: int) -> int {
    let m = tmod(a, TWO_PI_FX as int);
    let r0 = if m < 0 {
        m + TWO_PI_FX
    } else {
        m
    };
    if r0 > PI_FX {
        r0 - (TWO_PI_FX as int)
    } else {
        r0
    }
}

/// Nested truncated Taylor sum for cosine: with `u` the square of the
/// angle, level `j` holds `1 - u * next / ((2j+1)(2j+2))`, eight levels
/// deep.
pub open spec fn cos_nest(u: i64, j: int) -> i64
    decreases 8 - j,
{
    if j >= 8 {
        SCALE
    } else {
        subf(SCALE, divif(mulf(u, cos_nest(u, j + 1)), ((2 * j + 1) * (2 * j + 2)) as i64))
    }
}

/// Nested truncated Taylor sum for sine over the angle: level `j` holds
/// `1 - u * next / ((2j+2)(2j+3))`; the angle itself multiplies the result.
pub open spec fn sin_nest(u: i64, j: int) -> i64
    decreases 8 - j,
{
    if j >= 8 {
        SCALE
    } else {
        subf(SCALE, divif(mulf(u, sin_nest(u, j + 1)), ((2 * j + 2) * (2 * j + 3)) as i64))
    }
}

/// Clamp into the fixed-point unit interval `[-1, 1]`.
pub open spec fn clip_unit(a: i64) -> i64 {
    if a > SCALE {
        SCALE
    } else if a < -SCALE {
        (-SCALE) as i64
    } else {
        a
    }
}

/// Fixed-point cosine of a fixed-point angle in radians.
pub open spec fn cos_spec(a: i64) -> i64 {
    let r = angle_norm(a as int);
    let t = (if r >= 0 {
        r
    } else {
        -r
    }) as i64;
    clip_unit(cos_nest(mulf(t, t), 0))
}

/// Fixed-point sine of a fixed-point angle in radians.
pub open spec fn sin_spec(a: i64) -> i64 {
    let r = angle_norm(a as int);
    let t = (if r >= 0 {
        r
    } else {
        -r
    }) as i64;
    let s = mulf(t, sin_nest(mulf(t, t), 0));
    if r >= 0 {
        clip_unit(s)
    } else {
        clip_unit(subf(0, s))
    }
}

/// The angle brought into `(-TWO_PI_FX + PI_FX, PI_FX]`.
fn reduce(a: i64) -> (r: i64)
    ensures
        r as int == angle_norm(a as int),
        -(TWO_PI_FX as int) < r as int <= PI_FX as int,
{
    let m = a % TWO_PI_FX;
    let r0 = if m < 0 {
        m + TWO_PI_FX
    } else {
        m
    };
    if r0 > PI_FX {
        r0 - TWO_PI_FX
    } else {
        r0
    }
}

/// One level of the nested cosine sum evaluated bottom-up.
fn cos_poly(u: i64) -> (r: i64)
    ensures
        r == cos_nest(u, 0),
{
    let mut j: i64 = 8;
    let mut acc: i64 = SCALE;
    while j > 0
        invariant
            0 <= j <= 8,
            acc == cos_nest(u, j as int),
        decreases j,
    {
        j = j - 1;
        proof {
            assert(0 < (2 * j + 1) * (2 * j + 2) <= 240) by (nonlinear_arith)
                requires
                    0 <= j <= 7,
            ;
        }
        acc = fx_sub(SCALE, fx_divi(fx_mul(u, acc), (2 * j + 1) * (2 * j + 2)));
    }
    acc
}

/// One level of the nested sine sum evaluated bottom-up.
fn sin_poly(u: i64) -> (r: i64)
    ensures
        r == sin_nest(u, 0),
{
    let mut j: i64 = 8;
    let mut acc: i64 = SCALE;
    while j > 0
        invariant
            0 <= j <= 8,
            acc == sin_nest(u, j as int),
        decreases j,
    {
        j = j - 1;
        proof {
            assert(0 < (2 * j + 2) * (2 * j + 3) <= 306) by (nonlinear_arith)
                requires
                    0 <= j <= 7,
            ;
        }
        acc = fx_sub(SCALE, fx_divi(fx_mul(u, acc), (2 * j + 2) * (2 * j + 3)));
    }
    acc
}

fn clamp_unit(a: i64) -> (r: i64)
    ensures
        r == clip_unit(a),
{
    if a > SCALE {
        SCALE
    } else if a < -SCALE {
        -SCALE
    } else {
        a
    }
}

/// Fixed-point cosine of a fixed-point angle in radians.
pub fn cos_fx(a: i64) -> (r: i64)
    ensures
        r == cos_spec(a),
        -SCALE <= r <= SCALE,
{
    let red = reduce(a);
    let t = if red >= 0 {
        red
    } else {
        -red
    };
    clamp_unit(cos_poly(fx_mul(t, t)))
}

/// Fixed-point sine of a fixed-point angle in radians.
pub fn sin_fx(a: i64) -> (r: i64)
    ensures
        r == sin_spec(a),
        -SCALE <= r <= SCALE,
{
    let red = reduce(a);
    let t = if red >= 0 {
        red
    } else {
        -red
    };
    let s = fx_mul(t, sin_poly(fx_mul(t, t)));
    if red >= 0 {
        clamp_unit(s)
    } else {
        clamp_unit(fx_sub(0, s))
    }
}

} // verus!
