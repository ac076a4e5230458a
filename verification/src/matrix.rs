//! Vector and matrix types for the homogeneous-coordinate pipeline.
//!
//! `V3t`, `V4t` and `Mx4t` are generic over their component type.  Screen
//! vertices use `i32` components; object-space geometry and transform
//! matrices use fixed-point `i64` components (see [`crate::fixed`]), and
//! every arithmetic method on those has an exact contract.

use vstd::prelude::*;

use crate::fixed::{
    addf, divf, fx_add, fx_div, fx_mul, fx_sqrt, fx_sub, is_isqrt, isqrt_of, mulf, subf, SCALE,
};

verus! {

/// A 3-component vector.
#[derive(Clone, Copy, Debug, PartialEq)]
pub struct V3t<T> {
    pub x: T,
    pub y: T,
    pub z: T,
}

/// A homogeneous 4-component vector.
#[derive(Clone, Copy, Debug, PartialEq)]
pub struct V4t<T> {
    pub x: T,
    pub y: T,
    pub z: T,
    pub w: T,
}

/// A 3x3 matrix shape; the pipeline itself works entirely in homogeneous
/// coordinates and never uses it.
#[derive(Clone, Copy, Debug, PartialEq)]
pub struct Mx3t<T> {
    pub m11: T,
    pub m12: T,
    pub m13: T,
    pub m21: T,
    pub m22: T,
    pub m23: T,
    pub m31: T,
    pub m32: T,
    pub m33: T,
}

/// A 4x4 matrix in row-major naming: `m<row><column>`.
#[derive(Clone, Copy, Debug, PartialEq)]
pub struct Mx4t<T> {
    pub m11: T,
    pub m12: T,
    pub m13: T,
    pub m14: T,
    pub m21: T,
    pub m22: T,
    pub m23: T,
    pub m24: T,
    pub m31: T,
    pub m32: T,
    pub m33: T,
    pub m34: T,
    pub m41: T,
    pub m42: T,
    pub m43: T,
    pub m44: T,
}

/// Integer screen-space vector.
pub type V3i = V3t<i32>;

/// Fixed-point 3-vector.
pub type V3x = V3t<i64>;

/// Fixed-point homogeneous 4-vector.
pub type V4x = V4t<i64>;

/// Fixed-point 4x4 matrix.
pub type Mx4x = Mx4t<i64>;

/// The `x, y, z` part of a homogeneous vector.
pub fn as_v3d(v4d: V4x) -> (r: V3x)
    ensures
        r == (V3t { x: v4d.x, y: v4d.y, z: v4d.z }),
{
    V3t { x: v4d.x, y: v4d.y, z: v4d.z }
}

pub open spec fn v3_add_spec(a: V3x, b: V3x) -> V3x {
    V3t { x: addf(a.x, b.x), y: addf(a.y, b.y), z: addf(a.z, b.z) }
}

pub open spec fn v3_sub_spec(a: V3x, b: V3x) -> V3x {
    V3t { x: subf(a.x, b.x), y: subf(a.y, b.y), z: subf(a.z, b.z) }
}

pub open spec fn v3_cross_spec(a: V3x, b: V3x) -> V3x {
    V3t {
        x: subf(mulf(a.y, b.z), mulf(a.z, b.y)),
        y: subf(mulf(a.z, b.x), mulf(a.x, b.z)),
        z: subf(mulf(a.x, b.y), mulf(a.y, b.x)),
    }
}

pub open spec fn v3_dot_spec(a: V3x, b: V3x) -> i64 {
    addf(addf(mulf(a.x, b.x), mulf(a.y, b.y)), mulf(a.z, b.z))
}

/// The squared length of a fixed-point 3-vector, in fixed-point units.
pub open spec fn v3_sumsq_spec(a: V3x) -> i64 {
    v3_dot_spec(a, a)
}

/// The fixed-point length of a 3-vector: the integer square root of the
/// squared length brought back to the fixed-point scale.
pub open spec fn v3_norm_spec(a: V3x) -> i64 {
    isqrt_of((v3_sumsq_spec(a) as int) * (SCALE as int)) as i64
}

pub open spec fn v3_scale_spec(a: V3x, t: i64) -> V3x {
    V3t { x: mulf(a.x, t), y: mulf(a.y, t), z: mulf(a.z, t) }
}

impl V3t<i64> {
    pub fn new(x: i64, y: i64, z: i64) -> (r: V3x)
        ensures
            r == (V3t { x, y, z }),
    {
        V3t { x, y, z }
    }

    /// Componentwise sum.
    pub fn vadd(self, rhs: V3x) -> (r: V3x)
        ensures
            r == v3_add_spec(self, rhs),
    {
        V3t { x: fx_add(self.x, rhs.x), y: fx_add(self.y, rhs.y), z: fx_add(self.z, rhs.z) }
    }

    /// Componentwise difference.
    pub fn vsub(self, rhs: V3x) -> (r: V3x)
        ensures
            r == v3_sub_spec(self, rhs),
    {
        V3t { x: fx_sub(self.x, rhs.x), y: fx_sub(self.y, rhs.y), z: fx_sub(self.z, rhs.z) }
    }

    /// Cross product.
    pub fn cross(&self, rhs: V3x) -> (r: V3x)
        ensures
            r == v3_cross_spec(*self, rhs),
    {
        V3t {
            x: fx_sub(fx_mul(self.y, rhs.z), fx_mul(self.z, rhs.y)),
            y: fx_sub(fx_mul(self.z, rhs.x), fx_mul(self.x, rhs.z)),
            z: fx_sub(fx_mul(self.x, rhs.y), fx_mul(self.y, rhs.x)),
        }
    }

    /// Dot product.
    pub fn dot(&self, rhs: V3x) -> (r: i64)
        ensures
            r == v3_dot_spec(*self, rhs),
    {
        fx_add(fx_add(fx_mul(self.x, rhs.x), fx_mul(self.y, rhs.y)), fx_mul(self.z, rhs.z))
    }

    /// Length of the vector.
    pub fn norm(&self) -> (r: i64)
        ensures
            r == v3_norm_spec(*self),
            r >= 0,
            is_isqrt((v3_sumsq_spec(*self) as int) * (SCALE as int), r as int),
    {
        let a = self.dot(*self);
        proof {
            crate::fixed::lemma_square_nonneg(self.x);
            crate::fixed::lemma_square_nonneg(self.y);
            crate::fixed::lemma_square_nonneg(self.z);
        }
        fx_sqrt(a)
    }

    /// The vector divided by its own length.
    pub fn normalize(&self) -> (r: V3x)
        requires
            v3_norm_spec(*self) != 0,
        ensures
            r == (V3t {
                x: divf(self.x, v3_norm_spec(*self)),
                y: divf(self.y, v3_norm_spec(*self)),
                z: divf(self.z, v3_norm_spec(*self)),
            }),
    {
        let n = self.norm();
        V3t { x: fx_div(self.x, n), y: fx_div(self.y, n), z: fx_div(self.z, n) }
    }

    /// The vector scaled by a fixed-point factor.
    pub fn scale(&self, t: i64) -> (r: V3x)
        ensures
            r == v3_scale_spec(*self, t),
    {
        V3t { x: fx_mul(self.x, t), y: fx_mul(self.y, t), z: fx_mul(self.z, t) }
    }
}

pub open spec fn v4_add_spec(a: V4x, b: V4x) -> V4x {
    V4t { x: addf(a.x, b.x), y: addf(a.y, b.y), z: addf(a.z, b.z), w: addf(a.w, b.w) }
}

pub open spec fn v4_sub_spec(a: V4x, b: V4x) -> V4x {
    V4t { x: subf(a.x, b.x), y: subf(a.y, b.y), z: subf(a.z, b.z), w: subf(a.w, b.w) }
}

pub open spec fn v4_dot_spec(a: V4x, b: V4x) -> i64 {
    addf(addf(addf(mulf(a.x, b.x), mulf(a.y, b.y)), mulf(a.z, b.z)), mulf(a.w, b.w))
}

pub open spec fn v4_sumsq_spec(a: V4x) -> i64 {
    v4_dot_spec(a, a)
}

pub open spec fn v4_norm_spec(a: V4x) -> i64 {
    isqrt_of((v4_sumsq_spec(a) as int) * (SCALE as int)) as i64
}

pub open spec fn v4_scale_spec(a: V4x, t: i64) -> V4x {
    V4t { x: mulf(a.x, t), y: mulf(a.y, t), z: mulf(a.z, t), w: mulf(a.w, t) }
}

impl V4t<i64> {
    pub fn new(x: i64, y: i64, z: i64, w: i64) -> (r: V4x)
        ensures
            r == (V4t { x, y, z, w }),
    {
        V4t { x, y, z, w }
    }

    /// Componentwise sum.
    pub fn vadd(self, rhs: V4x) -> (r: V4x)
        ensures
            r == v4_add_spec(self, rhs),
    {
        V4t {
            x: fx_add(self.x, rhs.x),
            y: fx_add(self.y, rhs.y),
            z: fx_add(self.z, rhs.z),
            w: fx_add(self.w, rhs.w),
        }
    }

    /// Componentwise difference.
    pub fn vsub(self, rhs: V4x) -> (r: V4x)
        ensures
            r == v4_sub_spec(self, rhs),
    {
        V4t {
            x: fx_sub(self.x, rhs.x),
            y: fx_sub(self.y, rhs.y),
            z: fx_sub(self.z, rhs.z),
            w: fx_sub(self.w, rhs.w),
        }
    }

    /// Dot product over all four components.
    pub fn dot(&self, rhs: V4x) -> (r: i64)
        ensures
            r == v4_dot_spec(*self, rhs),
    {
        fx_add(
            fx_add(
                fx_add(fx_mul(self.x, rhs.x), fx_mul(self.y, rhs.y)),
                fx_mul(self.z, rhs.z),
            ),
            fx_mul(self.w, rhs.w),
        )
    }

    /// The `x, y, z` part of the vector.
    pub fn v3t(&self) -> (r: V3x)
        ensures
            r == (V3t { x: self.x, y: self.y, z: self.z }),
    {
        V3t { x: self.x, y: self.y, z: self.z }
    }

    /// Length of the vector.
    pub fn norm(&self) -> (r: i64)
        ensures
            r == v4_norm_spec(*self),
            r >= 0,
            is_isqrt((v4_sumsq_spec(*self) as int) * (SCALE as int), r as int),
    {
        let a = self.dot(*self);
        proof {
            crate::fixed::lemma_square_nonneg(self.x);
            crate::fixed::lemma_square_nonneg(self.y);
            crate::fixed::lemma_square_nonneg(self.z);
            crate::fixed::lemma_square_nonneg(self.w);
        }
        fx_sqrt(a)
    }

    /// The vector divided by its own length.
    pub fn normalize(&self) -> (r: V4x)
        requires
            v4_norm_spec(*self) != 0,
        ensures
            r == (V4t {
                x: divf(self.x, v4_norm_spec(*self)),
                y: divf(self.y, v4_norm_spec(*self)),
                z: divf(self.z, v4_norm_spec(*self)),
                w: divf(self.w, v4_norm_spec(*self)),
            }),
    {
        let n = self.norm();
        V4t {
            x: fx_div(self.x, n),
            y: fx_div(self.y, n),
            z: fx_div(self.z, n),
            w: fx_div(self.w, n),
        }
    }

    /// The vector scaled by a fixed-point factor.
    pub fn scale(&self, t: i64) -> (r: V4x)
        ensures
            r == v4_scale_spec(*self, t),
    {
        V4t {
            x: fx_mul(self.x, t),
            y: fx_mul(self.y, t),
            z: fx_mul(self.z, t),
            w: fx_mul(self.w, t),
        }
    }
}

} // verus!

verus! {

/// Fixed-point dot product of four component pairs, folded left.
pub open spec fn dot4f(a1: i64, b1: i64, a2: i64, b2: i64, a3: i64, b3: i64, a4: i64, b4: i64) -> i64 {
    addf(addf(addf(mulf(a1, b1), mulf(a2, b2)), mulf(a3, b3)), mulf(a4, b4))
}

pub open spec fn mx_add_spec(a: Mx4x, b: Mx4x) -> Mx4x {
    Mx4t {
        m11: addf(a.m11, b.m11), m12: addf(a.m12, b.m12), m13: addf(a.m13, b.m13), m14: addf(a.m14, b.m14),
        m21: addf(a.m21, b.m21), m22: addf(a.m22, b.m22), m23: addf(a.m23, b.m23), m24: addf(a.m24, b.m24),
        m31: addf(a.m31, b.m31), m32: addf(a.m32, b.m32), m33: addf(a.m33, b.m33), m34: addf(a.m34, b.m34),
        m41: addf(a.m41, b.m41), m42: addf(a.m42, b.m42), m43: addf(a.m43, b.m43), m44: addf(a.m44, b.m44),
    }
}

pub open spec fn mx_sub_spec(a: Mx4x, b: Mx4x) -> Mx4x {
    Mx4t {
        m11: subf(a.m11, b.m11), m12: subf(a.m12, b.m12), m13: subf(a.m13, b.m13), m14: subf(a.m14, b.m14),
        m21: subf(a.m21, b.m21), m22: subf(a.m22, b.m22), m23: subf(a.m23, b.m23), m24: subf(a.m24, b.m24),
        m31: subf(a.m31, b.m31), m32: subf(a.m32, b.m32), m33: subf(a.m33, b.m33), m34: subf(a.m34, b.m34),
        m41: subf(a.m41, b.m41), m42: subf(a.m42, b.m42), m43: subf(a.m43, b.m43), m44: subf(a.m44, b.m44),
    }
}

/// Row-by-column fixed-point matrix product.
pub open spec fn mx_mul_spec(a: Mx4x, b: Mx4x) -> Mx4x {
    Mx4t {
        m11: dot4f(a.m11, b.m11, a.m12, b.m21, a.m13, b.m31, a.m14, b.m41),
        m12: dot4f(a.m11, b.m12, a.m12, b.m22, a.m13, b.m32, a.m14, b.m42),
        m13: dot4f(a.m11, b.m13, a.m12, b.m23, a.m13, b.m33, a.m14, b.m43),
        m14: dot4f(a.m11, b.m14, a.m12, b.m24, a.m13, b.m34, a.m14, b.m44),
        m21: dot4f(a.m21, b.m11, a.m22, b.m21, a.m23, b.m31, a.m24, b.m41),
        m22: dot4f(a.m21, b.m12, a.m22, b.m22, a.m23, b.m32, a.m24, b.m42),
        m23: dot4f(a.m21, b.m13, a.m22, b.m23, a.m23, b.m33, a.m24, b.m43),
        m24: dot4f(a.m21, b.m14, a.m22, b.m24, a.m23, b.m34, a.m24, b.m44),
        m31: dot4f(a.m31, b.m11, a.m32, b.m21, a.m33, b.m31, a.m34, b.m41),
        m32: dot4f(a.m31, b.m12, a.m32, b.m22, a.m33, b.m32, a.m34, b.m42),
        m33: dot4f(a.m31, b.m13, a.m32, b.m23, a.m33, b.m33, a.m34, b.m43),
        m34: dot4f(a.m31, b.m14, a.m32, b.m24, a.m33, b.m34, a.m34, b.m44),
        m41: dot4f(a.m41, b.m11, a.m42, b.m21, a.m43, b.m31, a.m44, b.m41),
        m42: dot4f(a.m41, b.m12, a.m42, b.m22, a.m43, b.m32, a.m44, b.m42),
        m43: dot4f(a.m41, b.m13, a.m42, b.m23, a.m43, b.m33, a.m44, b.m43),
        m44: dot4f(a.m41, b.m14, a.m42, b.m24, a.m43, b.m34, a.m44, b.m44),
    }
}

/// A matrix applied to a homogeneous column vector.
pub open spec fn mx_apply_spec(m: Mx4x, v: V4x) -> V4x {
    V4t {
        x: dot4f(m.m11, v.x, m.m12, v.y, m.m13, v.z, m.m14, v.w),
        y: dot4f(m.m21, v.x, m.m22, v.y, m.m23, v.z, m.m24, v.w),
        z: dot4f(m.m31, v.x, m.m32, v.y, m.m33, v.z, m.m34, v.w),
        w: dot4f(m.m41, v.x, m.m42, v.y, m.m43, v.z, m.m44, v.w),
    }
}

pub open spec fn mx_identity_spec() -> Mx4x {
    Mx4t {
        m11: SCALE, m12: 0, m13: 0, m14: 0,
        m21: 0, m22: SCALE, m23: 0, m24: 0,
        m31: 0, m32: 0, m33: SCALE, m34: 0,
        m41: 0, m42: 0, m43: 0, m44: SCALE,
    }
}

/// Non-uniform diagonal scale.
pub open spec fn mx_scale_spec(x: i64, y: i64, z: i64) -> Mx4x {
    Mx4t {
        m11: x, m12: 0, m13: 0, m14: 0,
        m21: 0, m22: y, m23: 0, m24: 0,
        m31: 0, m32: 0, m33: z, m34: 0,
        m41: 0, m42: 0, m43: 0, m44: SCALE,
    }
}

/// Minimal perspective operator: identity except that the entry in row 4,
/// column 3 holds `1 / z`.
pub open spec fn mx_proj_spec(z: i64) -> Mx4x
    recommends
        z != 0,
{
    Mx4t {
        m11: SCALE, m12: 0, m13: 0, m14: 0,
        m21: 0, m22: SCALE, m23: 0, m24: 0,
        m31: 0, m32: 0, m33: SCALE, m34: 0,
        m41: 0, m42: 0, m43: divf(SCALE, z), m44: SCALE,
    }
}

/// Affine translation by `(x, y, z)`.
pub open spec fn mx_trans_spec(x: i64, y: i64, z: i64) -> Mx4x {
    Mx4t {
        m11: SCALE, m12: 0, m13: 0, m14: x,
        m21: 0, m22: SCALE, m23: 0, m24: y,
        m31: 0, m32: 0, m33: SCALE, m34: z,
        m41: 0, m42: 0, m43: 0, m44: SCALE,
    }
}

/// Fixed-point dot product of four component pairs.
fn dot4(a1: i64, b1: i64, a2: i64, b2: i64, a3: i64, b3: i64, a4: i64, b4: i64) -> (r: i64)
    ensures
        r == dot4f(a1, b1, a2, b2, a3, b3, a4, b4),
{
    fx_add(fx_add(fx_add(fx_mul(a1, b1), fx_mul(a2, b2)), fx_mul(a3, b3)), fx_mul(a4, b4))
}

impl Mx4t<i64> {
    #[allow(clippy::too_many_arguments)]
    pub fn new(
        m11: i64, m12: i64, m13: i64, m14: i64,
        m21: i64, m22: i64, m23: i64, m24: i64,
        m31: i64, m32: i64, m33: i64, m34: i64,
        m41: i64, m42: i64, m43: i64, m44: i64,
    ) -> (r: Mx4x)
        ensures
            r == (Mx4t {
                m11, m12, m13, m14,
                m21, m22, m23, m24,
                m31, m32, m33, m34,
                m41, m42, m43, m44,
            }),
    {
        Mx4t {
            m11, m12, m13, m14,
            m21, m22, m23, m24,
            m31, m32, m33, m34,
            m41, m42, m43, m44,
        }
    }

    /// The identity transform.
    pub fn identity() -> (r: Mx4x)
        ensures
            r == mx_identity_spec(),
    {
        Mx4t {
            m11: SCALE, m12: 0, m13: 0, m14: 0,
            m21: 0, m22: SCALE, m23: 0, m24: 0,
            m31: 0, m32: 0, m33: SCALE, m34: 0,
            m41: 0, m42: 0, m43: 0, m44: SCALE,
        }
    }

    /// Non-uniform diagonal scale by `(x, y, z)`.
    pub fn scale(v: [i64; 3]) -> (r: Mx4x)
        ensures
            r == mx_scale_spec(v[0], v[1], v[2]),
    {
        Mx4t {
            m11: v[0], m12: 0, m13: 0, m14: 0,
            m21: 0, m22: v[1], m23: 0, m24: 0,
            m31: 0, m32: 0, m33: v[2], m34: 0,
            m41: 0, m42: 0, m43: 0, m44: SCALE,
        }
    }

    /// Minimal perspective operator; a zero `z` has no matrix and is
    /// reported as degenerate.
    pub fn proj(v: [i64; 3]) -> (r: Result<Mx4x, crate::DegenerateTransformError>)
        ensures
            v[2] != 0 <==> r is Ok,
            v[2] != 0 ==> r == Ok::<Mx4x, crate::DegenerateTransformError>(mx_proj_spec(v[2])),
    {
        if v[2] == 0 {
            return Err(crate::DegenerateTransformError);
        }
        Ok(Mx4t {
            m11: SCALE, m12: 0, m13: 0, m14: 0,
            m21: 0, m22: SCALE, m23: 0, m24: 0,
            m31: 0, m32: 0, m33: SCALE, m34: 0,
            m41: 0, m42: 0, m43: fx_div(SCALE, v[2]), m44: SCALE,
        })
    }

    /// Affine translation by `(x, y, z)`.
    pub fn trans(v: [i64; 3]) -> (r: Mx4x)
        ensures
            r == mx_trans_spec(v[0], v[1], v[2]),
    {
        Mx4t {
            m11: SCALE, m12: 0, m13: 0, m14: v[0],
            m21: 0, m22: SCALE, m23: 0, m24: v[1],
            m31: 0, m32: 0, m33: SCALE, m34: v[2],
            m41: 0, m42: 0, m43: 0, m44: SCALE,
        }
    }

    /// Componentwise matrix sum.
    pub fn madd(self, rhs: Mx4x) -> (r: Mx4x)
        ensures
            r == mx_add_spec(self, rhs),
    {
        Mx4t {
            m11: fx_add(self.m11, rhs.m11), m12: fx_add(self.m12, rhs.m12), m13: fx_add(self.m13, rhs.m13), m14: fx_add(self.m14, rhs.m14),
            m21: fx_add(self.m21, rhs.m21), m22: fx_add(self.m22, rhs.m22), m23: fx_add(self.m23, rhs.m23), m24: fx_add(self.m24, rhs.m24),
            m31: fx_add(self.m31, rhs.m31), m32: fx_add(self.m32, rhs.m32), m33: fx_add(self.m33, rhs.m33), m34: fx_add(self.m34, rhs.m34),
            m41: fx_add(self.m41, rhs.m41), m42: fx_add(self.m42, rhs.m42), m43: fx_add(self.m43, rhs.m43), m44: fx_add(self.m44, rhs.m44),
        }
    }

    /// Componentwise matrix difference.
    pub fn msub(self, rhs: Mx4x) -> (r: Mx4x)
        ensures
            r == mx_sub_spec(self, rhs),
    {
        Mx4t {
            m11: fx_sub(self.m11, rhs.m11), m12: fx_sub(self.m12, rhs.m12), m13: fx_sub(self.m13, rhs.m13), m14: fx_sub(self.m14, rhs.m14),
            m21: fx_sub(self.m21, rhs.m21), m22: fx_sub(self.m22, rhs.m22), m23: fx_sub(self.m23, rhs.m23), m24: fx_sub(self.m24, rhs.m24),
            m31: fx_sub(self.m31, rhs.m31), m32: fx_sub(self.m32, rhs.m32), m33: fx_sub(self.m33, rhs.m33), m34: fx_sub(self.m34, rhs.m34),
            m41: fx_sub(self.m41, rhs.m41), m42: fx_sub(self.m42, rhs.m42), m43: fx_sub(self.m43, rhs.m43), m44: fx_sub(self.m44, rhs.m44),
        }
    }

    /// Matrix product `self * rhs`.
    pub fn mmul(self, rhs: Mx4x) -> (r: Mx4x)
        ensures
            r == mx_mul_spec(self, rhs),
    {
        Mx4t {
            m11: dot4(self.m11, rhs.m11, self.m12, rhs.m21, self.m13, rhs.m31, self.m14, rhs.m41),
            m12: dot4(self.m11, rhs.m12, self.m12, rhs.m22, self.m13, rhs.m32, self.m14, rhs.m42),
            m13: dot4(self.m11, rhs.m13, self.m12, rhs.m23, self.m13, rhs.m33, self.m14, rhs.m43),
            m14: dot4(self.m11, rhs.m14, self.m12, rhs.m24, self.m13, rhs.m34, self.m14, rhs.m44),
            m21: dot4(self.m21, rhs.m11, self.m22, rhs.m21, self.m23, rhs.m31, self.m24, rhs.m41),
            m22: dot4(self.m21, rhs.m12, self.m22, rhs.m22, self.m23, rhs.m32, self.m24, rhs.m42),
            m23: dot4(self.m21, rhs.m13, self.m22, rhs.m23, self.m23, rhs.m33, self.m24, rhs.m43),
            m24: dot4(self.m21, rhs.m14, self.m22, rhs.m24, self.m23, rhs.m34, self.m24, rhs.m44),
            m31: dot4(self.m31, rhs.m11, self.m32, rhs.m21, self.m33, rhs.m31, self.m34, rhs.m41),
            m32: dot4(self.m31, rhs.m12, self.m32, rhs.m22, self.m33, rhs.m32, self.m34, rhs.m42),
            m33: dot4(self.m31, rhs.m13, self.m32, rhs.m23, self.m33, rhs.m33, self.m34, rhs.m43),
            m34: dot4(self.m31, rhs.m14, self.m32, rhs.m24, self.m33, rhs.m34, self.m34, rhs.m44),
            m41: dot4(self.m41, rhs.m11, self.m42, rhs.m21, self.m43, rhs.m31, self.m44, rhs.m41),
            m42: dot4(self.m41, rhs.m12, self.m42, rhs.m22, self.m43, rhs.m32, self.m44, rhs.m42),
            m43: dot4(self.m41, rhs.m13, self.m42, rhs.m23, self.m43, rhs.m33, self.m44, rhs.m43),
            m44: dot4(self.m41, rhs.m14, self.m42, rhs.m24, self.m43, rhs.m34, self.m44, rhs.m44),
        }
    }

    /// The matrix applied to a homogeneous column vector.
    pub fn mul_v4(self, rhs: &V4x) -> (r: V4x)
        ensures
            r == mx_apply_spec(self, *rhs),
    {
        V4t {
            x: dot4(self.m11, rhs.x, self.m12, rhs.y, self.m13, rhs.z, self.m14, rhs.w),
            y: dot4(self.m21, rhs.x, self.m22, rhs.y, self.m23, rhs.z, self.m24, rhs.w),
            z: dot4(self.m31, rhs.x, self.m32, rhs.y, self.m33, rhs.z, self.m34, rhs.w),
            w: dot4(self.m41, rhs.x, self.m42, rhs.y, self.m43, rhs.z, self.m44, rhs.w),
        }
    }
}

} // verus!

use crate::trig::{cos_fx, cos_spec, sin_fx, sin_spec};

verus! {

/// Single-axis rotation matrix.  The first non-zero component, tested in
/// the order `x`, `y`, `z`, supplies the angle, and the rotation turns
/// about that axis: the chosen coordinate is preserved and the other two
/// mix through the cosine and sine of the angle.
pub open spec fn mx_rot_spec(x: i64, y: i64, z: i64) -> Mx4x
    recommends
        x != 0 || y != 0 || z != 0,
{
    if x != 0 {
        Mx4t {
            m11: SCALE, m12: 0, m13: 0, m14: 0,
            m21: 0, m22: cos_spec(x), m23: subf(0, sin_spec(x)), m24: 0,
            m31: 0, m32: sin_spec(x), m33: cos_spec(x), m34: 0,
            m41: 0, m42: 0, m43: 0, m44: SCALE,
        }
    } else if y != 0 {
        Mx4t {
            m11: cos_spec(y), m12: 0, m13: subf(0, sin_spec(y)), m14: 0,
            m21: 0, m22: SCALE, m23: 0, m24: 0,
            m31: sin_spec(y), m32: 0, m33: cos_spec(y), m34: 0,
            m41: 0, m42: 0, m43: 0, m44: SCALE,
        }
    } else {
        Mx4t {
            m11: cos_spec(z), m12: subf(0, sin_spec(z)), m13: 0, m14: 0,
            m21: sin_spec(z), m22: cos_spec(z), m23: 0, m24: 0,
            m31: 0, m32: 0, m33: SCALE, m34: 0,
            m41: 0, m42: 0, m43: 0, m44: SCALE,
        }
    }
}

impl Mx4t<i64> {
    /// Single-axis rotation about the axis named by the first non-zero
    /// component; the all-zero vector names no axis and is reported as
    /// degenerate.
    pub fn rot(v: [i64; 3]) -> (r: Result<Mx4x, crate::DegenerateTransformError>)
        ensures
            (v[0] != 0 || v[1] != 0 || v[2] != 0) <==> r is Ok,
            r is Ok ==> r == Ok::<Mx4x, crate::DegenerateTransformError>(
                mx_rot_spec(v[0], v[1], v[2]),
            ),
    {
        if v[0] != 0 {
            let c = cos_fx(v[0]);
            let s = sin_fx(v[0]);
            Ok(Mx4t {
                m11: SCALE, m12: 0, m13: 0, m14: 0,
                m21: 0, m22: c, m23: fx_sub(0, s), m24: 0,
                m31: 0, m32: s, m33: c, m34: 0,
                m41: 0, m42: 0, m43: 0, m44: SCALE,
            })
        } else if v[1] != 0 {
            let c = cos_fx(v[1]);
            let s = sin_fx(v[1]);
            Ok(Mx4t {
                m11: c, m12: 0, m13: fx_sub(0, s), m14: 0,
                m21: 0, m22: SCALE, m23: 0, m24: 0,
                m31: s, m32: 0, m33: c, m34: 0,
                m41: 0, m42: 0, m43: 0, m44: SCALE,
            })
        } else if v[2] != 0 {
            let c = cos_fx(v[2]);
            let s = sin_fx(v[2]);
            Ok(Mx4t {
                m11: c, m12: fx_sub(0, s), m13: 0, m14: 0,
                m21: s, m22: c, m23: 0, m24: 0,
                m31: 0, m32: 0, m33: SCALE, m34: 0,
                m41: 0, m42: 0, m43: 0, m44: SCALE,
            })
        } else {
            Err(crate::DegenerateTransformError)
        }
    }
}

} // verus!
