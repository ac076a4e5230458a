use softrender::fixed::{fx_add, fx_div, fx_mul, fx_sqrt, fx_sub, SCALE};
use softrender::matrix::{as_v3d, Mx4t, V3t, V4t};
use softrender::render::{transform, transform_vertices, Trans, NEG_SCALE};
use softrender::trig::{cos_fx, sin_fx, PI_FX};

#[test]
fn fixed_point_arithmetic_is_exact() {
    assert_eq!(fx_add(1_500_000, 250_000), 1_750_000);
    assert_eq!(fx_sub(250_000, 1_500_000), -1_250_000);
    assert_eq!(fx_mul(2_000_000, 3_000_000), 6_000_000);
    // products truncate toward zero
    assert_eq!(fx_mul(-1_500_000, 1_000), -1_500);
    assert_eq!(fx_div(1_000_000, 3_000_000), 333_333);
    assert_eq!(fx_div(SCALE, -2_000_000), -500_000);
    // sums saturate instead of wrapping
    assert_eq!(fx_add(i64::MAX, 1), i64::MAX);
    assert_eq!(fx_sub(i64::MIN, 1), i64::MIN);
}

#[test]
fn fixed_point_square_root() {
    assert_eq!(fx_sqrt(4_000_000), 2_000_000);
    assert_eq!(fx_sqrt(2_000_000), 1_414_213);
    assert_eq!(fx_sqrt(0), 0);
}

#[test]
fn trig_values() {
    assert_eq!(cos_fx(0), SCALE);
    assert_eq!(sin_fx(0), 0);
    assert_eq!(cos_fx(PI_FX), -SCALE);
    assert_eq!(sin_fx(PI_FX), 3);
    assert_eq!(cos_fx(PI_FX / 2), 0);
    assert_eq!(sin_fx(PI_FX / 2), SCALE);
    assert_eq!(cos_fx(SCALE), 540_302);
    assert_eq!(sin_fx(SCALE), 841_471);
    assert_eq!(sin_fx(-SCALE), -841_471);
}

#[test]
fn vector_ops() {
    let a = V3t::new(3 * SCALE, 4 * SCALE, 0);
    assert_eq!(a.dot(a), 25 * SCALE);
    assert_eq!(a.norm(), 5 * SCALE);
    let n = a.normalize();
    assert_eq!((n.x, n.y, n.z), (600_000, 800_000, 0));
    let b = V3t::new(SCALE, 0, 0);
    let c = V3t::new(0, SCALE, 0);
    let x = b.cross(c);
    assert_eq!((x.x, x.y, x.z), (0, 0, SCALE));
    let s = a.scale(500_000);
    assert_eq!((s.x, s.y, s.z), (1_500_000, 2_000_000, 0));
    let d = a.vadd(b).vsub(c);
    assert_eq!((d.x, d.y, d.z), (4 * SCALE, 3 * SCALE, 0));
}

#[test]
fn homogeneous_vector_ops() {
    let a = V4t::new(SCALE, 2 * SCALE, 3 * SCALE, SCALE);
    assert_eq!(a.dot(a), 15 * SCALE);
    let p = a.v3t();
    assert_eq!((p.x, p.y, p.z), (SCALE, 2 * SCALE, 3 * SCALE));
    let q = as_v3d(a);
    assert_eq!((q.x, q.y, q.z), (SCALE, 2 * SCALE, 3 * SCALE));
    assert_eq!(a.norm(), 3_872_983);
    let s = a.scale(2 * SCALE);
    assert_eq!((s.x, s.y, s.z, s.w), (2 * SCALE, 4 * SCALE, 6 * SCALE, 2 * SCALE));
}

#[test]
fn matrix_constructors_and_product() {
    let id = Mx4t::identity();
    let t = Mx4t::trans([SCALE, 0, 0]);
    let v = V4t::new(0, 0, 0, SCALE);
    let moved = t.mul_v4(&v);
    assert_eq!((moved.x, moved.y, moved.z, moved.w), (SCALE, 0, 0, SCALE));
    let both = id.mmul(t).mul_v4(&v);
    assert_eq!((both.x, both.y, both.z, both.w), (SCALE, 0, 0, SCALE));
    let sum = id.madd(id);
    assert_eq!(sum.m11, 2 * SCALE);
    let diff = id.msub(id);
    assert_eq!(diff.m11, 0);
}

/// The first non-zero component names the geometric axis: an x rotation
/// preserves x and mixes y and z; a z rotation preserves z and mixes x
/// and y.
#[test]
fn rotation_matrix_entries() {
    let r = Mx4t::rot([SCALE, 0, 0]).unwrap();
    assert_eq!(r.m11, SCALE);
    assert_eq!(r.m22, 540_302);
    assert_eq!(r.m23, -841_471);
    assert_eq!(r.m32, 841_471);
    assert_eq!(r.m33, 540_302);
    assert_eq!(r.m44, SCALE);
    let r = Mx4t::rot([0, SCALE, 0]).unwrap();
    assert_eq!(r.m22, SCALE);
    assert_eq!(r.m11, 540_302);
    assert_eq!(r.m13, -841_471);
    assert_eq!(r.m31, 841_471);
    assert_eq!(r.m33, 540_302);
    let r = Mx4t::rot([0, 0, SCALE]).unwrap();
    assert_eq!(r.m33, SCALE);
    assert_eq!(r.m11, 540_302);
    assert_eq!(r.m12, -841_471);
    assert_eq!(r.m21, 841_471);
    assert_eq!(r.m22, 540_302);
}

/// A rotation by the zero vector names no axis: it must fail, not default
/// to the identity.
#[test]
fn zero_rotation_is_degenerate() {
    assert!(Mx4t::rot([0, 0, 0]).is_err());
    let ops = vec![Trans { t: 0, v: [0, 0, 0] }];
    assert!(transform(&ops).is_err());
}

#[test]
fn zero_z_projection_is_degenerate() {
    assert!(Mx4t::proj([0, 0, 0]).is_err());
    let ops = vec![Trans { t: 3, v: [SCALE, SCALE, 0] }];
    assert!(transform(&ops).is_err());
    let ok = Mx4t::proj([0, 0, 2 * SCALE]).unwrap();
    assert_eq!(ok.m43, 500_000);
}

/// The base flip is the exact pi rotation about the x axis: x is
/// preserved, y and z are negated.
#[test]
fn empty_chain_is_the_base_flip() {
    let net = transform(&vec![]).unwrap();
    let v = net.mul_v4(&V4t::new(SCALE, SCALE, SCALE, SCALE));
    assert_eq!((v.x, v.y, v.z, v.w), (SCALE, -SCALE, -SCALE, SCALE));
    assert_eq!(net.m22, NEG_SCALE);
}

/// Composition order: operations fold into the net matrix left to right,
/// `net = net * op`, and the net matrix multiplies column vectors.  The
/// later operation therefore reaches the point first: with
/// [Scale(0.5), Translate(1,0,0)] the origin is translated, then scaled,
/// landing at 0.5 (the base flip preserves `x`).
#[test]
fn composition_order_is_significant() {
    let ops = vec![
        Trans { t: 2, v: [500_000, 500_000, 500_000] },
        Trans { t: 1, v: [SCALE, 0, 0] },
    ];
    let net = transform(&ops).unwrap();
    let p = net.mul_v4(&V4t::new(0, 0, 0, SCALE));
    assert_eq!((p.x, p.y, p.z, p.w), (500_000, 0, 0, SCALE));
    // swapping the operations changes the result
    let swapped = vec![
        Trans { t: 1, v: [SCALE, 0, 0] },
        Trans { t: 2, v: [500_000, 500_000, 500_000] },
    ];
    let net2 = transform(&swapped).unwrap();
    let q = net2.mul_v4(&V4t::new(0, 0, 0, SCALE));
    assert_eq!((q.x, q.y, q.z, q.w), (SCALE, 0, 0, SCALE));
}

#[test]
fn unknown_operation_kind_is_identity() {
    let ops = vec![Trans { t: 9, v: [SCALE, SCALE, SCALE] }];
    let net = transform(&ops).unwrap();
    let v = net.mul_v4(&V4t::new(SCALE, 0, 0, SCALE));
    assert_eq!((v.x, v.y, v.z, v.w), (SCALE, 0, 0, SCALE));
}

/// The transformed-vertex array always has one entry per position.
#[test]
fn transformed_array_matches_positions() {
    let net = transform(&vec![]).unwrap();
    let vs = vec![
        V4t::new(0, 0, 0, SCALE),
        V4t::new(SCALE, 0, 0, SCALE),
        V4t::new(0, SCALE, 0, SCALE),
    ];
    let tv = transform_vertices(&net, &vs);
    assert_eq!(tv.len(), vs.len());
    assert_eq!((tv[1].x, tv[1].y), (SCALE, 0));
    assert_eq!((tv[2].x, tv[2].y), (0, -SCALE));
}
