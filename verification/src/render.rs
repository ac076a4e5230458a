//! The frame pipeline: compose the transform chain, apply it to every
//! vertex, cull back-facing triangles, map the survivors to screen space
//! and hand them to the rasterizer.
//!
//! Composition starts from a fixed base matrix, the exact rotation by pi
//! about the x axis (its cosine exactly -1 and its sine exactly 0 in fixed
//! point), which flips y and z so that +y and +z map to increasing pixel
//! and depth coordinates; each operation then folds in on the right, so
//! operation order is preserved and significant.

use vstd::prelude::*;

use crate::fixed::{tdiv, SCALE};
use crate::matrix::{
    mx_apply_spec, mx_identity_spec, mx_mul_spec, mx_proj_spec, mx_rot_spec, mx_scale_spec,
    mx_trans_spec, v4_sub_spec, Mx4t, Mx4x, V3i, V3t, V4x,
};
use crate::raster::{clampi, sign, Dim, MAX_COORD};
use crate::DegenerateTransformError;

verus! {

/// One transform operation: the kind tag (0 rotate, 1 translate, 2 scale,
/// 3 project, anything else the identity) and its fixed-point vector.
#[derive(Clone, Copy, Debug, PartialEq, Eq)]
pub struct Trans {
    pub t: u8,
    pub v: [i64; 3],
}

/// Negative one in fixed point.
pub const NEG_SCALE: i64 = -1_000_000;

/// The fixed base matrix: rotation by pi about the x axis, written with
/// its exact entries, so y and z are negated and x is preserved.
pub open spec fn base_flip_spec() -> Mx4x {
    Mx4t {
        m11: SCALE,
        m12: 0,
        m13: 0,
        m14: 0,
        m21: 0,
        m22: NEG_SCALE,
        m23: 0,
        m24: 0,
        m31: 0,
        m32: 0,
        m33: NEG_SCALE,
        m34: 0,
        m41: 0,
        m42: 0,
        m43: 0,
        m44: SCALE,
    }
}

/// The matrix of one operation, or nothing when it is degenerate: a
/// rotation by the zero vector, or a projection with zero `z`.
pub open spec fn op_matrix_spec(tr: Trans) -> Option<Mx4x> {
    if tr.t == 0 {
        if tr.v[0] != 0 || tr.v[1] != 0 || tr.v[2] != 0 {
            Some(mx_rot_spec(tr.v[0], tr.v[1], tr.v[2]))
        } else {
            None
        }
    } else if tr.t == 1 {
        Some(mx_trans_spec(tr.v[0], tr.v[1], tr.v[2]))
    } else if tr.t == 2 {
        Some(mx_scale_spec(tr.v[0], tr.v[1], tr.v[2]))
    } else if tr.t == 3 {
        if tr.v[2] != 0 {
            Some(mx_proj_spec(tr.v[2]))
        } else {
            None
        }
    } else {
        Some(mx_identity_spec())
    }
}

/// The net transform of an operation list: the base matrix with each
/// operation's matrix multiplied in on the right, in order; nothing when
/// any operation is degenerate.
pub open spec fn transform_spec(ops: Seq<Trans>) -> Option<Mx4x>
    decreases ops.len(),
{
    if ops.len() == 0 {
        Some(base_flip_spec())
    } else {
        match transform_spec(ops.drop_last()) {
            Option::None => Option::None,
            Option::Some(m) => match op_matrix_spec(ops.last()) {
                Option::None => Option::None,
                Option::Some(o) => Some(mx_mul_spec(m, o)),
            },
        }
    }
}

/// Once a prefix of the operations is degenerate, the whole chain is.
pub proof fn lemma_transform_none_prefix(ops: Seq<Trans>, k: int)
    requires
        0 <= k <= ops.len(),
        transform_spec(ops.take(k)) is None,
    ensures
        transform_spec(ops) is None,
    decreases ops.len() - k,
{
    if k == ops.len() {
        assert(ops.take(k) =~= ops);
    } else {
        assert(ops.take(k + 1).drop_last() =~= ops.take(k));
        assert(ops.take(k + 1).last() == ops[k]);
        lemma_transform_none_prefix(ops, k + 1);
    }
}

/// The matrix of one operation, or the degenerate-transform error.
fn op_matrix(tr: &Trans) -> (r: Result<Mx4x, DegenerateTransformError>)
    ensures
        r is Ok <==> op_matrix_spec(*tr) is Some,
        r is Ok ==> r.unwrap() == op_matrix_spec(*tr).unwrap(),
{
    if tr.t == 0 {
        Mx4t::rot(tr.v)
    } else if tr.t == 1 {
        Ok(Mx4t::trans(tr.v))
    } else if tr.t == 2 {
        Ok(Mx4t::scale(tr.v))
    } else if tr.t == 3 {
        Mx4t::proj(tr.v)
    } else {
        Ok(Mx4t::identity())
    }
}

/// Compose the operation list into one net transform matrix, failing on
/// the first degenerate operation.
pub fn transform(li: &Vec<Trans>) -> (r: Result<Mx4x, DegenerateTransformError>)
    ensures
        r is Ok <==> transform_spec(li@) is Some,
        r is Ok ==> r.unwrap() == transform_spec(li@).unwrap(),
{
    let mut t = Mx4t::new(
        SCALE,
        0,
        0,
        0,
        0,
        NEG_SCALE,
        0,
        0,
        0,
        0,
        NEG_SCALE,
        0,
        0,
        0,
        0,
        SCALE,
    );
    proof {
        assert(li@.take(0) =~= Seq::<Trans>::empty());
    }
    let mut k: usize = 0;
    while k < li.len()
        invariant
            0 <= k <= li.len(),
            transform_spec(li@.take(k as int)) == Some(t),
        decreases li.len() - k,
    {
        proof {
            assert(li@.take(k as int + 1).drop_last() =~= li@.take(k as int));
            assert(li@.take(k as int + 1).last() == li@[k as int]);
        }
        match op_matrix(&li[k]) {
            Ok(o) => {
                t = t.mmul(o);
            },
            Err(e) => {
                proof {
                    lemma_transform_none_prefix(li@, k as int + 1);
                }
                return Err(e);
            },
        }
        k = k + 1;
    }
    proof {
        assert(li@.take(li.len() as int) =~= li@);
    }
    Ok(t)
}

} // verus!

use crate::mobj::Module;
use crate::raster::{raster_img, raster_zbuf, triangle, order6, Pt};
use crate::{DrawError, OutOfRangeIndexError, ParseError};

verus! {

/// A transformed coordinate mapped to the pixel (or depth) range:
/// `(c + 1) * (size - 1) / 2` carried out in fixed point and truncated to
/// an integer, exactly.
pub open spec fn map_axis(c: i64, size: int) -> int {
    tdiv((c + SCALE) * (size - 1), 2 * (SCALE as int))
}

/// A transformed vertex brought to integer screen space: `x` and `y` are
/// mapped into the canvas, `z` into the depth range, each clamped so the
/// rasterizer's coordinate bound holds for any input.
pub open spec fn p3i_spec(v: V4x, d: Dim) -> V3i {
    V3t {
        x: clampi(map_axis(v.x, d.w as int), -(MAX_COORD as int), MAX_COORD as int) as i32,
        y: clampi(map_axis(v.y, d.h as int), -(MAX_COORD as int), MAX_COORD as int) as i32,
        z: clampi(map_axis(v.z, d.d as int), 0, 255) as i32,
    }
}

fn map_axis_exec(c: i64, size: u32, lo: i64, hi: i64) -> (r: i32)
    requires
        1 <= size <= MAX_COORD,
        -(MAX_COORD as int) <= lo <= hi <= MAX_COORD as int,
    ensures
        r as int == clampi(map_axis(c, size as int), lo as int, hi as int),
{
    proof {
        crate::fixed::lemma_mul_in_i128(
            c as int + SCALE as int,
            size as int - 1,
            i64::MAX as int + SCALE as int + 1,
            MAX_COORD as int,
        );
    }
    let p: i128 = (c as i128 + SCALE as i128) * ((size - 1) as i128);
    let q: i128 = p / (2 * SCALE as i128);
    let r: i128 = if q < lo as i128 {
        lo as i128
    } else if q > hi as i128 {
        hi as i128
    } else {
        q
    };
    r as i32
}

/// A transformed vertex brought to integer screen space.
pub fn p3i(v: &V4x, d: &Dim) -> (r: V3i)
    requires
        1 <= d.w <= MAX_COORD,
        1 <= d.h <= MAX_COORD,
        d.d >= 1,
    ensures
        r == p3i_spec(*v, *d),
        -MAX_COORD <= r.x <= MAX_COORD,
        -MAX_COORD <= r.y <= MAX_COORD,
        0 <= r.z <= 255,
{
    V3t {
        x: map_axis_exec(v.x, d.w, -MAX_COORD as i64, MAX_COORD as i64),
        y: map_axis_exec(v.y, d.h, -MAX_COORD as i64, MAX_COORD as i64),
        z: map_axis_exec(v.z, d.d as u32, 0, 255),
    }
}

/// The sign of the cull test for a triangle of transformed vertices: the
/// facing vector `(0, 0, 1)` dotted with the negated, normalized cross
/// product of the two edges from corner 2.  Normalizing and negating keep
/// or flip no more than the sign, so the sign is that of
/// `e0.y * e1.x - e0.x * e1.y`, computed here exactly.
pub open spec fn front_sign(a: V4x, b: V4x, c: V4x) -> int {
    let e0 = v4_sub_spec(a, c);
    let e1 = v4_sub_spec(b, c);
    sign(e0.y * e1.x - e0.x * e1.y)
}

/// The sign of the cull test, exactly.
pub fn front_sign_of(a: &V4x, b: &V4x, c: &V4x) -> (r: i32)
    ensures
        r as int == front_sign(*a, *b, *c),
        -1 <= r <= 1,
{
    let e0 = a.vsub(*c);
    let e1 = b.vsub(*c);
    proof {
        crate::fixed::lemma_mul_in_i128(
            e0.y as int,
            e1.x as int,
            i64::MAX as int + 1,
            i64::MAX as int + 1,
        );
        crate::fixed::lemma_mul_in_i128(
            e0.x as int,
            e1.y as int,
            i64::MAX as int + 1,
            i64::MAX as int + 1,
        );
    }
    let p1: i128 = (e0.y as i128) * (e1.x as i128);
    let p2: i128 = (e0.x as i128) * (e1.y as i128);
    if p1 > p2 {
        1
    } else if p1 < p2 {
        -1
    } else {
        0
    }
}

/// One corner's texture coordinate scaled to texel space and clamped onto
/// the rasterizer's coordinate range.
pub open spec fn tex_corner(vt: V4x, ttw: int, tth: int) -> V3i {
    V3t {
        x: clampi(tdiv(vt.x * ttw, SCALE as int), -(MAX_COORD as int), MAX_COORD as int) as i32,
        y: clampi(tdiv(vt.y * tth, SCALE as int), -(MAX_COORD as int), MAX_COORD as int) as i32,
        z: 0,
    }
}

fn tex_axis(c: i64, size: u32) -> (r: i32)
    requires
        1 <= size <= MAX_COORD,
    ensures
        r as int == clampi(
            tdiv(c as int * size as int, SCALE as int),
            -(MAX_COORD as int),
            MAX_COORD as int,
        ),
{
    proof {
        crate::fixed::lemma_mul_in_i128(
            c as int,
            size as int,
            i64::MAX as int + 1,
            MAX_COORD as int,
        );
    }
    let p: i128 = (c as i128) * (size as i128);
    let q: i128 = p / (SCALE as i128);
    if q < -MAX_COORD as i128 {
        -MAX_COORD
    } else if q > MAX_COORD as i128 {
        MAX_COORD
    } else {
        q as i32
    }
}

} // verus!

verus! {

/// A texture coordinate brought to integer texel space (its third
/// component is unused and zeroed).
pub fn tex_corner_of(vt: &V4x, ttdm: &Pt) -> (r: V3i)
    requires
        1 <= ttdm.x <= MAX_COORD,
        1 <= ttdm.y <= MAX_COORD,
    ensures
        r == tex_corner(*vt, ttdm.x as int, ttdm.y as int),
        -MAX_COORD <= r.x <= MAX_COORD,
        -MAX_COORD <= r.y <= MAX_COORD,
        r.z == 0,
{
    V3t { x: tex_axis(vt.x, ttdm.x), y: tex_axis(vt.y, ttdm.y), z: 0 }
}

/// The transformed-vertex array: the net transform applied to every
/// position.  Its length always equals the position array's, and it is
/// built afresh from its arguments alone on every call.
pub fn transform_vertices(t: &Mx4x, vs: &Vec<V4x>) -> (r: Vec<V4x>)
    ensures
        r@.len() == vs@.len(),
        forall|j: int| 0 <= j < vs@.len() ==> r@[j] == mx_apply_spec(*t, #[trigger] vs@[j]),
{
    let mut out: Vec<V4x> = Vec::new();
    let mut j: usize = 0;
    while j < vs.len()
        invariant
            0 <= j <= vs.len(),
            out@.len() == j,
            forall|q: int| 0 <= q < j ==> out@[q] == mx_apply_spec(*t, #[trigger] vs@[q]),
        decreases vs.len() - j,
    {
        out.push(t.mul_v4(&vs[j]));
        j = j + 1;
    }
    out
}

/// Diagnostic counters for one frame: `draw_count` counts the triangles
/// discarded by the cull test.
#[derive(Clone, Copy, Debug, PartialEq, Eq, Default)]
pub struct Stat {
    pub draw_count: u32,
}

/// A loaded scene: the mesh, the texture bytes, and the texture's pixel
/// dimensions.
#[derive(Debug, Clone, Default)]
pub struct Obj {
    pub md: Option<Module>,
    pub vtt: Option<Vec<u8>>,
    pub vtt_xy: Pt,
}

/// Build a scene from mesh source text and texture bytes, either of which
/// may be absent; `xy` gives the texture's width and height.  A malformed
/// mesh aborts the load.
pub fn rload(md_str: Option<Vec<u8>>, vtt: Option<Vec<u8>>, xy: Vec<u32>) -> (r: Result<
    Obj,
    ParseError,
>)
    requires
        md_str is Some || vtt is Some,
        vtt is Some ==> xy@.len() >= 2,
    ensures
        ({
            match md_str {
                Some(s) => (r is Ok <==> crate::mobj::parse_spec(s@) is Some) && (r is Ok
                    ==> r.unwrap().md is Some && r.unwrap().md.unwrap()@ == crate::mobj::parse_spec(
                    s@,
                ).unwrap()),
                None => r is Ok && r.unwrap().md is None,
            }
        }),
        r is Ok ==> r.unwrap().vtt == vtt,
        r is Ok ==> r.unwrap().vtt_xy == (match vtt {
            Some(_) => (Pt { x: xy@[0], y: xy@[1] }),
            None => (Pt { x: 0, y: 0 }),
        }),
{
    let md = match md_str {
        Some(s) => match Module::new(s) {
            Ok(m) => Some(m),
            Err(e) => {
                return Err(e);
            },
        },
        None => None,
    };
    let vtt_xy = match &vtt {
        Some(_) => Pt { x: xy[0], y: xy[1] },
        None => Pt { x: 0, y: 0 },
    };
    Ok(Obj { md, vtt, vtt_xy })
}

} // verus!

verus! {

/// An all-zero byte buffer: transparent black, depth zero.
pub open spec fn zero_seq(n: int) -> Seq<u8> {
    Seq::new(n as nat, |i: int| 0u8)
}

/// The transformed-vertex array, as a sequence.
pub open spec fn tv_spec(net: Mx4x, vs: Seq<V4x>) -> Seq<V4x> {
    Seq::new(vs.len(), |j: int| mx_apply_spec(net, vs[j]))
}

/// Whether one face's used indices all point into the arrays: corners at
/// positions 0, 3, 6 reference positions, 1, 4, 7 reference texture
/// coordinates, all 1-based.
pub open spec fn face_in_range(f: Seq<usize>, nv: int, nvt: int) -> bool {
    f.len() >= 8 && 1 <= f[0] <= nv && 1 <= f[3] <= nv && 1 <= f[6] <= nv && 1 <= f[1] <= nvt && 1
        <= f[4] <= nvt && 1 <= f[7] <= nvt
}

/// One face folded into the frame: a front-facing triangle is mapped to
/// screen space and rasterized; a back-facing or edge-on one (cull sign
/// zero included) is skipped and counted.
pub open spec fn face_step(
    tv: Seq<V4x>,
    vt: Seq<V4x>,
    f: Seq<usize>,
    img: Seq<u8>,
    zb: Seq<u8>,
    cnt: int,
    d: Dim,
    ttw: int,
    tth: int,
    vtt: Seq<u8>,
) -> (Seq<u8>, Seq<u8>, int) {
    let a = tv[f[0] as int - 1];
    let b = tv[f[3] as int - 1];
    let c = tv[f[6] as int - 1];
    if front_sign(a, b, c) > 0 {
        let sv0 = p3i_spec(a, d);
        let sv1 = p3i_spec(b, d);
        let sv2 = p3i_spec(c, d);
        let st0 = tex_corner(vt[f[1] as int - 1], ttw, tth);
        let st1 = tex_corner(vt[f[4] as int - 1], ttw, tth);
        let st2 = tex_corner(vt[f[7] as int - 1], ttw, tth);
        let o = order6(sv0, sv1, sv2, st0, st1, st2);
        (
            raster_img(o.0, o.1, o.2, o.3, o.4, o.5, img, zb, d.w as int, vtt, ttw, tth),
            raster_zbuf(o.0, o.1, o.2, zb, d.w as int),
            cnt,
        )
    } else {
        (img, zb, cnt + 1)
    }
}

/// The faces folded in order into an initially black, depth-zero frame;
/// nothing when some face references an index out of range.
pub open spec fn render_faces(
    tv: Seq<V4x>,
    vt: Seq<V4x>,
    fs: Seq<Seq<usize>>,
    img: Seq<u8>,
    zb: Seq<u8>,
    cnt: int,
    d: Dim,
    ttw: int,
    tth: int,
    vtt: Seq<u8>,
) -> Option<(Seq<u8>, Seq<u8>, int)>
    decreases fs.len(),
{
    if fs.len() == 0 {
        Some((img, zb, cnt))
    } else {
        match render_faces(tv, vt, fs.drop_last(), img, zb, cnt, d, ttw, tth, vtt) {
            Option::None => Option::None,
            Option::Some(s) => {
                if face_in_range(fs.last(), tv.len() as int, vt.len() as int) {
                    Some(face_step(tv, vt, fs.last(), s.0, s.1, s.2, d, ttw, tth, vtt))
                } else {
                    Option::None
                }
            },
        }
    }
}

/// Once a prefix of the faces is out of range, the whole frame fails.
pub proof fn lemma_render_none_prefix(
    tv: Seq<V4x>,
    vt: Seq<V4x>,
    fs: Seq<Seq<usize>>,
    img: Seq<u8>,
    zb: Seq<u8>,
    cnt: int,
    d: Dim,
    ttw: int,
    tth: int,
    vtt: Seq<u8>,
    k: int,
)
    requires
        0 <= k <= fs.len(),
        render_faces(tv, vt, fs.take(k), img, zb, cnt, d, ttw, tth, vtt) is None,
    ensures
        render_faces(tv, vt, fs, img, zb, cnt, d, ttw, tth, vtt) is None,
    decreases fs.len() - k,
{
    if k == fs.len() {
        assert(fs.take(k) =~= fs);
    } else {
        assert(fs.take(k + 1).drop_last() =~= fs.take(k));
        assert(fs.take(k + 1).last() == fs[k]);
        lemma_render_none_prefix(tv, vt, fs, img, zb, cnt, d, ttw, tth, vtt, k + 1);
    }
}

/// An edge-on triangle, whose cull test yields exactly zero, is not
/// rasterized: the frame's buffers leave [`face_step`] unchanged, exactly
/// as for a back-facing one.  Only a strictly positive cull sign draws.
pub proof fn lemma_orthogonal_face_not_drawn(
    tv: Seq<V4x>,
    vt: Seq<V4x>,
    f: Seq<usize>,
    img: Seq<u8>,
    zb: Seq<u8>,
    cnt: int,
    d: Dim,
    ttw: int,
    tth: int,
    vtt: Seq<u8>,
)
    requires
        front_sign(tv[f[0] as int - 1], tv[f[3] as int - 1], tv[f[6] as int - 1]) == 0,
    ensures
        face_step(tv, vt, f, img, zb, cnt, d, ttw, tth, vtt).0 == img,
        face_step(tv, vt, f, img, zb, cnt, d, ttw, tth, vtt).1 == zb,
        face_step(tv, vt, f, img, zb, cnt, d, ttw, tth, vtt).2 == cnt + 1,
{
}

/// A fresh all-zero byte buffer.
fn zero_vec(n: usize) -> (r: Vec<u8>)
    ensures
        r@ == zero_seq(n as int),
{
    let mut v: Vec<u8> = Vec::new();
    let mut i: usize = 0;
    while i < n
        invariant
            0 <= i <= n,
            v@.len() == i,
            forall|q: int| 0 <= q < i ==> v@[q] == 0u8,
        decreases n - i,
    {
        v.push(0);
        i = i + 1;
    }
    proof {
        assert(v@ =~= zero_seq(n as int));
    }
    v
}

/// The square frame dimension: the lesser of the requested width and
/// height.
pub open spec fn frame_dim(cvs_x: u32, cvs_y: u32) -> u32 {
    if cvs_x > cvs_y {
        cvs_y
    } else {
        cvs_x
    }
}

} // verus!

verus! {

/// Render one frame: compose the transform chain, transform every vertex
/// afresh, cull, scan-convert each surviving face into a square RGBA
/// buffer guarded by the depth buffer, and return the buffer with the
/// discard count.  The buffers are rebuilt from zero on every call, so no
/// state survives between frames.
#[verifier::loop_isolation(false)]
#[verifier::rlimit(100)]
#[verifier::spinoff_prover]
pub fn draw(obj: &Obj, trans: &Vec<Trans>, cvs_x: u32, cvs_y: u32) -> (r: Result<
    (Vec<u8>, Stat),
    DrawError,
>)
    requires
        obj.md is Some,
        obj.vtt is Some,
        obj.vtt.unwrap()@.len() == 4 * obj.vtt_xy.x * obj.vtt_xy.y,
        1 <= obj.vtt_xy.x <= MAX_COORD,
        1 <= obj.vtt_xy.y <= MAX_COORD,
        1 <= frame_dim(cvs_x, cvs_y) <= MAX_COORD,
        obj.md.unwrap()@.f.len() <= u32::MAX,
    ensures
        ({
            let md = obj.md.unwrap()@;
            let dd = frame_dim(cvs_x, cvs_y) as int;
            let dim = (Dim { w: frame_dim(cvs_x, cvs_y), h: frame_dim(cvs_x, cvs_y), d: 255 });
            let ttw = obj.vtt_xy.x as int;
            let tth = obj.vtt_xy.y as int;
            match transform_spec(trans@) {
                Option::None => r == Err::<(Vec<u8>, Stat), DrawError>(
                    DrawError::DegenerateTransform(DegenerateTransformError),
                ),
                Option::Some(net) => {
                    match render_faces(
                        tv_spec(net, md.v),
                        md.vt,
                        md.f,
                        zero_seq(4 * dd * dd),
                        zero_seq(dd * dd),
                        0,
                        dim,
                        ttw,
                        tth,
                        obj.vtt.unwrap()@,
                    ) {
                        Option::None => r == Err::<(Vec<u8>, Stat), DrawError>(
                            DrawError::OutOfRangeIndex(OutOfRangeIndexError),
                        ),
                        Option::Some(s) => r is Ok && r.unwrap().0@ == s.0 && r.unwrap().1
                            == (Stat { draw_count: s.2 as u32 }),
                    }
                },
            }
        }),
{
    let md = obj.md.as_ref().unwrap();
    let vtt = obj.vtt.as_ref().unwrap();
    let t = match transform(trans) {
        Ok(t) => t,
        Err(e) => {
            return Err(DrawError::DegenerateTransform(e));
        },
    };
    let d: u32 = if cvs_x > cvs_y {
        cvs_y
    } else {
        cvs_x
    };
    let vdim = Dim { w: d, h: d, d: 255 };
    proof {
        assert((d as int) * (d as int) <= 0x10000000 && 0 <= (d as int) * (d as int))
            by (nonlinear_arith)
            requires
                1 <= d as int <= 16384,
        ;
    }
    let n: usize = (d as usize) * (d as usize);
    let mut img: Vec<u8> = zero_vec(4 * n);
    let mut zbuf: Vec<u8> = zero_vec(n);
    let ghost dd = d as int;
    let ghost ttw = obj.vtt_xy.x as int;
    let ghost tth = obj.vtt_xy.y as int;
    let ghost net = transform_spec(trans@).unwrap();
    proof {
        assert(4 * (dd * dd) == 4 * dd * dd) by (nonlinear_arith);
        assert(img@ =~= zero_seq(4 * dd * dd));
        assert(zbuf@ =~= zero_seq(dd * dd));
    }
    let transv = transform_vertices(&t, md.v());
    proof {
        assert(transv@ =~= tv_spec(net, obj.md.unwrap()@.v));
    }
    let vts = md.vt();
    let fs = md.f();
    let ghost fsv = obj.md.unwrap()@.f;
    let ghost img0 = img@;
    let ghost zb0 = zbuf@;
    let mut stat = Stat { draw_count: 0 };
    let mut fi: usize = 0;
    proof {
        assert(fsv.take(0) =~= Seq::<Seq<usize>>::empty());
    }
    while fi < fs.len()
        invariant
            0 <= fi <= fs.len(),
            stat.draw_count <= fi,
            img@.len() == img0.len(),
            zbuf@.len() == zb0.len(),
            render_faces(
                transv@,
                vts@,
                fsv.take(fi as int),
                img0,
                zb0,
                0,
                vdim,
                ttw,
                tth,
                vtt@,
            ) == Some((img@, zbuf@, stat.draw_count as int)),
        decreases fs.len() - fi,
    {
        let ghost fv = fsv[fi as int];
        proof {
            assert(fs@[fi as int].deep_view() =~= fs@[fi as int]@);
            assert(fsv.take(fi as int + 1).drop_last() =~= fsv.take(fi as int));
            assert(fsv.take(fi as int + 1).last() == fv);
        }
        let f = &fs[fi];
        let ok = f.len() >= 8 && {
            let i0 = f[0];
            let i3 = f[3];
            let i6 = f[6];
            let i1 = f[1];
            let i4 = f[4];
            let i7 = f[7];
            1 <= i0 && i0 <= transv.len() && 1 <= i3 && i3 <= transv.len() && 1 <= i6 && i6
                <= transv.len() && 1 <= i1 && i1 <= vts.len() && 1 <= i4 && i4 <= vts.len() && 1
                <= i7 && i7 <= vts.len()
        };
        if !ok {
            proof {
                assert(!face_in_range(fv, transv@.len() as int, vts@.len() as int));
                lemma_render_none_prefix(
                    transv@,
                    vts@,
                    fsv,
                    img0,
                    zb0,
                    0,
                    vdim,
                    ttw,
                    tth,
                    vtt@,
                    fi as int + 1,
                );
            }
            return Err(DrawError::OutOfRangeIndex(OutOfRangeIndexError));
        }
        let a = transv[f[0] - 1];
        let b = transv[f[3] - 1];
        let c = transv[f[6] - 1];
        let fsign = front_sign_of(&a, &b, &c);
        if fsign > 0 {
            let sv = [p3i(&a, &vdim), p3i(&b, &vdim), p3i(&c, &vdim)];
            let st = [
                tex_corner_of(&vts[f[1] - 1], &obj.vtt_xy),
                tex_corner_of(&vts[f[4] - 1], &obj.vtt_xy),
                tex_corner_of(&vts[f[7] - 1], &obj.vtt_xy),
            ];
            triangle(sv, st, &mut img, vtt, &vdim, &mut zbuf, &obj.vtt_xy);
        } else {
            stat.draw_count = stat.draw_count + 1;
        }
        fi = fi + 1;
    }
    proof {
        assert(fsv.take(fs.len() as int) =~= fsv);
    }
    Ok((img, stat))
}

} // verus!
