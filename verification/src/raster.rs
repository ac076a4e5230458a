//! The triangle rasterizer.
//!
//! A triangle arrives as three integer screen-space vertices with their
//! texture corners.  The corners are ordered by descending `x`, and the
//! triangle is walked column by column along `x` (the unconventional scan
//! order of this renderer, kept deliberately): each column interpolates a
//! span of rows between the long edge and the chain of short edges, and a
//! parallel walk over the texture corners yields the texel for every pixel.
//! A pixel is written only when it lies on the canvas and the depth buffer
//! holds a value strictly below the triangle's flat depth, the integer
//! average of the three mapped `z` values.  Ties never overwrite.
//!
//! The contract of [`triangle`] gives the final color and depth buffers
//! pixel by pixel, which is what makes depth-test idempotence
//! ([`lemma_raster_idempotent`]) a theorem rather than a hope.
//!
//! Buffers are row-major: the pixel `(x, y)` lives at index `y * w + x`,
//! and the texture row `ty` is flipped (`th - 1 - ty`) when sampling, one
//! consistent orientation convention for every path.

use vstd::prelude::*;

use crate::fixed::{lemma_tdiv_bound, tdiv};
use crate::matrix::V3i;

verus! {

/// Canvas dimensions: width and height in pixels, and the depth range top.
#[derive(Clone, Copy, Debug, PartialEq, Eq)]
pub struct Dim {
    pub w: u32,
    pub h: u32,
    pub d: u8,
}

/// A pair of pixel dimensions, used for the texture image.
#[derive(Clone, Copy, Debug, PartialEq, Eq, Default)]
pub struct Pt {
    pub x: u32,
    pub y: u32,
}

/// Largest coordinate magnitude the rasterizer accepts; canvas and texture
/// dimensions stay below it, and all interpolation arithmetic then fits
/// comfortably in 64 bits.
pub const MAX_COORD: i32 = 16384;

pub open spec fn sign(a: int) -> int {
    if a > 0 {
        1
    } else if a < 0 {
        -1
    } else {
        0
    }
}

/// The long-edge `x` position of column `i`, interpolated from corner 0
/// toward corner 2 over the whole `x`-span.
pub open spec fn col_x02(a0: int, a2: int, i: int, x02l: int) -> int {
    tdiv((a2 - a0) * i, x02l) + a0
}

/// The short-edge `y` boundary of column `i`: from corner 0 toward corner 1
/// while the column lies in that edge's span, then from corner 1 toward
/// corner 2.
pub open spec fn col_y11(a0: int, a1: int, a2: int, i: int, x01l: int, x12l: int) -> int {
    if i < x01l {
        a0 + tdiv((a1 - a0) * i, x01l)
    } else {
        a1 + tdiv((a2 - a1) * (i - x01l), x12l)
    }
}

/// The signed row span of column `i`: long-edge boundary minus short-edge
/// boundary.
pub open spec fn col_yl(
    a0: int,
    a1: int,
    a2: int,
    i: int,
    x02l: int,
    x01l: int,
    x12l: int,
) -> int {
    tdiv((a2 - a0) * i, x02l) + a0 - col_y11(a0, a1, a2, i, x01l, x12l)
}

/// Number of rows filled in column `i`: the magnitude of the span plus one.
pub open spec fn col_ylen(a0: int, a1: int, a2: int, i: int, x02l: int, x01l: int, x12l: int) -> int {
    let yl = col_yl(a0, a1, a2, i, x02l, x01l, x12l);
    yl * sign(yl) + 1
}

/// A product of a bounded factor and a loop index stays within the bound
/// once divided by the index's range.
proof fn lemma_interp_bound(a: int, i: int, b: int, c: int)
    requires
        b > 0,
        0 <= i <= b,
        -c <= a <= c,
        0 <= c <= 32768,
        b <= 32768,
    ensures
        -c <= tdiv(a * i, b) <= c,
        -0x40000000 <= a * i <= 0x40000000,
{
    assert(-(c * b) <= a * i <= c * b && -0x40000000 <= a * i <= 0x40000000) by (nonlinear_arith)
        requires
            b > 0,
            0 <= i <= b,
            -c <= a <= c,
            0 <= c <= 32768,
            b <= 32768,
    ;
    lemma_tdiv_bound(a * i, b, c);
}

/// One column of the scan: the long-edge `x`, the short-edge `y` boundary,
/// the scan direction, and the number of rows, exactly as the column
/// formulas give them.
pub fn xy(v012: [V3i; 3], ip: [i32; 4]) -> (r: [i32; 4])
    requires
        ({
            let v0 = v012[0];
            let v1 = v012[1];
            let v2 = v012[2];
            let i = ip[0];
            let x02l = ip[1];
            let x01l = ip[2];
            let x12l = ip[3];
            -MAX_COORD <= v0.x <= MAX_COORD && -MAX_COORD <= v0.y <= MAX_COORD && -MAX_COORD
                <= v1.x <= MAX_COORD && -MAX_COORD <= v1.y <= MAX_COORD && -MAX_COORD <= v2.x
                <= MAX_COORD && -MAX_COORD <= v2.y <= MAX_COORD && 0 < x02l <= 2 * MAX_COORD
                && 0 <= x01l && 0 <= x12l && x01l + x12l == x02l && 0 <= i < x02l
        }),
    ensures
        ({
            let v0 = v012[0];
            let v1 = v012[1];
            let v2 = v012[2];
            let i = ip[0] as int;
            let x02l = ip[1] as int;
            let x01l = ip[2] as int;
            let x12l = ip[3] as int;
            r[0] == col_x02(v0.x as int, v2.x as int, i, x02l) && r[1] == col_y11(
                v0.y as int,
                v1.y as int,
                v2.y as int,
                i,
                x01l,
                x12l,
            ) && r[2] == sign(col_yl(v0.y as int, v1.y as int, v2.y as int, i, x02l, x01l, x12l))
                && r[3] == col_ylen(v0.y as int, v1.y as int, v2.y as int, i, x02l, x01l, x12l)
                && -3 * MAX_COORD <= r[0] <= 3 * MAX_COORD && -3 * MAX_COORD <= r[1] <= 3
                * MAX_COORD && 1 <= r[3] <= 9 * MAX_COORD
        }),
{
    let v0 = v012[0];
    let v1 = v012[1];
    let v2 = v012[2];
    let i = ip[0] as i64;
    let x02l = ip[1] as i64;
    let x01l = ip[2] as i64;
    let x12l = ip[3] as i64;
    proof {
        lemma_interp_bound(
            v2.x as int - v0.x as int,
            i as int,
            x02l as int,
            2 * MAX_COORD as int,
        );
    }
    let x02 = (v2.x as i64 - v0.x as i64) * i / x02l + v0.x as i64;
    let y11 = if i < x01l {
        proof {
            lemma_interp_bound(
                v1.y as int - v0.y as int,
                i as int,
                x01l as int,
                2 * MAX_COORD as int,
            );
        }
        v0.y as i64 + (v1.y as i64 - v0.y as i64) * i / x01l
    } else {
        proof {
            lemma_interp_bound(
                v2.y as int - v1.y as int,
                i as int - x01l as int,
                x12l as int,
                2 * MAX_COORD as int,
            );
        }
        v1.y as i64 + (v2.y as i64 - v1.y as i64) * (i - x01l) / x12l
    };
    proof {
        lemma_interp_bound(
            v2.y as int - v0.y as int,
            i as int,
            x02l as int,
            2 * MAX_COORD as int,
        );
    }
    let yl = (v2.y as i64 - v0.y as i64) * i / x02l + v0.y as i64 - y11;
    let yneg: i64 = if yl > 0 {
        1
    } else if yl < 0 {
        -1
    } else {
        0
    };
    let yabs: i64 = if yl >= 0 {
        yl
    } else {
        -yl
    };
    proof {
        let yli = yl as int;
        if yli > 0 {
            assert(yli * 1 == yli);
        } else if yli < 0 {
            assert(yli * (-1) == -yli);
        } else {
            assert(yli * 0 == 0);
        }
    }
    let y11l = yabs + 1;
    [x02 as i32, y11 as i32, yneg as i32, y11l as i32]
}


} // verus!

verus! {

/// The triangle's flat depth: the truncated average of the three mapped
/// `z` values.  It is computed once and never interpolated.
pub open spec fn tri_z(v0: V3i, v1: V3i, v2: V3i) -> int {
    tdiv(v0.z + v1.z + v2.z, 3)
}

/// Whether the scan covers the pixel `(px, py)`, for corners already
/// ordered by descending `x`: the pixel's column must lie in the `x`-span,
/// and its row between the short-edge and long-edge boundaries of that
/// column.
pub open spec fn pix_on(v0: V3i, v1: V3i, v2: V3i, px: int, py: int) -> bool {
    let x02l = v0.x - v2.x;
    let x01l = v0.x - v1.x;
    let x12l = v1.x - v2.x;
    let i = v0.x - px;
    let y11 = col_y11(v0.y as int, v1.y as int, v2.y as int, i, x01l, x12l);
    let yl = col_yl(v0.y as int, v1.y as int, v2.y as int, i, x02l, x01l, x12l);
    0 <= i < x02l && (if yl >= 0 {
        y11 <= py <= y11 + yl
    } else {
        y11 + yl <= py <= y11
    })
}

/// The row index at which the scan reaches the pixel: its distance from
/// the short-edge boundary.
pub open spec fn pix_row(v0: V3i, v1: V3i, v2: V3i, px: int, py: int) -> int {
    let x01l = v0.x - v1.x;
    let x12l = v1.x - v2.x;
    let i = v0.x - px;
    let y11 = col_y11(v0.y as int, v1.y as int, v2.y as int, i, x01l, x12l);
    if py >= y11 {
        py - y11
    } else {
        y11 - py
    }
}

pub open spec fn clampi(a: int, lo: int, hi: int) -> int {
    if a < lo {
        lo
    } else if a > hi {
        hi
    } else {
        a
    }
}

/// Byte offset into the texture for column `i`, row `y`: the texture
/// corners are interpolated by the same column walk over the vertex
/// `x`-spans, the texel is clamped onto the image, and its row is flipped.
pub open spec fn tex_off(
    t0: V3i,
    t1: V3i,
    t2: V3i,
    i: int,
    y: int,
    vylen: int,
    x02l: int,
    x01l: int,
    x12l: int,
    ttw: int,
    tth: int,
) -> int {
    let tx02 = col_x02(t0.x as int, t2.x as int, i, x02l);
    let ty11 = col_y11(t0.y as int, t1.y as int, t2.y as int, i, x01l, x12l);
    let tyl = col_yl(t0.y as int, t1.y as int, t2.y as int, i, x02l, x01l, x12l);
    let tylen = tyl * sign(tyl) + 1;
    let ty = ty11 + tdiv(y * tylen * sign(tyl), vylen);
    let txc = clampi(tx02, 0, ttw - 1);
    let tyc = clampi(ty, 0, tth - 1);
    ((tth - 1 - tyc) * ttw + txc) * 4
}

/// Whether the triangle writes buffer cell `k`: the scan covers the pixel
/// and the depth test passes against the depth buffer as it stood when the
/// triangle began.
pub open spec fn pix_write(v0: V3i, v1: V3i, v2: V3i, zb0: Seq<u8>, w: int, k: int) -> bool {
    pix_on(v0, v1, v2, k % w, k / w) && (zb0[k] as int) < tri_z(v0, v1, v2)
}

/// The depth buffer after the triangle: its flat depth wherever it writes,
/// untouched elsewhere.
pub open spec fn raster_zbuf(v0: V3i, v1: V3i, v2: V3i, zb0: Seq<u8>, w: int) -> Seq<u8> {
    Seq::new(
        zb0.len(),
        |k: int|
            if pix_write(v0, v1, v2, zb0, w, k) {
                tri_z(v0, v1, v2) as u8
            } else {
                zb0[k]
            },
    )
}

/// The texture byte that lands in channel `ch` of buffer cell `k`.
pub open spec fn pix_byte(
    v0: V3i,
    v1: V3i,
    v2: V3i,
    t0: V3i,
    t1: V3i,
    t2: V3i,
    vtt: Seq<u8>,
    ttw: int,
    tth: int,
    w: int,
    k: int,
    ch: int,
) -> u8 {
    let px = k % w;
    let py = k / w;
    let i = v0.x - px;
    let y = pix_row(v0, v1, v2, px, py);
    let x02l = v0.x - v2.x;
    let x01l = v0.x - v1.x;
    let x12l = v1.x - v2.x;
    let vylen = col_ylen(v0.y as int, v1.y as int, v2.y as int, i, x02l, x01l, x12l);
    vtt[tex_off(t0, t1, t2, i, y, vylen, x02l, x01l, x12l, ttw, tth) + ch]
}

/// The color buffer after the triangle: the sampled texture byte in every
/// channel of every cell it writes, untouched elsewhere.
pub open spec fn raster_img(
    v0: V3i,
    v1: V3i,
    v2: V3i,
    t0: V3i,
    t1: V3i,
    t2: V3i,
    img0: Seq<u8>,
    zb0: Seq<u8>,
    w: int,
    vtt: Seq<u8>,
    ttw: int,
    tth: int,
) -> Seq<u8> {
    Seq::new(
        img0.len(),
        |b: int|
            {
                let k = b / 4;
                let ch = b % 4;
                if pix_write(v0, v1, v2, zb0, w, k) {
                    pix_byte(v0, v1, v2, t0, t1, t2, vtt, ttw, tth, w, k, ch)
                } else {
                    img0[b]
                }
            },
    )
}

/// The corner pairs reordered by the fixed compare-and-swap chain so the
/// `x` coordinates descend; texture corners move in lock-step.
pub open spec fn order6(v0: V3i, v1: V3i, v2: V3i, t0: V3i, t1: V3i, t2: V3i) -> (
    V3i,
    V3i,
    V3i,
    V3i,
    V3i,
    V3i,
) {
    let (v0, v1, t0, t1) = if v1.x > v0.x {
        (v1, v0, t1, t0)
    } else {
        (v0, v1, t0, t1)
    };
    let (v0, v2, t0, t2) = if v2.x > v0.x {
        (v2, v0, t2, t0)
    } else {
        (v0, v2, t0, t2)
    };
    let (v1, v2, t1, t2) = if v2.x > v1.x {
        (v2, v1, t2, t1)
    } else {
        (v1, v2, t1, t2)
    };
    (v0, v1, v2, t0, t1, t2)
}

/// The long-edge `x` of column `i` is simply the top corner's `x` minus
/// `i`: the interpolation divides an exact multiple.
pub proof fn lemma_col_x_closed(v0x: int, v2x: int, i: int)
    requires
        v0x - v2x > 0,
        0 <= i,
    ensures
        col_x02(v0x, v2x, i, v0x - v2x) == v0x - i,
{
    let b = v0x - v2x;
    assert((v2x - v0x) * i == -((v0x - v2x) * i)) by (nonlinear_arith);
    vstd::arithmetic::div_mod::lemma_div_multiples_vanish(i, b);
    vstd::arithmetic::mul::lemma_mul_nonnegative(b, i);
    assert(tdiv(-(b * i), b) == -((b * i) / b));
}

} // verus!

use vstd::arithmetic::div_mod::{lemma_fundamental_div_mod, lemma_fundamental_div_mod_converse};

verus! {

/// The depth buffer part-way through the scan: columns before `ic` are
/// done, and in column `ic` the rows before `yc` are done.
pub open spec fn zmid(
    v0: V3i,
    v1: V3i,
    v2: V3i,
    zb0: Seq<u8>,
    w: int,
    ic: int,
    yc: int,
) -> Seq<u8> {
    Seq::new(
        zb0.len(),
        |k: int|
            {
                let col = v0.x - (k % w);
                let row = pix_row(v0, v1, v2, k % w, k / w);
                if pix_on(v0, v1, v2, k % w, k / w) && (col < ic || (col == ic && row < yc)) && (
                zb0[k] as int) < tri_z(v0, v1, v2) {
                    tri_z(v0, v1, v2) as u8
                } else {
                    zb0[k]
                }
            },
    )
}

/// The color buffer part-way through the scan, in step with [`zmid`].
pub open spec fn imid(
    v0: V3i,
    v1: V3i,
    v2: V3i,
    t0: V3i,
    t1: V3i,
    t2: V3i,
    img0: Seq<u8>,
    zb0: Seq<u8>,
    w: int,
    vtt: Seq<u8>,
    ttw: int,
    tth: int,
    ic: int,
    yc: int,
) -> Seq<u8> {
    Seq::new(
        img0.len(),
        |b: int|
            {
                let k = b / 4;
                let ch = b % 4;
                let col = v0.x - (k % w);
                let row = pix_row(v0, v1, v2, k % w, k / w);
                if pix_on(v0, v1, v2, k % w, k / w) && (col < ic || (col == ic && row < yc)) && (
                zb0[k] as int) < tri_z(v0, v1, v2) {
                    pix_byte(v0, v1, v2, t0, t1, t2, vtt, ttw, tth, w, k, ch)
                } else {
                    img0[b]
                }
            },
    )
}


/// The row position `yy` steps to in column `ii`: down the column when the
/// span is positive, up when negative.
pub open spec fn vy_of(v0: V3i, v1: V3i, v2: V3i, ii: int, yy: int) -> int {
    let x02l = v0.x - v2.x;
    let x01l = v0.x - v1.x;
    let x12l = v1.x - v2.x;
    let y11 = col_y11(v0.y as int, v1.y as int, v2.y as int, ii, x01l, x12l);
    let yl = col_yl(v0.y as int, v1.y as int, v2.y as int, ii, x02l, x01l, x12l);
    if yl > 0 {
        y11 + yy
    } else if yl < 0 {
        y11 - yy
    } else {
        y11
    }
}

/// Row `yy` of column `ii` is on the triangle, at that row index.
proof fn lemma_row_at(v0: V3i, v1: V3i, v2: V3i, ii: int, yy: int)
    requires
        0 <= ii < v0.x - v2.x,
        0 <= yy < col_ylen(
            v0.y as int,
            v1.y as int,
            v2.y as int,
            ii,
            v0.x - v2.x,
            v0.x - v1.x,
            v1.x - v2.x,
        ),
    ensures
        pix_on(v0, v1, v2, v0.x - ii, vy_of(v0, v1, v2, ii, yy)),
        pix_row(v0, v1, v2, v0.x - ii, vy_of(v0, v1, v2, ii, yy)) == yy,
{
    let x02l = v0.x - v2.x;
    let x01l = v0.x - v1.x;
    let x12l = v1.x - v2.x;
    let yl = col_yl(v0.y as int, v1.y as int, v2.y as int, ii, x02l, x01l, x12l);
    if yl > 0 {
        assert(yl * 1 == yl);
    } else if yl < 0 {
        assert(yl * (-1) == -yl);
    } else {
        assert(yl * 0 == 0);
    }
}

/// A covered pixel in column `ii` at row index `yy` sits at exactly one
/// buffer cell.
proof fn lemma_pix_pos(v0: V3i, v1: V3i, v2: V3i, wI: int, k: int, ii: int, yy: int)
    requires
        wI >= 1,
        0 <= k,
        pix_on(v0, v1, v2, k % wI, k / wI),
        v0.x - (k % wI) == ii,
        pix_row(v0, v1, v2, k % wI, k / wI) == yy,
    ensures
        k == wI * vy_of(v0, v1, v2, ii, yy) + (v0.x - ii),
        k / wI == vy_of(v0, v1, v2, ii, yy),
{
    let x02l = v0.x - v2.x;
    let x01l = v0.x - v1.x;
    let x12l = v1.x - v2.x;
    let yl = col_yl(v0.y as int, v1.y as int, v2.y as int, ii, x02l, x01l, x12l);
    let py = k / wI;
    let y11 = col_y11(v0.y as int, v1.y as int, v2.y as int, ii, x01l, x12l);
    lemma_fundamental_div_mod(k, wI);
    if yl > 0 {
        assert(py == y11 + yy);
    } else if yl < 0 {
        if py >= y11 {
            assert(py == y11);
            assert(yy == 0);
        } else {
            assert(py == y11 - yy);
        }
    } else {
        assert(py == y11);
        assert(yy == 0);
    }
}

/// A row that writes nothing (off the canvas, or losing the depth test)
/// leaves both buffers exactly as they stood.
proof fn lemma_step_none(
    v0: V3i,
    v1: V3i,
    v2: V3i,
    t0: V3i,
    t1: V3i,
    t2: V3i,
    img0: Seq<u8>,
    zb0: Seq<u8>,
    wI: int,
    h: int,
    vtt: Seq<u8>,
    ttw: int,
    tth: int,
    ii: int,
    yy: int,
)
    requires
        wI >= 1,
        h >= 1,
        zb0.len() == wI * h,
        img0.len() == 4 * wI * h,
        ({
            let vy = vy_of(v0, v1, v2, ii, yy);
            let vx = v0.x - ii;
            vx < 0 || vx >= wI || vy < 0 || vy >= h || (zb0[vy * wI + vx] as int) >= tri_z(
                v0,
                v1,
                v2,
            )
        }),
    ensures
        zmid(v0, v1, v2, zb0, wI, ii, yy) == zmid(v0, v1, v2, zb0, wI, ii, yy + 1),
        imid(v0, v1, v2, t0, t1, t2, img0, zb0, wI, vtt, ttw, tth, ii, yy) == imid(
            v0,
            v1,
            v2,
            t0,
            t1,
            t2,
            img0,
            zb0,
            wI,
            vtt,
            ttw,
            tth,
            ii,
            yy + 1,
        ),
{
    let vy = vy_of(v0, v1, v2, ii, yy);
    let vx = v0.x - ii;
    assert forall|k: int| 0 <= k < zb0.len() implies !(pix_on(v0, v1, v2, k % wI, k / wI) && v0.x
        - (k % wI) == ii && pix_row(v0, v1, v2, k % wI, k / wI) == yy && (zb0[k] as int) < tri_z(
        v0,
        v1,
        v2,
    )) by {
        if pix_on(v0, v1, v2, k % wI, k / wI) && v0.x - (k % wI) == ii && pix_row(
            v0,
            v1,
            v2,
            k % wI,
            k / wI,
        ) == yy {
            lemma_pix_pos(v0, v1, v2, wI, k, ii, yy);
            vstd::arithmetic::div_mod::lemma_mod_bound(k, wI);
            if k / wI >= h || k / wI < 0 {
                assert(false) by (nonlinear_arith)
                    requires
                        k == wI * (k / wI) + (k % wI),
                        0 <= k % wI < wI,
                        0 <= k < wI * h,
                        k / wI >= h || k / wI < 0,
                        wI >= 1,
                        h >= 1,
                ;
            }
            assert(wI * (k / wI) == (k / wI) * wI) by (nonlinear_arith);
        }
    }
    assert(zmid(v0, v1, v2, zb0, wI, ii, yy) =~= zmid(v0, v1, v2, zb0, wI, ii, yy + 1));
    assert forall|b: int| 0 <= b < img0.len() implies imid(
        v0,
        v1,
        v2,
        t0,
        t1,
        t2,
        img0,
        zb0,
        wI,
        vtt,
        ttw,
        tth,
        ii,
        yy,
    )[b] == imid(v0, v1, v2, t0, t1, t2, img0, zb0, wI, vtt, ttw, tth, ii, yy + 1)[b] by {
        let k = b / 4;
        vstd::arithmetic::div_mod::lemma_div_pos_is_pos(b, 4);
        lemma_fundamental_div_mod(b, 4);
        vstd::arithmetic::div_mod::lemma_mod_bound(b, 4);
        assert(k < wI * h) by (nonlinear_arith)
            requires
                b == 4 * k + (b % 4),
                0 <= b % 4 < 4,
                0 <= b < 4 * wI * h,
        ;
    }
    assert(imid(v0, v1, v2, t0, t1, t2, img0, zb0, wI, vtt, ttw, tth, ii, yy) =~= imid(
        v0,
        v1,
        v2,
        t0,
        t1,
        t2,
        img0,
        zb0,
        wI,
        vtt,
        ttw,
        tth,
        ii,
        yy + 1,
    ));
}

} // verus!

verus! {

/// A row that writes: the depth buffer cell takes the flat depth and the
/// four color bytes take the sampled texel; every other cell stands.
proof fn lemma_step_write(
    v0: V3i,
    v1: V3i,
    v2: V3i,
    t0: V3i,
    t1: V3i,
    t2: V3i,
    img0: Seq<u8>,
    zb0: Seq<u8>,
    wI: int,
    h: int,
    vtt: Seq<u8>,
    ttw: int,
    tth: int,
    ii: int,
    yy: int,
)
    requires
        wI >= 1,
        h >= 1,
        zb0.len() == wI * h,
        img0.len() == 4 * wI * h,
        0 <= ii < v0.x - v2.x,
        0 <= yy < col_ylen(
            v0.y as int,
            v1.y as int,
            v2.y as int,
            ii,
            v0.x - v2.x,
            v0.x - v1.x,
            v1.x - v2.x,
        ),
        0 <= v0.x - ii < wI,
        0 <= vy_of(v0, v1, v2, ii, yy) < h,
        (zb0[wI * vy_of(v0, v1, v2, ii, yy) + (v0.x - ii)] as int) < tri_z(v0, v1, v2),
    ensures
        ({
            let idx = wI * vy_of(v0, v1, v2, ii, yy) + (v0.x - ii);
            zmid(v0, v1, v2, zb0, wI, ii, yy + 1) == zmid(v0, v1, v2, zb0, wI, ii, yy).update(
                idx,
                tri_z(v0, v1, v2) as u8,
            ) && 0 <= idx < wI * h && forall|b: int|
                0 <= b < img0.len() ==> #[trigger] imid(
                    v0,
                    v1,
                    v2,
                    t0,
                    t1,
                    t2,
                    img0,
                    zb0,
                    wI,
                    vtt,
                    ttw,
                    tth,
                    ii,
                    yy + 1,
                )[b] == (if 4 * idx <= b < 4 * idx + 4 {
                    pix_byte(v0, v1, v2, t0, t1, t2, vtt, ttw, tth, wI, idx, b - 4 * idx)
                } else {
                    imid(v0, v1, v2, t0, t1, t2, img0, zb0, wI, vtt, ttw, tth, ii, yy)[b]
                })
        }),
{
    let vy = vy_of(v0, v1, v2, ii, yy);
    let vx = v0.x - ii;
    let idx = wI * vy + vx;
    assert(0 <= idx < wI * h) by (nonlinear_arith)
        requires
            0 <= vx < wI,
            0 <= vy < h,
            idx == wI * vy + vx,
            wI >= 1,
            h >= 1,
    ;
    lemma_row_at(v0, v1, v2, ii, yy);
    lemma_fundamental_div_mod_converse(idx, wI, vy, vx);
    assert(idx % wI == vx);
    assert(idx / wI == vy);
    assert forall|k: int|
        0 <= k < zb0.len() && k != idx implies !(#[trigger] pix_on(v0, v1, v2, k % wI, k / wI)
        && v0.x - (k % wI) == ii && pix_row(v0, v1, v2, k % wI, k / wI) == yy) by {
        if pix_on(v0, v1, v2, k % wI, k / wI) && v0.x - (k % wI) == ii && pix_row(
            v0,
            v1,
            v2,
            k % wI,
            k / wI,
        ) == yy {
            lemma_pix_pos(v0, v1, v2, wI, k, ii, yy);
        }
    }
    assert(zmid(v0, v1, v2, zb0, wI, ii, yy + 1) =~= zmid(v0, v1, v2, zb0, wI, ii, yy).update(
        idx,
        tri_z(v0, v1, v2) as u8,
    ));
    assert forall|b: int| 0 <= b < img0.len() implies #[trigger] imid(
        v0,
        v1,
        v2,
        t0,
        t1,
        t2,
        img0,
        zb0,
        wI,
        vtt,
        ttw,
        tth,
        ii,
        yy + 1,
    )[b] == (if 4 * idx <= b < 4 * idx + 4 {
        pix_byte(v0, v1, v2, t0, t1, t2, vtt, ttw, tth, wI, idx, b - 4 * idx)
    } else {
        imid(v0, v1, v2, t0, t1, t2, img0, zb0, wI, vtt, ttw, tth, ii, yy)[b]
    }) by {
        let k = b / 4;
        lemma_fundamental_div_mod(b, 4);
        vstd::arithmetic::div_mod::lemma_mod_bound(b, 4);
        vstd::arithmetic::div_mod::lemma_div_pos_is_pos(b, 4);
        assert(k < wI * h) by (nonlinear_arith)
            requires
                b == 4 * k + (b % 4),
                0 <= b % 4 < 4,
                0 <= b < 4 * wI * h,
        ;
        if 4 * idx <= b < 4 * idx + 4 {
            lemma_fundamental_div_mod_converse(b, 4, idx, b - 4 * idx);
            assert(k == idx);
        } else {
            assert(k != idx);
        }
    }
}

/// Once every row of a column is done, the scan stands exactly as it will
/// when the next column begins.
proof fn lemma_col_done(
    v0: V3i,
    v1: V3i,
    v2: V3i,
    t0: V3i,
    t1: V3i,
    t2: V3i,
    img0: Seq<u8>,
    zb0: Seq<u8>,
    wI: int,
    vtt: Seq<u8>,
    ttw: int,
    tth: int,
    ii: int,
)
    requires
        wI >= 1,
    ensures
        ({
            let ylen = col_ylen(
                v0.y as int,
                v1.y as int,
                v2.y as int,
                ii,
                v0.x - v2.x,
                v0.x - v1.x,
                v1.x - v2.x,
            );
            zmid(v0, v1, v2, zb0, wI, ii, ylen) == zmid(v0, v1, v2, zb0, wI, ii + 1, 0) && imid(
                v0,
                v1,
                v2,
                t0,
                t1,
                t2,
                img0,
                zb0,
                wI,
                vtt,
                ttw,
                tth,
                ii,
                ylen,
            ) == imid(v0, v1, v2, t0, t1, t2, img0, zb0, wI, vtt, ttw, tth, ii + 1, 0)
        }),
{
    let x02l = v0.x - v2.x;
    let x01l = v0.x - v1.x;
    let x12l = v1.x - v2.x;
    let ylen = col_ylen(v0.y as int, v1.y as int, v2.y as int, ii, x02l, x01l, x12l);
    assert forall|px: int, py: int|
        pix_on(v0, v1, v2, px, py) && v0.x - px == ii implies #[trigger] pix_row(
        v0,
        v1,
        v2,
        px,
        py,
    ) < ylen by {
        let yl = col_yl(v0.y as int, v1.y as int, v2.y as int, ii, x02l, x01l, x12l);
        if yl > 0 {
            assert(yl * 1 == yl);
        } else if yl < 0 {
            assert(yl * (-1) == -yl);
        } else {
            assert(yl * 0 == 0);
        }
    }
    assert(zmid(v0, v1, v2, zb0, wI, ii, ylen) =~= zmid(v0, v1, v2, zb0, wI, ii + 1, 0));
    assert(imid(v0, v1, v2, t0, t1, t2, img0, zb0, wI, vtt, ttw, tth, ii, ylen) =~= imid(
        v0,
        v1,
        v2,
        t0,
        t1,
        t2,
        img0,
        zb0,
        wI,
        vtt,
        ttw,
        tth,
        ii + 1,
        0,
    ));
}

} // verus!


verus! {

/// Fill one row of one column: test the canvas bounds and the depth, and
/// write the sampled texel and the flat depth when both pass.
#[verifier::rlimit(100)]
#[verifier::loop_isolation(false)]
#[allow(clippy::too_many_arguments)]
fn row_step(
    v0: V3i,
    v1: V3i,
    v2: V3i,
    t0: V3i,
    t1: V3i,
    t2: V3i,
    i: i32,
    y: i32,
    r: [i32; 4],
    tr: [i32; 4],
    w: u32,
    h: u32,
    z: u8,
    img: &mut Vec<u8>,
    vtt: &Vec<u8>,
    zbuf: &mut Vec<u8>,
    ttdm: &Pt,
    Ghost(zb0): Ghost<Seq<u8>>,
    Ghost(img0): Ghost<Seq<u8>>,
)
    requires
        v0.x >= v1.x >= v2.x,
        -MAX_COORD <= v0.x <= MAX_COORD,
        -MAX_COORD <= v0.y <= MAX_COORD,
        -MAX_COORD <= v1.x <= MAX_COORD,
        -MAX_COORD <= v1.y <= MAX_COORD,
        -MAX_COORD <= v2.x <= MAX_COORD,
        -MAX_COORD <= v2.y <= MAX_COORD,
        0 <= v0.z <= 255,
        0 <= v1.z <= 255,
        0 <= v2.z <= 255,
        1 <= w <= MAX_COORD,
        1 <= h <= MAX_COORD,
        1 <= ttdm.x <= MAX_COORD,
        1 <= ttdm.y <= MAX_COORD,
        vtt.len() == 4 * ttdm.x * ttdm.y,
        zb0.len() == w * h,
        img0.len() == 4 * w * h,
        z as int == tri_z(v0, v1, v2),
        0 <= i < v0.x - v2.x,
        0 <= y < col_ylen(
            v0.y as int,
            v1.y as int,
            v2.y as int,
            i as int,
            v0.x - v2.x,
            v0.x - v1.x,
            v1.x - v2.x,
        ),
        r[0] as int == v0.x - i,
        r[1] as int == col_y11(
            v0.y as int,
            v1.y as int,
            v2.y as int,
            i as int,
            v0.x - v1.x,
            v1.x - v2.x,
        ),
        r[2] as int == sign(
            col_yl(
                v0.y as int,
                v1.y as int,
                v2.y as int,
                i as int,
                v0.x - v2.x,
                v0.x - v1.x,
                v1.x - v2.x,
            ),
        ),
        r[3] as int == col_ylen(
            v0.y as int,
            v1.y as int,
            v2.y as int,
            i as int,
            v0.x - v2.x,
            v0.x - v1.x,
            v1.x - v2.x,
        ),
        -3 * MAX_COORD <= r[1] <= 3 * MAX_COORD,
        1 <= r[3] <= 9 * MAX_COORD,
        tr[0] as int == col_x02(t0.x as int, t2.x as int, i as int, v0.x - v2.x),
        tr[1] as int == col_y11(
            t0.y as int,
            t1.y as int,
            t2.y as int,
            i as int,
            v0.x - v1.x,
            v1.x - v2.x,
        ),
        tr[2] as int == sign(
            col_yl(
                t0.y as int,
                t1.y as int,
                t2.y as int,
                i as int,
                v0.x - v2.x,
                v0.x - v1.x,
                v1.x - v2.x,
            ),
        ),
        tr[3] as int == col_ylen(
            t0.y as int,
            t1.y as int,
            t2.y as int,
            i as int,
            v0.x - v2.x,
            v0.x - v1.x,
            v1.x - v2.x,
        ),
        -3 * MAX_COORD <= tr[1] <= 3 * MAX_COORD,
        1 <= tr[3] <= 9 * MAX_COORD,
        old(zbuf)@ == zmid(v0, v1, v2, zb0, w as int, i as int, y as int),
        old(img)@ == imid(
            v0,
            v1,
            v2,
            t0,
            t1,
            t2,
            img0,
            zb0,
            w as int,
            vtt@,
            ttdm.x as int,
            ttdm.y as int,
            i as int,
            y as int,
        ),
    ensures
        final(zbuf)@ == zmid(v0, v1, v2, zb0, w as int, i as int, y as int + 1),
        final(img)@ == imid(
            v0,
            v1,
            v2,
            t0,
            t1,
            t2,
            img0,
            zb0,
            w as int,
            vtt@,
            ttdm.x as int,
            ttdm.y as int,
            i as int,
            y as int + 1,
        ),
{
    let ghost wI = w as int;
    let ghost hI = h as int;
    let ghost ttw = ttdm.x as int;
    let ghost tth = ttdm.y as int;
    let ghost ylI = col_yl(
        v0.y as int,
        v1.y as int,
        v2.y as int,
        i as int,
        (v0.x - v2.x) as int,
        (v0.x - v1.x) as int,
        (v1.x - v2.x) as int,
    );
    let vx02 = r[0];
    let vy11 = r[1];
    let vyneg = r[2];
    let vy11l = r[3];
    proof {
        assert(y as int * 1 == y as int && y as int * (-1) == -(y as int) && y as int * 0 == 0)
            by (nonlinear_arith);
    }
    let vy: i32 = vy11 + y * vyneg;
    proof {
        assert(vy as int == vy_of(v0, v1, v2, i as int, y as int));
    }
    if 0 <= vx02 && vx02 < w as i32 && 0 <= vy && vy < h as i32 {
        proof {
            assert((vy as int) * wI + (vx02 as int) < wI * hI && 0 <= (vy as int) * wI && (
            vy as int) * wI == wI * (vy as int) && wI * hI <= 0x10000000) by (nonlinear_arith)
                requires
                    0 <= vy as int,
                    (vy as int) < hI,
                    0 <= vx02 as int,
                    (vx02 as int) < wI,
                    1 <= wI <= 16384,
                    1 <= hI <= 16384,
            ;
        }
        let idx: usize = (vy as usize) * (w as usize) + (vx02 as usize);
        proof {
            lemma_fundamental_div_mod_converse(idx as int, wI, vy as int, vx02 as int);
            lemma_row_at(v0, v1, v2, i as int, y as int);
            assert(pix_row(v0, v1, v2, idx as int % wI, idx as int / wI) == y as int);
            assert(zbuf@[idx as int] == zb0[idx as int]);
        }
        if zbuf[idx] < z {
            let tx02 = tr[0];
            let ty11 = tr[1];
            let tyneg = tr[2];
            let ty11l = tr[3];
            proof {
                assert((y as int) * (ty11l as int) >= 0 && (y as int) * (ty11l as int)
                    <= 0x1000000000) by (nonlinear_arith)
                    requires
                        0 <= y as int,
                        (y as int) <= 9 * MAX_COORD as int,
                        1 <= ty11l as int,
                        (ty11l as int) <= 9 * MAX_COORD as int,
                ;
            }
            let prod: i64 = (y as i64) * (ty11l as i64);
            proof {
                assert(prod as int * 1 == prod as int && prod as int * (-1) == -(prod as int)
                    && prod as int * 0 == 0) by (nonlinear_arith);
            }
            let prods: i64 = prod * (tyneg as i64);
            proof {
                crate::fixed::lemma_tdiv_bound(prods as int, vy11l as int, 0x1000000000);
            }
            let tyy: i64 = (ty11 as i64) + prods / (vy11l as i64);
            let txc: i32 = if tx02 < 0 {
                0
            } else if tx02 > ttdm.x as i32 - 1 {
                ttdm.x as i32 - 1
            } else {
                tx02
            };
            let tyc: i32 = if tyy < 0 {
                0
            } else if tyy > ttdm.y as i64 - 1 {
                ttdm.y as i32 - 1
            } else {
                tyy as i32
            };
            proof {
                assert(0 <= tyc as int <= tth - 1);
                assert(0 <= txc as int <= ttw - 1);
                assert(((tth - 1 - tyc as int) * ttw + txc as int) * 4 + 3 < 4 * ttw * tth && 0 <= (
                (tth - 1 - tyc as int) * ttw + txc as int) * 4) by (nonlinear_arith)
                    requires
                        0 <= tyc as int <= tth - 1,
                        0 <= txc as int <= ttw - 1,
                        1 <= ttw,
                        1 <= tth,
                ;
            }
            let toff: usize = ((ttdm.y as usize - 1 - tyc as usize) * (ttdm.x as usize) + (
            txc as usize)) * 4;
            let ghost koff = tex_off(
                t0,
                t1,
                t2,
                i as int,
                y as int,
                vy11l as int,
                (v0.x - v2.x) as int,
                (v0.x - v1.x) as int,
                (v1.x - v2.x) as int,
                ttw,
                tth,
            );
            proof {
                assert(toff as int == koff);
                assert(4 * (idx as int) + 3 < img0.len()) by (nonlinear_arith)
                    requires
                        0 <= idx as int,
                        (idx as int) < wI * hI,
                        img0.len() == 4 * wI * hI,
                        wI >= 1,
                        hI >= 1,
                ;
                lemma_step_write(
                    v0,
                    v1,
                    v2,
                    t0,
                    t1,
                    t2,
                    img0,
                    zb0,
                    wI,
                    hI,
                    vtt@,
                    ttw,
                    tth,
                    i as int,
                    y as int,
                );
            }
            let base: usize = 4 * idx;
            let b0 = vtt[toff];
            let b1 = vtt[toff + 1];
            let b2 = vtt[toff + 2];
            let b3 = vtt[toff + 3];
            img.set(base, b0);
            img.set(base + 1, b1);
            img.set(base + 2, b2);
            img.set(base + 3, b3);
            zbuf.set(idx, z);
            proof {
                assert(zbuf@ =~= zmid(v0, v1, v2, zb0, wI, i as int, y as int + 1));
                assert forall|b: int| 0 <= b < img0.len() implies img@[b] == imid(
                    v0,
                    v1,
                    v2,
                    t0,
                    t1,
                    t2,
                    img0,
                    zb0,
                    wI,
                    vtt@,
                    ttw,
                    tth,
                    i as int,
                    y as int + 1,
                )[b] by {
                    if 4 * idx as int <= b < 4 * idx as int + 4 {
                        let ch = b - 4 * idx as int;
                        assert(img@[b] == vtt@[koff + ch]);
                        assert(pix_byte(
                            v0,
                            v1,
                            v2,
                            t0,
                            t1,
                            t2,
                            vtt@,
                            ttw,
                            tth,
                            wI,
                            idx as int,
                            ch,
                        ) == vtt@[koff + ch]);
                    }
                }
                assert(img@ =~= imid(
                    v0,
                    v1,
                    v2,
                    t0,
                    t1,
                    t2,
                    img0,
                    zb0,
                    wI,
                    vtt@,
                    ttw,
                    tth,
                    i as int,
                    y as int + 1,
                ));
            }
        } else {
            proof {
                lemma_step_none(
                    v0,
                    v1,
                    v2,
                    t0,
                    t1,
                    t2,
                    img0,
                    zb0,
                    wI,
                    hI,
                    vtt@,
                    ttw,
                    tth,
                    i as int,
                    y as int,
                );
            }
        }
    } else {
        proof {
            lemma_step_none(
                v0,
                v1,
                v2,
                t0,
                t1,
                t2,
                img0,
                zb0,
                wI,
                hI,
                vtt@,
                ttw,
                tth,
                i as int,
                y as int,
            );
        }
    }
}

} // verus!

verus! {

/// Walk all rows of column `i`, advancing the buffers from the start of
/// this column to the start of the next.
#[verifier::rlimit(60)]
#[verifier::loop_isolation(false)]
#[allow(clippy::too_many_arguments)]
fn fill_column(
    v0: V3i,
    v1: V3i,
    v2: V3i,
    t0: V3i,
    t1: V3i,
    t2: V3i,
    i: i32,
    w: u32,
    h: u32,
    z: u8,
    img: &mut Vec<u8>,
    vtt: &Vec<u8>,
    zbuf: &mut Vec<u8>,
    ttdm: &Pt,
    Ghost(zb0): Ghost<Seq<u8>>,
    Ghost(img0): Ghost<Seq<u8>>,
)
    requires
        v0.x >= v1.x >= v2.x,
        -MAX_COORD <= v0.x <= MAX_COORD,
        -MAX_COORD <= v0.y <= MAX_COORD,
        -MAX_COORD <= v1.x <= MAX_COORD,
        -MAX_COORD <= v1.y <= MAX_COORD,
        -MAX_COORD <= v2.x <= MAX_COORD,
        -MAX_COORD <= v2.y <= MAX_COORD,
        0 <= v0.z <= 255,
        0 <= v1.z <= 255,
        0 <= v2.z <= 255,
        -MAX_COORD <= t0.x <= MAX_COORD,
        -MAX_COORD <= t0.y <= MAX_COORD,
        -MAX_COORD <= t1.x <= MAX_COORD,
        -MAX_COORD <= t1.y <= MAX_COORD,
        -MAX_COORD <= t2.x <= MAX_COORD,
        -MAX_COORD <= t2.y <= MAX_COORD,
        1 <= w <= MAX_COORD,
        1 <= h <= MAX_COORD,
        1 <= ttdm.x <= MAX_COORD,
        1 <= ttdm.y <= MAX_COORD,
        vtt.len() == 4 * ttdm.x * ttdm.y,
        zb0.len() == w * h,
        img0.len() == 4 * w * h,
        z as int == tri_z(v0, v1, v2),
        0 <= i < v0.x - v2.x,
        old(zbuf)@ == zmid(v0, v1, v2, zb0, w as int, i as int, 0),
        old(img)@ == imid(
            v0,
            v1,
            v2,
            t0,
            t1,
            t2,
            img0,
            zb0,
            w as int,
            vtt@,
            ttdm.x as int,
            ttdm.y as int,
            i as int,
            0,
        ),
    ensures
        final(zbuf)@ == zmid(v0, v1, v2, zb0, w as int, i as int + 1, 0),
        final(img)@ == imid(
            v0,
            v1,
            v2,
            t0,
            t1,
            t2,
            img0,
            zb0,
            w as int,
            vtt@,
            ttdm.x as int,
            ttdm.y as int,
            i as int + 1,
            0,
        ),
{
    let x02l: i32 = v0.x - v2.x;
    let x01l: i32 = v0.x - v1.x;
    let x12l: i32 = v1.x - v2.x;
    let r = xy([v0, v1, v2], [i, x02l, x01l, x12l]);
    let tr = xy([t0, t1, t2], [i, x02l, x01l, x12l]);
    proof {
        lemma_col_x_closed(v0.x as int, v2.x as int, i as int);
    }
    let vy11l = r[3];
    let mut y: i32 = 0;
    while y < vy11l
        invariant
            0 <= y <= vy11l,
            zbuf@ == zmid(v0, v1, v2, zb0, w as int, i as int, y as int),
            img@ == imid(
                v0,
                v1,
                v2,
                t0,
                t1,
                t2,
                img0,
                zb0,
                w as int,
                vtt@,
                ttdm.x as int,
                ttdm.y as int,
                i as int,
                y as int,
            ),
        decreases vy11l - y,
    {
        row_step(
            v0,
            v1,
            v2,
            t0,
            t1,
            t2,
            i,
            y,
            r,
            tr,
            w,
            h,
            z,
            img,
            vtt,
            zbuf,
            ttdm,
            Ghost(zb0),
            Ghost(img0),
        );
        y = y + 1;
    }
    proof {
        lemma_col_done(
            v0,
            v1,
            v2,
            t0,
            t1,
            t2,
            img0,
            zb0,
            w as int,
            vtt@,
            ttdm.x as int,
            ttdm.y as int,
            i as int,
        );
    }
}

/// Scan-convert one triangle into the color and depth buffers.  The final
/// buffers are exactly [`raster_img`] and [`raster_zbuf`] of the initial
/// ones, over the corners ordered by descending `x`.
#[verifier::rlimit(60)]
#[verifier::loop_isolation(false)]
pub fn triangle(
    v012: [V3i; 3],
    t012: [V3i; 3],
    img: &mut Vec<u8>,
    vtt: &Vec<u8>,
    vidm: &Dim,
    zbuf: &mut Vec<u8>,
    ttdm: &Pt,
)
    requires
        1 <= vidm.w <= MAX_COORD,
        1 <= vidm.h <= MAX_COORD,
        old(img).len() == 4 * vidm.w * vidm.h,
        old(zbuf).len() == vidm.w * vidm.h,
        1 <= ttdm.x <= MAX_COORD,
        1 <= ttdm.y <= MAX_COORD,
        vtt.len() == 4 * ttdm.x * ttdm.y,
        -MAX_COORD <= v012[0].x <= MAX_COORD,
        -MAX_COORD <= v012[0].y <= MAX_COORD,
        -MAX_COORD <= v012[1].x <= MAX_COORD,
        -MAX_COORD <= v012[1].y <= MAX_COORD,
        -MAX_COORD <= v012[2].x <= MAX_COORD,
        -MAX_COORD <= v012[2].y <= MAX_COORD,
        0 <= v012[0].z <= 255,
        0 <= v012[1].z <= 255,
        0 <= v012[2].z <= 255,
        -MAX_COORD <= t012[0].x <= MAX_COORD,
        -MAX_COORD <= t012[0].y <= MAX_COORD,
        -MAX_COORD <= t012[1].x <= MAX_COORD,
        -MAX_COORD <= t012[1].y <= MAX_COORD,
        -MAX_COORD <= t012[2].x <= MAX_COORD,
        -MAX_COORD <= t012[2].y <= MAX_COORD,
    ensures
        ({
            let (v0, v1, v2, t0, t1, t2) = order6(
                v012[0],
                v012[1],
                v012[2],
                t012[0],
                t012[1],
                t012[2],
            );
            final(zbuf)@ == raster_zbuf(v0, v1, v2, old(zbuf)@, vidm.w as int) && final(img)@
                == raster_img(
                v0,
                v1,
                v2,
                t0,
                t1,
                t2,
                old(img)@,
                old(zbuf)@,
                vidm.w as int,
                vtt@,
                ttdm.x as int,
                ttdm.y as int,
            )
        }),
{
    let mut v0 = v012[0];
    let mut v1 = v012[1];
    let mut v2 = v012[2];
    let mut t0 = t012[0];
    let mut t1 = t012[1];
    let mut t2 = t012[2];
    if v1.x > v0.x {
        let tv = v0;
        v0 = v1;
        v1 = tv;
        let tt = t0;
        t0 = t1;
        t1 = tt;
    }
    if v2.x > v0.x {
        let tv = v2;
        v2 = v0;
        v0 = tv;
        let tt = t2;
        t2 = t0;
        t0 = tt;
    }
    if v2.x > v1.x {
        let tv = v2;
        v2 = v1;
        v1 = tv;
        let tt = t2;
        t2 = t1;
        t1 = tt;
    }
    proof {
        assert((v0, v1, v2, t0, t1, t2) == order6(
            v012[0],
            v012[1],
            v012[2],
            t012[0],
            t012[1],
            t012[2],
        ));
    }
    let w = vidm.w;
    let h = vidm.h;
    let x02l: i32 = v0.x - v2.x;
    let z: u8 = ((v0.z + v1.z + v2.z) / 3) as u8;
    let ghost wI = w as int;
    let ghost zb0 = zbuf@;
    let ghost img0 = img@;
    let ghost ttw = ttdm.x as int;
    let ghost tth = ttdm.y as int;
    proof {
        assert(z as int == tri_z(v0, v1, v2));
        assert(zbuf@ =~= zmid(v0, v1, v2, zb0, wI, 0, 0));
        assert(img@ =~= imid(v0, v1, v2, t0, t1, t2, img0, zb0, wI, vtt@, ttw, tth, 0, 0));
    }
    let mut i: i32 = 0;
    while i < x02l
        invariant
            0 <= i,
            x02l <= 0 ==> i == 0,
            x02l > 0 ==> i <= x02l,
            zbuf@ == zmid(v0, v1, v2, zb0, wI, i as int, 0),
            img@ == imid(v0, v1, v2, t0, t1, t2, img0, zb0, wI, vtt@, ttw, tth, i as int, 0),
        decreases x02l - i,
    {
        fill_column(
            v0,
            v1,
            v2,
            t0,
            t1,
            t2,
            i,
            w,
            h,
            z,
            img,
            vtt,
            zbuf,
            ttdm,
            Ghost(zb0),
            Ghost(img0),
        );
        i = i + 1;
    }
    proof {
        assert(zbuf@ =~= raster_zbuf(v0, v1, v2, zb0, wI));
        assert(img@ =~= raster_img(v0, v1, v2, t0, t1, t2, img0, zb0, wI, vtt@, ttw, tth));
    }
}

} // verus!

verus! {

/// Depth-test idempotence: scanning the same triangle a second time, at
/// the same depth, changes nothing.  Every cell the first pass wrote now
/// holds exactly the triangle's depth, and the strict `<` test rejects the
/// tie; every other cell failed the test the first time and fails it again.
pub proof fn lemma_raster_idempotent(
    v0: V3i,
    v1: V3i,
    v2: V3i,
    t0: V3i,
    t1: V3i,
    t2: V3i,
    img0: Seq<u8>,
    zb0: Seq<u8>,
    w: int,
    vtt: Seq<u8>,
    ttw: int,
    tth: int,
)
    requires
        0 <= v0.z <= 255,
        0 <= v1.z <= 255,
        0 <= v2.z <= 255,
        img0.len() == 4 * zb0.len(),
    ensures
        raster_zbuf(v0, v1, v2, raster_zbuf(v0, v1, v2, zb0, w), w) == raster_zbuf(
            v0,
            v1,
            v2,
            zb0,
            w,
        ),
        raster_img(
            v0,
            v1,
            v2,
            t0,
            t1,
            t2,
            raster_img(v0, v1, v2, t0, t1, t2, img0, zb0, w, vtt, ttw, tth),
            raster_zbuf(v0, v1, v2, zb0, w),
            w,
            vtt,
            ttw,
            tth,
        ) == raster_img(v0, v1, v2, t0, t1, t2, img0, zb0, w, vtt, ttw, tth),
{
    let zt = tri_z(v0, v1, v2);
    vstd::arithmetic::div_mod::lemma_div_pos_is_pos(v0.z + v1.z + v2.z, 3);
    vstd::arithmetic::div_mod::lemma_div_is_ordered(v0.z + v1.z + v2.z, 765, 3);
    assert(0 <= zt <= 255);
    let zb1 = raster_zbuf(v0, v1, v2, zb0, w);
    assert forall|k: int| 0 <= k < zb1.len() implies !(#[trigger] pix_write(
        v0,
        v1,
        v2,
        zb1,
        w,
        k,
    )) by {
        if pix_on(v0, v1, v2, k % w, k / w) && (zb0[k] as int) < zt {
            assert(zb1[k] as int == zt);
        } else {
            assert(zb1[k] == zb0[k]);
        }
    }
    assert(raster_zbuf(v0, v1, v2, zb1, w) =~= zb1);
    let im1 = raster_img(v0, v1, v2, t0, t1, t2, img0, zb0, w, vtt, ttw, tth);
    assert forall|b: int| 0 <= b < im1.len() implies #[trigger] raster_img(
        v0,
        v1,
        v2,
        t0,
        t1,
        t2,
        im1,
        zb1,
        w,
        vtt,
        ttw,
        tth,
    )[b] == im1[b] by {
        let k = b / 4;
        vstd::arithmetic::div_mod::lemma_div_pos_is_pos(b, 4);
        lemma_fundamental_div_mod(b, 4);
        vstd::arithmetic::div_mod::lemma_mod_bound(b, 4);
        assert(k < zb0.len()) by (nonlinear_arith)
            requires
                b == 4 * k + (b % 4),
                0 <= b % 4 < 4,
                0 <= b < 4 * zb0.len(),
        ;
        assert(!pix_write(v0, v1, v2, zb1, w, k));
    }
    assert(raster_img(v0, v1, v2, t0, t1, t2, im1, zb1, w, vtt, ttw, tth) =~= im1);
}

} // verus!

verus! {

/// The frame rotated a half turn: pixel `(x, y)` takes the bytes of pixel
/// `(w-1-x, h-1-y)`.  With an odd width the middle column stays put, as
/// the pairwise swap leaves it unpaired.
pub open spec fn revs_spec(img0: Seq<u8>, w: int, h: int) -> Seq<u8> {
    Seq::new(
        img0.len(),
        |b: int|
            {
                let k = b / 4;
                let ch = b % 4;
                let x = k % w;
                let y = k / w;
                if x == w - 1 - x {
                    img0[b]
                } else {
                    img0[((h - 1 - y) * w + (w - 1 - x)) * 4 + ch]
                }
            },
    )
}

/// The frame part-way through the swap: columns with a left member before
/// `cx` are done, and in the pair-column `cx` the rows before `cy` are.
pub open spec fn rmid(img0: Seq<u8>, w: int, h: int, cx: int, cy: int) -> Seq<u8> {
    Seq::new(
        img0.len(),
        |b: int|
            {
                let k = b / 4;
                let ch = b % 4;
                let x = k % w;
                let y = k / w;
                let hx = if x < w - 1 - x {
                    x
                } else {
                    w - 1 - x
                };
                let hy = if x < w - 1 - x {
                    y
                } else {
                    h - 1 - y
                };
                if x != w - 1 - x && (hx < cx || (hx == cx && hy < cy)) {
                    img0[((h - 1 - y) * w + (w - 1 - x)) * 4 + ch]
                } else {
                    img0[b]
                }
            },
    )
}

/// Swap one pair of pixels: `(x0, y0)` with `(w-1-x0, h-1-y0)`.
#[verifier::rlimit(100)]
#[verifier::loop_isolation(false)]
fn revs_step(img: &mut Vec<u8>, w: u32, h: u32, x0: u32, y0: u32, Ghost(img0): Ghost<Seq<u8>>)
    requires
        1 <= w <= MAX_COORD,
        1 <= h <= MAX_COORD,
        img0.len() == 4 * w * h,
        x0 < w / 2,
        y0 < h,
        old(img)@ == rmid(img0, w as int, h as int, x0 as int, y0 as int),
    ensures
        final(img)@ == rmid(img0, w as int, h as int, x0 as int, y0 as int + 1),
{
    let wI = w as usize;
    let x1 = (w - 1 - x0) as usize;
    let y1 = (h - 1 - y0) as usize;
    proof {
        assert((y0 as int) * (w as int) + (x0 as int) < (w as int) * (h as int) && 0 <= (y0 as int)
            * (w as int) && (y1 as int) * (w as int) + (x1 as int) < (w as int) * (h as int) && 0
            <= (y1 as int) * (w as int) && (w as int) * (h as int) <= 0x10000000 && 4 * ((w as int)
            * (h as int)) == 4 * (w as int) * (h as int)) by (nonlinear_arith)
            requires
                0 <= x0 as int,
                (x0 as int) < w as int,
                0 <= y0 as int,
                (y0 as int) < h as int,
                x1 as int == w as int - 1 - x0 as int,
                y1 as int == h as int - 1 - y0 as int,
                1 <= w as int <= 16384,
                1 <= h as int <= 16384,
        ;
    }
    let pa: usize = ((y0 as usize) * wI + (x0 as usize)) * 4;
    let pb: usize = (y1 * wI + x1) * 4;
    let ghost paI = pa as int;
    let ghost pbI = pb as int;
    proof {
        lemma_fundamental_div_mod_converse(
            (y0 as int) * (w as int) + (x0 as int),
            w as int,
            y0 as int,
            x0 as int,
        );
        lemma_fundamental_div_mod_converse(
            (y1 as int) * (w as int) + (x1 as int),
            w as int,
            y1 as int,
            x1 as int,
        );
        assert(x0 as int != w as int - 1 - x0 as int) by (nonlinear_arith)
            requires
                0 <= x0 as int,
                2 * (x0 as int) < w as int,
                (x0 as int) < (w as int) / 2 || true,
                x0 < w / 2,
                1 <= w as int,
        ;
    }
    let mut ch: usize = 0;
    let ghost pre = img@;
    while ch < 4
        invariant
            0 <= ch <= 4,
            img@.len() == img0.len(),
            forall|b: int|
                0 <= b < img0.len() ==> #[trigger] img@[b] == (if paI <= b < paI + ch {
                    pre[pbI + (b - paI)]
                } else if pbI <= b < pbI + ch {
                    pre[paI + (b - pbI)]
                } else {
                    pre[b]
                }),
        decreases 4 - ch,
    {
        let a = img[pa + ch];
        let b = img[pb + ch];
        img.set(pa + ch, b);
        img.set(pb + ch, a);
        ch = ch + 1;
    }
    proof {
        assert forall|b: int| 0 <= b < img0.len() implies img@[b] == rmid(
            img0,
            w as int,
            h as int,
            x0 as int,
            y0 as int + 1,
        )[b] by {
            let k = b / 4;
            lemma_fundamental_div_mod(b, 4);
            vstd::arithmetic::div_mod::lemma_mod_bound(b, 4);
            vstd::arithmetic::div_mod::lemma_div_pos_is_pos(b, 4);
            assert(k < (w as int) * (h as int)) by (nonlinear_arith)
                requires
                    b == 4 * k + (b % 4),
                    0 <= b % 4 < 4,
                    0 <= b < 4 * (w as int) * (h as int),
            ;
            lemma_fundamental_div_mod(k, w as int);
            vstd::arithmetic::div_mod::lemma_mod_bound(k, w as int);
            if k / (w as int) >= h as int || k / (w as int) < 0 {
                assert(false) by (nonlinear_arith)
                    requires
                        k == (w as int) * (k / (w as int)) + (k % (w as int)),
                        0 <= k % (w as int) < w as int,
                        0 <= k < (w as int) * (h as int),
                        k / (w as int) >= h as int || k / (w as int) < 0,
                        1 <= w as int,
                        1 <= h as int,
                ;
            }
            if paI <= b < paI + 4 {
                lemma_fundamental_div_mod_converse(b, 4, paI / 4, b - paI);
            } else if pbI <= b < pbI + 4 {
                lemma_fundamental_div_mod_converse(b, 4, pbI / 4, b - pbI);
            } else {
                let x = k % (w as int);
                let y = k / (w as int);
                if x == x0 as int && y == y0 as int {
                    assert((w as int) * (y0 as int) == (y0 as int) * (w as int))
                        by (nonlinear_arith);
                    assert(k == (y0 as int) * (w as int) + (x0 as int));
                    assert(false);
                }
                if x == x1 as int && y == y1 as int {
                    assert((w as int) * (y1 as int) == (y1 as int) * (w as int))
                        by (nonlinear_arith);
                    assert(k == (y1 as int) * (w as int) + (x1 as int));
                    assert(false);
                }
            }
        }
        assert(img@ =~= rmid(img0, w as int, h as int, x0 as int, y0 as int + 1));
    }
}

} // verus!

verus! {

/// Rotate the frame a half turn in place by swapping mirrored pixel
/// pairs; with an odd width the middle column is left untouched.
#[verifier::rlimit(100)]
#[verifier::loop_isolation(false)]
pub fn revs(img: &mut Vec<u8>, w: u32, h: u32)
    requires
        1 <= w <= MAX_COORD,
        1 <= h <= MAX_COORD,
        old(img).len() == 4 * w * h,
    ensures
        final(img)@ == revs_spec(old(img)@, w as int, h as int),
{
    let ghost img0 = img@;
    let ghost wI = w as int;
    let ghost hI = h as int;
    proof {
        assert forall|b: int| 0 <= b < img0.len() implies rmid(img0, wI, hI, 0, 0)[b] == img0[b] by {
            let k = b / 4;
            lemma_fundamental_div_mod(b, 4);
            vstd::arithmetic::div_mod::lemma_mod_bound(b, 4);
            vstd::arithmetic::div_mod::lemma_div_pos_is_pos(b, 4);
            assert(k < wI * hI) by (nonlinear_arith)
                requires
                    b == 4 * k + (b % 4),
                    0 <= b % 4 < 4,
                    0 <= b < 4 * wI * hI,
            ;
            lemma_fundamental_div_mod(k, wI);
            vstd::arithmetic::div_mod::lemma_mod_bound(k, wI);
            if k / wI >= hI || k / wI < 0 {
                assert(false) by (nonlinear_arith)
                    requires
                        k == wI * (k / wI) + (k % wI),
                        0 <= k % wI < wI,
                        0 <= k < wI * hI,
                        k / wI >= hI || k / wI < 0,
                        1 <= wI,
                        1 <= hI,
                ;
            }
        }
        assert(img@ =~= rmid(img0, wI, hI, 0, 0));
    }
    let mut x0: u32 = 0;
    while x0 < w / 2
        invariant
            0 <= x0 <= w / 2,
            img@ == rmid(img0, wI, hI, x0 as int, 0),
        decreases w / 2 - x0,
    {
        let mut y0: u32 = 0;
        while y0 < h
            invariant
                0 <= y0 <= h,
                img@ == rmid(img0, wI, hI, x0 as int, y0 as int),
            decreases h - y0,
        {
            revs_step(img, w, h, x0, y0, Ghost(img0));
            y0 = y0 + 1;
        }
        proof {
            assert forall|b: int| 0 <= b < img0.len() implies rmid(img0, wI, hI, x0 as int, hI)[b]
                == rmid(img0, wI, hI, x0 as int + 1, 0)[b] by {
                let k = b / 4;
                lemma_fundamental_div_mod(b, 4);
                vstd::arithmetic::div_mod::lemma_mod_bound(b, 4);
                vstd::arithmetic::div_mod::lemma_div_pos_is_pos(b, 4);
                assert(k < wI * hI) by (nonlinear_arith)
                    requires
                        b == 4 * k + (b % 4),
                        0 <= b % 4 < 4,
                        0 <= b < 4 * wI * hI,
                ;
                lemma_fundamental_div_mod(k, wI);
                vstd::arithmetic::div_mod::lemma_mod_bound(k, wI);
                if k / wI >= hI || k / wI < 0 {
                    assert(false) by (nonlinear_arith)
                        requires
                            k == wI * (k / wI) + (k % wI),
                            0 <= k % wI < wI,
                            0 <= k < wI * hI,
                            k / wI >= hI || k / wI < 0,
                            1 <= wI,
                            1 <= hI,
                    ;
                }
            }
            assert(img@ =~= rmid(img0, wI, hI, x0 as int + 1, 0));
        }
        x0 = x0 + 1;
    }
    proof {
        assert forall|b: int| 0 <= b < img0.len() implies rmid(img0, wI, hI, (w / 2) as int, 0)[b]
            == revs_spec(img0, wI, hI)[b] by {
            let k = b / 4;
            lemma_fundamental_div_mod(b, 4);
            vstd::arithmetic::div_mod::lemma_mod_bound(b, 4);
            vstd::arithmetic::div_mod::lemma_div_pos_is_pos(b, 4);
            vstd::arithmetic::div_mod::lemma_mod_bound(k, wI);
        }
        assert(img@ =~= revs_spec(img0, wI, hI));
    }
}

} // verus!
