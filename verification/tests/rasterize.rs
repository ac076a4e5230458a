use softrender::fixed::SCALE;
use softrender::matrix::{V3t, V4t};
use softrender::raster::{triangle, xy, Dim, Pt};
use softrender::render::{draw, front_sign_of, p3i, rload};

fn v3i(x: i32, y: i32, z: i32) -> V3t<i32> {
    V3t { x, y, z }
}

/// A unit triangle at depth 128 over a solid texture fills a triangular
/// region: depth 128 inside it, 0 outside.
#[test]
fn flat_triangle_scenario() {
    let dim = Dim { w: 16, h: 16, d: 255 };
    let tex = Pt { x: 1, y: 1 };
    let vtt = vec![10u8, 20, 30, 40];
    let mut img = vec![0u8; 16 * 16 * 4];
    let mut zbuf = vec![0u8; 16 * 16];
    let v = [v3i(0, 0, 128), v3i(10, 0, 128), v3i(5, 10, 128)];
    let t = [v3i(0, 0, 0); 3];
    triangle(v, t, &mut img, &vtt, &dim, &mut zbuf, &tex);
    // inside the region
    assert_eq!(zbuf[5 * 16 + 5], 128);
    assert_eq!(zbuf[0 * 16 + 10], 128);
    assert_eq!(&img[4 * (5 * 16 + 5)..4 * (5 * 16 + 5) + 4], &[10, 20, 30, 40]);
    // outside the region
    assert_eq!(zbuf[0], 0);
    assert_eq!(zbuf[15 * 16 + 15], 0);
    assert_eq!(&img[0..4], &[0, 0, 0, 0]);
    // the whole filled region
    let filled = zbuf.iter().filter(|&&z| z == 128).count();
    assert_eq!(filled, 60);
}

/// Rendering the same triangle twice at the same depth changes nothing:
/// the second pass loses every strict depth test.
#[test]
fn same_depth_twice_is_idempotent() {
    let dim = Dim { w: 16, h: 16, d: 255 };
    let tex = Pt { x: 1, y: 1 };
    let vtt = vec![10u8, 20, 30, 40];
    let mut img = vec![0u8; 16 * 16 * 4];
    let mut zbuf = vec![0u8; 16 * 16];
    let v = [v3i(0, 0, 128), v3i(10, 0, 128), v3i(5, 10, 128)];
    let t = [v3i(0, 0, 0); 3];
    triangle(v, t, &mut img, &vtt, &dim, &mut zbuf, &tex);
    let img_once = img.clone();
    let zbuf_once = zbuf.clone();
    triangle(v, t, &mut img, &vtt, &dim, &mut zbuf, &tex);
    assert_eq!(img, img_once);
    assert_eq!(zbuf, zbuf_once);
}

/// A deeper triangle overwrites a shallower one, but not the other way
/// around: the depth test is strict.
#[test]
fn strict_depth_test() {
    let dim = Dim { w: 16, h: 16, d: 255 };
    let tex = Pt { x: 1, y: 1 };
    let near = vec![1u8, 1, 1, 1];
    let far = vec![2u8, 2, 2, 2];
    let mut img = vec![0u8; 16 * 16 * 4];
    let mut zbuf = vec![0u8; 16 * 16];
    let v_far = [v3i(0, 0, 100), v3i(10, 0, 100), v3i(5, 10, 100)];
    let v_near = [v3i(0, 0, 200), v3i(10, 0, 200), v3i(5, 10, 200)];
    let t = [v3i(0, 0, 0); 3];
    triangle(v_near, t, &mut img, &near, &dim, &mut zbuf, &tex);
    triangle(v_far, t, &mut img, &far, &dim, &mut zbuf, &tex);
    // the far triangle lost everywhere
    assert_eq!(zbuf[5 * 16 + 5], 200);
    assert_eq!(&img[4 * (5 * 16 + 5)..4 * (5 * 16 + 5) + 4], &[1, 1, 1, 1]);
}

#[test]
fn column_walk_values() {
    // ordered corners (10,0) (5,10) (0,0): column 0 holds one row
    let v = [v3i(10, 0, 128), v3i(5, 10, 128), v3i(0, 0, 128)];
    let r = xy(v, [0, 10, 5, 5]);
    assert_eq!(r, [10, 0, 0, 1]);
    let r = xy(v, [2, 10, 5, 5]);
    assert_eq!(r, [8, 4, -1, 5]);
    let r = xy(v, [7, 10, 5, 5]);
    assert_eq!(r, [3, 6, -1, 7]);
}

/// A triangle edge-on to the facing vector (cull test exactly zero) is not
/// rasterized.
#[test]
fn orthogonal_triangle_is_culled() {
    // all three transformed corners on one line: the cross product is zero
    let a = V4t::new(0, 0, 0, SCALE);
    let b = V4t::new(SCALE, 0, 0, SCALE);
    let c = V4t::new(2 * SCALE, 0, 0, SCALE);
    assert_eq!(front_sign_of(&a, &b, &c), 0);
    // a mesh whose only face is edge-on draws nothing and counts one discard
    let src = b"v 0 0 0\nv 1 0 0\nv 2 0 0\nvt 0 0 0\nf 1/1/1 2/1/1 3/1/1\n".to_vec();
    let obj = rload(Some(src), Some(vec![9u8, 8, 7, 6]), vec![1, 1]).unwrap();
    let (img, stat) = draw(&obj, &vec![], 8, 8).unwrap();
    assert_eq!(stat.draw_count, 1);
    assert!(img.iter().all(|&b| b == 0));
}

#[test]
fn screen_mapping() {
    let dim = Dim { w: 8, h: 8, d: 255 };
    let v = V4t::new(0, 0, 0, SCALE);
    let p = p3i(&v, &dim);
    assert_eq!((p.x, p.y, p.z), (3, 3, 127));
    let v = V4t::new(SCALE, -SCALE, SCALE, SCALE);
    let p = p3i(&v, &dim);
    assert_eq!((p.x, p.y, p.z), (7, 0, 254));
    // out-of-range coordinates are clamped, never wrapped
    let v = V4t::new(100 * SCALE, -100 * SCALE, 100 * SCALE, SCALE);
    let p = p3i(&v, &dim);
    assert_eq!((p.x, p.y, p.z), (353, -346, 255));
}

/// A full frame: one front-facing triangle under the base flip.
#[test]
fn draw_one_triangle() {
    let src = b"v -0.5 -0.5 0\nv 0.5 -0.5 0\nv 0 0.5 0\nvt 0 0 0\nf 1/1/1 2/1/1 3/1/1\n".to_vec();
    let obj = rload(Some(src), Some(vec![9u8, 8, 7, 6]), vec![1, 1]).unwrap();
    let (img, stat) = draw(&obj, &vec![], 8, 9).unwrap();
    assert_eq!(stat.draw_count, 0);
    assert_eq!(img.len(), 8 * 8 * 4);
    // pixel (2, 3) is inside the projected triangle
    assert_eq!(&img[4 * (3 * 8 + 2)..4 * (3 * 8 + 2) + 4], &[9, 8, 7, 6]);
    // pixel (0, 0) is outside
    assert_eq!(&img[0..4], &[0, 0, 0, 0]);
    assert_eq!(img.iter().filter(|&&b| b != 0).count(), 48);
}

/// The frame is rebuilt from zero on every call: drawing the same scene
/// twice gives the same buffer both times.
#[test]
fn frames_do_not_leak_state() {
    let src = b"v -0.5 -0.5 0\nv 0.5 -0.5 0\nv 0 0.5 0\nvt 0 0 0\nf 1/1/1 2/1/1 3/1/1\n".to_vec();
    let obj = rload(Some(src), Some(vec![9u8, 8, 7, 6]), vec![1, 1]).unwrap();
    let (img1, _) = draw(&obj, &vec![], 8, 8).unwrap();
    let (img2, _) = draw(&obj, &vec![], 8, 8).unwrap();
    assert_eq!(img1, img2);
}

/// A face referencing an index beyond the arrays is a recoverable error.
#[test]
fn out_of_range_face_index() {
    let src = b"v 0 0 0\nvt 0 0 0\nf 1/1/1 5/1/1 1/1/1\n".to_vec();
    let obj = rload(Some(src), Some(vec![9u8, 8, 7, 6]), vec![1, 1]).unwrap();
    assert!(draw(&obj, &vec![], 8, 8).is_err());
    // index zero is out of range too: indices are 1-based
    let src = b"v 0 0 0\nvt 0 0 0\nf 0/1/1 1/1/1 1/1/1\n".to_vec();
    let obj = rload(Some(src), Some(vec![9u8, 8, 7, 6]), vec![1, 1]).unwrap();
    assert!(draw(&obj, &vec![], 8, 8).is_err());
}

/// A degenerate transform aborts the frame before any face is considered.
#[test]
fn degenerate_transform_aborts_frame() {
    let src = b"v 0 0 0\nvt 0 0 0\nf 1/1/1 1/1/1 1/1/1\n".to_vec();
    let obj = rload(Some(src), Some(vec![9u8, 8, 7, 6]), vec![1, 1]).unwrap();
    let ops = vec![softrender::render::Trans { t: 0, v: [0, 0, 0] }];
    assert!(draw(&obj, &ops, 8, 8).is_err());
}

/// A half-turn flip swaps mirrored pixel pairs and, with an odd width,
/// leaves the middle column in place.
#[test]
fn half_turn_flip() {
    let mut img: Vec<u8> = (0..24u8).collect();
    softrender::raster::revs(&mut img, 3, 2);
    // pixel (0,0) took the bytes of pixel (2,1)
    assert_eq!(&img[0..4], &[20, 21, 22, 23]);
    // pixel (2,0) took the bytes of pixel (0,1)
    assert_eq!(&img[8..12], &[12, 13, 14, 15]);
    // the middle column stays put
    assert_eq!(&img[4..8], &[4, 5, 6, 7]);
    assert_eq!(&img[16..20], &[16, 17, 18, 19]);
    // an even width swaps every pixel
    let mut img: Vec<u8> = (0..8u8).collect();
    softrender::raster::revs(&mut img, 2, 1);
    assert_eq!(img, vec![4, 5, 6, 7, 0, 1, 2, 3]);
}

#[test]
fn rload_variants() {
    let obj = rload(None, Some(vec![1u8, 2, 3, 4]), vec![1, 1]).unwrap();
    assert!(obj.md.is_none());
    assert_eq!(obj.vtt_xy, Pt { x: 1, y: 1 });
    let obj = rload(Some(b"v 0 0 0\n".to_vec()), None, vec![]).unwrap();
    assert!(obj.md.is_some());
    assert!(obj.vtt.is_none());
    assert_eq!(obj.vtt_xy, Pt { x: 0, y: 0 });
    assert!(rload(Some(b"v bad\n".to_vec()), None, vec![]).is_err());
}
