use softrender::fixed::SCALE;
use softrender::mobj::{parse_number, parse_uint, pnext, Module};

#[test]
fn it_works() {}

/// Round trip: one `v`, one `vt`, and a triangular `f` referencing index 1
/// for every attribute yields one position, one texcoord, and one face of
/// nine flattened indices, all equal to 1.
#[test]
fn round_trip_single_face() {
    let src = b"v 1 2 3\nvt 0.5 0.5 0\nf 1/1/1 1/1/1 1/1/1\n".to_vec();
    let md = Module::new(src).unwrap();
    assert_eq!(md.v().len(), 1);
    assert_eq!(md.vt().len(), 1);
    assert_eq!(md.vn().len(), 0);
    assert_eq!(md.f().len(), 1);
    assert_eq!(md.f()[0], vec![1usize; 9]);
    let v = md.v()[0];
    assert_eq!((v.x, v.y, v.z, v.w), (SCALE, 2 * SCALE, 3 * SCALE, SCALE));
    let vt = md.vt()[0];
    assert_eq!((vt.x, vt.y, vt.z, vt.w), (500_000, 500_000, 0, SCALE));
}

#[test]
fn vertex_and_normal_records() {
    let src = b"v -0.5 0 1\nvn 0 0 -1\n# a comment line\nunknown tokens here\n".to_vec();
    let md = Module::new(src).unwrap();
    assert_eq!(md.v().len(), 1);
    assert_eq!(md.vn().len(), 1);
    assert_eq!(md.v()[0].x, -500_000);
    assert_eq!(md.vn()[0].z, -SCALE);
}

#[test]
fn missing_numeric_field_rejects_whole_mesh() {
    assert!(Module::new(b"v 1 2 3\nv 1 2\n".to_vec()).is_err());
}

#[test]
fn malformed_numeric_field_rejects_whole_mesh() {
    assert!(Module::new(b"v a b c\n".to_vec()).is_err());
}

#[test]
fn malformed_face_index_rejects_whole_mesh() {
    assert!(Module::new(b"f 1//3 2/2/2 3/3/3\n".to_vec()).is_err());
    assert!(Module::new(b"f x/1/1 2/2/2 3/3/3\n".to_vec()).is_err());
}

#[test]
fn face_without_slashes_is_flat_indices() {
    let md = Module::new(b"f 4 5 6\n".to_vec()).unwrap();
    assert_eq!(md.f()[0], vec![4usize, 5, 6]);
}

#[test]
fn number_forms() {
    assert_eq!(parse_number(&b"1.25".to_vec()).unwrap(), 1_250_000);
    assert_eq!(parse_number(&b"-0.5".to_vec()).unwrap(), -500_000);
    assert_eq!(parse_number(&b"+3".to_vec()).unwrap(), 3_000_000);
    assert_eq!(parse_number(&b"5.".to_vec()).unwrap(), 5_000_000);
    assert_eq!(parse_number(&b".5".to_vec()).unwrap(), 500_000);
    // the seventh decimal digit is truncated, not rounded
    assert_eq!(parse_number(&b"1.2345678".to_vec()).unwrap(), 1_234_567);
    assert!(parse_number(&b"".to_vec()).is_err());
    assert!(parse_number(&b".".to_vec()).is_err());
    assert!(parse_number(&b"+".to_vec()).is_err());
    assert!(parse_number(&b"1.2.3".to_vec()).is_err());
    assert!(parse_number(&b"12a".to_vec()).is_err());
}

/// Exponent notation, as mesh exporters write it.
#[test]
fn exponent_forms() {
    assert_eq!(parse_number(&b"1e-06".to_vec()).unwrap(), 1);
    assert_eq!(parse_number(&b"2.5e-05".to_vec()).unwrap(), 25);
    assert_eq!(parse_number(&b"1.5E+2".to_vec()).unwrap(), 150_000_000);
    assert_eq!(parse_number(&b"1e3".to_vec()).unwrap(), 1_000_000_000);
    assert_eq!(parse_number(&b"1.25e1".to_vec()).unwrap(), 12_500_000);
    assert_eq!(parse_number(&b"-3e-7".to_vec()).unwrap(), 0);
    assert_eq!(parse_number(&b"0e30".to_vec()).unwrap(), 0);
    // the top of the fixed-point range, hit exactly
    assert_eq!(
        parse_number(&b"9.223372036854775807e12".to_vec()).unwrap(),
        i64::MAX
    );
    // past the range, or malformed
    assert!(parse_number(&b"9.223372036854775808e12".to_vec()).is_err());
    assert!(parse_number(&b"9e18".to_vec()).is_err());
    assert!(parse_number(&b"1e31".to_vec()).is_err());
    assert!(parse_number(&b"1e".to_vec()).is_err());
    assert!(parse_number(&b"1e+".to_vec()).is_err());
    assert!(parse_number(&b"1ex".to_vec()).is_err());
    assert!(parse_number(&b"1e5x".to_vec()).is_err());
}

/// Exponent notation inside a mesh record.
#[test]
fn exponent_in_mesh() {
    let md = Module::new(b"v 1e-06 -2.5E-1 1e0\n".to_vec()).unwrap();
    let v = md.v()[0];
    assert_eq!((v.x, v.y, v.z, v.w), (1, -250_000, SCALE, SCALE));
}

#[test]
fn pnext_missing_field_is_error() {
    assert!(pnext(None).is_err());
    let tok = b"2.5".to_vec();
    assert_eq!(pnext(Some(&tok)).unwrap(), 2_500_000);
}

#[test]
fn uint_forms() {
    assert_eq!(parse_uint(&b"42".to_vec()).unwrap(), 42);
    assert_eq!(parse_uint(&b"0".to_vec()).unwrap(), 0);
    assert!(parse_uint(&b"".to_vec()).is_err());
    assert!(parse_uint(&b"1a".to_vec()).is_err());
    assert!(parse_uint(&b"-1".to_vec()).is_err());
    assert!(parse_uint(&b"99999999999999999999999999".to_vec()).is_err());
}

#[test]
fn empty_and_blank_lines_are_ignored() {
    let md = Module::new(b"\n\n   \nv 0 0 0\n\n".to_vec()).unwrap();
    assert_eq!(md.v().len(), 1);
}
