//! A software 3D renderer: it parses a polygon mesh, composes a chain of
//! homogeneous transforms into one 4x4 matrix, applies it to every vertex,
//! and scan-converts each front-facing triangle into an RGBA color buffer
//! guarded by a per-triangle depth value, sampling a texture for color.
//!
//! All geometry is carried in a fixed-point representation: a coordinate is
//! an `i64` holding the real value times `fixed::SCALE`.  Every arithmetic
//! step has an exact contract over that representation, so the whole
//! pipeline, from mesh text to pixel bytes, is specified and verified
//! end to end.

use vstd::prelude::*;

pub mod fixed;
pub mod matrix;
pub mod mobj;
pub mod raster;
pub mod render;
pub mod trig;

verus! {

/// Mesh text that could not be read: a numeric field was missing or
/// malformed.  Loading aborts; no partial mesh is returned.
#[derive(Clone, Copy, Debug, PartialEq, Eq)]
pub struct ParseError;

/// A transform operation with no sensible matrix: a rotation by the zero
/// vector, or a perspective operator with a zero `z`.  Composition aborts.
#[derive(Clone, Copy, Debug, PartialEq, Eq)]
pub struct DegenerateTransformError;

/// A face referenced a position or texture-coordinate index outside the
/// mesh's arrays (indices are 1-based; zero is out of range too).
#[derive(Clone, Copy, Debug, PartialEq, Eq)]
pub struct OutOfRangeIndexError;

/// Why a frame could not be drawn.
#[derive(Clone, Copy, Debug, PartialEq, Eq)]
pub enum DrawError {
    /// The transform chain held a degenerate operation.
    DegenerateTransform(DegenerateTransformError),
    /// A face referenced an index outside the mesh's arrays.
    OutOfRangeIndex(OutOfRangeIndexError),
}

} // verus!
