//! Core value types: points, vectors and mesh faces.
//!
//! All coordinates are fixed-point values carried in `i64`; the scale (how
//! many units make one world unit) is chosen by the caller and never appears
//! in the library. Every quantity the octree touches is kept within
//! `COORD_LIMIT` so that all downstream arithmetic fits its machine type.

use vstd::prelude::*;

verus! {

/// Largest magnitude a world coordinate (bound, centre, radius, feature
/// coordinate) may take. Chosen so that squares of coordinate differences,
/// and the normal-equation determinants built from them, fit in `i128`.
pub const COORD_LIMIT: i64 = 0x4000_0000;

/// Largest magnitude a field sample can take when evaluated within
/// `COORD_LIMIT + 2 * PROBE_STEP` of the origin on each axis.
pub const VAL_LIMIT: i64 = 0x2_0000_0000_0000;

/// Denominator of the bisection parameter: `t` runs over multiples of
/// `1 / LERP_ONE` along an edge.
pub const LERP_ONE: i64 = 4096;

/// Scale of a normalised gradient: a unit normal has Euclidean length
/// (approximately) `NORMAL_SCALE` in fixed-point units.
pub const NORMAL_SCALE: i64 = 1024;

/// Half-width of the central-difference stencil used for gradients.
pub const PROBE_STEP: i64 = 4;

/// Is `v` a legal world coordinate?
pub open spec fn in_coord_range(v: int) -> bool {
    -COORD_LIMIT <= v <= COORD_LIMIT
}

/// A position in space, in fixed-point world units.
#[derive(Clone, Copy, Debug, PartialEq, Eq, Structural)]
pub struct Point {
    pub x: i64,
    pub y: i64,
    pub z: i64,
}

/// A displacement or gradient; same representation as `Point`, kept apart
/// because gradients are scaled by `NORMAL_SCALE`, not world units.
#[derive(Clone, Copy, Debug, PartialEq, Eq, Structural)]
pub struct Vec3 {
    pub x: i64,
    pub y: i64,
    pub z: i64,
}

impl Point {
    /// All three coordinates are legal world coordinates.
    pub open spec fn inv(self) -> bool {
        in_coord_range(self.x as int) && in_coord_range(self.y as int) && in_coord_range(
            self.z as int,
        )
    }

    pub fn new(x: i64, y: i64, z: i64) -> (p: Point)
        ensures
            p == (Point { x, y, z }),
    {
        Point { x, y, z }
    }

    /// The point as a displacement from the origin.
    pub fn as_vector(&self) -> (v: Vec3)
        ensures
            v == (Vec3 { x: self.x, y: self.y, z: self.z }),
    {
        Vec3 { x: self.x, y: self.y, z: self.z }
    }

    /// Componentwise difference `self - other`.
    pub fn sub(self, other: Point) -> (d: Point)
        requires
            self.inv(),
            other.inv(),
        ensures
            d == (Point {
                x: (self.x - other.x) as i64,
                y: (self.y - other.y) as i64,
                z: (self.z - other.z) as i64,
            }),
    {
        Point { x: self.x - other.x, y: self.y - other.y, z: self.z - other.z }
    }
}

/// One polygon of the extracted surface. Vertices are feature points of the
/// four (or three) distinct leaf octants around a shared minimal edge, in
/// deduplication order; no winding is fixed.
#[derive(Clone, Copy, Debug, PartialEq, Eq, Structural)]
pub enum Face {
    Plane { ul: Point, ur: Point, ll: Point, lr: Point },
    Triangle { ul: Point, lr: Point, ll: Point },
}

} // verus!
