//! Adaptive dual contouring of signed scalar fields.
//!
//! The library turns a signed-distance-style field over fixed-point
//! coordinates into a polygonal approximation of its zero isosurface: an
//! adaptive octree builder with homogeneous-region merging, a per-leaf
//! feature solver (edge bisection plus a normal least-squares point), and a
//! dual-contour face extractor. Every step is exact integer arithmetic, so
//! each public operation carries a contract pinning its result down, and the
//! headline properties (determinism, feature containment, partitioning, the
//! bisection bracket) are proved, not sampled.

pub mod laws;
pub mod math;
pub mod dual_contour;
pub mod octree;
pub mod reader;
pub mod shape;
pub mod storage;
pub mod types;
