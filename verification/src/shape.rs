//! Signed scalar fields built from CSG primitives.
//!
//! A field maps a position to a signed fixed-point value whose sign
//! classifies space: negative is inside, non-negative outside. Fields are
//! closed expressions over a handful of primitives, so evaluation is exact
//! integer arithmetic and `sample` is its complete specification.

use vstd::prelude::*;
use crate::math::{div_trunc, div_trunc_i128, isqrt, lemma_div_trunc_bound, lemma_mul_bound,
    lemma_sqrt_below, lemma_sqrt_floor_char, lemma_square_nonneg, sqrt_floor};
use crate::types::{COORD_LIMIT, NORMAL_SCALE, PROBE_STEP, Point, VAL_LIMIT, Vec3, in_coord_range};

verus! {

/// Coordinates at which a field may be evaluated: world coordinates plus
/// the slack the gradient stencil needs.
pub open spec fn in_call_range(v: int) -> bool {
    -(COORD_LIMIT + 2 * PROBE_STEP) <= v <= COORD_LIMIT + 2 * PROBE_STEP
}

/// Smaller of two values.
pub open spec fn spec_min(a: int, b: int) -> int {
    if a <= b {
        a
    } else {
        b
    }
}

/// Larger of two values.
pub open spec fn spec_max(a: int, b: int) -> int {
    if a <= b {
        b
    } else {
        a
    }
}

/// The squared distance between displaced coordinates stays below the
/// square of `0x4_0000_0000`, so its root fits comfortably in an `i64`.
proof fn lemma_sphere_root(dx: int, dy: int, dz: int)
    requires
        -3 * COORD_LIMIT <= dx <= 3 * COORD_LIMIT,
        -3 * COORD_LIMIT <= dy <= 3 * COORD_LIMIT,
        -3 * COORD_LIMIT <= dz <= 3 * COORD_LIMIT,
    ensures
        0 <= dx * dx <= 0x9000_0000_0000_0000,
        0 <= dy * dy <= 0x9000_0000_0000_0000,
        0 <= dz * dz <= 0x9000_0000_0000_0000,
        0 <= dx * dx + dy * dy + dz * dz < 0x10_0000_0000_0000_0000,
        sqrt_floor((dx * dx + dy * dy + dz * dz) as nat) < 0x4_0000_0000,
{
    lemma_square_nonneg(dx);
    lemma_square_nonneg(dy);
    lemma_square_nonneg(dz);
    lemma_mul_bound(dx, dx, 3 * COORD_LIMIT, 3 * COORD_LIMIT);
    lemma_mul_bound(dy, dy, 3 * COORD_LIMIT, 3 * COORD_LIMIT);
    lemma_mul_bound(dz, dz, 3 * COORD_LIMIT, 3 * COORD_LIMIT);
    assert((3 * COORD_LIMIT) * (3 * COORD_LIMIT) <= 0x9000_0000_0000_0000) by (nonlinear_arith)
        requires
            COORD_LIMIT == 0x4000_0000,
    ;
    assert((0x4_0000_0000 as nat) * (0x4_0000_0000 as nat) == 0x10_0000_0000_0000_0000)
        by (nonlinear_arith);
    lemma_sqrt_below((dx * dx + dy * dy + dz * dz) as nat, 0x4_0000_0000 as nat);
}

/// Bounds for the gradient magnitude computation: the sum of squared
/// central differences fits the square-root routine, is positive only when
/// some component is, and bounds each component by its own root.
proof fn lemma_grad_root(gx: int, gy: int, gz: int)
    requires
        -2 * VAL_LIMIT <= gx <= 2 * VAL_LIMIT,
        -2 * VAL_LIMIT <= gy <= 2 * VAL_LIMIT,
        -2 * VAL_LIMIT <= gz <= 2 * VAL_LIMIT,
    ensures
        0 <= gx * gx < 0x1000_0000_0000_0000_0000_0000_0000,
        0 <= gy * gy < 0x1000_0000_0000_0000_0000_0000_0000,
        0 <= gz * gz < 0x1000_0000_0000_0000_0000_0000_0000,
        0 <= gx * gx + gy * gy + gz * gz,
        gx * gx + gy * gy + gz * gz < 0x4000_0000_0000_0000_0000_0000_0000_0000,
        gx * gx + gy * gy + gz * gz > 0 ==> 1 <= sqrt_floor(
            (gx * gx + gy * gy + gz * gz) as nat,
        ) < 0x8000_0000_0000_0000,
        gx * gx + gy * gy + gz * gz > 0 ==> -(sqrt_floor((gx * gx + gy * gy + gz * gz) as nat) as int)
            <= gx <= sqrt_floor((gx * gx + gy * gy + gz * gz) as nat) as int,
        gx * gx + gy * gy + gz * gz > 0 ==> -(sqrt_floor((gx * gx + gy * gy + gz * gz) as nat) as int)
            <= gy <= sqrt_floor((gx * gx + gy * gy + gz * gz) as nat) as int,
        gx * gx + gy * gy + gz * gz > 0 ==> -(sqrt_floor((gx * gx + gy * gy + gz * gz) as nat) as int)
            <= gz <= sqrt_floor((gx * gx + gy * gy + gz * gz) as nat) as int,
{
    lemma_square_nonneg(gx);
    lemma_square_nonneg(gy);
    lemma_square_nonneg(gz);
    lemma_mul_bound(gx, gx, 2 * VAL_LIMIT, 2 * VAL_LIMIT);
    lemma_mul_bound(gy, gy, 2 * VAL_LIMIT, 2 * VAL_LIMIT);
    lemma_mul_bound(gz, gz, 2 * VAL_LIMIT, 2 * VAL_LIMIT);
    assert((2 * VAL_LIMIT) * (2 * VAL_LIMIT) < 0x1000_0000_0000_0000_0000_0000_0000)
        by (nonlinear_arith)
        requires
            VAL_LIMIT == 0x2_0000_0000_0000,
    ;
    assert((0x8000_0000_0000_0000 as nat) * (0x8000_0000_0000_0000 as nat)
        == 0x4000_0000_0000_0000_0000_0000_0000_0000) by (nonlinear_arith);
    let s2 = gx * gx + gy * gy + gz * gz;
    lemma_sqrt_below(s2 as nat, 0x8000_0000_0000_0000 as nat);
    if s2 > 0 {
        lemma_sqrt_floor_char(s2 as nat);
        let m = sqrt_floor(s2 as nat) as int;
        assert(1 <= m) by (nonlinear_arith)
            requires
                s2 >= 1,
                m >= 0,
                s2 < (m + 1) * (m + 1),
        ;
        assert(-m <= gx <= m && -m <= gy <= m && -m <= gz <= m) by (nonlinear_arith)
            requires
                m >= 1,
                gx * gx <= s2,
                gy * gy <= s2,
                gz * gz <= s2,
                s2 < (m + 1) * (m + 1),
        ;
    }
}

/// A constructive-solid-geometry field: sign-based set operations over
/// signed distance primitives.
pub enum CsgFunc {
    /// The same value everywhere; describes an empty or all-covering space.
    Constant { value: i64 },
    /// Distance to the sphere surface around the given centre.
    Sphere { center_x: i64, center_y: i64, center_z: i64, radius: i64 },
    /// Signed distance (in the Chebyshev sense) to an axis-aligned box.
    Cube {
        lower_x: i64,
        lower_y: i64,
        lower_z: i64,
        upper_x: i64,
        upper_y: i64,
        upper_z: i64,
    },
    /// Union of the two inside regions: pointwise minimum.
    Union(Box<CsgFunc>, Box<CsgFunc>),
    /// Intersection of the two inside regions: pointwise maximum.
    Intersect(Box<CsgFunc>, Box<CsgFunc>),
}

impl CsgFunc {
    /// Every stored parameter is a legal world coordinate.
    pub open spec fn inv(self) -> bool
        decreases self,
    {
        match self {
            CsgFunc::Constant { value } => in_coord_range(value as int),
            CsgFunc::Sphere { center_x, center_y, center_z, radius } => in_coord_range(
                center_x as int,
            ) && in_coord_range(center_y as int) && in_coord_range(center_z as int)
                && in_coord_range(radius as int),
            CsgFunc::Cube { lower_x, lower_y, lower_z, upper_x, upper_y, upper_z } => in_coord_range(
                lower_x as int,
            ) && in_coord_range(lower_y as int) && in_coord_range(lower_z as int)
                && in_coord_range(upper_x as int) && in_coord_range(upper_y as int)
                && in_coord_range(upper_z as int),
            CsgFunc::Union(f1, f2) => f1.inv() && f2.inv(),
            CsgFunc::Intersect(f1, f2) => f1.inv() && f2.inv(),
        }
    }

    /// The field's value at `(x, y, z)`: the complete mathematical
    /// definition of the field.
    pub open spec fn sample(self, x: int, y: int, z: int) -> int
        decreases self,
    {
        match self {
            CsgFunc::Constant { value } => value as int,
            CsgFunc::Sphere { center_x, center_y, center_z, radius } => {
                let dx = x - center_x;
                let dy = y - center_y;
                let dz = z - center_z;
                sqrt_floor((dx * dx + dy * dy + dz * dz) as nat) - radius
            },
            CsgFunc::Cube { lower_x, lower_y, lower_z, upper_x, upper_y, upper_z } => spec_max(
                z - upper_z,
                spec_max(
                    lower_z - z,
                    spec_max(
                        lower_y - y,
                        spec_max(y - upper_y, spec_max(lower_x - x, x - upper_x)),
                    ),
                ),
            ),
            CsgFunc::Union(f1, f2) => spec_min(f1.sample(x, y, z), f2.sample(x, y, z)),
            CsgFunc::Intersect(f1, f2) => spec_max(f1.sample(x, y, z), f2.sample(x, y, z)),
        }
    }

    /// Samples of a well-formed field at evaluable coordinates stay within
    /// `VAL_LIMIT`.
    pub proof fn lemma_sample_bound(self, x: int, y: int, z: int)
        requires
            self.inv(),
            in_call_range(x),
            in_call_range(y),
            in_call_range(z),
        ensures
            -VAL_LIMIT <= self.sample(x, y, z) <= VAL_LIMIT,
        decreases self,
    {
        match self {
            CsgFunc::Constant { value } => {},
            CsgFunc::Sphere { center_x, center_y, center_z, radius } => {
                lemma_sphere_root(x - center_x, y - center_y, z - center_z);
            },
            CsgFunc::Cube { lower_x, lower_y, lower_z, upper_x, upper_y, upper_z } => {},
            CsgFunc::Union(f1, f2) => {
                f1.lemma_sample_bound(x, y, z);
                f2.lemma_sample_bound(x, y, z);
            },
            CsgFunc::Intersect(f1, f2) => {
                f1.lemma_sample_bound(x, y, z);
                f2.lemma_sample_bound(x, y, z);
            },
        }
    }

    /// Evaluate the field. Returns exactly `sample(x, y, z)`.
    pub fn call(&self, x: i64, y: i64, z: i64) -> (r: i64)
        requires
            self.inv(),
            in_call_range(x as int),
            in_call_range(y as int),
            in_call_range(z as int),
        ensures
            r == self.sample(x as int, y as int, z as int),
            -VAL_LIMIT <= r <= VAL_LIMIT,
        decreases *self,
    {
        proof {
            self.lemma_sample_bound(x as int, y as int, z as int);
        }
        match self {
            CsgFunc::Constant { value } => *value,
            CsgFunc::Sphere { center_x, center_y, center_z, radius } => {
                let dx = (x as i128) - (*center_x as i128);
                let dy = (y as i128) - (*center_y as i128);
                let dz = (z as i128) - (*center_z as i128);
                proof {
                    lemma_sphere_root(dx as int, dy as int, dz as int);
                }
                let s = dx * dx + dy * dy + dz * dz;
                let root = isqrt(s as u128);
                (root as i64) - *radius
            },
            CsgFunc::Cube { lower_x, lower_y, lower_z, upper_x, upper_y, upper_z } => {
                let d1 = *lower_x - x;
                let d2 = x - *upper_x;
                let m12 = if d1 <= d2 {
                    d2
                } else {
                    d1
                };
                let d3 = y - *upper_y;
                let m3 = if d3 <= m12 {
                    m12
                } else {
                    d3
                };
                let d4 = *lower_y - y;
                let m4 = if d4 <= m3 {
                    m3
                } else {
                    d4
                };
                let d5 = *lower_z - z;
                let m5 = if d5 <= m4 {
                    m4
                } else {
                    d5
                };
                let d6 = z - *upper_z;
                if d6 <= m5 {
                    m5
                } else {
                    d6
                }
            },
            CsgFunc::Union(f1, f2) => {
                let a = f1.call(x, y, z);
                let b = f2.call(x, y, z);
                if a <= b {
                    a
                } else {
                    b
                }
            },
            CsgFunc::Intersect(f1, f2) => {
                let a = f1.call(x, y, z);
                let b = f2.call(x, y, z);
                if a <= b {
                    b
                } else {
                    a
                }
            },
        }
    }

    /// Evaluate the field at a point.
    pub fn call_point(&self, p: Point) -> (r: i64)
        requires
            self.inv(),
            in_call_range(p.x as int),
            in_call_range(p.y as int),
            in_call_range(p.z as int),
        ensures
            r == self.sample(p.x as int, p.y as int, p.z as int),
            -VAL_LIMIT <= r <= VAL_LIMIT,
    {
        self.call(p.x, p.y, p.z)
    }

    /// The gradient direction at `(x, y, z)`, by central differences with
    /// step `PROBE_STEP`, scaled to length about `NORMAL_SCALE`; the zero
    /// vector where the sampled gradient vanishes.
    pub open spec fn spec_normal(self, x: int, y: int, z: int) -> (int, int, int) {
        let gx = self.sample(x + PROBE_STEP, y, z) - self.sample(x - PROBE_STEP, y, z);
        let gy = self.sample(x, y + PROBE_STEP, z) - self.sample(x, y - PROBE_STEP, z);
        let gz = self.sample(x, y, z + PROBE_STEP) - self.sample(x, y, z - PROBE_STEP);
        let s2 = gx * gx + gy * gy + gz * gz;
        if s2 == 0 {
            (0, 0, 0)
        } else {
            let m = sqrt_floor(s2 as nat) as int;
            (
                div_trunc(gx * NORMAL_SCALE, m),
                div_trunc(gy * NORMAL_SCALE, m),
                div_trunc(gz * NORMAL_SCALE, m),
            )
        }
    }

    /// A scaled normal's components never exceed `NORMAL_SCALE` in
    /// magnitude, whatever the field and position.
    pub proof fn lemma_normal_bound(self, x: int, y: int, z: int)
        ensures
            -NORMAL_SCALE <= self.spec_normal(x, y, z).0 <= NORMAL_SCALE,
            -NORMAL_SCALE <= self.spec_normal(x, y, z).1 <= NORMAL_SCALE,
            -NORMAL_SCALE <= self.spec_normal(x, y, z).2 <= NORMAL_SCALE,
    {
        let gx = self.sample(x + PROBE_STEP, y, z) - self.sample(x - PROBE_STEP, y, z);
        let gy = self.sample(x, y + PROBE_STEP, z) - self.sample(x, y - PROBE_STEP, z);
        let gz = self.sample(x, y, z + PROBE_STEP) - self.sample(x, y, z - PROBE_STEP);
        lemma_square_nonneg(gx);
        lemma_square_nonneg(gy);
        lemma_square_nonneg(gz);
        let s2 = gx * gx + gy * gy + gz * gz;
        if s2 != 0 {
            lemma_sqrt_floor_char(s2 as nat);
            let m = sqrt_floor(s2 as nat) as int;
            assert(1 <= m) by (nonlinear_arith)
                requires
                    s2 >= 1,
                    m >= 0,
                    s2 < (m + 1) * (m + 1),
            ;
            assert(-m <= gx <= m && -m <= gy <= m && -m <= gz <= m) by (nonlinear_arith)
                requires
                    m >= 1,
                    gx * gx <= s2,
                    gy * gy <= s2,
                    gz * gz <= s2,
                    s2 < (m + 1) * (m + 1),
            ;
            lemma_mul_bound(gx, NORMAL_SCALE as int, m, NORMAL_SCALE as int);
            lemma_mul_bound(gy, NORMAL_SCALE as int, m, NORMAL_SCALE as int);
            lemma_mul_bound(gz, NORMAL_SCALE as int, m, NORMAL_SCALE as int);
            lemma_div_trunc_bound(gx * NORMAL_SCALE, m, NORMAL_SCALE as int);
            lemma_div_trunc_bound(gy * NORMAL_SCALE, m, NORMAL_SCALE as int);
            lemma_div_trunc_bound(gz * NORMAL_SCALE, m, NORMAL_SCALE as int);
        }
    }

    /// Evaluate the scaled unit normal; every component stays within
    /// `NORMAL_SCALE`.
    pub fn normal(&self, x: i64, y: i64, z: i64) -> (v: Vec3)
        requires
            self.inv(),
            in_coord_range(x as int),
            in_coord_range(y as int),
            in_coord_range(z as int),
        ensures
            (v.x as int, v.y as int, v.z as int) == self.spec_normal(x as int, y as int, z as int),
            -NORMAL_SCALE <= v.x <= NORMAL_SCALE,
            -NORMAL_SCALE <= v.y <= NORMAL_SCALE,
            -NORMAL_SCALE <= v.z <= NORMAL_SCALE,
    {
        let gx = self.call(x + PROBE_STEP, y, z) - self.call(x - PROBE_STEP, y, z);
        let gy = self.call(x, y + PROBE_STEP, z) - self.call(x, y - PROBE_STEP, z);
        let gz = self.call(x, y, z + PROBE_STEP) - self.call(x, y, z - PROBE_STEP);
        let gxi = gx as i128;
        let gyi = gy as i128;
        let gzi = gz as i128;
        proof {
            lemma_grad_root(gxi as int, gyi as int, gzi as int);
        }
        let s2 = gxi * gxi + gyi * gyi + gzi * gzi;
        if s2 == 0 {
            Vec3 { x: 0, y: 0, z: 0 }
        } else {
            let m = isqrt(s2 as u128);
            proof {
                let mi = sqrt_floor((s2 as u128) as nat) as int;
                lemma_mul_bound(gxi as int, NORMAL_SCALE as int, mi, NORMAL_SCALE as int);
                lemma_mul_bound(gyi as int, NORMAL_SCALE as int, mi, NORMAL_SCALE as int);
                lemma_mul_bound(gzi as int, NORMAL_SCALE as int, mi, NORMAL_SCALE as int);
                lemma_div_trunc_bound(
                    (gxi as int) * (NORMAL_SCALE as int),
                    mi,
                    NORMAL_SCALE as int,
                );
                lemma_div_trunc_bound(
                    (gyi as int) * (NORMAL_SCALE as int),
                    mi,
                    NORMAL_SCALE as int,
                );
                lemma_div_trunc_bound(
                    (gzi as int) * (NORMAL_SCALE as int),
                    mi,
                    NORMAL_SCALE as int,
                );
            }
            let nx = div_trunc_i128(gxi * (NORMAL_SCALE as i128), m as i128);
            let ny = div_trunc_i128(gyi * (NORMAL_SCALE as i128), m as i128);
            let nz = div_trunc_i128(gzi * (NORMAL_SCALE as i128), m as i128);
            Vec3 { x: nx as i64, y: ny as i64, z: nz as i64 }
        }
    }
}

} // verus!
