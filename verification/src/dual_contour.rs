//! The per-leaf feature solver and the dual-contour face extractor.
//!
//! `find_point_on_edge` localises a sign change of the field along a cube
//! edge by ten rounds of fixed-step bisection; `new_feature` gathers the
//! crossings of the twelve edges of a leaf and places one representative
//! point by a normal least-squares solve, clamped into the leaf's cube.

use vstd::prelude::*;
use crate::math::{clamp_i128_to_i64, div_trunc, div_trunc_i128, div_trunc_i64,
    lemma_div_trunc_bound, lemma_mul_bound, lemma_two_pow_pos, lemma_two_pow_values, spec_clamp,
    two_pow};
use crate::octree::{OctAxis, Octant, OctantIdx, Octree, arena_inv, in_cube, lemma_osize_children,
    lemma_osize_pos, osize};
use crate::shape::{CsgFunc, spec_max, spec_min};
use crate::storage::{CrossingBuf, crossing_buf_get, crossing_buf_len, crossing_buf_new,
    crossing_buf_push, crossing_seq};
use crate::types::{COORD_LIMIT, Face, LERP_ONE, NORMAL_SCALE, Point, in_coord_range};

verus! {

/// The field's value at a point.
pub open spec fn sample_at(f: CsgFunc, p: Point) -> int {
    f.sample(p.x as int, p.y as int, p.z as int)
}

/// Interpolation along one coordinate: `a` plus `t / LERP_ONE` of the way
/// toward `b`, rounded toward `a`.
pub open spec fn spec_lerp(a: int, b: int, t: int) -> int {
    a + div_trunc((b - a) * t, LERP_ONE as int)
}

/// Interpolation between two points.
pub open spec fn spec_lerp_point(a: Point, b: Point, t: int) -> Point {
    Point {
        x: spec_lerp(a.x as int, b.x as int, t) as i64,
        y: spec_lerp(a.y as int, b.y as int, t) as i64,
        z: spec_lerp(a.z as int, b.z as int, t) as i64,
    }
}

/// Interpolation stays within the closed interval of its endpoints.
pub proof fn lemma_lerp_between(a: int, b: int, t: int)
    requires
        0 <= t <= LERP_ONE,
    ensures
        spec_min(a, b) <= spec_lerp(a, b, t) <= spec_max(a, b),
{
    let d = b - a;
    if d >= 0 {
        lemma_mul_bound(d, t, d, LERP_ONE as int);
        assert(d * t >= 0) by (nonlinear_arith)
            requires
                d >= 0,
                t >= 0,
        ;
        assert(d * LERP_ONE == LERP_ONE * d) by (nonlinear_arith);
        lemma_div_trunc_bound(d * t, LERP_ONE as int, d);
    } else {
        lemma_mul_bound(-d, t, -d, LERP_ONE as int);
        assert((-d) * t >= 0) by (nonlinear_arith)
            requires
                -d >= 0,
                t >= 0,
        ;
        assert((-d) * LERP_ONE == LERP_ONE * (-d)) by (nonlinear_arith);
        assert(d * t == -((-d) * t)) by (nonlinear_arith);
        lemma_div_trunc_bound(d * t, LERP_ONE as int, -d);
    }
}

/// Exec interpolation of one coordinate.
fn lerp_coord(a: i64, b: i64, t: i64) -> (r: i64)
    requires
        in_coord_range(a as int),
        in_coord_range(b as int),
        0 <= t <= LERP_ONE,
    ensures
        r == spec_lerp(a as int, b as int, t as int),
        spec_min(a as int, b as int) <= r <= spec_max(a as int, b as int),
{
    proof {
        lemma_lerp_between(a as int, b as int, t as int);
    }
    let d = b - a;
    if d >= 0 {
        proof {
            lemma_mul_bound(d as int, t as int, 2 * COORD_LIMIT, LERP_ONE as int);
            assert((d as int) * (t as int) >= 0) by (nonlinear_arith)
                requires
                    d >= 0,
                    t >= 0,
            ;
        }
        let q = (d * t) / LERP_ONE;
        a + q
    } else {
        proof {
            lemma_mul_bound(-(d as int), t as int, 2 * COORD_LIMIT, LERP_ONE as int);
            assert((-(d as int)) * (t as int) >= 0) by (nonlinear_arith)
                requires
                    d < 0,
                    t >= 0,
            ;
            assert((d as int) * (t as int) == -((-(d as int)) * (t as int))) by (nonlinear_arith);
        }
        let q = -(((-d) * t) / LERP_ONE);
        a + q
    }
}

/// Exec interpolation between two points.
fn lerp_point(a: Point, b: Point, t: i64) -> (p: Point)
    requires
        a.inv(),
        b.inv(),
        0 <= t <= LERP_ONE,
    ensures
        p == spec_lerp_point(a, b, t as int),
        p.inv(),
        spec_min(a.x as int, b.x as int) <= p.x <= spec_max(a.x as int, b.x as int),
        spec_min(a.y as int, b.y as int) <= p.y <= spec_max(a.y as int, b.y as int),
        spec_min(a.z as int, b.z as int) <= p.z <= spec_max(a.z as int, b.z as int),
{
    Point {
        x: lerp_coord(a.x, b.x, t),
        y: lerp_coord(a.y, b.y, t),
        z: lerp_coord(a.z, b.z, t),
    }
}

/// The bisection parameter after the final probe: starting from `t`, `k`
/// rounds of sampling, but the last update is never applied — the returned
/// position is the one the last probe sampled.
pub open spec fn spec_bisect(f: CsgFunc, a: Point, b: Point, t: int, step: int, k: nat) -> int
    decreases k,
{
    if k <= 1 {
        t
    } else {
        let t2 = if sample_at(f, spec_lerp_point(a, b, t)) < 0 {
            t + step
        } else {
            t - step
        };
        spec_bisect(f, a, b, t2, step / 2, (k - 1) as nat)
    }
}

/// The bisection invariant: a sign change bracketed around `t` at width
/// `4 * two_pow(k)` narrows to a bracket of width four `t`-units around the
/// returned parameter — one part in `2^10` of the edge.
pub proof fn lemma_bisect_brackets(f: CsgFunc, a: Point, b: Point, t: int, k: nat)
    requires
        k >= 1,
        sample_at(f, spec_lerp_point(a, b, t - 2 * two_pow(k))) < 0,
        0 <= sample_at(f, spec_lerp_point(a, b, t + 2 * two_pow(k))),
    ensures
        exists|lo: int|
            {
                let r = spec_bisect(f, a, b, t, two_pow(k), k);
                &&& r - 4 <= lo <= r
                &&& t - 2 * two_pow(k) <= lo
                &&& lo + 4 <= t + 2 * two_pow(k)
                &&& sample_at(f, spec_lerp_point(a, b, lo)) < 0
                &&& 0 <= #[trigger] sample_at(f, spec_lerp_point(a, b, lo + 4))
            },
    decreases k,
{
    lemma_two_pow_pos(k);
    let r = spec_bisect(f, a, b, t, two_pow(k), k);
    if k == 1 {
        lemma_two_pow_values();
        assert(r == t);
        if sample_at(f, spec_lerp_point(a, b, t)) < 0 {
            let lo = t;
            assert(sample_at(f, spec_lerp_point(a, b, lo)) < 0);
            assert(0 <= sample_at(f, spec_lerp_point(a, b, lo + 4)));
        } else {
            let lo = t - 4;
            assert(sample_at(f, spec_lerp_point(a, b, lo)) < 0);
            assert(0 <= sample_at(f, spec_lerp_point(a, b, lo + 4)));
        }
    } else {
        lemma_two_pow_pos((k - 1) as nat);
        assert(two_pow(k) == 2 * two_pow((k - 1) as nat));
        assert(two_pow(k) / 2 == two_pow((k - 1) as nat));
        if sample_at(f, spec_lerp_point(a, b, t)) < 0 {
            let t2 = t + two_pow(k);
            assert(t2 - 2 * two_pow((k - 1) as nat) == t);
            assert(t2 + 2 * two_pow((k - 1) as nat) == t + 2 * two_pow(k));
            lemma_bisect_brackets(f, a, b, t2, (k - 1) as nat);
            assert(r == spec_bisect(f, a, b, t2, two_pow((k - 1) as nat), (k - 1) as nat));
        } else {
            let t2 = t - two_pow(k);
            assert(t2 - 2 * two_pow((k - 1) as nat) == t - 2 * two_pow(k));
            assert(t2 + 2 * two_pow((k - 1) as nat) == t);
            lemma_bisect_brackets(f, a, b, t2, (k - 1) as nat);
            assert(r == spec_bisect(f, a, b, t2, two_pow((k - 1) as nat), (k - 1) as nat));
        }
    }
}

/// The lower endpoint of the canonically ordered edge: whichever of the two
/// ends samples smaller (ties keep the given order).
pub open spec fn edge_lo(p1: Point, p2: Point, f: CsgFunc) -> Point {
    if sample_at(f, p1) > sample_at(f, p2) {
        p2
    } else {
        p1
    }
}

/// The upper endpoint of the canonically ordered edge.
pub open spec fn edge_hi(p1: Point, p2: Point, f: CsgFunc) -> Point {
    if sample_at(f, p1) > sample_at(f, p2) {
        p1
    } else {
        p2
    }
}

/// Where `find_point_on_edge` places the crossing: `Some` exactly when the
/// field changes sign between the endpoints, and then the bisection result.
pub open spec fn spec_find_point(p1: Point, p2: Point, f: CsgFunc) -> Option<Point> {
    let a = edge_lo(p1, p2, f);
    let b = edge_hi(p1, p2, f);
    if sample_at(f, a) < 0 && 0 <= sample_at(f, b) {
        Some(spec_lerp_point(a, b, spec_bisect(f, a, b, 2048, 1024, 10)))
    } else {
        None
    }
}

/// Do the two points differ in exactly one coordinate?
pub open spec fn one_coord_differs(p1: Point, p2: Point) -> bool {
    ||| (p1.x != p2.x && p1.y == p2.y && p1.z == p2.z)
    ||| (p1.y != p2.y && p1.x == p2.x && p1.z == p2.z)
    ||| (p1.z != p2.z && p1.x == p2.x && p1.y == p2.y)
}

/// Locate where the isosurface crosses the edge from `p1` to `p2`, if it
/// does: `Some` exactly when the field is negative at one endpoint and
/// non-negative at the other, and then a point on the edge.
pub fn find_point_on_edge(p1: Point, p2: Point, func: &CsgFunc) -> (r: Option<Point>)
    requires
        func.inv(),
        p1.inv(),
        p2.inv(),
        one_coord_differs(p1, p2),
    ensures
        r == spec_find_point(p1, p2, *func),
        r matches Some(p) ==> p.inv() && spec_min(p1.x as int, p2.x as int) <= p.x <= spec_max(
            p1.x as int,
            p2.x as int,
        ) && spec_min(p1.y as int, p2.y as int) <= p.y <= spec_max(p1.y as int, p2.y as int)
            && spec_min(p1.z as int, p2.z as int) <= p.z <= spec_max(p1.z as int, p2.z as int),
{
    let v1 = func.call_point(p1);
    let v2 = func.call_point(p2);
    let (a, b) = if v1 > v2 {
        (p2, p1)
    } else {
        (p1, p2)
    };
    if !(func.call_point(a) < 0 && 0 <= func.call_point(b)) {
        return None;
    }
    let ghost fz = *func;
    proof {
        lemma_two_pow_values();
    }
    let mut t: i64 = 2048;
    let mut step: i64 = 1024;
    let mut pos: Point = a;
    let mut i: usize = 0;
    while i < 10
        invariant
            func.inv(),
            a.inv(),
            b.inv(),
            *func == fz,
            i <= 10,
            step >= 1,
            step as int == two_pow((10 - i) as nat),
            2 * step <= t,
            t + 2 * step <= LERP_ONE,
            i < 10 ==> spec_bisect(fz, a, b, t as int, step as int, (10 - i) as nat)
                == spec_bisect(fz, a, b, 2048, 1024, 10),
            i == 10 ==> pos == spec_lerp_point(a, b, spec_bisect(fz, a, b, 2048, 1024, 10)),
            i >= 1 ==> pos.inv() && spec_min(a.x as int, b.x as int) <= pos.x <= spec_max(
                a.x as int,
                b.x as int,
            ) && spec_min(a.y as int, b.y as int) <= pos.y <= spec_max(a.y as int, b.y as int)
                && spec_min(a.z as int, b.z as int) <= pos.z <= spec_max(a.z as int, b.z as int),
        decreases 10 - i,
    {
        pos = lerp_point(a, b, t);
        let v = func.call_point(pos);
        proof {
            assert((10 - i) as nat == ((10 - (i + 1)) as nat + 1) as nat);
            assert(two_pow((((10 - (i + 1)) as nat) + 1) as nat) == 2 * two_pow(
                (10 - (i + 1)) as nat,
            ));
            assert(step as int == 2 * two_pow((10 - (i + 1)) as nat));
            lemma_two_pow_pos((10 - (i + 1)) as nat);
        }
        if v < 0 {
            t = t + step;
        } else {
            t = t - step;
        }
        step = step / 2;
        i = i + 1;
    }
    Some(pos)
}


/// First endpoint of edge `k` of the cube spanned by the three axes, in the
/// solver's fixed enumeration order.
pub open spec fn spec_edge_a(xa: OctAxis, ya: OctAxis, za: OctAxis, k: int) -> Point {
    if k == 0 {
        Point { x: xa.upper, y: ya.lower, z: za.lower }
    } else if k == 1 {
        Point { x: xa.lower, y: ya.lower, z: za.lower }
    } else if k == 2 {
        Point { x: xa.lower, y: ya.lower, z: za.lower }
    } else if k == 3 {
        Point { x: xa.lower, y: ya.upper, z: za.lower }
    } else if k == 4 {
        Point { x: xa.upper, y: ya.lower, z: za.upper }
    } else if k == 5 {
        Point { x: xa.lower, y: ya.lower, z: za.upper }
    } else if k == 6 {
        Point { x: xa.lower, y: ya.lower, z: za.upper }
    } else if k == 7 {
        Point { x: xa.lower, y: ya.upper, z: za.upper }
    } else if k == 8 {
        Point { x: xa.upper, y: ya.upper, z: za.lower }
    } else if k == 9 {
        Point { x: xa.lower, y: ya.upper, z: za.lower }
    } else if k == 10 {
        Point { x: xa.lower, y: ya.lower, z: za.lower }
    } else {
        Point { x: xa.upper, y: ya.lower, z: za.lower }
    }
}

/// Second endpoint of edge `k`.
pub open spec fn spec_edge_b(xa: OctAxis, ya: OctAxis, za: OctAxis, k: int) -> Point {
    if k == 0 {
        Point { x: xa.upper, y: ya.upper, z: za.lower }
    } else if k == 1 {
        Point { x: xa.lower, y: ya.upper, z: za.lower }
    } else if k == 2 {
        Point { x: xa.upper, y: ya.lower, z: za.lower }
    } else if k == 3 {
        Point { x: xa.upper, y: ya.upper, z: za.lower }
    } else if k == 4 {
        Point { x: xa.upper, y: ya.upper, z: za.upper }
    } else if k == 5 {
        Point { x: xa.lower, y: ya.upper, z: za.upper }
    } else if k == 6 {
        Point { x: xa.upper, y: ya.lower, z: za.upper }
    } else if k == 7 {
        Point { x: xa.upper, y: ya.upper, z: za.upper }
    } else if k == 8 {
        Point { x: xa.upper, y: ya.upper, z: za.upper }
    } else if k == 9 {
        Point { x: xa.lower, y: ya.upper, z: za.upper }
    } else if k == 10 {
        Point { x: xa.lower, y: ya.lower, z: za.upper }
    } else {
        Point { x: xa.upper, y: ya.lower, z: za.upper }
    }
}

/// Both endpoints of edge `k`, as values.
fn edge_points(xa: OctAxis, ya: OctAxis, za: OctAxis, k: usize) -> (r: (Point, Point))
    requires
        k < 12,
        xa.inv(),
        ya.inv(),
        za.inv(),
        xa.upper - xa.lower >= 1,
        ya.upper - ya.lower >= 1,
        za.upper - za.lower >= 1,
    ensures
        r.0 == spec_edge_a(xa, ya, za, k as int),
        r.1 == spec_edge_b(xa, ya, za, k as int),
        r.0.inv(),
        r.1.inv(),
        one_coord_differs(r.0, r.1),
        xa.lower <= r.0.x <= xa.upper && ya.lower <= r.0.y <= ya.upper && za.lower <= r.0.z
            <= za.upper,
        xa.lower <= r.1.x <= xa.upper && ya.lower <= r.1.y <= ya.upper && za.lower <= r.1.z
            <= za.upper,
{
    if k == 0 {
        (Point::new(xa.upper, ya.lower, za.lower), Point::new(xa.upper, ya.upper, za.lower))
    } else if k == 1 {
        (Point::new(xa.lower, ya.lower, za.lower), Point::new(xa.lower, ya.upper, za.lower))
    } else if k == 2 {
        (Point::new(xa.lower, ya.lower, za.lower), Point::new(xa.upper, ya.lower, za.lower))
    } else if k == 3 {
        (Point::new(xa.lower, ya.upper, za.lower), Point::new(xa.upper, ya.upper, za.lower))
    } else if k == 4 {
        (Point::new(xa.upper, ya.lower, za.upper), Point::new(xa.upper, ya.upper, za.upper))
    } else if k == 5 {
        (Point::new(xa.lower, ya.lower, za.upper), Point::new(xa.lower, ya.upper, za.upper))
    } else if k == 6 {
        (Point::new(xa.lower, ya.lower, za.upper), Point::new(xa.upper, ya.lower, za.upper))
    } else if k == 7 {
        (Point::new(xa.lower, ya.upper, za.upper), Point::new(xa.upper, ya.upper, za.upper))
    } else if k == 8 {
        (Point::new(xa.upper, ya.upper, za.lower), Point::new(xa.upper, ya.upper, za.upper))
    } else if k == 9 {
        (Point::new(xa.lower, ya.upper, za.lower), Point::new(xa.lower, ya.upper, za.upper))
    } else if k == 10 {
        (Point::new(xa.lower, ya.lower, za.lower), Point::new(xa.lower, ya.lower, za.upper))
    } else {
        (Point::new(xa.upper, ya.lower, za.lower), Point::new(xa.upper, ya.lower, za.upper))
    }
}

/// A crossing as a singleton sequence, or nothing.
pub open spec fn opt_seq(o: Option<Point>) -> Seq<Point> {
    match o {
        Some(p) => seq![p],
        None => Seq::<Point>::empty(),
    }
}

/// Points flattened to coordinate triples.
pub open spec fn tup_seq(s: Seq<Point>) -> Seq<(i64, i64, i64)> {
    s.map_values(|p: Point| (p.x, p.y, p.z))
}

/// The crossings found on the first `k` edges, in edge order.
pub open spec fn spec_crossings_upto(
    xa: OctAxis,
    ya: OctAxis,
    za: OctAxis,
    f: CsgFunc,
    k: nat,
) -> Seq<Point>
    decreases k,
{
    if k == 0 {
        Seq::<Point>::empty()
    } else {
        spec_crossings_upto(xa, ya, za, f, (k - 1) as nat) + opt_seq(
            spec_find_point(
                spec_edge_a(xa, ya, za, k - 1),
                spec_edge_b(xa, ya, za, k - 1),
                f,
            ),
        )
    }
}

/// All crossings of the twelve cube edges.
pub open spec fn spec_crossings(xa: OctAxis, ya: OctAxis, za: OctAxis, f: CsgFunc) -> Seq<Point> {
    spec_crossings_upto(xa, ya, za, f, 12)
}

/// The normal-equation accumulators over a prefix of the crossing list:
/// the upper triangle of the Gram matrix of the normals, the right-hand
/// side, and the coordinate sums for the centroid.
pub ghost struct NormalAcc {
    pub a11: int,
    pub a12: int,
    pub a13: int,
    pub a22: int,
    pub a23: int,
    pub a33: int,
    pub b1: int,
    pub b2: int,
    pub b3: int,
    pub sx: int,
    pub sy: int,
    pub sz: int,
}

/// Accumulate rows for the first `k` crossings: row `i` is the scaled unit
/// normal at crossing `i`, its right-hand side the normal dotted with the
/// crossing position.
pub open spec fn spec_acc(f: CsgFunc, pts: Seq<Point>, k: nat) -> NormalAcc
    decreases k,
{
    if k == 0 {
        NormalAcc {
            a11: 0,
            a12: 0,
            a13: 0,
            a22: 0,
            a23: 0,
            a33: 0,
            b1: 0,
            b2: 0,
            b3: 0,
            sx: 0,
            sy: 0,
            sz: 0,
        }
    } else {
        let prev = spec_acc(f, pts, (k - 1) as nat);
        let p = pts[k - 1];
        let n = f.spec_normal(p.x as int, p.y as int, p.z as int);
        let bi = n.0 * p.x + n.1 * p.y + n.2 * p.z;
        NormalAcc {
            a11: prev.a11 + n.0 * n.0,
            a12: prev.a12 + n.0 * n.1,
            a13: prev.a13 + n.0 * n.2,
            a22: prev.a22 + n.1 * n.1,
            a23: prev.a23 + n.1 * n.2,
            a33: prev.a33 + n.2 * n.2,
            b1: prev.b1 + bi * n.0,
            b2: prev.b2 + bi * n.1,
            b3: prev.b3 + bi * n.2,
            sx: prev.sx + p.x,
            sy: prev.sy + p.y,
            sz: prev.sz + p.z,
        }
    }
}

/// Squared strength of the optional pull-to-centroid regularisation: three
/// extra rows `eps * e_j` with right-hand side `eps * centroid_j`.
pub const BIAS_SQ: i64 = 16384;

/// The solved feature position for a non-empty crossing list: the normal
/// least-squares point by Cramer's rule on the normal equations, the
/// crossing centroid when the system is singular, clamped to the cube
/// either way.
pub open spec fn spec_feature_point(
    xa: OctAxis,
    ya: OctAxis,
    za: OctAxis,
    f: CsgFunc,
    pts: Seq<Point>,
    bias: bool,
) -> Point {
    let acc = spec_acc(f, pts, pts.len());
    let n = pts.len() as int;
    let mx = div_trunc(acc.sx, n);
    let my = div_trunc(acc.sy, n);
    let mz = div_trunc(acc.sz, n);
    let a11 = acc.a11 + if bias { BIAS_SQ as int } else { 0 };
    let a22 = acc.a22 + if bias { BIAS_SQ as int } else { 0 };
    let a33 = acc.a33 + if bias { BIAS_SQ as int } else { 0 };
    let a12 = acc.a12;
    let a13 = acc.a13;
    let a23 = acc.a23;
    let b1 = acc.b1 + if bias { (BIAS_SQ as int) * mx } else { 0 };
    let b2 = acc.b2 + if bias { (BIAS_SQ as int) * my } else { 0 };
    let b3 = acc.b3 + if bias { (BIAS_SQ as int) * mz } else { 0 };
    let d11 = a22 * a33 - a23 * a23;
    let d12 = a12 * a33 - a23 * a13;
    let d13 = a12 * a23 - a22 * a13;
    let det = a11 * d11 - a12 * d12 + a13 * d13;
    if det <= 0 {
        Point {
            x: spec_clamp(mx, xa.lower as int, xa.upper as int) as i64,
            y: spec_clamp(my, ya.lower as int, ya.upper as int) as i64,
            z: spec_clamp(mz, za.lower as int, za.upper as int) as i64,
        }
    } else {
        let dx = b1 * d11 - a12 * (b2 * a33 - a23 * b3) + a13 * (b2 * a23 - a22 * b3);
        let dy = a11 * (b2 * a33 - a23 * b3) - b1 * d12 + a13 * (a12 * b3 - b2 * a13);
        let dz = a11 * (a22 * b3 - b2 * a23) - a12 * (a12 * b3 - b2 * a13) + b1 * d13;
        Point {
            x: spec_clamp(div_trunc(dx, det), xa.lower as int, xa.upper as int) as i64,
            y: spec_clamp(div_trunc(dy, det), ya.lower as int, ya.upper as int) as i64,
            z: spec_clamp(div_trunc(dz, det), za.lower as int, za.upper as int) as i64,
        }
    }
}

/// What the feature solver returns: `Some` exactly when at least two of the
/// twelve edges carry a sign change, and then the solved point.
pub open spec fn spec_new_feature(
    xa: OctAxis,
    ya: OctAxis,
    za: OctAxis,
    f: CsgFunc,
    bias: bool,
) -> Option<Point> {
    let pts = spec_crossings(xa, ya, za, f);
    if pts.len() < 2 {
        None
    } else {
        Some(spec_feature_point(xa, ya, za, f, pts, bias))
    }
}


/// Find a point in the cell that minimises the error from the surface
/// normals at the edge crossings. `None` unless at least two of the twelve
/// cube edges cross the isosurface. With `pull_to_centroid` three weak
/// extra rows draw the solution toward the crossing centroid.
pub fn new_feature_mode(
    x_axis: OctAxis,
    y_axis: OctAxis,
    z_axis: OctAxis,
    func: &CsgFunc,
    pull_to_centroid: bool,
) -> (r: Option<Point>)
    requires
        func.inv(),
        x_axis.inv(),
        y_axis.inv(),
        z_axis.inv(),
        x_axis.upper - x_axis.lower >= 1,
        y_axis.upper - y_axis.lower >= 1,
        z_axis.upper - z_axis.lower >= 1,
    ensures
        r == spec_new_feature(x_axis, y_axis, z_axis, *func, pull_to_centroid),
        r matches Some(p) ==> in_cube(p, x_axis, y_axis, z_axis) && p.inv(),
        r is Some <==> spec_crossings(x_axis, y_axis, z_axis, *func).len() >= 2,
{
    let ghost fz = *func;
    let mut buf = crossing_buf_new();
    let mut k: usize = 0;
    while k < 12
        invariant
            func.inv(),
            *func == fz,
            x_axis.inv(),
            y_axis.inv(),
            z_axis.inv(),
            x_axis.upper - x_axis.lower >= 1,
            y_axis.upper - y_axis.lower >= 1,
            z_axis.upper - z_axis.lower >= 1,
            k <= 12,
            spec_crossings_upto(x_axis, y_axis, z_axis, fz, k as nat).len() <= k,
            crossing_seq(buf) == tup_seq(spec_crossings_upto(x_axis, y_axis, z_axis, fz, k as nat)),
            forall|j: int|
                0 <= j < spec_crossings_upto(x_axis, y_axis, z_axis, fz, k as nat).len()
                    ==> in_cube(
                    #[trigger] spec_crossings_upto(x_axis, y_axis, z_axis, fz, k as nat)[j],
                    x_axis,
                    y_axis,
                    z_axis,
                ),
        decreases 12 - k,
    {
        let ghost prev = spec_crossings_upto(x_axis, y_axis, z_axis, fz, k as nat);
        let (pa, pb) = edge_points(x_axis, y_axis, z_axis, k);
        let res = find_point_on_edge(pa, pb, func);
        proof {
            assert(spec_crossings_upto(x_axis, y_axis, z_axis, fz, (k + 1) as nat) == prev
                + opt_seq(spec_find_point(pa, pb, fz)));
        }
        match res {
            Some(p) => {
                crossing_buf_push(&mut buf, (p.x, p.y, p.z));
                proof {
                    assert(prev + opt_seq(spec_find_point(pa, pb, fz)) =~= prev.push(p));
                    assert(tup_seq(prev.push(p)) =~= tup_seq(prev).push((p.x, p.y, p.z)));
                }
            },
            None => {
                proof {
                    assert(prev + opt_seq(spec_find_point(pa, pb, fz)) =~= prev);
                }
            },
        }
        proof {
            let cur = spec_crossings_upto(x_axis, y_axis, z_axis, fz, (k + 1) as nat);
            assert forall|j: int| 0 <= j < cur.len() implies in_cube(
                #[trigger] cur[j],
                x_axis,
                y_axis,
                z_axis,
            ) by {
                if j < prev.len() {
                    assert(cur[j] == prev[j]);
                } else {
                    assert(cur[j] == res->Some_0);
                }
            }
        }
        k = k + 1;
    }
    let ghost pts = spec_crossings(x_axis, y_axis, z_axis, fz);
    let n = crossing_buf_len(&buf);
    proof {
        assert(n == tup_seq(pts).len());
        assert(tup_seq(pts).len() == pts.len());
    }
    if n < 2 {
        return None;
    }
    let mut a11: i128 = 0;
    let mut a12: i128 = 0;
    let mut a13: i128 = 0;
    let mut a22: i128 = 0;
    let mut a23: i128 = 0;
    let mut a33: i128 = 0;
    let mut b1: i128 = 0;
    let mut b2: i128 = 0;
    let mut b3: i128 = 0;
    let mut sx: i64 = 0;
    let mut sy: i64 = 0;
    let mut sz: i64 = 0;
    let mut i: usize = 0;
    while i < n
        invariant
            func.inv(),
            *func == fz,
            x_axis.inv(),
            y_axis.inv(),
            z_axis.inv(),
            pts == spec_crossings(x_axis, y_axis, z_axis, fz),
            crossing_seq(buf) == tup_seq(pts),
            2 <= n <= 12,
            n == pts.len(),
            i <= n,
            forall|j: int|
                0 <= j < pts.len() ==> in_cube(#[trigger] pts[j], x_axis, y_axis, z_axis),
            spec_acc(fz, pts, i as nat) == (NormalAcc {
                a11: a11 as int,
                a12: a12 as int,
                a13: a13 as int,
                a22: a22 as int,
                a23: a23 as int,
                a33: a33 as int,
                b1: b1 as int,
                b2: b2 as int,
                b3: b3 as int,
                sx: sx as int,
                sy: sy as int,
                sz: sz as int,
            }),
            -(i as int) * 0x10_0000 <= a11 as int <= (i as int) * 0x10_0000,
            -(i as int) * 0x10_0000 <= a12 as int <= (i as int) * 0x10_0000,
            -(i as int) * 0x10_0000 <= a13 as int <= (i as int) * 0x10_0000,
            -(i as int) * 0x10_0000 <= a22 as int <= (i as int) * 0x10_0000,
            -(i as int) * 0x10_0000 <= a23 as int <= (i as int) * 0x10_0000,
            -(i as int) * 0x10_0000 <= a33 as int <= (i as int) * 0x10_0000,
            -(i as int) * 0xC_0000_0000_0000 <= b1 as int <= (i as int) * 0xC_0000_0000_0000,
            -(i as int) * 0xC_0000_0000_0000 <= b2 as int <= (i as int) * 0xC_0000_0000_0000,
            -(i as int) * 0xC_0000_0000_0000 <= b3 as int <= (i as int) * 0xC_0000_0000_0000,
            -(i as int) * 0x4000_0000 <= sx as int <= (i as int) * 0x4000_0000,
            -(i as int) * 0x4000_0000 <= sy as int <= (i as int) * 0x4000_0000,
            -(i as int) * 0x4000_0000 <= sz as int <= (i as int) * 0x4000_0000,
        decreases n - i,
    {
        let c = crossing_buf_get(&buf, i);
        let p = Point::new(c.0, c.1, c.2);
        proof {
            assert(tup_seq(pts)[i as int] == (pts[i as int].x, pts[i as int].y, pts[i as int].z));
            assert(p == pts[i as int]);
            assert(in_cube(pts[i as int], x_axis, y_axis, z_axis));
        }
        let nv = func.normal(p.x, p.y, p.z);
        let nx = nv.x as i128;
        let ny = nv.y as i128;
        let nz = nv.z as i128;
        let px = p.x as i128;
        let py = p.y as i128;
        let pz = p.z as i128;
        proof {
            lemma_mul_bound(nx as int, px as int, 1024, COORD_LIMIT as int);
            lemma_mul_bound(ny as int, py as int, 1024, COORD_LIMIT as int);
            lemma_mul_bound(nz as int, pz as int, 1024, COORD_LIMIT as int);
            lemma_mul_bound(nx as int, nx as int, 1024, 1024);
            lemma_mul_bound(nx as int, ny as int, 1024, 1024);
            lemma_mul_bound(nx as int, nz as int, 1024, 1024);
            lemma_mul_bound(ny as int, ny as int, 1024, 1024);
            lemma_mul_bound(ny as int, nz as int, 1024, 1024);
            lemma_mul_bound(nz as int, nz as int, 1024, 1024);
        }
        let bi = nx * px + ny * py + nz * pz;
        proof {
            lemma_mul_bound(bi as int, nx as int, 0x300_0000_0000, 1024);
            lemma_mul_bound(bi as int, ny as int, 0x300_0000_0000, 1024);
            lemma_mul_bound(bi as int, nz as int, 0x300_0000_0000, 1024);
        }
        a11 = a11 + nx * nx;
        a12 = a12 + nx * ny;
        a13 = a13 + nx * nz;
        a22 = a22 + ny * ny;
        a23 = a23 + ny * nz;
        a33 = a33 + nz * nz;
        b1 = b1 + bi * nx;
        b2 = b2 + bi * ny;
        b3 = b3 + bi * nz;
        sx = sx + p.x;
        sy = sy + p.y;
        sz = sz + p.z;
        i = i + 1;
    }
    let nn = n as i64;
    let mx = div_trunc_i64(sx, nn);
    let my = div_trunc_i64(sy, nn);
    let mz = div_trunc_i64(sz, nn);
    proof {
        lemma_div_trunc_bound(sx as int, nn as int, 12 * 0x4000_0000int);
        lemma_div_trunc_bound(sy as int, nn as int, 12 * 0x4000_0000int);
        lemma_div_trunc_bound(sz as int, nn as int, 12 * 0x4000_0000int);
        assert((12 * 0x4000_0000int) * (nn as int) >= 12 * 0x4000_0000int) by (nonlinear_arith)
            requires
                nn >= 2,
        ;
    }
    if pull_to_centroid {
        proof {
            lemma_mul_bound(BIAS_SQ as int, mx as int, 0x4000, 12 * 0x4000_0000int);
            lemma_mul_bound(BIAS_SQ as int, my as int, 0x4000, 12 * 0x4000_0000int);
            lemma_mul_bound(BIAS_SQ as int, mz as int, 0x4000, 12 * 0x4000_0000int);
        }
        a11 = a11 + BIAS_SQ as i128;
        a22 = a22 + BIAS_SQ as i128;
        a33 = a33 + BIAS_SQ as i128;
        b1 = b1 + (BIAS_SQ as i128) * (mx as i128);
        b2 = b2 + (BIAS_SQ as i128) * (my as i128);
        b3 = b3 + (BIAS_SQ as i128) * (mz as i128);
    }
    proof {
        lemma_mul_bound(a22 as int, a33 as int, 0x100_0000, 0x100_0000);
        lemma_mul_bound(a23 as int, a23 as int, 0x100_0000, 0x100_0000);
        lemma_mul_bound(a12 as int, a33 as int, 0x100_0000, 0x100_0000);
        lemma_mul_bound(a23 as int, a13 as int, 0x100_0000, 0x100_0000);
        lemma_mul_bound(a12 as int, a23 as int, 0x100_0000, 0x100_0000);
        lemma_mul_bound(a22 as int, a13 as int, 0x100_0000, 0x100_0000);
    }
    let d11 = a22 * a33 - a23 * a23;
    let d12 = a12 * a33 - a23 * a13;
    let d13 = a12 * a23 - a22 * a13;
    proof {
        lemma_mul_bound(a11 as int, d11 as int, 0x100_0000, 0x2_0000_0000_0000);
        lemma_mul_bound(a12 as int, d12 as int, 0x100_0000, 0x2_0000_0000_0000);
        lemma_mul_bound(a13 as int, d13 as int, 0x100_0000, 0x2_0000_0000_0000);
    }
    let det = a11 * d11 - a12 * d12 + a13 * d13;
    if det <= 0 {
        Some(
            Point::new(
                clamp_i128_to_i64(mx as i128, x_axis.lower, x_axis.upper),
                clamp_i128_to_i64(my as i128, y_axis.lower, y_axis.upper),
                clamp_i128_to_i64(mz as i128, z_axis.lower, z_axis.upper),
            ),
        )
    } else {
        proof {
            lemma_mul_bound(b2 as int, a33 as int, 0x100_0000_0000_0000, 0x100_0000);
            lemma_mul_bound(a23 as int, b3 as int, 0x100_0000, 0x100_0000_0000_0000);
            lemma_mul_bound(b2 as int, a23 as int, 0x100_0000_0000_0000, 0x100_0000);
            lemma_mul_bound(a22 as int, b3 as int, 0x100_0000, 0x100_0000_0000_0000);
            lemma_mul_bound(a12 as int, b3 as int, 0x100_0000, 0x100_0000_0000_0000);
            lemma_mul_bound(b2 as int, a13 as int, 0x100_0000_0000_0000, 0x100_0000);
            lemma_mul_bound(a22 as int, b3 as int, 0x100_0000, 0x100_0000_0000_0000);
        }
        let t1 = b2 * a33 - a23 * b3;
        let t2 = b2 * a23 - a22 * b3;
        let t3 = a12 * b3 - b2 * a13;
        let t4 = a22 * b3 - b2 * a23;
        proof {
            lemma_mul_bound(b1 as int, d11 as int, 0x100_0000_0000_0000, 0x2_0000_0000_0000);
            lemma_mul_bound(b1 as int, d12 as int, 0x100_0000_0000_0000, 0x2_0000_0000_0000);
            lemma_mul_bound(b1 as int, d13 as int, 0x100_0000_0000_0000, 0x2_0000_0000_0000);
            lemma_mul_bound(a12 as int, t1 as int, 0x100_0000, 0x2_0000_0000_0000_0000_0000);
            lemma_mul_bound(a13 as int, t2 as int, 0x100_0000, 0x2_0000_0000_0000_0000_0000);
            lemma_mul_bound(a11 as int, t1 as int, 0x100_0000, 0x2_0000_0000_0000_0000_0000);
            lemma_mul_bound(a13 as int, t3 as int, 0x100_0000, 0x2_0000_0000_0000_0000_0000);
            lemma_mul_bound(a11 as int, t4 as int, 0x100_0000, 0x2_0000_0000_0000_0000_0000);
            lemma_mul_bound(a12 as int, t3 as int, 0x100_0000, 0x2_0000_0000_0000_0000_0000);
        }
        let dx = b1 * d11 - a12 * t1 + a13 * t2;
        let dy = a11 * t1 - b1 * d12 + a13 * t3;
        let dz = a11 * t4 - a12 * t3 + b1 * d13;
        let qx = div_trunc_i128(dx, det);
        let qy = div_trunc_i128(dy, det);
        let qz = div_trunc_i128(dz, det);
        Some(
            Point::new(
                clamp_i128_to_i64(qx, x_axis.lower, x_axis.upper),
                clamp_i128_to_i64(qy, y_axis.lower, y_axis.upper),
                clamp_i128_to_i64(qz, z_axis.lower, z_axis.upper),
            ),
        )
    }
}

/// Find a point in the cell that minimises the error from the surface
/// normals, the production configuration: no centroid pull.
pub fn new_feature(
    x_axis: OctAxis,
    y_axis: OctAxis,
    z_axis: OctAxis,
    func: &CsgFunc,
) -> (r: Option<Point>)
    requires
        func.inv(),
        x_axis.inv(),
        y_axis.inv(),
        z_axis.inv(),
        x_axis.upper - x_axis.lower >= 1,
        y_axis.upper - y_axis.lower >= 1,
        z_axis.upper - z_axis.lower >= 1,
    ensures
        r == spec_new_feature(x_axis, y_axis, z_axis, *func, false),
        r matches Some(p) ==> in_cube(p, x_axis, y_axis, z_axis) && p.inv(),
        r is Some <==> spec_crossings(x_axis, y_axis, z_axis, *func).len() >= 2,
{
    new_feature_mode(x_axis, y_axis, z_axis, func, false)
}


/// The three coordinate directions the extractor recurses along.
#[derive(Clone, Copy, Debug, PartialEq, Eq, Structural)]
pub enum TreeAxis {
    X,
    Y,
    Z,
}

/// The child of `cell` in slot `j`, or `cell` itself when it is a leaf: a
/// leaf acts as its own sole child in any slot.
pub open spec fn cos(octs: Seq<Octant>, cell: int, j: int) -> int {
    match octs[cell].children {
        Some(c) => c[j] as int,
        None => cell,
    }
}

/// Handles in range, with a well-formed arena.
pub open spec fn wf_cells1(octs: Seq<Octant>, c0: int) -> bool {
    arena_inv(octs) && 0 <= c0 < octs.len()
}

pub open spec fn wf_cells2(octs: Seq<Octant>, c0: int, c1: int) -> bool {
    arena_inv(octs) && 0 <= c0 < octs.len() && 0 <= c1 < octs.len()
}

pub open spec fn wf_cells4(octs: Seq<Octant>, c0: int, c1: int, c2: int, c3: int) -> bool {
    arena_inv(octs) && 0 <= c0 < octs.len() && 0 <= c1 < octs.len() && 0 <= c2 < octs.len() && 0
        <= c3 < octs.len()
}

/// A child (or the leaf itself) is a valid handle, and its subtree is no
/// larger than the cell's; strictly smaller, by at least seven, when the
/// cell is internal.
pub proof fn lemma_cos(octs: Seq<Octant>, cell: int, j: int)
    requires
        wf_cells1(octs, cell),
        0 <= j < 8,
    ensures
        0 <= cos(octs, cell, j) < octs.len(),
        osize(octs, cos(octs, cell, j)) <= osize(octs, cell),
        octs[cell].children is Some ==> osize(octs, cos(octs, cell, j)) + 7 < osize(octs, cell),
{
    assert(octs[cell].inv(cell));
    lemma_osize_pos(octs, cell);
    if octs[cell].children is Some {
        lemma_osize_children(octs, cell);
        let c = octs[cell].children->Some_0;
        if j == 0 {
        } else if j == 1 {
        } else if j == 2 {
        } else if j == 3 {
        } else if j == 4 {
        } else if j == 5 {
        } else if j == 6 {
        } else {
        }
    }
}

/// Deduplicate handles preserving first occurrence.
pub open spec fn spec_dedup(cells: Seq<OctantIdx>) -> Seq<OctantIdx>
    decreases cells.len(),
{
    if cells.len() == 0 {
        Seq::<OctantIdx>::empty()
    } else {
        let prev = spec_dedup(cells.drop_last());
        if prev.contains(cells.last()) {
            prev
        } else {
            prev.push(cells.last())
        }
    }
}

/// The features of the cells that carry one, in order.
pub open spec fn spec_collect_features(octs: Seq<Octant>, d: Seq<OctantIdx>) -> Seq<Point>
    decreases d.len(),
{
    if d.len() == 0 {
        Seq::<Point>::empty()
    } else {
        let prev = spec_collect_features(octs, d.drop_last());
        match octs[d.last() as int].feature {
            Some(p) => prev.push(p),
            None => prev,
        }
    }
}

/// The face, if any, of four leaf cells around a shared minimal edge:
/// after deduplication, a quadrilateral of four distinct featured cells, a
/// triangle of three, and nothing otherwise.
pub open spec fn spec_make_face(
    octs: Seq<Octant>,
    c0: OctantIdx,
    c1: OctantIdx,
    c2: OctantIdx,
    c3: OctantIdx,
) -> Option<Face> {
    let d = spec_dedup(seq![c0, c1, c2, c3]);
    let fpts = spec_collect_features(octs, d);
    if fpts.len() < 3 {
        None
    } else if d.len() == 4 && fpts.len() == 4 {
        Some(Face::Plane { ul: fpts[0], ur: fpts[1], ll: fpts[2], lr: fpts[3] })
    } else if d.len() == 3 && fpts.len() == 3 {
        Some(Face::Triangle { ul: fpts[0], lr: fpts[1], ll: fpts[2] })
    } else {
        None
    }
}

/// The faces emitted under one cell: nothing at a leaf; otherwise the eight
/// children's own faces, then the twelve face-adjacent child pairs, then
/// the six edge-adjacent child quadruples.
pub open spec fn spec_cell_faces(octs: Seq<Octant>, idx: int) -> Seq<Face>
    decreases osize(octs, idx), 2int,
    when wf_cells1(octs, idx)
    via spec_cell_faces_dec
{
    match octs[idx].children {
        None => Seq::<Face>::empty(),
        Some(c) => spec_cell_faces(octs, c[0] as int) + spec_cell_faces(octs, c[1] as int)
            + spec_cell_faces(octs, c[2] as int) + spec_cell_faces(octs, c[3] as int)
            + spec_cell_faces(octs, c[4] as int) + spec_cell_faces(octs, c[5] as int)
            + spec_cell_faces(octs, c[6] as int) + spec_cell_faces(octs, c[7] as int)
            + spec_face_faces(octs, TreeAxis::X, c[4] as int, c[5] as int) + spec_face_faces(
            octs,
            TreeAxis::X,
            c[0] as int,
            c[1] as int,
        ) + spec_face_faces(octs, TreeAxis::X, c[2] as int, c[3] as int) + spec_face_faces(
            octs,
            TreeAxis::X,
            c[6] as int,
            c[7] as int,
        ) + spec_face_faces(octs, TreeAxis::Y, c[0] as int, c[2] as int) + spec_face_faces(
            octs,
            TreeAxis::Y,
            c[1] as int,
            c[3] as int,
        ) + spec_face_faces(octs, TreeAxis::Y, c[5] as int, c[7] as int) + spec_face_faces(
            octs,
            TreeAxis::Y,
            c[4] as int,
            c[6] as int,
        ) + spec_face_faces(octs, TreeAxis::Z, c[0] as int, c[4] as int) + spec_face_faces(
            octs,
            TreeAxis::Z,
            c[1] as int,
            c[5] as int,
        ) + spec_face_faces(octs, TreeAxis::Z, c[3] as int, c[7] as int) + spec_face_faces(
            octs,
            TreeAxis::Z,
            c[2] as int,
            c[6] as int,
        ) + spec_edge_faces(octs, TreeAxis::X, c[1] as int, c[5] as int, c[3] as int, c[7] as int)
            + spec_edge_faces(
            octs,
            TreeAxis::X,
            c[0] as int,
            c[4] as int,
            c[2] as int,
            c[6] as int,
        ) + spec_edge_faces(octs, TreeAxis::Y, c[4] as int, c[5] as int, c[0] as int, c[1] as int)
            + spec_edge_faces(
            octs,
            TreeAxis::Y,
            c[6] as int,
            c[7] as int,
            c[2] as int,
            c[3] as int,
        ) + spec_edge_faces(octs, TreeAxis::Z, c[0] as int, c[1] as int, c[2] as int, c[3] as int)
            + spec_edge_faces(
            octs,
            TreeAxis::Z,
            c[4] as int,
            c[5] as int,
            c[6] as int,
            c[7] as int,
        ),
    }
}

#[via_fn]
proof fn spec_cell_faces_dec(octs: Seq<Octant>, idx: int) {
    if octs[idx].children is Some {
        lemma_osize_pos(octs, idx);
        lemma_osize_children(octs, idx);
        assert(octs[idx].inv(idx));
    }
}

/// The faces emitted between two cells sharing a face perpendicular to
/// `dir`: nothing when both are leaves; otherwise the four sub-face pairs
/// and the four sub-edge quadruples straddling the shared face.
pub open spec fn spec_face_faces(octs: Seq<Octant>, dir: TreeAxis, a: int, b: int) -> Seq<Face>
    decreases osize(octs, a) + osize(octs, b), 1int,
    when wf_cells2(octs, a, b)
    via spec_face_faces_dec
{
    if octs[a].children is None && octs[b].children is None {
        Seq::<Face>::empty()
    } else {
        match dir {
            TreeAxis::X => spec_face_faces(octs, TreeAxis::X, cos(octs, a, 5), cos(octs, b, 4))
                + spec_face_faces(octs, TreeAxis::X, cos(octs, a, 7), cos(octs, b, 6))
                + spec_face_faces(octs, TreeAxis::X, cos(octs, a, 1), cos(octs, b, 0))
                + spec_face_faces(octs, TreeAxis::X, cos(octs, a, 3), cos(octs, b, 2))
                + spec_edge_faces(
                octs,
                TreeAxis::Y,
                cos(octs, a, 5),
                cos(octs, b, 4),
                cos(octs, a, 1),
                cos(octs, b, 0),
            ) + spec_edge_faces(
                octs,
                TreeAxis::Y,
                cos(octs, a, 7),
                cos(octs, b, 6),
                cos(octs, a, 3),
                cos(octs, b, 2),
            ) + spec_edge_faces(
                octs,
                TreeAxis::Z,
                cos(octs, a, 1),
                cos(octs, b, 0),
                cos(octs, a, 3),
                cos(octs, b, 2),
            ) + spec_edge_faces(
                octs,
                TreeAxis::Z,
                cos(octs, a, 5),
                cos(octs, b, 4),
                cos(octs, a, 7),
                cos(octs, b, 6),
            ),
            TreeAxis::Y => spec_face_faces(octs, TreeAxis::Y, cos(octs, a, 7), cos(octs, b, 5))
                + spec_face_faces(octs, TreeAxis::Y, cos(octs, a, 6), cos(octs, b, 4))
                + spec_face_faces(octs, TreeAxis::Y, cos(octs, a, 3), cos(octs, b, 1))
                + spec_face_faces(octs, TreeAxis::Y, cos(octs, a, 2), cos(octs, b, 0))
                + spec_edge_faces(
                octs,
                TreeAxis::Z,
                cos(octs, a, 2),
                cos(octs, a, 3),
                cos(octs, b, 0),
                cos(octs, b, 1),
            ) + spec_edge_faces(
                octs,
                TreeAxis::Z,
                cos(octs, a, 6),
                cos(octs, a, 7),
                cos(octs, b, 4),
                cos(octs, b, 5),
            ) + spec_edge_faces(
                octs,
                TreeAxis::X,
                cos(octs, a, 3),
                cos(octs, a, 7),
                cos(octs, b, 1),
                cos(octs, b, 5),
            ) + spec_edge_faces(
                octs,
                TreeAxis::X,
                cos(octs, a, 2),
                cos(octs, a, 6),
                cos(octs, b, 0),
                cos(octs, b, 4),
            ),
            TreeAxis::Z => spec_face_faces(octs, TreeAxis::Z, cos(octs, a, 5), cos(octs, b, 1))
                + spec_face_faces(octs, TreeAxis::Z, cos(octs, a, 4), cos(octs, b, 0))
                + spec_face_faces(octs, TreeAxis::Z, cos(octs, a, 7), cos(octs, b, 3))
                + spec_face_faces(octs, TreeAxis::Z, cos(octs, a, 6), cos(octs, b, 2))
                + spec_edge_faces(
                octs,
                TreeAxis::Y,
                cos(octs, b, 0),
                cos(octs, b, 1),
                cos(octs, a, 4),
                cos(octs, a, 5),
            ) + spec_edge_faces(
                octs,
                TreeAxis::Y,
                cos(octs, b, 2),
                cos(octs, b, 3),
                cos(octs, a, 6),
                cos(octs, a, 7),
            ) + spec_edge_faces(
                octs,
                TreeAxis::X,
                cos(octs, a, 5),
                cos(octs, b, 1),
                cos(octs, a, 7),
                cos(octs, b, 3),
            ) + spec_edge_faces(
                octs,
                TreeAxis::X,
                cos(octs, a, 4),
                cos(octs, b, 0),
                cos(octs, a, 6),
                cos(octs, b, 2),
            ),
        }
    }
}

#[via_fn]
proof fn spec_face_faces_dec(octs: Seq<Octant>, dir: TreeAxis, a: int, b: int) {
    if !(octs[a].children is None && octs[b].children is None) {
        lemma_cos_all(octs, a);
        lemma_cos_all(octs, b);
    }
}

/// The faces emitted around an edge shared by four cells, parallel to
/// `dir`: a face from the four leaf features when all four are leaves, and
/// otherwise the two half-edge descents.
pub open spec fn spec_edge_faces(
    octs: Seq<Octant>,
    dir: TreeAxis,
    c0: int,
    c1: int,
    c2: int,
    c3: int,
) -> Seq<Face>
    decreases osize(octs, c0) + osize(octs, c1) + osize(octs, c2) + osize(octs, c3), 0int,
    when wf_cells4(octs, c0, c1, c2, c3)
    via spec_edge_faces_dec
{
    if octs[c0].children is None && octs[c1].children is None && octs[c2].children is None
        && octs[c3].children is None {
        match spec_make_face(octs, c0 as OctantIdx, c1 as OctantIdx, c2 as OctantIdx, c3 as OctantIdx) {
            Some(face) => seq![face],
            None => Seq::<Face>::empty(),
        }
    } else {
        match dir {
            TreeAxis::X => spec_edge_faces(
                octs,
                TreeAxis::X,
                cos(octs, c0, 7),
                cos(octs, c1, 3),
                cos(octs, c2, 5),
                cos(octs, c3, 1),
            ) + spec_edge_faces(
                octs,
                TreeAxis::X,
                cos(octs, c0, 6),
                cos(octs, c1, 2),
                cos(octs, c2, 4),
                cos(octs, c3, 0),
            ),
            TreeAxis::Y => spec_edge_faces(
                octs,
                TreeAxis::Y,
                cos(octs, c0, 1),
                cos(octs, c1, 0),
                cos(octs, c2, 5),
                cos(octs, c3, 4),
            ) + spec_edge_faces(
                octs,
                TreeAxis::Y,
                cos(octs, c0, 3),
                cos(octs, c1, 2),
                cos(octs, c2, 7),
                cos(octs, c3, 6),
            ),
            TreeAxis::Z => spec_edge_faces(
                octs,
                TreeAxis::Z,
                cos(octs, c0, 3),
                cos(octs, c1, 2),
                cos(octs, c2, 1),
                cos(octs, c3, 0),
            ) + spec_edge_faces(
                octs,
                TreeAxis::Z,
                cos(octs, c0, 7),
                cos(octs, c1, 6),
                cos(octs, c2, 5),
                cos(octs, c3, 4),
            ),
        }
    }
}

#[via_fn]
proof fn spec_edge_faces_dec(octs: Seq<Octant>, dir: TreeAxis, c0: int, c1: int, c2: int, c3: int) {
    if !(octs[c0].children is None && octs[c1].children is None && octs[c2].children is None
        && octs[c3].children is None) {
        lemma_cos_all(octs, c0);
        lemma_cos_all(octs, c1);
        lemma_cos_all(octs, c2);
        lemma_cos_all(octs, c3);
    }
}

/// `lemma_cos` for every slot of one cell.
pub proof fn lemma_cos_all(octs: Seq<Octant>, cell: int)
    requires
        wf_cells1(octs, cell),
    ensures
        forall|j: int| 0 <= j < 8 ==> 0 <= #[trigger] cos(octs, cell, j) < octs.len(),
        forall|j: int|
            0 <= j < 8 ==> osize(octs, #[trigger] cos(octs, cell, j)) <= osize(octs, cell),
        octs[cell].children is Some ==> forall|j: int|
            0 <= j < 8 ==> osize(octs, #[trigger] cos(octs, cell, j)) + 7 < osize(octs, cell),
{
    assert forall|j: int| 0 <= j < 8 implies 0 <= #[trigger] cos(octs, cell, j) < octs.len()
        && osize(octs, cos(octs, cell, j)) <= osize(octs, cell) && (octs[cell].children is Some
        ==> osize(octs, cos(octs, cell, j)) + 7 < osize(octs, cell)) by {
        lemma_cos(octs, cell, j);
    }
}


/// Does the vector hold this handle?
fn contains_handle(v: &Vec<OctantIdx>, x: OctantIdx) -> (b: bool)
    ensures
        b == v@.contains(x),
{
    let mut i: usize = 0;
    while i < v.len()
        invariant
            i <= v@.len(),
            forall|t: int| 0 <= t < i ==> v@[t] != x,
        decreases v@.len() - i,
    {
        if v[i] == x {
            return true;
        }
        i = i + 1;
    }
    false
}

/// Append every face of `src` to `dst`, in order.
fn append_faces(dst: &mut Vec<Face>, src: Vec<Face>)
    ensures
        final(dst)@ == old(dst)@ + src@,
{
    let mut i: usize = 0;
    while i < src.len()
        invariant
            i <= src@.len(),
            dst@ == old(dst)@ + src@.take(i as int),
        decreases src@.len() - i,
    {
        dst.push(src[i]);
        proof {
            assert(old(dst)@ + src@.take(i as int) + seq![src@[i as int]] =~= old(dst)@
                + src@.take(i + 1));
        }
        i = i + 1;
    }
    proof {
        assert(src@.take(src@.len() as int) =~= src@);
    }
}

/// The child of `cell` in slot `j`, or the leaf itself.
fn child_or_self(tree: &Octree, cell: OctantIdx, j: usize) -> (r: OctantIdx)
    requires
        tree.inv(),
        cell < tree.octants@.len(),
        j < 8,
    ensures
        r as int == cos(tree.octants@, cell as int, j as int),
        r < tree.octants@.len(),
        osize(tree.octants@, r as int) <= osize(tree.octants@, cell as int),
        tree.octants@[cell as int].children is Some ==> osize(tree.octants@, r as int) + 7
            < osize(tree.octants@, cell as int),
        tree.octants@[cell as int].children is None ==> osize(tree.octants@, cell as int) == 1,
{
    proof {
        lemma_cos(tree.octants@, cell as int, j as int);
        lemma_osize_pos(tree.octants@, cell as int);
    }
    match tree.get_octant(cell).children {
        Some(c) => c[j],
        None => cell,
    }
}

/// Creates a face of the polygon if enough distinct leaf cells around the
/// edge carry a feature.
fn make_face(tree: &Octree, cells: [OctantIdx; 4]) -> (r: Option<Face>)
    requires
        tree.inv(),
        forall|t: int| 0 <= t < 4 ==> cells[t] < tree.octants@.len(),
    ensures
        r == spec_make_face(
            tree.octants@,
            cells[0],
            cells[1],
            cells[2],
            cells[3],
        ),
{
    let ghost cseq = seq![cells[0], cells[1], cells[2], cells[3]];
    let mut dedup_cells: Vec<OctantIdx> = Vec::new();
    let mut k: usize = 0;
    while k < 4
        invariant
            tree.inv(),
            forall|t: int| 0 <= t < 4 ==> cells[t] < tree.octants@.len(),
            cseq == seq![cells[0], cells[1], cells[2], cells[3]],
            k <= 4,
            dedup_cells@ == spec_dedup(cseq.take(k as int)),
            forall|t: int|
                0 <= t < dedup_cells@.len() ==> #[trigger] dedup_cells@[t]
                    < tree.octants@.len(),
        decreases 4 - k,
    {
        proof {
            assert(cseq.take(k + 1).drop_last() =~= cseq.take(k as int));
            assert(cseq.take(k + 1).last() == cells[k as int]);
        }
        if !contains_handle(&dedup_cells, cells[k]) {
            dedup_cells.push(cells[k]);
        }
        k = k + 1;
    }
    proof {
        assert(cseq.take(4) =~= cseq);
    }
    let mut dedup_feature_cells: Vec<Point> = Vec::new();
    let mut i: usize = 0;
    while i < dedup_cells.len()
        invariant
            tree.inv(),
            i <= dedup_cells@.len(),
            forall|t: int|
                0 <= t < dedup_cells@.len() ==> #[trigger] dedup_cells@[t]
                    < tree.octants@.len(),
            dedup_feature_cells@ == spec_collect_features(
                tree.octants@,
                dedup_cells@.take(i as int),
            ),
        decreases dedup_cells@.len() - i,
    {
        proof {
            assert(dedup_cells@.take(i + 1).drop_last() =~= dedup_cells@.take(i as int));
            assert(dedup_cells@.take(i + 1).last() == dedup_cells@[i as int]);
        }
        match tree.get_octant(dedup_cells[i]).feature {
            Some(p) => {
                dedup_feature_cells.push(p);
            },
            None => {},
        }
        i = i + 1;
    }
    proof {
        assert(dedup_cells@.take(dedup_cells@.len() as int) =~= dedup_cells@);
    }
    if dedup_feature_cells.len() < 3 {
        return None;
    }
    if dedup_cells.len() == 4 && dedup_feature_cells.len() == 4 {
        Some(
            Face::Plane {
                ul: dedup_feature_cells[0],
                ur: dedup_feature_cells[1],
                ll: dedup_feature_cells[2],
                lr: dedup_feature_cells[3],
            },
        )
    } else if dedup_cells.len() == 3 && dedup_feature_cells.len() == 3 {
        Some(
            Face::Triangle {
                ul: dedup_feature_cells[0],
                lr: dedup_feature_cells[1],
                ll: dedup_feature_cells[2],
            },
        )
    } else {
        None
    }
}

/// Entry point of the dual-contour face extraction: every face under one
/// cell of the octree.
pub fn cell_proc(tree: &Octree, idx: OctantIdx) -> (faces: Vec<Face>)
    requires
        tree.inv(),
        idx < tree.octants@.len(),
    ensures
        faces@ == spec_cell_faces(tree.octants@, idx as int),
    decreases osize(tree.octants@, idx as int), 6int,
{
    if tree.get_octant(idx).is_leaf() {
        return Vec::new();
    }
    let c = tree.get_octant(idx).children.unwrap();
    proof {
        assert(tree.octants@[idx as int].inv(idx as int));
        lemma_osize_pos(tree.octants@, idx as int);
        lemma_osize_children(tree.octants@, idx as int);
    }
    let mut faces = cell_children(tree, idx, c);
    cell_face_pairs(tree, idx, c, &mut faces);
    cell_edge_quads(tree, idx, c, &mut faces);
    faces
}

/// The faces of the eight children of an internal cell, in order.
fn cell_children(tree: &Octree, idx: OctantIdx, c: [OctantIdx; 8]) -> (faces: Vec<Face>)
    requires
        tree.inv(),
        idx < tree.octants@.len(),
        tree.octants@[idx as int].children == Some(c),
    ensures
        ({
            let octs = tree.octants@;
            faces@ == spec_cell_faces(octs, c[0] as int) + spec_cell_faces(octs, c[1] as int)
                + spec_cell_faces(octs, c[2] as int) + spec_cell_faces(octs, c[3] as int)
                + spec_cell_faces(octs, c[4] as int) + spec_cell_faces(octs, c[5] as int)
                + spec_cell_faces(octs, c[6] as int) + spec_cell_faces(octs, c[7] as int)
        }),
    decreases osize(tree.octants@, idx as int), 5int,
{
    proof {
        assert(tree.octants@[idx as int].inv(idx as int));
        lemma_osize_pos(tree.octants@, idx as int);
        lemma_osize_children(tree.octants@, idx as int);
    }
    let mut faces = cell_proc(tree, c[0]);
    let f1 = cell_proc(tree, c[1]);
    append_faces(&mut faces, f1);
    let f2 = cell_proc(tree, c[2]);
    append_faces(&mut faces, f2);
    let f3 = cell_proc(tree, c[3]);
    append_faces(&mut faces, f3);
    let f4 = cell_proc(tree, c[4]);
    append_faces(&mut faces, f4);
    let f5 = cell_proc(tree, c[5]);
    append_faces(&mut faces, f5);
    let f6 = cell_proc(tree, c[6]);
    append_faces(&mut faces, f6);
    let f7 = cell_proc(tree, c[7]);
    append_faces(&mut faces, f7);
    faces
}

/// Extend `faces` with the faces of the twelve face-adjacent child pairs.
fn cell_face_pairs(tree: &Octree, idx: OctantIdx, c: [OctantIdx; 8], faces: &mut Vec<Face>)
    requires
        tree.inv(),
        idx < tree.octants@.len(),
        tree.octants@[idx as int].children == Some(c),
    ensures
        ({
            let octs = tree.octants@;
            final(faces)@ == old(faces)@ + spec_face_faces(octs, TreeAxis::X, c[4] as int, c[5] as int)
                + spec_face_faces(octs, TreeAxis::X, c[0] as int, c[1] as int) + spec_face_faces(
                octs,
                TreeAxis::X,
                c[2] as int,
                c[3] as int,
            ) + spec_face_faces(octs, TreeAxis::X, c[6] as int, c[7] as int) + spec_face_faces(
                octs,
                TreeAxis::Y,
                c[0] as int,
                c[2] as int,
            ) + spec_face_faces(octs, TreeAxis::Y, c[1] as int, c[3] as int) + spec_face_faces(
                octs,
                TreeAxis::Y,
                c[5] as int,
                c[7] as int,
            ) + spec_face_faces(octs, TreeAxis::Y, c[4] as int, c[6] as int) + spec_face_faces(
                octs,
                TreeAxis::Z,
                c[0] as int,
                c[4] as int,
            ) + spec_face_faces(octs, TreeAxis::Z, c[1] as int, c[5] as int) + spec_face_faces(
                octs,
                TreeAxis::Z,
                c[3] as int,
                c[7] as int,
            ) + spec_face_faces(octs, TreeAxis::Z, c[2] as int, c[6] as int)
        }),
    decreases osize(tree.octants@, idx as int), 5int,
{
    proof {
        assert(tree.octants@[idx as int].inv(idx as int));
        lemma_osize_pos(tree.octants@, idx as int);
        lemma_osize_children(tree.octants@, idx as int);
    }
    let g0 = face_proc(tree, TreeAxis::X, [c[4], c[5]]);
    append_faces(faces, g0);
    let g1 = face_proc(tree, TreeAxis::X, [c[0], c[1]]);
    append_faces(faces, g1);
    let g2 = face_proc(tree, TreeAxis::X, [c[2], c[3]]);
    append_faces(faces, g2);
    let g3 = face_proc(tree, TreeAxis::X, [c[6], c[7]]);
    append_faces(faces, g3);
    let g4 = face_proc(tree, TreeAxis::Y, [c[0], c[2]]);
    append_faces(faces, g4);
    let g5 = face_proc(tree, TreeAxis::Y, [c[1], c[3]]);
    append_faces(faces, g5);
    let g6 = face_proc(tree, TreeAxis::Y, [c[5], c[7]]);
    append_faces(faces, g6);
    let g7 = face_proc(tree, TreeAxis::Y, [c[4], c[6]]);
    append_faces(faces, g7);
    let g8 = face_proc(tree, TreeAxis::Z, [c[0], c[4]]);
    append_faces(faces, g8);
    let g9 = face_proc(tree, TreeAxis::Z, [c[1], c[5]]);
    append_faces(faces, g9);
    let g10 = face_proc(tree, TreeAxis::Z, [c[3], c[7]]);
    append_faces(faces, g10);
    let g11 = face_proc(tree, TreeAxis::Z, [c[2], c[6]]);
    append_faces(faces, g11);
}

/// Extend `faces` with the faces of the six edge-adjacent child quadruples.
fn cell_edge_quads(tree: &Octree, idx: OctantIdx, c: [OctantIdx; 8], faces: &mut Vec<Face>)
    requires
        tree.inv(),
        idx < tree.octants@.len(),
        tree.octants@[idx as int].children == Some(c),
    ensures
        ({
            let octs = tree.octants@;
            final(faces)@ == old(faces)@ + spec_edge_faces(
                octs,
                TreeAxis::X,
                c[1] as int,
                c[5] as int,
                c[3] as int,
                c[7] as int,
            ) + spec_edge_faces(octs, TreeAxis::X, c[0] as int, c[4] as int, c[2] as int, c[6] as int)
                + spec_edge_faces(
                octs,
                TreeAxis::Y,
                c[4] as int,
                c[5] as int,
                c[0] as int,
                c[1] as int,
            ) + spec_edge_faces(octs, TreeAxis::Y, c[6] as int, c[7] as int, c[2] as int, c[3] as int)
                + spec_edge_faces(
                octs,
                TreeAxis::Z,
                c[0] as int,
                c[1] as int,
                c[2] as int,
                c[3] as int,
            ) + spec_edge_faces(octs, TreeAxis::Z, c[4] as int, c[5] as int, c[6] as int, c[7] as int)
        }),
    decreases osize(tree.octants@, idx as int), 5int,
{
    proof {
        assert(tree.octants@[idx as int].inv(idx as int));
        lemma_osize_pos(tree.octants@, idx as int);
        lemma_osize_children(tree.octants@, idx as int);
    }
    let e0 = edge_proc(tree, TreeAxis::X, [c[1], c[5], c[3], c[7]]);
    append_faces(faces, e0);
    let e1 = edge_proc(tree, TreeAxis::X, [c[0], c[4], c[2], c[6]]);
    append_faces(faces, e1);
    let e2 = edge_proc(tree, TreeAxis::Y, [c[4], c[5], c[0], c[1]]);
    append_faces(faces, e2);
    let e3 = edge_proc(tree, TreeAxis::Y, [c[6], c[7], c[2], c[3]]);
    append_faces(faces, e3);
    let e4 = edge_proc(tree, TreeAxis::Z, [c[0], c[1], c[2], c[3]]);
    append_faces(faces, e4);
    let e5 = edge_proc(tree, TreeAxis::Z, [c[4], c[5], c[6], c[7]]);
    append_faces(faces, e5);
}

/// Recursive extraction from two octants sharing a face perpendicular to
/// `dir`: descends into the four sub-face pairs and the four sub-edge
/// quadruples straddling the shared face.
fn face_proc(tree: &Octree, dir: TreeAxis, cells: [OctantIdx; 2]) -> (faces: Vec<Face>)
    requires
        tree.inv(),
        cells[0] < tree.octants@.len(),
        cells[1] < tree.octants@.len(),
    ensures
        faces@ == spec_face_faces(tree.octants@, dir, cells[0] as int, cells[1] as int),
    decreases
            osize(tree.octants@, cells[0] as int) + osize(tree.octants@, cells[1] as int),
            4int,
{
    let a = cells[0];
    let b = cells[1];
    if tree.get_octant(a).is_leaf() && tree.get_octant(b).is_leaf() {
        return Vec::new();
    }
    match dir {
        TreeAxis::X => face_arm_x(tree, a, b),
        TreeAxis::Y => face_arm_y(tree, a, b),
        TreeAxis::Z => face_arm_z(tree, a, b),
    }
}

/// The x-direction descent of `face_proc`.
fn face_arm_x(tree: &Octree, a: OctantIdx, b: OctantIdx) -> (faces: Vec<Face>)
    requires
        tree.inv(),
        a < tree.octants@.len(),
        b < tree.octants@.len(),
        !(tree.octants@[a as int].children is None && tree.octants@[b as int].children is None),
    ensures
        ({
            let octs = tree.octants@;
            faces@ == spec_face_faces(octs, TreeAxis::X, cos(octs, a as int, 5), cos(octs, b as int, 4))
                + spec_face_faces(octs, TreeAxis::X, cos(octs, a as int, 7), cos(octs, b as int, 6))
                + spec_face_faces(octs, TreeAxis::X, cos(octs, a as int, 1), cos(octs, b as int, 0))
                + spec_face_faces(octs, TreeAxis::X, cos(octs, a as int, 3), cos(octs, b as int, 2))
                + spec_edge_faces(octs, TreeAxis::Y, cos(octs, a as int, 5), cos(octs, b as int, 4),
                    cos(octs, a as int, 1), cos(octs, b as int, 0))
                + spec_edge_faces(octs, TreeAxis::Y, cos(octs, a as int, 7), cos(octs, b as int, 6),
                    cos(octs, a as int, 3), cos(octs, b as int, 2))
                + spec_edge_faces(octs, TreeAxis::Z, cos(octs, a as int, 1), cos(octs, b as int, 0),
                    cos(octs, a as int, 3), cos(octs, b as int, 2))
                + spec_edge_faces(octs, TreeAxis::Z, cos(octs, a as int, 5), cos(octs, b as int, 4),
                    cos(octs, a as int, 7), cos(octs, b as int, 6))
        }),
    decreases osize(tree.octants@, a as int) + osize(tree.octants@, b as int), 3int,
{
    proof {
        let octs = tree.octants@;
        if octs[a as int].children is Some {
            lemma_osize_two_slots(octs, a as int, 5, 1);
            lemma_osize_two_slots(octs, a as int, 7, 3);
            lemma_osize_two_slots(octs, a as int, 1, 3);
            lemma_osize_two_slots(octs, a as int, 5, 7);
        }
        if octs[b as int].children is Some {
            lemma_osize_two_slots(octs, b as int, 4, 0);
            lemma_osize_two_slots(octs, b as int, 6, 2);
            lemma_osize_two_slots(octs, b as int, 0, 2);
            lemma_osize_two_slots(octs, b as int, 4, 6);
        }
    }
    let mut faces = face_proc(
        tree,
        TreeAxis::X,
        [child_or_self(tree, a, 5), child_or_self(tree, b, 4)],
    );
    let g1 = face_proc(tree, TreeAxis::X, [child_or_self(tree, a, 7), child_or_self(tree, b, 6)]);
    append_faces(&mut faces, g1);
    let g2 = face_proc(tree, TreeAxis::X, [child_or_self(tree, a, 1), child_or_self(tree, b, 0)]);
    append_faces(&mut faces, g2);
    let g3 = face_proc(tree, TreeAxis::X, [child_or_self(tree, a, 3), child_or_self(tree, b, 2)]);
    append_faces(&mut faces, g3);
    face_arm_x_edges(tree, a, b, &mut faces);
    faces
}

/// The edge descents of the x-direction face recursion.
#[verifier::rlimit(100)]
#[verifier::spinoff_prover]
fn face_arm_x_edges(tree: &Octree, a: OctantIdx, b: OctantIdx, faces: &mut Vec<Face>)
    requires
        tree.inv(),
        a < tree.octants@.len(),
        b < tree.octants@.len(),
        !(tree.octants@[a as int].children is None && tree.octants@[b as int].children is None),
    ensures
        ({
            let octs = tree.octants@;
            final(faces)@ == old(faces)@ + spec_edge_faces(octs, TreeAxis::Y, cos(octs, a as int, 5), cos(octs, b as int, 4),
                    cos(octs, a as int, 1), cos(octs, b as int, 0))
                + spec_edge_faces(octs, TreeAxis::Y, cos(octs, a as int, 7), cos(octs, b as int, 6),
                    cos(octs, a as int, 3), cos(octs, b as int, 2))
                + spec_edge_faces(octs, TreeAxis::Z, cos(octs, a as int, 1), cos(octs, b as int, 0),
                    cos(octs, a as int, 3), cos(octs, b as int, 2))
                + spec_edge_faces(octs, TreeAxis::Z, cos(octs, a as int, 5), cos(octs, b as int, 4),
                    cos(octs, a as int, 7), cos(octs, b as int, 6))
        }),
    decreases osize(tree.octants@, a as int) + osize(tree.octants@, b as int), 3int,
{
    proof {
        let octs = tree.octants@;
        if octs[a as int].children is Some {
            lemma_osize_two_slots(octs, a as int, 5, 1);
            lemma_osize_two_slots(octs, a as int, 7, 3);
            lemma_osize_two_slots(octs, a as int, 1, 3);
            lemma_osize_two_slots(octs, a as int, 5, 7);
        }
        if octs[b as int].children is Some {
            lemma_osize_two_slots(octs, b as int, 4, 0);
            lemma_osize_two_slots(octs, b as int, 6, 2);
            lemma_osize_two_slots(octs, b as int, 0, 2);
            lemma_osize_two_slots(octs, b as int, 4, 6);
        }
    }

    let e0 = edge_proc(
        tree,
        TreeAxis::Y,
        [
            child_or_self(tree, a, 5),
            child_or_self(tree, b, 4),
            child_or_self(tree, a, 1),
            child_or_self(tree, b, 0),
        ],
    );
    append_faces(faces, e0);
    let e1 = edge_proc(
        tree,
        TreeAxis::Y,
        [
            child_or_self(tree, a, 7),
            child_or_self(tree, b, 6),
            child_or_self(tree, a, 3),
            child_or_self(tree, b, 2),
        ],
    );
    append_faces(faces, e1);
    let e2 = edge_proc(
        tree,
        TreeAxis::Z,
        [
            child_or_self(tree, a, 1),
            child_or_self(tree, b, 0),
            child_or_self(tree, a, 3),
            child_or_self(tree, b, 2),
        ],
    );
    append_faces(faces, e2);
    let e3 = edge_proc(
        tree,
        TreeAxis::Z,
        [
            child_or_self(tree, a, 5),
            child_or_self(tree, b, 4),
            child_or_self(tree, a, 7),
            child_or_self(tree, b, 6),
        ],
    );
    append_faces(faces, e3);
}

/// The y-direction descent of `face_proc`.
fn face_arm_y(tree: &Octree, a: OctantIdx, b: OctantIdx) -> (faces: Vec<Face>)
    requires
        tree.inv(),
        a < tree.octants@.len(),
        b < tree.octants@.len(),
        !(tree.octants@[a as int].children is None && tree.octants@[b as int].children is None),
    ensures
        ({
            let octs = tree.octants@;
            faces@ == spec_face_faces(octs, TreeAxis::Y, cos(octs, a as int, 7), cos(octs, b as int, 5))
                + spec_face_faces(octs, TreeAxis::Y, cos(octs, a as int, 6), cos(octs, b as int, 4))
                + spec_face_faces(octs, TreeAxis::Y, cos(octs, a as int, 3), cos(octs, b as int, 1))
                + spec_face_faces(octs, TreeAxis::Y, cos(octs, a as int, 2), cos(octs, b as int, 0))
                + spec_edge_faces(octs, TreeAxis::Z, cos(octs, a as int, 2), cos(octs, a as int, 3),
                    cos(octs, b as int, 0), cos(octs, b as int, 1))
                + spec_edge_faces(octs, TreeAxis::Z, cos(octs, a as int, 6), cos(octs, a as int, 7),
                    cos(octs, b as int, 4), cos(octs, b as int, 5))
                + spec_edge_faces(octs, TreeAxis::X, cos(octs, a as int, 3), cos(octs, a as int, 7),
                    cos(octs, b as int, 1), cos(octs, b as int, 5))
                + spec_edge_faces(octs, TreeAxis::X, cos(octs, a as int, 2), cos(octs, a as int, 6),
                    cos(octs, b as int, 0), cos(octs, b as int, 4))
        }),
    decreases osize(tree.octants@, a as int) + osize(tree.octants@, b as int), 3int,
{
    proof {
        let octs = tree.octants@;
        if octs[a as int].children is Some {
            lemma_osize_two_slots(octs, a as int, 2, 3);
            lemma_osize_two_slots(octs, a as int, 6, 7);
            lemma_osize_two_slots(octs, a as int, 3, 7);
            lemma_osize_two_slots(octs, a as int, 2, 6);
        }
        if octs[b as int].children is Some {
            lemma_osize_two_slots(octs, b as int, 0, 1);
            lemma_osize_two_slots(octs, b as int, 4, 5);
            lemma_osize_two_slots(octs, b as int, 1, 5);
            lemma_osize_two_slots(octs, b as int, 0, 4);
        }
    }
    let mut faces = face_proc(
        tree,
        TreeAxis::Y,
        [child_or_self(tree, a, 7), child_or_self(tree, b, 5)],
    );
    let g1 = face_proc(tree, TreeAxis::Y, [child_or_self(tree, a, 6), child_or_self(tree, b, 4)]);
    append_faces(&mut faces, g1);
    let g2 = face_proc(tree, TreeAxis::Y, [child_or_self(tree, a, 3), child_or_self(tree, b, 1)]);
    append_faces(&mut faces, g2);
    let g3 = face_proc(tree, TreeAxis::Y, [child_or_self(tree, a, 2), child_or_self(tree, b, 0)]);
    append_faces(&mut faces, g3);
    face_arm_y_edges(tree, a, b, &mut faces);
    faces
}

/// The edge descents of the y-direction face recursion.
#[verifier::rlimit(100)]
#[verifier::spinoff_prover]
fn face_arm_y_edges(tree: &Octree, a: OctantIdx, b: OctantIdx, faces: &mut Vec<Face>)
    requires
        tree.inv(),
        a < tree.octants@.len(),
        b < tree.octants@.len(),
        !(tree.octants@[a as int].children is None && tree.octants@[b as int].children is None),
    ensures
        ({
            let octs = tree.octants@;
            final(faces)@ == old(faces)@ + spec_edge_faces(octs, TreeAxis::Z, cos(octs, a as int, 2), cos(octs, a as int, 3),
                    cos(octs, b as int, 0), cos(octs, b as int, 1))
                + spec_edge_faces(octs, TreeAxis::Z, cos(octs, a as int, 6), cos(octs, a as int, 7),
                    cos(octs, b as int, 4), cos(octs, b as int, 5))
                + spec_edge_faces(octs, TreeAxis::X, cos(octs, a as int, 3), cos(octs, a as int, 7),
                    cos(octs, b as int, 1), cos(octs, b as int, 5))
                + spec_edge_faces(octs, TreeAxis::X, cos(octs, a as int, 2), cos(octs, a as int, 6),
                    cos(octs, b as int, 0), cos(octs, b as int, 4))
        }),
    decreases osize(tree.octants@, a as int) + osize(tree.octants@, b as int), 3int,
{
    proof {
        let octs = tree.octants@;
        if octs[a as int].children is Some {
            lemma_osize_two_slots(octs, a as int, 2, 3);
            lemma_osize_two_slots(octs, a as int, 6, 7);
            lemma_osize_two_slots(octs, a as int, 3, 7);
            lemma_osize_two_slots(octs, a as int, 2, 6);
        }
        if octs[b as int].children is Some {
            lemma_osize_two_slots(octs, b as int, 0, 1);
            lemma_osize_two_slots(octs, b as int, 4, 5);
            lemma_osize_two_slots(octs, b as int, 1, 5);
            lemma_osize_two_slots(octs, b as int, 0, 4);
        }
    }

    let e0 = edge_proc(
        tree,
        TreeAxis::Z,
        [
            child_or_self(tree, a, 2),
            child_or_self(tree, a, 3),
            child_or_self(tree, b, 0),
            child_or_self(tree, b, 1),
        ],
    );
    append_faces(faces, e0);
    let e1 = edge_proc(
        tree,
        TreeAxis::Z,
        [
            child_or_self(tree, a, 6),
            child_or_self(tree, a, 7),
            child_or_self(tree, b, 4),
            child_or_self(tree, b, 5),
        ],
    );
    append_faces(faces, e1);
    let e2 = edge_proc(
        tree,
        TreeAxis::X,
        [
            child_or_self(tree, a, 3),
            child_or_self(tree, a, 7),
            child_or_self(tree, b, 1),
            child_or_self(tree, b, 5),
        ],
    );
    append_faces(faces, e2);
    let e3 = edge_proc(
        tree,
        TreeAxis::X,
        [
            child_or_self(tree, a, 2),
            child_or_self(tree, a, 6),
            child_or_self(tree, b, 0),
            child_or_self(tree, b, 4),
        ],
    );
    append_faces(faces, e3);
}

/// The z-direction descent of `face_proc`.
fn face_arm_z(tree: &Octree, a: OctantIdx, b: OctantIdx) -> (faces: Vec<Face>)
    requires
        tree.inv(),
        a < tree.octants@.len(),
        b < tree.octants@.len(),
        !(tree.octants@[a as int].children is None && tree.octants@[b as int].children is None),
    ensures
        ({
            let octs = tree.octants@;
            faces@ == spec_face_faces(octs, TreeAxis::Z, cos(octs, a as int, 5), cos(octs, b as int, 1))
                + spec_face_faces(octs, TreeAxis::Z, cos(octs, a as int, 4), cos(octs, b as int, 0))
                + spec_face_faces(octs, TreeAxis::Z, cos(octs, a as int, 7), cos(octs, b as int, 3))
                + spec_face_faces(octs, TreeAxis::Z, cos(octs, a as int, 6), cos(octs, b as int, 2))
                + spec_edge_faces(octs, TreeAxis::Y, cos(octs, b as int, 0), cos(octs, b as int, 1),
                    cos(octs, a as int, 4), cos(octs, a as int, 5))
                + spec_edge_faces(octs, TreeAxis::Y, cos(octs, b as int, 2), cos(octs, b as int, 3),
                    cos(octs, a as int, 6), cos(octs, a as int, 7))
                + spec_edge_faces(octs, TreeAxis::X, cos(octs, a as int, 5), cos(octs, b as int, 1),
                    cos(octs, a as int, 7), cos(octs, b as int, 3))
                + spec_edge_faces(octs, TreeAxis::X, cos(octs, a as int, 4), cos(octs, b as int, 0),
                    cos(octs, a as int, 6), cos(octs, b as int, 2))
        }),
    decreases osize(tree.octants@, a as int) + osize(tree.octants@, b as int), 3int,
{
    proof {
        let octs = tree.octants@;
        if octs[a as int].children is Some {
            lemma_osize_two_slots(octs, a as int, 4, 5);
            lemma_osize_two_slots(octs, a as int, 6, 7);
            lemma_osize_two_slots(octs, a as int, 5, 7);
            lemma_osize_two_slots(octs, a as int, 4, 6);
        }
        if octs[b as int].children is Some {
            lemma_osize_two_slots(octs, b as int, 0, 1);
            lemma_osize_two_slots(octs, b as int, 2, 3);
            lemma_osize_two_slots(octs, b as int, 1, 3);
            lemma_osize_two_slots(octs, b as int, 0, 2);
        }
    }
    let mut faces = face_proc(
        tree,
        TreeAxis::Z,
        [child_or_self(tree, a, 5), child_or_self(tree, b, 1)],
    );
    let g1 = face_proc(tree, TreeAxis::Z, [child_or_self(tree, a, 4), child_or_self(tree, b, 0)]);
    append_faces(&mut faces, g1);
    let g2 = face_proc(tree, TreeAxis::Z, [child_or_self(tree, a, 7), child_or_self(tree, b, 3)]);
    append_faces(&mut faces, g2);
    let g3 = face_proc(tree, TreeAxis::Z, [child_or_self(tree, a, 6), child_or_self(tree, b, 2)]);
    append_faces(&mut faces, g3);
    face_arm_z_edges(tree, a, b, &mut faces);
    faces
}

/// The edge descents of the z-direction face recursion.
#[verifier::rlimit(100)]
#[verifier::spinoff_prover]
fn face_arm_z_edges(tree: &Octree, a: OctantIdx, b: OctantIdx, faces: &mut Vec<Face>)
    requires
        tree.inv(),
        a < tree.octants@.len(),
        b < tree.octants@.len(),
        !(tree.octants@[a as int].children is None && tree.octants@[b as int].children is None),
    ensures
        ({
            let octs = tree.octants@;
            final(faces)@ == old(faces)@ + spec_edge_faces(octs, TreeAxis::Y, cos(octs, b as int, 0), cos(octs, b as int, 1),
                    cos(octs, a as int, 4), cos(octs, a as int, 5))
                + spec_edge_faces(octs, TreeAxis::Y, cos(octs, b as int, 2), cos(octs, b as int, 3),
                    cos(octs, a as int, 6), cos(octs, a as int, 7))
                + spec_edge_faces(octs, TreeAxis::X, cos(octs, a as int, 5), cos(octs, b as int, 1),
                    cos(octs, a as int, 7), cos(octs, b as int, 3))
                + spec_edge_faces(octs, TreeAxis::X, cos(octs, a as int, 4), cos(octs, b as int, 0),
                    cos(octs, a as int, 6), cos(octs, b as int, 2))
        }),
    decreases osize(tree.octants@, a as int) + osize(tree.octants@, b as int), 3int,
{
    proof {
        let octs = tree.octants@;
        if octs[a as int].children is Some {
            lemma_osize_two_slots(octs, a as int, 4, 5);
            lemma_osize_two_slots(octs, a as int, 6, 7);
            lemma_osize_two_slots(octs, a as int, 5, 7);
            lemma_osize_two_slots(octs, a as int, 4, 6);
        }
        if octs[b as int].children is Some {
            lemma_osize_two_slots(octs, b as int, 0, 1);
            lemma_osize_two_slots(octs, b as int, 2, 3);
            lemma_osize_two_slots(octs, b as int, 1, 3);
            lemma_osize_two_slots(octs, b as int, 0, 2);
        }
    }

    let e0 = edge_proc(
        tree,
        TreeAxis::Y,
        [
            child_or_self(tree, b, 0),
            child_or_self(tree, b, 1),
            child_or_self(tree, a, 4),
            child_or_self(tree, a, 5),
        ],
    );
    append_faces(faces, e0);
    let e1 = edge_proc(
        tree,
        TreeAxis::Y,
        [
            child_or_self(tree, b, 2),
            child_or_self(tree, b, 3),
            child_or_self(tree, a, 6),
            child_or_self(tree, a, 7),
        ],
    );
    append_faces(faces, e1);
    let e2 = edge_proc(
        tree,
        TreeAxis::X,
        [
            child_or_self(tree, a, 5),
            child_or_self(tree, b, 1),
            child_or_self(tree, a, 7),
            child_or_self(tree, b, 3),
        ],
    );
    append_faces(faces, e2);
    let e3 = edge_proc(
        tree,
        TreeAxis::X,
        [
            child_or_self(tree, a, 4),
            child_or_self(tree, b, 0),
            child_or_self(tree, a, 6),
            child_or_self(tree, b, 2),
        ],
    );
    append_faces(faces, e3);
}



/// The pairwise slot bound, by case split over the two slot indices.
proof fn lemma_osize_two_slots(octs: Seq<Octant>, cell: int, j1: int, j2: int)
    requires
        wf_cells1(octs, cell),
        octs[cell].children is Some,
        0 <= j1 < 8,
        0 <= j2 < 8,
        j1 != j2,
    ensures
        osize(octs, cos(octs, cell, j1)) + osize(octs, cos(octs, cell, j2)) + 6 < osize(
            octs,
            cell,
        ),
{
    lemma_osize_children(octs, cell);
}

/// Recursive extraction from four octants sharing an edge parallel to
/// `dir`: emits a face where all four are leaves, and otherwise descends
/// into the two half-edges.
fn edge_proc(tree: &Octree, dir: TreeAxis, cells: [OctantIdx; 4]) -> (faces: Vec<Face>)
    requires
        tree.inv(),
        forall|t: int| 0 <= t < 4 ==> cells[t] < tree.octants@.len(),
    ensures
        faces@ == spec_edge_faces(
            tree.octants@,
            dir,
            cells[0] as int,
            cells[1] as int,
            cells[2] as int,
            cells[3] as int,
        ),
    decreases
            osize(tree.octants@, cells[0] as int) + osize(tree.octants@, cells[1] as int) + osize(
                tree.octants@,
                cells[2] as int,
            ) + osize(tree.octants@, cells[3] as int),
            2int,
{
    let l0 = tree.get_octant(cells[0]).is_leaf();
    let l1 = tree.get_octant(cells[1]).is_leaf();
    let l2 = tree.get_octant(cells[2]).is_leaf();
    let l3 = tree.get_octant(cells[3]).is_leaf();
    if l0 && l1 && l2 && l3 {
        let mut faces: Vec<Face> = Vec::new();
        if let Some(face) = make_face(tree, cells) {
            faces.push(face);
            proof {
                assert(faces@ =~= seq![face]);
            }
        }
        return faces;
    }
    match dir {
        TreeAxis::X => edge_arm(tree, TreeAxis::X, cells, 7, 3, 5, 1, 6, 2, 4, 0),
        TreeAxis::Y => edge_arm(tree, TreeAxis::Y, cells, 1, 0, 5, 4, 3, 2, 7, 6),
        TreeAxis::Z => edge_arm(tree, TreeAxis::Z, cells, 3, 2, 1, 0, 7, 6, 5, 4),
    }
}

/// One edge descent: the two half-edges of the shared edge, each built
/// from one child (or the leaf itself) of each of the four cells.
fn edge_arm(
    tree: &Octree,
    dir: TreeAxis,
    cells: [OctantIdx; 4],
    a0: usize,
    a1: usize,
    a2: usize,
    a3: usize,
    b0: usize,
    b1: usize,
    b2: usize,
    b3: usize,
) -> (faces: Vec<Face>)
    requires
        tree.inv(),
        forall|t: int| 0 <= t < 4 ==> cells[t] < tree.octants@.len(),
        a0 < 8 && a1 < 8 && a2 < 8 && a3 < 8 && b0 < 8 && b1 < 8 && b2 < 8 && b3 < 8,
        !(tree.octants@[cells[0] as int].children is None && tree.octants@[cells[1] as int].children
            is None && tree.octants@[cells[2] as int].children is None
            && tree.octants@[cells[3] as int].children is None),
    ensures
        ({
            let octs = tree.octants@;
            faces@ == spec_edge_faces(
                octs,
                dir,
                cos(octs, cells[0] as int, a0 as int),
                cos(octs, cells[1] as int, a1 as int),
                cos(octs, cells[2] as int, a2 as int),
                cos(octs, cells[3] as int, a3 as int),
            ) + spec_edge_faces(
                octs,
                dir,
                cos(octs, cells[0] as int, b0 as int),
                cos(octs, cells[1] as int, b1 as int),
                cos(octs, cells[2] as int, b2 as int),
                cos(octs, cells[3] as int, b3 as int),
            )
        }),
    decreases
            osize(tree.octants@, cells[0] as int) + osize(tree.octants@, cells[1] as int) + osize(
                tree.octants@,
                cells[2] as int,
            ) + osize(tree.octants@, cells[3] as int),
            1int,
{
    let mut faces = edge_proc(
        tree,
        dir,
        [
            child_or_self(tree, cells[0], a0),
            child_or_self(tree, cells[1], a1),
            child_or_self(tree, cells[2], a2),
            child_or_self(tree, cells[3], a3),
        ],
    );
    let e1 = edge_proc(
        tree,
        dir,
        [
            child_or_self(tree, cells[0], b0),
            child_or_self(tree, cells[1], b1),
            child_or_self(tree, cells[2], b2),
            child_or_self(tree, cells[3], b3),
        ],
    );
    append_faces(&mut faces, e1);
    faces
}


} // verus!

