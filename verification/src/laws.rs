//! The library's headline properties, stated and proved over the spec-level
//! mirrors that every public operation is verified against.

use vstd::prelude::*;
use crate::dual_contour::{TreeAxis, cos, edge_hi, edge_lo, lemma_bisect_brackets, lemma_cos_all,
    sample_at, spec_bisect, spec_cell_faces, spec_collect_features, spec_crossings, spec_dedup,
    spec_edge_faces, spec_face_faces, spec_find_point, spec_lerp, spec_lerp_point, spec_make_face,
    spec_new_feature, wf_cells1, wf_cells2, wf_cells4};
use crate::math::{div_trunc, lemma_two_pow_values, two_pow};
use crate::octree::{BuildOut, OctAxis, Octant, OctantIdx, Octree, Subdivided, depth_for, in_cube,
    leaves_solved, lemma_osize_children, lemma_osize_pos, lemma_subdivide_props, osize,
    spec_all_neg, spec_all_nonneg, spec_extract_faces, spec_merge, spec_sub_axes, spec_subdivide,
    spec_subdivide_children};
use crate::shape::CsgFunc;
use crate::types::{Face, LERP_ONE, Point};

verus! {

/// Containment: every feature point stored anywhere in a well-formed
/// octree lies in the closed cube of its own octant.
pub proof fn lemma_feature_containment(t: Octree)
    requires
        t.inv(),
    ensures
        forall|i: int|
            0 <= i < t.octants@.len() ==> ((#[trigger] t.octants@[i]).feature matches Some(p)
                ==> in_cube(p, t.octants@[i].x_axis, t.octants@[i].y_axis, t.octants@[i].z_axis)),
{
    assert forall|i: int|
        0 <= i < t.octants@.len() implies ((#[trigger] t.octants@[i]).feature matches Some(p)
        ==> in_cube(p, t.octants@[i].x_axis, t.octants@[i].y_axis, t.octants@[i].z_axis)) by {
        assert(t.octants@[i].inv(i));
    }
}

/// Does `p` lie in the sub-cube of child slot `j`?
pub open spec fn in_sub_cube(p: Point, xa: OctAxis, ya: OctAxis, za: OctAxis, j: int) -> bool {
    let (sx, sy, sz) = spec_sub_axes(xa, ya, za, j);
    in_cube(p, sx, sy, sz)
}

/// Partition, per axis: the two halves of a split cover the interval
/// exactly, and meet only at the centre.
pub proof fn lemma_axis_split_partition(a: OctAxis, v: int)
    requires
        a.inv(),
    ensures
        (a.lower <= v <= a.upper) <==> ((a.spec_split().0.lower <= v <= a.spec_split().0.upper) || (
        a.spec_split().1.lower <= v <= a.spec_split().1.upper)),
        ((a.spec_split().0.lower <= v <= a.spec_split().0.upper) && (a.spec_split().1.lower <= v
            <= a.spec_split().1.upper)) ==> v == a.spec_center(),
{
}

/// Partition: a point lies in a cell's cube exactly when it lies in one of
/// the eight child cubes, and two distinct child cubes meet only on a
/// splitting plane.
pub proof fn lemma_children_partition(xa: OctAxis, ya: OctAxis, za: OctAxis, p: Point)
    requires
        xa.inv(),
        ya.inv(),
        za.inv(),
    ensures
        in_cube(p, xa, ya, za) <==> exists|j: int| 0 <= j < 8 && #[trigger] in_sub_cube(
            p,
            xa,
            ya,
            za,
            j,
        ),
        forall|j1: int, j2: int|
            0 <= j1 < 8 && 0 <= j2 < 8 && j1 != j2 && #[trigger] in_sub_cube(p, xa, ya, za, j1)
                && #[trigger] in_sub_cube(p, xa, ya, za, j2) ==> p.x == xa.spec_center() || p.y
                == ya.spec_center() || p.z == za.spec_center(),
{
    let cx = xa.spec_center();
    let cy = ya.spec_center();
    let cz = za.spec_center();
    if in_cube(p, xa, ya, za) {
        let jx: int = if p.x <= cx {
            0
        } else {
            4
        };
        let jy: int = if p.y >= cy {
            0
        } else {
            2
        };
        let jz: int = if p.z <= cz {
            0
        } else {
            1
        };
        let j = jx + jy + jz;
        assert(in_sub_cube(p, xa, ya, za, j));
    }
    if exists|j: int| 0 <= j < 8 && #[trigger] in_sub_cube(p, xa, ya, za, j) {
        let j = choose|j: int| 0 <= j < 8 && #[trigger] in_sub_cube(p, xa, ya, za, j);
        assert(in_cube(p, xa, ya, za)) by {
            lemma_axis_split_partition(xa, p.x as int);
            lemma_axis_split_partition(ya, p.y as int);
            lemma_axis_split_partition(za, p.z as int);
        }
    }
    assert forall|j1: int, j2: int|
        0 <= j1 < 8 && 0 <= j2 < 8 && j1 != j2 && #[trigger] in_sub_cube(p, xa, ya, za, j1)
            && #[trigger] in_sub_cube(p, xa, ya, za, j2) implies p.x == cx || p.y == cy || p.z
        == cz by {
        lemma_axis_split_partition(xa, p.x as int);
        lemma_axis_split_partition(ya, p.y as int);
        lemma_axis_split_partition(za, p.z as int);
    }
}

/// Feature iff crossing: in any octree whose leaves carry solver features
/// for field `f`, a leaf holds a feature exactly when at least two of its
/// twelve edges cross the isosurface.
pub proof fn lemma_feature_iff_crossings(t: Octree, f: CsgFunc)
    requires
        t.inv(),
        leaves_solved(t.octants@, f),
    ensures
        forall|i: int|
            0 <= i < t.octants@.len() && (#[trigger] t.octants@[i]).children is None
                ==> (t.octants@[i].feature is Some <==> spec_crossings(
                t.octants@[i].x_axis,
                t.octants@[i].y_axis,
                t.octants@[i].z_axis,
                f,
            ).len() >= 2),
{
    assert forall|i: int|
        0 <= i < t.octants@.len() && (#[trigger] t.octants@[i]).children is None implies (
    t.octants@[i].feature is Some <==> spec_crossings(
        t.octants@[i].x_axis,
        t.octants@[i].y_axis,
        t.octants@[i].z_axis,
        f,
    ).len() >= 2) by {
        assert(t.octants@[i].feature == spec_new_feature(
            t.octants@[i].x_axis,
            t.octants@[i].y_axis,
            t.octants@[i].z_axis,
            f,
            false,
        ));
    }
}

/// A build that starts from an empty arena leaves every leaf solved, so
/// `lemma_feature_iff_crossings` applies to every freshly rendered octree.
pub proof fn lemma_fresh_build_solved(range: OctAxis, depth: nat, f: CsgFunc)
    requires
        f.inv(),
        range.inv(),
    ensures
        leaves_solved(
            spec_subdivide(Seq::<Octant>::empty(), None, range, range, range, depth, f).octs,
            f,
        ),
{
    lemma_subdivide_props(Seq::<Octant>::empty(), None, range, range, range, depth, f);
}

/// Determinism: two runs over the same field, bounds and resolution build
/// the same arena and extract the same face list.
pub proof fn lemma_build_deterministic(t1: Octree, t2: Octree, out: BuildOut)
    requires
        t1.octants@ == out.octs,
        t1.root_idx == out.root,
        t2.octants@ == out.octs,
        t2.root_idx == out.root,
    ensures
        t1.octants@ == t2.octants@,
        t1.root_idx == t2.root_idx,
        spec_extract_faces(t1) == spec_extract_faces(t2),
{
}

/// Idempotence: extracting faces reads the arena and nothing else, so two
/// extractions from one octree are identical.
pub proof fn lemma_extract_idempotent(t: Octree, f1: Seq<Face>, f2: Seq<Face>)
    requires
        f1 == spec_extract_faces(t),
        f2 == spec_extract_faces(t),
    ensures
        f1 == f2,
{
}

/// A field whose sign is the same everywhere: uniformly inside when
/// `inside`, uniformly outside otherwise.
pub open spec fn uniform_sign(f: CsgFunc, inside: bool) -> bool {
    if inside {
        forall|x: int, y: int, z: int| #[trigger] f.sample(x, y, z) < 0
    } else {
        forall|x: int, y: int, z: int| #[trigger] f.sample(x, y, z) >= 0
    }
}

/// A homogeneity check over a prefix ignores elements pushed past it.
proof fn lemma_all_sign_push(rs: Seq<Subdivided>, x: Subdivided, k: nat)
    requires
        k <= rs.len(),
    ensures
        spec_all_neg(rs.push(x), k) == spec_all_neg(rs, k),
        spec_all_nonneg(rs.push(x), k) == spec_all_nonneg(rs, k),
    decreases k,
{
    if k > 0 {
        lemma_all_sign_push(rs, x, (k - 1) as nat);
        assert(rs.push(x)[k - 1] == rs[k - 1]);
    }
}

/// A homogeneity check over a prefix bounds each of its elements.
proof fn lemma_all_sign_index(rs: Seq<Subdivided>, k: nat, i: int)
    requires
        0 <= i < k,
        k <= rs.len(),
    ensures
        spec_all_neg(rs, k) ==> crate::octree::subdiv_neg(rs[i]),
        spec_all_nonneg(rs, k) ==> crate::octree::subdiv_nonneg(rs[i]),
    decreases k,
{
    if i + 1 < k {
        lemma_all_sign_index(rs, (k - 1) as nat, i);
    }
}

/// The sub-axes of any slot of well-formed axes are well-formed.
proof fn lemma_sub_axes_inv(xa: OctAxis, ya: OctAxis, za: OctAxis, j: int)
    requires
        xa.inv(),
        ya.inv(),
        za.inv(),
    ensures
        spec_sub_axes(xa, ya, za, j).0.inv(),
        spec_sub_axes(xa, ya, za, j).1.inv(),
        spec_sub_axes(xa, ya, za, j).2.inv(),
{
}

/// Subdividing a uniformly signed field merges everything: the arena and
/// root are untouched and the result is a homogeneous sample.
pub proof fn lemma_uniform_collapses(
    octs: Seq<Octant>,
    root: Option<usize>,
    xa: OctAxis,
    ya: OctAxis,
    za: OctAxis,
    depth: nat,
    f: CsgFunc,
    inside: bool,
)
    requires
        uniform_sign(f, inside),
        f.inv(),
        xa.inv(),
        ya.inv(),
        za.inv(),
    ensures
        spec_subdivide(octs, root, xa, ya, za, depth, f).octs == octs,
        spec_subdivide(octs, root, xa, ya, za, depth, f).root == root,
        spec_subdivide(octs, root, xa, ya, za, depth, f).result is Value,
    decreases depth, 1nat, 0nat,
{
    if depth != 0 {
        lemma_uniform_children(octs, root, xa, ya, za, depth, 8, f, inside);
        let ch = spec_subdivide_children(octs, root, xa, ya, za, depth, 8, f);
        assert(spec_merge(ch.results) is Some);
        lemma_all_sign_index(ch.results, 8, 0);
    }
}

/// Subdividing the child slots of a uniformly signed field returns only
/// homogeneous samples of that sign.
pub proof fn lemma_uniform_children(
    octs: Seq<Octant>,
    root: Option<usize>,
    xa: OctAxis,
    ya: OctAxis,
    za: OctAxis,
    depth: nat,
    k: nat,
    f: CsgFunc,
    inside: bool,
)
    requires
        uniform_sign(f, inside),
        f.inv(),
        xa.inv(),
        ya.inv(),
        za.inv(),
    ensures
        spec_subdivide_children(octs, root, xa, ya, za, depth, k, f).octs == octs,
        spec_subdivide_children(octs, root, xa, ya, za, depth, k, f).root == root,
        spec_subdivide_children(octs, root, xa, ya, za, depth, k, f).results.len() == (
        if depth == 0 {
            0nat
        } else {
            k
        }),
        inside ==> spec_all_neg(
            spec_subdivide_children(octs, root, xa, ya, za, depth, k, f).results,
            spec_subdivide_children(octs, root, xa, ya, za, depth, k, f).results.len(),
        ),
        !inside ==> spec_all_nonneg(
            spec_subdivide_children(octs, root, xa, ya, za, depth, k, f).results,
            spec_subdivide_children(octs, root, xa, ya, za, depth, k, f).results.len(),
        ),
    decreases depth, 0nat, k,
{
    if k != 0 && depth != 0 {
        lemma_uniform_children(octs, root, xa, ya, za, depth, (k - 1) as nat, f, inside);
        let prev = spec_subdivide_children(octs, root, xa, ya, za, depth, (k - 1) as nat, f);
        let (sx, sy, sz) = spec_sub_axes(xa, ya, za, k - 1);
        lemma_sub_axes_inv(xa, ya, za, k - 1);
        lemma_uniform_collapses(prev.octs, prev.root, sx, sy, sz, (depth - 1) as nat, f, inside);
        let o = spec_subdivide(prev.octs, prev.root, sx, sy, sz, (depth - 1) as nat, f);
        let cur = spec_subdivide_children(octs, root, xa, ya, za, depth, k, f);
        lemma_uniform_value(prev.octs, prev.root, sx, sy, sz, (depth - 1) as nat, f, inside);
        lemma_all_sign_push(prev.results, o.result, (k - 1) as nat);
        assert(cur.results == prev.results.push(o.result));
        assert(cur.results[k - 1] == o.result);
    }
}

/// The homogeneous result of a uniformly signed subdivision carries the
/// field's sign.
proof fn lemma_uniform_value(
    octs: Seq<Octant>,
    root: Option<usize>,
    xa: OctAxis,
    ya: OctAxis,
    za: OctAxis,
    depth: nat,
    f: CsgFunc,
    inside: bool,
)
    requires
        uniform_sign(f, inside),
        f.inv(),
        xa.inv(),
        ya.inv(),
        za.inv(),
    ensures
        spec_subdivide(octs, root, xa, ya, za, depth, f).result is Value,
        inside ==> crate::octree::subdiv_neg(spec_subdivide(octs, root, xa, ya, za, depth, f).result),
        !inside ==> crate::octree::subdiv_nonneg(
            spec_subdivide(octs, root, xa, ya, za, depth, f).result,
        ),
    decreases depth, 2nat, 0nat,
{
    if depth == 0 {
        let cx = xa.spec_center();
        let cy = ya.spec_center();
        let cz = za.spec_center();
        f.lemma_sample_bound(cx, cy, cz);
        assert(f.sample(cx, cy, cz) as i64 == f.sample(cx, cy, cz));
    } else {
        lemma_uniform_children(octs, root, xa, ya, za, depth, 8, f, inside);
        let ch = spec_subdivide_children(octs, root, xa, ya, za, depth, 8, f);
        assert(spec_merge(ch.results) is Some);
        lemma_all_sign_index(ch.results, 8, 0);
    }
}

/// Homogeneous fields produce an empty mesh: building over a uniformly
/// signed field from a fresh octree materialises no root, and extraction
/// returns the empty face list.
pub proof fn lemma_uniform_field_empty(t: Octree, range: OctAxis, depth: nat, f: CsgFunc, inside:
    bool)
    requires
        uniform_sign(f, inside),
        f.inv(),
        range.inv(),
        t.octants@ == spec_subdivide(Seq::<Octant>::empty(), None, range, range, range, depth, f).octs,
        t.root_idx == spec_subdivide(
            Seq::<Octant>::empty(),
            None,
            range,
            range,
            range,
            depth,
            f,
        ).root,
    ensures
        t.octants@ == Seq::<Octant>::empty(),
        t.root_idx is None,
        spec_extract_faces(t) == Seq::<Face>::empty(),
{
    lemma_uniform_collapses(Seq::<Octant>::empty(), None, range, range, range, depth, f, inside);
}

/// The ends of an interpolation are its endpoints exactly.
pub proof fn lemma_lerp_ends(a: int, b: int)
    ensures
        spec_lerp(a, b, 0) == a,
        spec_lerp(a, b, LERP_ONE as int) == b,
{
    let d = b - a;
    assert(d * 0 == 0) by (nonlinear_arith);
    if d >= 0 {
        assert(div_trunc(d * (LERP_ONE as int), LERP_ONE as int) == d) by (nonlinear_arith)
            requires
                d >= 0,
                LERP_ONE == 4096,
        ;
    } else {
        assert((-(d * (LERP_ONE as int))) / (LERP_ONE as int) == -d) by (nonlinear_arith)
            requires
                d < 0,
                LERP_ONE == 4096,
        ;
    }
}

/// The bisection tolerance: whenever `find_point_on_edge` locates a
/// crossing, the returned point is the interpolation at a parameter `t`,
/// and the field changes sign within a window of four `t`-units — one part
/// in `2^10` of the edge — containing `t`.
pub proof fn lemma_find_point_brackets(p1: Point, p2: Point, f: CsgFunc)
    requires
        spec_find_point(p1, p2, f) is Some,
    ensures
        ({
            let a = edge_lo(p1, p2, f);
            let b = edge_hi(p1, p2, f);
            let t = spec_bisect(f, a, b, 2048, 1024, 10);
            &&& spec_find_point(p1, p2, f) == Some(spec_lerp_point(a, b, t))
            &&& exists|lo: int|
                {
                    &&& t - 4 <= lo <= t
                    &&& 0 <= lo
                    &&& lo + 4 <= LERP_ONE
                    &&& sample_at(f, spec_lerp_point(a, b, lo)) < 0
                    &&& 0 <= #[trigger] sample_at(f, spec_lerp_point(a, b, lo + 4))
                }
        }),
{
    let a = edge_lo(p1, p2, f);
    let b = edge_hi(p1, p2, f);
    lemma_two_pow_values();
    lemma_lerp_ends(a.x as int, b.x as int);
    lemma_lerp_ends(a.y as int, b.y as int);
    lemma_lerp_ends(a.z as int, b.z as int);
    assert(spec_lerp_point(a, b, 0) == a);
    assert(spec_lerp_point(a, b, LERP_ONE as int) == b);
    assert(sample_at(f, spec_lerp_point(a, b, 2048 - 2 * two_pow(10))) < 0);
    assert(0 <= sample_at(f, spec_lerp_point(a, b, 2048 + 2 * two_pow(10))));
    lemma_bisect_brackets(f, a, b, 2048, 10);
    let t = spec_bisect(f, a, b, 2048, two_pow(10), 10);
    let lo = choose|lo: int|
        {
            &&& t - 4 <= lo <= t
            &&& 2048 - 2 * two_pow(10) <= lo
            &&& lo + 4 <= 2048 + 2 * two_pow(10)
            &&& sample_at(f, spec_lerp_point(a, b, lo)) < 0
            &&& 0 <= #[trigger] sample_at(f, spec_lerp_point(a, b, lo + 4))
        };
    assert(t - 4 <= lo <= t && 0 <= lo && lo + 4 <= LERP_ONE && sample_at(
        f,
        spec_lerp_point(a, b, lo),
    ) < 0 && 0 <= sample_at(f, spec_lerp_point(a, b, lo + 4)));
}

/// Symmetry of the spherical field about the origin: its sample is
/// invariant under negating or exchanging coordinates, the generators of
/// the cube's 48 symmetries.
pub proof fn lemma_sphere_symmetry(r: i64, x: int, y: int, z: int)
    ensures
        ({
            let f = CsgFunc::Sphere { center_x: 0, center_y: 0, center_z: 0, radius: r };
            &&& f.sample(x, y, z) == f.sample(-x, y, z)
            &&& f.sample(x, y, z) == f.sample(x, -y, z)
            &&& f.sample(x, y, z) == f.sample(x, y, -z)
            &&& f.sample(x, y, z) == f.sample(y, x, z)
            &&& f.sample(x, y, z) == f.sample(x, z, y)
        }),
{
    assert((-x) * (-x) == x * x && (-y) * (-y) == y * y && (-z) * (-z) == z * z)
        by (nonlinear_arith);
}

/// Scale invariance of the descent depth: scaling the world length and the
/// resolution by the same positive factor leaves the subdivision depth
/// unchanged.
pub proof fn lemma_depth_scale_invariant(len: int, step: int, s: int)
    requires
        step >= 1,
        s >= 1,
    ensures
        depth_for(s * len, s * step) == depth_for(len, step),
    decreases len - step,
{
    assert(s * step >= 1) by (nonlinear_arith)
        requires
            s >= 1,
            step >= 1,
    ;
    assert((2 * step <= len) == (2 * (s * step) <= s * len)) by (nonlinear_arith)
        requires
            s >= 1,
    ;
    if 2 * step <= len {
        assert(s * (2 * step) == 2 * (s * step)) by (nonlinear_arith);
        lemma_depth_scale_invariant(len, 2 * step, s);
    }
}


/// Is `p` the feature point of some octant of the arena?
pub open spec fn point_is_feature(octs: Seq<Octant>, p: Point) -> bool {
    exists|i: int| 0 <= i < octs.len() && (#[trigger] octs[i]).feature == Some(p)
}

/// Every vertex of the face is a stored feature point.
pub open spec fn face_from_features(octs: Seq<Octant>, f: Face) -> bool {
    match f {
        Face::Plane { ul, ur, ll, lr } => point_is_feature(octs, ul) && point_is_feature(octs, ur)
            && point_is_feature(octs, ll) && point_is_feature(octs, lr),
        Face::Triangle { ul, lr, ll } => point_is_feature(octs, ul) && point_is_feature(octs, lr)
            && point_is_feature(octs, ll),
    }
}

/// Every face of the row draws its vertices from stored features.
pub open spec fn all_from_features(octs: Seq<Octant>, faces: Seq<Face>) -> bool {
    forall|k: int| 0 <= k < faces.len() ==> face_from_features(octs, #[trigger] faces[k])
}

proof fn lemma_all_concat(octs: Seq<Octant>, s1: Seq<Face>, s2: Seq<Face>)
    requires
        all_from_features(octs, s1),
        all_from_features(octs, s2),
    ensures
        all_from_features(octs, s1 + s2),
{
    assert forall|k: int| 0 <= k < (s1 + s2).len() implies face_from_features(
        octs,
        #[trigger] (s1 + s2)[k],
    ) by {
        if k < s1.len() {
            assert((s1 + s2)[k] == s1[k]);
        } else {
            assert((s1 + s2)[k] == s2[k - s1.len()]);
        }
    }
}

/// Deduplication only keeps handles that were already present.
proof fn lemma_dedup_subset(cells: Seq<OctantIdx>)
    ensures
        forall|k: int|
            0 <= k < spec_dedup(cells).len() ==> cells.contains(#[trigger] spec_dedup(cells)[k]),
    decreases cells.len(),
{
    if cells.len() > 0 {
        lemma_dedup_subset(cells.drop_last());
        assert forall|k: int|
            0 <= k < spec_dedup(cells).len() implies cells.contains(
            #[trigger] spec_dedup(cells)[k],
        ) by {
            let prev = spec_dedup(cells.drop_last());
            if k < prev.len() {
                assert(cells.drop_last().contains(prev[k]));
                let w = choose|w: int| 0 <= w < cells.drop_last().len() && cells.drop_last()[w] == prev[k];
                assert(cells[w] == prev[k]);
            } else {
                assert(spec_dedup(cells)[k] == cells.last());
            }
        }
    }
}

/// Collected features come from the cells they were read off.
proof fn lemma_collect_are_features(octs: Seq<Octant>, d: Seq<OctantIdx>)
    requires
        forall|t: int| 0 <= t < d.len() ==> #[trigger] d[t] < octs.len(),
    ensures
        forall|k: int|
            0 <= k < spec_collect_features(octs, d).len() ==> point_is_feature(
                octs,
                #[trigger] spec_collect_features(octs, d)[k],
            ),
    decreases d.len(),
{
    if d.len() > 0 {
        lemma_collect_are_features(octs, d.drop_last());
        assert forall|k: int|
            0 <= k < spec_collect_features(octs, d).len() implies point_is_feature(
            octs,
            #[trigger] spec_collect_features(octs, d)[k],
        ) by {
            let prev = spec_collect_features(octs, d.drop_last());
            if k >= prev.len() {
                assert(octs[d.last() as int].feature == Some(spec_collect_features(octs, d)[k]));
            }
        }
    }
}

/// The face built around four leaf cells, when one is built, takes every
/// vertex from the features of those cells.
proof fn lemma_make_face_ff(octs: Seq<Octant>, c0: OctantIdx, c1: OctantIdx, c2: OctantIdx, c3: OctantIdx)
    requires
        c0 < octs.len(),
        c1 < octs.len(),
        c2 < octs.len(),
        c3 < octs.len(),
    ensures
        spec_make_face(octs, c0, c1, c2, c3) matches Some(f) ==> face_from_features(octs, f),
{
    let cells = seq![c0, c1, c2, c3];
    let d = spec_dedup(cells);
    lemma_dedup_subset(cells);
    assert forall|t: int| 0 <= t < d.len() implies #[trigger] d[t] < octs.len() by {
        assert(cells.contains(d[t]));
        let w = choose|w: int| 0 <= w < cells.len() && cells[w] == d[t];
    }
    lemma_collect_are_features(octs, d);
}

/// Every face the extraction emits under one cell draws its vertices from
/// stored feature points.
pub proof fn lemma_cell_ff(octs: Seq<Octant>, idx: int)
    requires
        wf_cells1(octs, idx),
    ensures
        all_from_features(octs, spec_cell_faces(octs, idx)),
    decreases osize(octs, idx), 2int,
{
    match octs[idx].children {
        None => {},
        Some(c) => {
            lemma_osize_pos(octs, idx);
            lemma_osize_children(octs, idx);
            assert(octs[idx].inv(idx));
        let p0 = spec_cell_faces(octs, c[0] as int);
        lemma_cell_ff(octs, c[0] as int);
        let a0 = p0;
        let p1 = spec_cell_faces(octs, c[1] as int);
        lemma_cell_ff(octs, c[1] as int);
        lemma_all_concat(octs, a0, p1);
        let a1 = a0 + p1;
        let p2 = spec_cell_faces(octs, c[2] as int);
        lemma_cell_ff(octs, c[2] as int);
        lemma_all_concat(octs, a1, p2);
        let a2 = a1 + p2;
        let p3 = spec_cell_faces(octs, c[3] as int);
        lemma_cell_ff(octs, c[3] as int);
        lemma_all_concat(octs, a2, p3);
        let a3 = a2 + p3;
        let p4 = spec_cell_faces(octs, c[4] as int);
        lemma_cell_ff(octs, c[4] as int);
        lemma_all_concat(octs, a3, p4);
        let a4 = a3 + p4;
        let p5 = spec_cell_faces(octs, c[5] as int);
        lemma_cell_ff(octs, c[5] as int);
        lemma_all_concat(octs, a4, p5);
        let a5 = a4 + p5;
        let p6 = spec_cell_faces(octs, c[6] as int);
        lemma_cell_ff(octs, c[6] as int);
        lemma_all_concat(octs, a5, p6);
        let a6 = a5 + p6;
        let p7 = spec_cell_faces(octs, c[7] as int);
        lemma_cell_ff(octs, c[7] as int);
        lemma_all_concat(octs, a6, p7);
        let a7 = a6 + p7;
        let p8 = spec_face_faces(octs, TreeAxis::X, c[4] as int, c[5] as int);
        lemma_face_ff(octs, TreeAxis::X, c[4] as int, c[5] as int);
        lemma_all_concat(octs, a7, p8);
        let a8 = a7 + p8;
        let p9 = spec_face_faces(octs, TreeAxis::X, c[0] as int, c[1] as int);
        lemma_face_ff(octs, TreeAxis::X, c[0] as int, c[1] as int);
        lemma_all_concat(octs, a8, p9);
        let a9 = a8 + p9;
        let p10 = spec_face_faces(octs, TreeAxis::X, c[2] as int, c[3] as int);
        lemma_face_ff(octs, TreeAxis::X, c[2] as int, c[3] as int);
        lemma_all_concat(octs, a9, p10);
        let a10 = a9 + p10;
        let p11 = spec_face_faces(octs, TreeAxis::X, c[6] as int, c[7] as int);
        lemma_face_ff(octs, TreeAxis::X, c[6] as int, c[7] as int);
        lemma_all_concat(octs, a10, p11);
        let a11 = a10 + p11;
        let p12 = spec_face_faces(octs, TreeAxis::Y, c[0] as int, c[2] as int);
        lemma_face_ff(octs, TreeAxis::Y, c[0] as int, c[2] as int);
        lemma_all_concat(octs, a11, p12);
        let a12 = a11 + p12;
        let p13 = spec_face_faces(octs, TreeAxis::Y, c[1] as int, c[3] as int);
        lemma_face_ff(octs, TreeAxis::Y, c[1] as int, c[3] as int);
        lemma_all_concat(octs, a12, p13);
        let a13 = a12 + p13;
        let p14 = spec_face_faces(octs, TreeAxis::Y, c[5] as int, c[7] as int);
        lemma_face_ff(octs, TreeAxis::Y, c[5] as int, c[7] as int);
        lemma_all_concat(octs, a13, p14);
        let a14 = a13 + p14;
        let p15 = spec_face_faces(octs, TreeAxis::Y, c[4] as int, c[6] as int);
        lemma_face_ff(octs, TreeAxis::Y, c[4] as int, c[6] as int);
        lemma_all_concat(octs, a14, p15);
        let a15 = a14 + p15;
        let p16 = spec_face_faces(octs, TreeAxis::Z, c[0] as int, c[4] as int);
        lemma_face_ff(octs, TreeAxis::Z, c[0] as int, c[4] as int);
        lemma_all_concat(octs, a15, p16);
        let a16 = a15 + p16;
        let p17 = spec_face_faces(octs, TreeAxis::Z, c[1] as int, c[5] as int);
        lemma_face_ff(octs, TreeAxis::Z, c[1] as int, c[5] as int);
        lemma_all_concat(octs, a16, p17);
        let a17 = a16 + p17;
        let p18 = spec_face_faces(octs, TreeAxis::Z, c[3] as int, c[7] as int);
        lemma_face_ff(octs, TreeAxis::Z, c[3] as int, c[7] as int);
        lemma_all_concat(octs, a17, p18);
        let a18 = a17 + p18;
        let p19 = spec_face_faces(octs, TreeAxis::Z, c[2] as int, c[6] as int);
        lemma_face_ff(octs, TreeAxis::Z, c[2] as int, c[6] as int);
        lemma_all_concat(octs, a18, p19);
        let a19 = a18 + p19;
        let p20 = spec_edge_faces(octs, TreeAxis::X, c[1] as int, c[5] as int, c[3] as int, c[7] as int);
        lemma_edge_ff(octs, TreeAxis::X, c[1] as int, c[5] as int, c[3] as int, c[7] as int);
        lemma_all_concat(octs, a19, p20);
        let a20 = a19 + p20;
        let p21 = spec_edge_faces(octs, TreeAxis::X, c[0] as int, c[4] as int, c[2] as int, c[6] as int);
        lemma_edge_ff(octs, TreeAxis::X, c[0] as int, c[4] as int, c[2] as int, c[6] as int);
        lemma_all_concat(octs, a20, p21);
        let a21 = a20 + p21;
        let p22 = spec_edge_faces(octs, TreeAxis::Y, c[4] as int, c[5] as int, c[0] as int, c[1] as int);
        lemma_edge_ff(octs, TreeAxis::Y, c[4] as int, c[5] as int, c[0] as int, c[1] as int);
        lemma_all_concat(octs, a21, p22);
        let a22 = a21 + p22;
        let p23 = spec_edge_faces(octs, TreeAxis::Y, c[6] as int, c[7] as int, c[2] as int, c[3] as int);
        lemma_edge_ff(octs, TreeAxis::Y, c[6] as int, c[7] as int, c[2] as int, c[3] as int);
        lemma_all_concat(octs, a22, p23);
        let a23 = a22 + p23;
        let p24 = spec_edge_faces(octs, TreeAxis::Z, c[0] as int, c[1] as int, c[2] as int, c[3] as int);
        lemma_edge_ff(octs, TreeAxis::Z, c[0] as int, c[1] as int, c[2] as int, c[3] as int);
        lemma_all_concat(octs, a23, p24);
        let a24 = a23 + p24;
        let p25 = spec_edge_faces(octs, TreeAxis::Z, c[4] as int, c[5] as int, c[6] as int, c[7] as int);
        lemma_edge_ff(octs, TreeAxis::Z, c[4] as int, c[5] as int, c[6] as int, c[7] as int);
        lemma_all_concat(octs, a24, p25);
        let a25 = a24 + p25;
            assert(spec_cell_faces(octs, idx) == a25);
        },
    }
}

/// As `lemma_cell_ff`, for the face recursion.
pub proof fn lemma_face_ff(octs: Seq<Octant>, dir: TreeAxis, a: int, b: int)
    requires
        wf_cells2(octs, a, b),
    ensures
        all_from_features(octs, spec_face_faces(octs, dir, a, b)),
    decreases osize(octs, a) + osize(octs, b), 1int,
{
    if octs[a].children is None && octs[b].children is None {
        return ;
    }
    lemma_cos_all(octs, a);
    lemma_cos_all(octs, b);
    lemma_osize_pos(octs, a);
    lemma_osize_pos(octs, b);
    match dir {
        TreeAxis::X => {
            let p0 = spec_face_faces(octs, TreeAxis::X, cos(octs, a, 5), cos(octs, b, 4));
            lemma_face_ff(octs, TreeAxis::X, cos(octs, a, 5), cos(octs, b, 4));
            let a0 = p0;
            let p1 = spec_face_faces(octs, TreeAxis::X, cos(octs, a, 7), cos(octs, b, 6));
            lemma_face_ff(octs, TreeAxis::X, cos(octs, a, 7), cos(octs, b, 6));
            lemma_all_concat(octs, a0, p1);
            let a1 = a0 + p1;
            let p2 = spec_face_faces(octs, TreeAxis::X, cos(octs, a, 1), cos(octs, b, 0));
            lemma_face_ff(octs, TreeAxis::X, cos(octs, a, 1), cos(octs, b, 0));
            lemma_all_concat(octs, a1, p2);
            let a2 = a1 + p2;
            let p3 = spec_face_faces(octs, TreeAxis::X, cos(octs, a, 3), cos(octs, b, 2));
            lemma_face_ff(octs, TreeAxis::X, cos(octs, a, 3), cos(octs, b, 2));
            lemma_all_concat(octs, a2, p3);
            let a3 = a2 + p3;
            let p4 = spec_edge_faces(octs, TreeAxis::Y, cos(octs, a, 5), cos(octs, b, 4), cos(octs, a, 1), cos(octs, b, 0));
            lemma_edge_ff(octs, TreeAxis::Y, cos(octs, a, 5), cos(octs, b, 4), cos(octs, a, 1), cos(octs, b, 0));
            lemma_all_concat(octs, a3, p4);
            let a4 = a3 + p4;
            let p5 = spec_edge_faces(octs, TreeAxis::Y, cos(octs, a, 7), cos(octs, b, 6), cos(octs, a, 3), cos(octs, b, 2));
            lemma_edge_ff(octs, TreeAxis::Y, cos(octs, a, 7), cos(octs, b, 6), cos(octs, a, 3), cos(octs, b, 2));
            lemma_all_concat(octs, a4, p5);
            let a5 = a4 + p5;
            let p6 = spec_edge_faces(octs, TreeAxis::Z, cos(octs, a, 1), cos(octs, b, 0), cos(octs, a, 3), cos(octs, b, 2));
            lemma_edge_ff(octs, TreeAxis::Z, cos(octs, a, 1), cos(octs, b, 0), cos(octs, a, 3), cos(octs, b, 2));
            lemma_all_concat(octs, a5, p6);
            let a6 = a5 + p6;
            let p7 = spec_edge_faces(octs, TreeAxis::Z, cos(octs, a, 5), cos(octs, b, 4), cos(octs, a, 7), cos(octs, b, 6));
            lemma_edge_ff(octs, TreeAxis::Z, cos(octs, a, 5), cos(octs, b, 4), cos(octs, a, 7), cos(octs, b, 6));
            lemma_all_concat(octs, a6, p7);
            let a7 = a6 + p7;
            assert(spec_face_faces(octs, dir, a, b) == a7);
        },
        TreeAxis::Y => {
            let p0 = spec_face_faces(octs, TreeAxis::Y, cos(octs, a, 7), cos(octs, b, 5));
            lemma_face_ff(octs, TreeAxis::Y, cos(octs, a, 7), cos(octs, b, 5));
            let a0 = p0;
            let p1 = spec_face_faces(octs, TreeAxis::Y, cos(octs, a, 6), cos(octs, b, 4));
            lemma_face_ff(octs, TreeAxis::Y, cos(octs, a, 6), cos(octs, b, 4));
            lemma_all_concat(octs, a0, p1);
            let a1 = a0 + p1;
            let p2 = spec_face_faces(octs, TreeAxis::Y, cos(octs, a, 3), cos(octs, b, 1));
            lemma_face_ff(octs, TreeAxis::Y, cos(octs, a, 3), cos(octs, b, 1));
            lemma_all_concat(octs, a1, p2);
            let a2 = a1 + p2;
            let p3 = spec_face_faces(octs, TreeAxis::Y, cos(octs, a, 2), cos(octs, b, 0));
            lemma_face_ff(octs, TreeAxis::Y, cos(octs, a, 2), cos(octs, b, 0));
            lemma_all_concat(octs, a2, p3);
            let a3 = a2 + p3;
            let p4 = spec_edge_faces(octs, TreeAxis::Z, cos(octs, a, 2), cos(octs, a, 3), cos(octs, b, 0), cos(octs, b, 1));
            lemma_edge_ff(octs, TreeAxis::Z, cos(octs, a, 2), cos(octs, a, 3), cos(octs, b, 0), cos(octs, b, 1));
            lemma_all_concat(octs, a3, p4);
            let a4 = a3 + p4;
            let p5 = spec_edge_faces(octs, TreeAxis::Z, cos(octs, a, 6), cos(octs, a, 7), cos(octs, b, 4), cos(octs, b, 5));
            lemma_edge_ff(octs, TreeAxis::Z, cos(octs, a, 6), cos(octs, a, 7), cos(octs, b, 4), cos(octs, b, 5));
            lemma_all_concat(octs, a4, p5);
            let a5 = a4 + p5;
            let p6 = spec_edge_faces(octs, TreeAxis::X, cos(octs, a, 3), cos(octs, a, 7), cos(octs, b, 1), cos(octs, b, 5));
            lemma_edge_ff(octs, TreeAxis::X, cos(octs, a, 3), cos(octs, a, 7), cos(octs, b, 1), cos(octs, b, 5));
            lemma_all_concat(octs, a5, p6);
            let a6 = a5 + p6;
            let p7 = spec_edge_faces(octs, TreeAxis::X, cos(octs, a, 2), cos(octs, a, 6), cos(octs, b, 0), cos(octs, b, 4));
            lemma_edge_ff(octs, TreeAxis::X, cos(octs, a, 2), cos(octs, a, 6), cos(octs, b, 0), cos(octs, b, 4));
            lemma_all_concat(octs, a6, p7);
            let a7 = a6 + p7;
            assert(spec_face_faces(octs, dir, a, b) == a7);
        },
        TreeAxis::Z => {
            let p0 = spec_face_faces(octs, TreeAxis::Z, cos(octs, a, 5), cos(octs, b, 1));
            lemma_face_ff(octs, TreeAxis::Z, cos(octs, a, 5), cos(octs, b, 1));
            let a0 = p0;
            let p1 = spec_face_faces(octs, TreeAxis::Z, cos(octs, a, 4), cos(octs, b, 0));
            lemma_face_ff(octs, TreeAxis::Z, cos(octs, a, 4), cos(octs, b, 0));
            lemma_all_concat(octs, a0, p1);
            let a1 = a0 + p1;
            let p2 = spec_face_faces(octs, TreeAxis::Z, cos(octs, a, 7), cos(octs, b, 3));
            lemma_face_ff(octs, TreeAxis::Z, cos(octs, a, 7), cos(octs, b, 3));
            lemma_all_concat(octs, a1, p2);
            let a2 = a1 + p2;
            let p3 = spec_face_faces(octs, TreeAxis::Z, cos(octs, a, 6), cos(octs, b, 2));
            lemma_face_ff(octs, TreeAxis::Z, cos(octs, a, 6), cos(octs, b, 2));
            lemma_all_concat(octs, a2, p3);
            let a3 = a2 + p3;
            let p4 = spec_edge_faces(octs, TreeAxis::Y, cos(octs, b, 0), cos(octs, b, 1), cos(octs, a, 4), cos(octs, a, 5));
            lemma_edge_ff(octs, TreeAxis::Y, cos(octs, b, 0), cos(octs, b, 1), cos(octs, a, 4), cos(octs, a, 5));
            lemma_all_concat(octs, a3, p4);
            let a4 = a3 + p4;
            let p5 = spec_edge_faces(octs, TreeAxis::Y, cos(octs, b, 2), cos(octs, b, 3), cos(octs, a, 6), cos(octs, a, 7));
            lemma_edge_ff(octs, TreeAxis::Y, cos(octs, b, 2), cos(octs, b, 3), cos(octs, a, 6), cos(octs, a, 7));
            lemma_all_concat(octs, a4, p5);
            let a5 = a4 + p5;
            let p6 = spec_edge_faces(octs, TreeAxis::X, cos(octs, a, 5), cos(octs, b, 1), cos(octs, a, 7), cos(octs, b, 3));
            lemma_edge_ff(octs, TreeAxis::X, cos(octs, a, 5), cos(octs, b, 1), cos(octs, a, 7), cos(octs, b, 3));
            lemma_all_concat(octs, a5, p6);
            let a6 = a5 + p6;
            let p7 = spec_edge_faces(octs, TreeAxis::X, cos(octs, a, 4), cos(octs, b, 0), cos(octs, a, 6), cos(octs, b, 2));
            lemma_edge_ff(octs, TreeAxis::X, cos(octs, a, 4), cos(octs, b, 0), cos(octs, a, 6), cos(octs, b, 2));
            lemma_all_concat(octs, a6, p7);
            let a7 = a6 + p7;
            assert(spec_face_faces(octs, dir, a, b) == a7);
        },
    }
}

/// As `lemma_cell_ff`, for the edge recursion.
pub proof fn lemma_edge_ff(octs: Seq<Octant>, dir: TreeAxis, c0: int, c1: int, c2: int, c3: int)
    requires
        wf_cells4(octs, c0, c1, c2, c3),
    ensures
        all_from_features(octs, spec_edge_faces(octs, dir, c0, c1, c2, c3)),
    decreases osize(octs, c0) + osize(octs, c1) + osize(octs, c2) + osize(octs, c3), 0int,
{
    if octs[c0].children is None && octs[c1].children is None && octs[c2].children is None
        && octs[c3].children is None {
        lemma_make_face_ff(octs, c0 as OctantIdx, c1 as OctantIdx, c2 as OctantIdx, c3 as OctantIdx);
        return ;
    }
    lemma_cos_all(octs, c0);
    lemma_cos_all(octs, c1);
    lemma_cos_all(octs, c2);
    lemma_cos_all(octs, c3);
    lemma_osize_pos(octs, c0);
    lemma_osize_pos(octs, c1);
    lemma_osize_pos(octs, c2);
    lemma_osize_pos(octs, c3);
    match dir {
        TreeAxis::X => {
            let p0 = spec_edge_faces(octs, TreeAxis::X, cos(octs, c0, 7), cos(octs, c1, 3), cos(octs, c2, 5), cos(octs, c3, 1));
            lemma_edge_ff(octs, TreeAxis::X, cos(octs, c0, 7), cos(octs, c1, 3), cos(octs, c2, 5), cos(octs, c3, 1));
            let a0 = p0;
            let p1 = spec_edge_faces(octs, TreeAxis::X, cos(octs, c0, 6), cos(octs, c1, 2), cos(octs, c2, 4), cos(octs, c3, 0));
            lemma_edge_ff(octs, TreeAxis::X, cos(octs, c0, 6), cos(octs, c1, 2), cos(octs, c2, 4), cos(octs, c3, 0));
            lemma_all_concat(octs, a0, p1);
            let a1 = a0 + p1;
            assert(spec_edge_faces(octs, dir, c0, c1, c2, c3) == a1);
        },
        TreeAxis::Y => {
            let p0 = spec_edge_faces(octs, TreeAxis::Y, cos(octs, c0, 1), cos(octs, c1, 0), cos(octs, c2, 5), cos(octs, c3, 4));
            lemma_edge_ff(octs, TreeAxis::Y, cos(octs, c0, 1), cos(octs, c1, 0), cos(octs, c2, 5), cos(octs, c3, 4));
            let a0 = p0;
            let p1 = spec_edge_faces(octs, TreeAxis::Y, cos(octs, c0, 3), cos(octs, c1, 2), cos(octs, c2, 7), cos(octs, c3, 6));
            lemma_edge_ff(octs, TreeAxis::Y, cos(octs, c0, 3), cos(octs, c1, 2), cos(octs, c2, 7), cos(octs, c3, 6));
            lemma_all_concat(octs, a0, p1);
            let a1 = a0 + p1;
            assert(spec_edge_faces(octs, dir, c0, c1, c2, c3) == a1);
        },
        TreeAxis::Z => {
            let p0 = spec_edge_faces(octs, TreeAxis::Z, cos(octs, c0, 3), cos(octs, c1, 2), cos(octs, c2, 1), cos(octs, c3, 0));
            lemma_edge_ff(octs, TreeAxis::Z, cos(octs, c0, 3), cos(octs, c1, 2), cos(octs, c2, 1), cos(octs, c3, 0));
            let a0 = p0;
            let p1 = spec_edge_faces(octs, TreeAxis::Z, cos(octs, c0, 7), cos(octs, c1, 6), cos(octs, c2, 5), cos(octs, c3, 4));
            lemma_edge_ff(octs, TreeAxis::Z, cos(octs, c0, 7), cos(octs, c1, 6), cos(octs, c2, 5), cos(octs, c3, 4));
            lemma_all_concat(octs, a0, p1);
            let a1 = a0 + p1;
            assert(spec_edge_faces(octs, dir, c0, c1, c2, c3) == a1);
        },
    }
}

/// Vertices come from features: every vertex of every extracted face is
/// the feature point of some octant of the tree — with containment, a
/// point inside that octant's cube.
pub proof fn lemma_faces_from_features(t: Octree)
    requires
        t.inv(),
    ensures
        all_from_features(t.octants@, spec_extract_faces(t)),
{
    match t.root_idx {
        Some(r) => {
            lemma_cell_ff(t.octants@, r as int);
        },
        None => {},
    }
}

} // verus!
