//! The adaptive octree: axes, octants, the append-only arena, and the
//! sign-aware recursive builder with homogeneous-region merging.

use vstd::prelude::*;
use crate::dual_contour;
use crate::shape::CsgFunc;
use crate::math::{lemma_two_pow_32, lemma_two_pow_mono, lemma_two_pow_pos, two_pow};
use crate::types::{COORD_LIMIT, Face, Point, in_coord_range};

verus! {

/// Index into the octree arena naming a unique `Octant`.
pub type OctantIdx = usize;

/// Handle to an object rendered into the octree. A forward-compatibility
/// placeholder: a single shape per octree is supported and the handle is
/// always zero.
pub type ShapeHandle = usize;

/// A closed interval on one coordinate axis.
#[derive(Clone, Copy, Debug, PartialEq, Eq, Structural)]
pub struct OctAxis {
    pub lower: i64,
    pub upper: i64,
}

impl OctAxis {
    /// Ordered, and within world-coordinate range.
    pub open spec fn inv(self) -> bool {
        self.lower <= self.upper && in_coord_range(self.lower as int) && in_coord_range(
            self.upper as int,
        )
    }

    /// The axis the constructor builds: endpoints swapped into order.
    pub open spec fn spec_new(l: i64, u: i64) -> OctAxis {
        if l <= u {
            OctAxis { lower: l, upper: u }
        } else {
            OctAxis { lower: u, upper: l }
        }
    }

    pub fn new(l: i64, u: i64) -> (a: OctAxis)
        requires
            in_coord_range(l as int),
            in_coord_range(u as int),
        ensures
            a == OctAxis::spec_new(l, u),
            a.inv(),
    {
        if l <= u {
            OctAxis { lower: l, upper: u }
        } else {
            OctAxis { lower: u, upper: l }
        }
    }

    /// Midpoint, rounded down; always inside the interval.
    pub open spec fn spec_center(self) -> int {
        self.lower + (self.upper - self.lower) / 2
    }

    pub fn center(self) -> (c: i64)
        requires
            self.inv(),
        ensures
            c == self.spec_center(),
            self.lower <= c <= self.upper,
    {
        self.lower + (self.upper - self.lower) / 2
    }

    /// The two halves meeting at the centre.
    pub open spec fn spec_split(self) -> (OctAxis, OctAxis) {
        (
            OctAxis { lower: self.lower, upper: self.spec_center() as i64 },
            OctAxis { lower: self.spec_center() as i64, upper: self.upper },
        )
    }

    pub fn split(self) -> (r: (OctAxis, OctAxis))
        requires
            self.inv(),
        ensures
            r == self.spec_split(),
            r.0.inv(),
            r.1.inv(),
            r.0.lower == self.lower,
            r.0.upper == r.1.lower,
            r.1.upper == self.upper,
    {
        let mid = self.center();
        (OctAxis::new(self.lower, mid), OctAxis::new(mid, self.upper))
    }

    /// Width of the interval.
    pub fn length(&self) -> (n: i64)
        requires
            self.inv(),
        ensures
            n == self.upper - self.lower,
            n >= 0,
    {
        self.upper - self.lower
    }
}

/// One cell of the octree. Leaves have no children and may carry a feature
/// point; internal octants have exactly eight children and no feature.
#[derive(Clone, Debug)]
pub struct Octant {
    pub x_axis: OctAxis,
    pub y_axis: OctAxis,
    pub z_axis: OctAxis,
    pub children: Option<[OctantIdx; 8]>,
    pub feature: Option<Point>,
}

/// `p` lies in the closed cube spanned by the three axes.
pub open spec fn in_cube(p: Point, xa: OctAxis, ya: OctAxis, za: OctAxis) -> bool {
    xa.lower <= p.x <= xa.upper && ya.lower <= p.y <= ya.upper && za.lower <= p.z <= za.upper
}

impl Octant {
    /// Creates a new leaf octant.
    pub(crate) fn new(x_axis: OctAxis, y_axis: OctAxis, z_axis: OctAxis, feature: Option<Point>)
        -> (o: Octant)
        ensures
            o == (Octant { x_axis, y_axis, z_axis, children: None, feature }),
    {
        Octant { x_axis, y_axis, z_axis, children: None, feature }
    }

    /// Does this octant carry a feature point?
    pub fn has_feature(&self) -> (b: bool)
        ensures
            b == self.feature is Some,
    {
        self.feature.is_some()
    }

    /// Is this octant a leaf?
    pub fn is_leaf(&self) -> (b: bool)
        ensures
            b == self.children is None,
    {
        self.children.is_none()
    }

    /// Well-formedness of an octant stored at index `idx`: ordered axes,
    /// children created strictly before their parent, features only on
    /// leaves and only inside the octant's own cube.
    pub open spec fn inv(self, idx: int) -> bool {
        &&& self.x_axis.inv()
        &&& self.y_axis.inv()
        &&& self.z_axis.inv()
        &&& match self.children {
            Some(c) => c[0] < idx && c[1] < idx && c[2] < idx && c[3] < idx && c[4] < idx && c[5]
                < idx && c[6] < idx && c[7] < idx && self.feature is None,
            None => true,
        }
        &&& match self.feature {
            Some(p) => in_cube(p, self.x_axis, self.y_axis, self.z_axis),
            None => true,
        }
    }
}

/// Every octant of the arena is well-formed at its own index.
pub open spec fn arena_inv(octs: Seq<Octant>) -> bool {
    forall|i: int| 0 <= i < octs.len() ==> (#[trigger] octs[i]).inv(i)
}

/// Number of octants in the subtree rooted at `i`, counting `i` itself.
/// The termination measure of every traversal of the arena.
pub open spec fn osize(octs: Seq<Octant>, i: int) -> nat
    decreases i,
    when 0 <= i < octs.len() && arena_inv(octs)
    via osize_decreases
{
    match octs[i].children {
        Some(c) => 1 + osize(octs, c[0] as int) + osize(octs, c[1] as int) + osize(
            octs,
            c[2] as int,
        ) + osize(octs, c[3] as int) + osize(octs, c[4] as int) + osize(octs, c[5] as int) + osize(
            octs,
            c[6] as int,
        ) + osize(octs, c[7] as int),
        None => 1,
    }
}

#[via_fn]
proof fn osize_decreases(octs: Seq<Octant>, i: int) {
    assert(octs[i].inv(i));
}

/// Subtree sizes are positive.
pub proof fn lemma_osize_pos(octs: Seq<Octant>, i: int)
    requires
        arena_inv(octs),
        0 <= i < octs.len(),
    ensures
        osize(octs, i) >= 1,
{
    assert(octs[i].inv(i));
}

/// A child's subtree is strictly smaller than its parent's, and any set of
/// distinct child slots together stays below the parent's size.
pub proof fn lemma_osize_children(octs: Seq<Octant>, i: int)
    requires
        arena_inv(octs),
        0 <= i < octs.len(),
        octs[i].children is Some,
    ensures
        osize(octs, octs[i].children->Some_0[0] as int) >= 1,
        osize(octs, octs[i].children->Some_0[1] as int) >= 1,
        osize(octs, octs[i].children->Some_0[2] as int) >= 1,
        osize(octs, octs[i].children->Some_0[3] as int) >= 1,
        osize(octs, octs[i].children->Some_0[4] as int) >= 1,
        osize(octs, octs[i].children->Some_0[5] as int) >= 1,
        osize(octs, octs[i].children->Some_0[6] as int) >= 1,
        osize(octs, octs[i].children->Some_0[7] as int) >= 1,
        osize(octs, i) == 1 + osize(octs, octs[i].children->Some_0[0] as int) + osize(
            octs,
            octs[i].children->Some_0[1] as int,
        ) + osize(octs, octs[i].children->Some_0[2] as int) + osize(
            octs,
            octs[i].children->Some_0[3] as int,
        ) + osize(octs, octs[i].children->Some_0[4] as int) + osize(
            octs,
            octs[i].children->Some_0[5] as int,
        ) + osize(octs, octs[i].children->Some_0[6] as int) + osize(
            octs,
            octs[i].children->Some_0[7] as int,
        ),
{
    assert(octs[i].inv(i));
    let c = octs[i].children->Some_0;
    lemma_osize_pos(octs, c[0] as int);
    lemma_osize_pos(octs, c[1] as int);
    lemma_osize_pos(octs, c[2] as int);
    lemma_osize_pos(octs, c[3] as int);
    lemma_osize_pos(octs, c[4] as int);
    lemma_osize_pos(octs, c[5] as int);
    lemma_osize_pos(octs, c[6] as int);
    lemma_osize_pos(octs, c[7] as int);
}


/// The transient result of subdividing one region: a homogeneous region's
/// sample value, returnable to the parent for merging, or the handle of a
/// materialised octant.
#[derive(Clone, Copy, Debug)]
pub enum Subdivided {
    Value(i64),
    Idx(OctantIdx),
}

/// Is this a sampled value classifying its whole region as inside?
pub open spec fn subdiv_neg(s: Subdivided) -> bool {
    match s {
        Subdivided::Value(v) => v < 0,
        Subdivided::Idx(_) => false,
    }
}

/// Is this a sampled value classifying its whole region as outside?
pub open spec fn subdiv_nonneg(s: Subdivided) -> bool {
    match s {
        Subdivided::Value(v) => v >= 0,
        Subdivided::Idx(_) => false,
    }
}


/// Every leaf of the arena carries exactly the feature the solver computes
/// for its cube under field `f`.
pub open spec fn leaves_solved(octs: Seq<Octant>, f: CsgFunc) -> bool {
    forall|i: int|
        0 <= i < octs.len() && (#[trigger] octs[i]).children is None ==> octs[i].feature
            == dual_contour::spec_new_feature(octs[i].x_axis, octs[i].y_axis, octs[i].z_axis, f, false)
}

/// What one recursive subdivision step leaves behind: the grown arena, the
/// latest root handle, and the step's own result.
pub ghost struct BuildOut {
    pub octs: Seq<Octant>,
    pub root: Option<OctantIdx>,
    pub result: Subdivided,
}

/// What subdividing a prefix of the eight child slots leaves behind.
pub ghost struct ChildrenOut {
    pub octs: Seq<Octant>,
    pub root: Option<OctantIdx>,
    pub results: Seq<Subdivided>,
}

/// The sub-axes of child slot `j`, in the canonical child order: the x
/// halves vary slowest, then the y halves upper-first, then the z halves.
pub open spec fn spec_sub_axes(xa: OctAxis, ya: OctAxis, za: OctAxis, j: int) -> (
    OctAxis,
    OctAxis,
    OctAxis,
) {
    let (left_x, right_x) = xa.spec_split();
    let (bottom_y, top_y) = ya.spec_split();
    let (front_z, back_z) = za.spec_split();
    if j == 0 {
        (left_x, top_y, front_z)
    } else if j == 1 {
        (left_x, top_y, back_z)
    } else if j == 2 {
        (left_x, bottom_y, front_z)
    } else if j == 3 {
        (left_x, bottom_y, back_z)
    } else if j == 4 {
        (right_x, top_y, front_z)
    } else if j == 5 {
        (right_x, top_y, back_z)
    } else if j == 6 {
        (right_x, bottom_y, front_z)
    } else {
        (right_x, bottom_y, back_z)
    }
}

/// Are the first `k` results all homogeneous inside samples?
pub open spec fn spec_all_neg(rs: Seq<Subdivided>, k: nat) -> bool
    decreases k,
{
    if k == 0 {
        true
    } else {
        spec_all_neg(rs, (k - 1) as nat) && subdiv_neg(rs[k - 1])
    }
}

/// Are the first `k` results all homogeneous outside samples?
pub open spec fn spec_all_nonneg(rs: Seq<Subdivided>, k: nat) -> bool
    decreases k,
{
    if k == 0 {
        true
    } else {
        spec_all_nonneg(rs, (k - 1) as nat) && subdiv_nonneg(rs[k - 1])
    }
}

/// The merge rule: eight uniformly inside, or uniformly outside, sampled
/// regions collapse to the first of them.
pub open spec fn spec_merge(rs: Seq<Subdivided>) -> Option<Subdivided> {
    if spec_all_neg(rs, rs.len()) || spec_all_nonneg(rs, rs.len()) {
        Some(rs[0])
    } else {
        None
    }
}

/// Materialising one child slot: an existing octant keeps its handle; a
/// homogeneous value becomes a fresh leaf with its own sub-axes and a
/// solver-computed feature.
pub open spec fn spec_materialize(
    octs: Seq<Octant>,
    xa: OctAxis,
    ya: OctAxis,
    za: OctAxis,
    r: Subdivided,
    f: CsgFunc,
) -> (Seq<Octant>, OctantIdx) {
    match r {
        Subdivided::Idx(h) => (octs, h),
        Subdivided::Value(_) => (
            octs.push(
                Octant {
                    x_axis: xa,
                    y_axis: ya,
                    z_axis: za,
                    children: None,
                    feature: dual_contour::spec_new_feature(xa, ya, za, f, false),
                },
            ),
            octs.len() as OctantIdx,
        ),
    }
}

/// Materialising the first `k` child slots in order.
pub open spec fn spec_materialize_seq(
    octs: Seq<Octant>,
    xa: OctAxis,
    ya: OctAxis,
    za: OctAxis,
    rs: Seq<Subdivided>,
    k: nat,
    f: CsgFunc,
) -> (Seq<Octant>, Seq<OctantIdx>)
    decreases k,
{
    if k == 0 {
        (octs, Seq::<OctantIdx>::empty())
    } else {
        let prev = spec_materialize_seq(octs, xa, ya, za, rs, (k - 1) as nat, f);
        let (sx, sy, sz) = spec_sub_axes(xa, ya, za, k - 1);
        let m = spec_materialize(prev.0, sx, sy, sz, rs[k - 1], f);
        (m.0, prev.1.push(m.1))
    }
}

/// Subdividing the first `k` child slots of a region in order.
pub open spec fn spec_subdivide_children(
    octs: Seq<Octant>,
    root: Option<OctantIdx>,
    xa: OctAxis,
    ya: OctAxis,
    za: OctAxis,
    depth: nat,
    k: nat,
    f: CsgFunc,
) -> ChildrenOut
    decreases depth, 0nat, k,
{
    if k == 0 || depth == 0 {
        ChildrenOut { octs, root, results: Seq::<Subdivided>::empty() }
    } else {
        let prev = spec_subdivide_children(octs, root, xa, ya, za, depth, (k - 1) as nat, f);
        let (sx, sy, sz) = spec_sub_axes(xa, ya, za, k - 1);
        let o = spec_subdivide(prev.octs, prev.root, sx, sy, sz, (depth - 1) as nat, f);
        ChildrenOut { octs: o.octs, root: o.root, results: prev.results.push(o.result) }
    }
}

/// The complete mathematical mirror of `Octree::subdivide`: what the arena,
/// the root handle and the result are after subdividing the given region to
/// the given depth.
pub open spec fn spec_subdivide(
    octs: Seq<Octant>,
    root: Option<OctantIdx>,
    xa: OctAxis,
    ya: OctAxis,
    za: OctAxis,
    depth: nat,
    f: CsgFunc,
) -> BuildOut
    decreases depth, 1nat, 0nat,
{
    if depth == 0 {
        BuildOut {
            octs,
            root,
            result: Subdivided::Value(
                f.sample(xa.spec_center(), ya.spec_center(), za.spec_center()) as i64,
            ),
        }
    } else {
        let ch = spec_subdivide_children(octs, root, xa, ya, za, depth, 8, f);
        if spec_merge(ch.results) is Some {
            BuildOut { octs: ch.octs, root: ch.root, result: ch.results[0] }
        } else {
            let (mocts, hs) = spec_materialize_seq(ch.octs, xa, ya, za, ch.results, 8, f);
            let root_idx = mocts.len() as OctantIdx;
            BuildOut {
                octs: mocts.push(
                    Octant {
                        x_axis: xa,
                        y_axis: ya,
                        z_axis: za,
                        children: Some(
                            [
                                hs[0] as OctantIdx,
                                hs[1] as OctantIdx,
                                hs[2] as OctantIdx,
                                hs[3] as OctantIdx,
                                hs[4] as OctantIdx,
                                hs[5] as OctantIdx,
                                hs[6] as OctantIdx,
                                hs[7] as OctantIdx,
                            ],
                        ),
                        feature: None,
                    },
                ),
                root: Some(root_idx),
                result: Subdivided::Idx(root_idx),
            }
        }
    }
}

/// A solved feature, when present, lies in its cube and in coordinate
/// range: the solver clamps into the closed cube.
pub proof fn lemma_new_feature_in_cube(
    xa: OctAxis,
    ya: OctAxis,
    za: OctAxis,
    f: CsgFunc,
    bias: bool,
)
    requires
        xa.inv(),
        ya.inv(),
        za.inv(),
    ensures
        dual_contour::spec_new_feature(xa, ya, za, f, bias) matches Some(p) ==> in_cube(
            p,
            xa,
            ya,
            za,
        ) && p.inv(),
{
}

/// Structural facts about one materialisation step: the arena grows by at
/// most one well-formed leaf, existing octants are untouched, the returned
/// handle is valid, and solved leaves stay solved.
pub proof fn lemma_materialize_props(
    octs: Seq<Octant>,
    xa: OctAxis,
    ya: OctAxis,
    za: OctAxis,
    r: Subdivided,
    f: CsgFunc,
)
    requires
        arena_inv(octs),
        xa.inv(),
        ya.inv(),
        za.inv(),
        r matches Subdivided::Idx(i) ==> i < octs.len(),
    ensures
        ({
            let m = spec_materialize(octs, xa, ya, za, r, f);
            &&& arena_inv(m.0)
            &&& octs.len() <= m.0.len()
            &&& (forall|i: int| 0 <= i < octs.len() ==> m.0[i] == octs[i])
            &&& m.1 < m.0.len()
            &&& (leaves_solved(octs, f) ==> leaves_solved(m.0, f))
        }),
{
    lemma_new_feature_in_cube(xa, ya, za, f, false);
    let m = spec_materialize(octs, xa, ya, za, r, f);
    match r {
        Subdivided::Idx(_) => {},
        Subdivided::Value(_) => {
            assert forall|i: int| 0 <= i < m.0.len() implies (#[trigger] m.0[i]).inv(i) by {
                if i < octs.len() {
                    assert(octs[i].inv(i));
                }
            }
            if leaves_solved(octs, f) {
                assert forall|i: int|
                    0 <= i < m.0.len() && (#[trigger] m.0[i]).children is None implies m.0[i].feature
                    == dual_contour::spec_new_feature(
                    m.0[i].x_axis,
                    m.0[i].y_axis,
                    m.0[i].z_axis,
                    f,
                    false,
                ) by {
                    if i < octs.len() {
                        assert(octs[i].children is None && octs[i] == m.0[i]);
                    }
                }
            }
        },
    }
}

/// Structural facts about materialising a prefix of the child slots.
pub proof fn lemma_materialize_seq_props(
    octs: Seq<Octant>,
    xa: OctAxis,
    ya: OctAxis,
    za: OctAxis,
    rs: Seq<Subdivided>,
    k: nat,
    f: CsgFunc,
)
    requires
        arena_inv(octs),
        xa.inv(),
        ya.inv(),
        za.inv(),
        forall|t: int|
            0 <= t < rs.len() ==> ((#[trigger] rs[t]) matches Subdivided::Idx(i) ==> i
                < octs.len()),
        k <= rs.len(),
    ensures
        ({
            let m = spec_materialize_seq(octs, xa, ya, za, rs, k, f);
            &&& arena_inv(m.0)
            &&& octs.len() <= m.0.len()
            &&& (forall|i: int| 0 <= i < octs.len() ==> m.0[i] == octs[i])
            &&& m.1.len() == k
            &&& (forall|t: int| 0 <= t < k ==> #[trigger] m.1[t] < m.0.len())
            &&& (leaves_solved(octs, f) ==> leaves_solved(m.0, f))
        }),
    decreases k,
{
    if k > 0 {
        lemma_materialize_seq_props(octs, xa, ya, za, rs, (k - 1) as nat, f);
        let prev = spec_materialize_seq(octs, xa, ya, za, rs, (k - 1) as nat, f);
        let (sx, sy, sz) = spec_sub_axes(xa, ya, za, k - 1);
        lemma_materialize_props(prev.0, sx, sy, sz, rs[k - 1], f);
    }
}

/// Structural facts about a whole subdivision, and about subdividing a
/// prefix of the child slots: the arena only grows and stays well-formed,
/// existing octants are untouched, the root and any returned handles are
/// valid, and solved leaves stay solved.
pub proof fn lemma_subdivide_props(
    octs: Seq<Octant>,
    root: Option<OctantIdx>,
    xa: OctAxis,
    ya: OctAxis,
    za: OctAxis,
    depth: nat,
    f: CsgFunc,
)
    requires
        arena_inv(octs),
        f.inv(),
        xa.inv(),
        ya.inv(),
        za.inv(),
        match root {
            Some(r) => r < octs.len(),
            None => true,
        },
    ensures
        ({
            let out = spec_subdivide(octs, root, xa, ya, za, depth, f);
            &&& arena_inv(out.octs)
            &&& octs.len() <= out.octs.len()
            &&& (forall|i: int| 0 <= i < octs.len() ==> out.octs[i] == octs[i])
            &&& match out.root {
                Some(r) => r < out.octs.len(),
                None => true,
            }
            &&& (out.result matches Subdivided::Idx(h) ==> h < out.octs.len())
            &&& (leaves_solved(octs, f) ==> leaves_solved(out.octs, f))
        }),
    decreases depth, 1nat, 0nat,
{
    if depth == 0 {
        return ;
    }
    lemma_subdivide_children_props(octs, root, xa, ya, za, depth, 8, f);
    let ch = spec_subdivide_children(octs, root, xa, ya, za, depth, 8, f);
    if spec_merge(ch.results) is Some {
        return ;
    }
    lemma_materialize_seq_props(ch.octs, xa, ya, za, ch.results, 8, f);
    let (mocts, hs) = spec_materialize_seq(ch.octs, xa, ya, za, ch.results, 8, f);
    let out = spec_subdivide(octs, root, xa, ya, za, depth, f);
    let parent = out.octs[mocts.len() as int];
    assert forall|i: int| 0 <= i < out.octs.len() implies (#[trigger] out.octs[i]).inv(i) by {
        if i < mocts.len() {
            assert(mocts[i].inv(i));
        } else {
            assert(out.octs[i] == parent);
            assert(hs[0] < mocts.len() && hs[1] < mocts.len() && hs[2] < mocts.len() && hs[3]
                < mocts.len() && hs[4] < mocts.len() && hs[5] < mocts.len() && hs[6] < mocts.len()
                && hs[7] < mocts.len());
        }
    }
    if leaves_solved(octs, f) {
        assert forall|i: int|
            0 <= i < out.octs.len() && (#[trigger] out.octs[i]).children is None implies out.octs[i].feature
            == dual_contour::spec_new_feature(
            out.octs[i].x_axis,
            out.octs[i].y_axis,
            out.octs[i].z_axis,
            f,
            false,
        ) by {
            assert(i < mocts.len() && out.octs[i] == mocts[i]);
        }
    }
}

/// Structural facts about subdividing the first `k` child slots.
pub proof fn lemma_subdivide_children_props(
    octs: Seq<Octant>,
    root: Option<OctantIdx>,
    xa: OctAxis,
    ya: OctAxis,
    za: OctAxis,
    depth: nat,
    k: nat,
    f: CsgFunc,
)
    requires
        arena_inv(octs),
        f.inv(),
        xa.inv(),
        ya.inv(),
        za.inv(),
        match root {
            Some(r) => r < octs.len(),
            None => true,
        },
    ensures
        ({
            let ch = spec_subdivide_children(octs, root, xa, ya, za, depth, k, f);
            &&& arena_inv(ch.octs)
            &&& octs.len() <= ch.octs.len()
            &&& (forall|i: int| 0 <= i < octs.len() ==> ch.octs[i] == octs[i])
            &&& match ch.root {
                Some(r) => r < ch.octs.len(),
                None => true,
            }
            &&& ch.results.len() == (if depth == 0 { 0nat } else { k })
            &&& (forall|t: int|
                0 <= t < ch.results.len() ==> ((#[trigger] ch.results[t]) matches Subdivided::Idx(
                    i,
                ) ==> i < ch.octs.len()))
            &&& (leaves_solved(octs, f) ==> leaves_solved(ch.octs, f))
        }),
    decreases depth, 0nat, k,
{
    if k == 0 || depth == 0 {
        return ;
    }
    lemma_subdivide_children_props(octs, root, xa, ya, za, depth, (k - 1) as nat, f);
    let prev = spec_subdivide_children(octs, root, xa, ya, za, depth, (k - 1) as nat, f);
    let (sx, sy, sz) = spec_sub_axes(xa, ya, za, k - 1);
    lemma_subdivide_props(prev.octs, prev.root, sx, sy, sz, (depth - 1) as nat, f);
}

/// The depth the builder descends to for a given world length: the floor
/// base-two logarithm of `len / step`, counted by doubling `step`.
pub open spec fn depth_for(len: int, step: int) -> nat
    decreases len - step,
    when 1 <= step
{
    if 2 * step <= len {
        1 + depth_for(len, 2 * step)
    } else {
        0
    }
}

/// Stores a 3-dimensional representation of a shape function at an
/// arbitrary resolution: an append-only arena of octants, the world range,
/// and the handle of the outermost internal octant, if one materialised.
#[derive(Clone, Debug)]
pub struct Octree {
    pub octants: Vec<Octant>,
    pub range: OctAxis,
    pub root_idx: Option<OctantIdx>,
}

impl Octree {
    /// A well-formed octree: a well-formed arena and a valid root handle.
    pub open spec fn inv(self) -> bool {
        &&& arena_inv(self.octants@)
        &&& self.range.inv()
        &&& match self.root_idx {
            Some(r) => r < self.octants@.len(),
            None => true,
        }
    }

    /// Creates a new empty octree bounding the cube of `bounds` on every
    /// axis.
    pub fn new(lower_bound: i64, upper_bound: i64) -> (t: Octree)
        requires
            in_coord_range(lower_bound as int),
            in_coord_range(upper_bound as int),
        ensures
            t.octants@ == Seq::<Octant>::empty(),
            t.range == OctAxis::spec_new(lower_bound, upper_bound),
            t.root_idx is None,
            t.inv(),
    {
        Octree { octants: Vec::new(), range: OctAxis::new(lower_bound, upper_bound), root_idx: None }
    }

    /// Adds an octant to the arena, returning its handle.
    fn add_octant(&mut self, oct: Octant) -> (idx: OctantIdx)
        ensures
            final(self).octants@ == old(self).octants@.push(oct),
            idx == old(self).octants@.len(),
            final(self).range == old(self).range,
            final(self).root_idx == old(self).root_idx,
    {
        self.octants.push(oct);
        self.octants.len() - 1
    }

    /// Returns a reference to the octant a handle names.
    pub fn get_octant(&self, idx: OctantIdx) -> (o: &Octant)
        requires
            idx < self.octants@.len(),
        ensures
            *o == self.octants@[idx as int],
    {
        &self.octants[idx]
    }

    /// Can the eight subdivided regions merge into one homogeneous region?
    fn merge_octants(octant_children: &Vec<Subdivided>) -> (r: Option<Subdivided>)
        requires
            octant_children@.len() == 8,
        ensures
            r == spec_merge(octant_children@),
    {
        let mut all_inside = true;
        let mut all_outside = true;
        let mut k: usize = 0;
        while k < 8
            invariant
                octant_children@.len() == 8,
                k <= 8,
                all_inside == spec_all_neg(octant_children@, k as nat),
                all_outside == spec_all_nonneg(octant_children@, k as nat),
            decreases 8 - k,
        {
            match octant_children[k] {
                Subdivided::Value(v) => {
                    if v >= 0 {
                        all_inside = false;
                    }
                    if v < 0 {
                        all_outside = false;
                    }
                },
                Subdivided::Idx(_) => {
                    all_inside = false;
                    all_outside = false;
                },
            }
            k = k + 1;
        }
        if all_inside || all_outside {
            Some(octant_children[0])
        } else {
            None
        }
    }

    /// The sub-axes of child slot `j`, as values; each half keeps at least
    /// half of its parent's width.
    fn sub_axes(xa: OctAxis, ya: OctAxis, za: OctAxis, j: usize) -> (r: (OctAxis, OctAxis, OctAxis))
        requires
            j < 8,
            xa.inv(),
            ya.inv(),
            za.inv(),
        ensures
            r == spec_sub_axes(xa, ya, za, j as int),
            r.0.inv(),
            r.1.inv(),
            r.2.inv(),
            r.0.upper - r.0.lower >= (xa.upper - xa.lower) / 2,
            r.1.upper - r.1.lower >= (ya.upper - ya.lower) / 2,
            r.2.upper - r.2.lower >= (za.upper - za.lower) / 2,
    {
        let (left_x, right_x) = xa.split();
        let (bottom_y, top_y) = ya.split();
        let (front_z, back_z) = za.split();
        if j == 0 {
            (left_x, top_y, front_z)
        } else if j == 1 {
            (left_x, top_y, back_z)
        } else if j == 2 {
            (left_x, bottom_y, front_z)
        } else if j == 3 {
            (left_x, bottom_y, back_z)
        } else if j == 4 {
            (right_x, top_y, front_z)
        } else if j == 5 {
            (right_x, top_y, back_z)
        } else if j == 6 {
            (right_x, bottom_y, front_z)
        } else {
            (right_x, bottom_y, back_z)
        }
    }

    /// Turn one child slot into a handle: reuse a materialised octant, or
    /// create a leaf for a homogeneous region, solving its feature.
    fn materialize(
        &mut self,
        xa: OctAxis,
        ya: OctAxis,
        za: OctAxis,
        c: Subdivided,
        func: &CsgFunc,
    ) -> (h: OctantIdx)
        requires
            old(self).inv(),
            func.inv(),
            xa.inv(),
            ya.inv(),
            za.inv(),
            xa.upper - xa.lower >= 1,
            ya.upper - ya.lower >= 1,
            za.upper - za.lower >= 1,
            c matches Subdivided::Idx(i) ==> i < old(self).octants@.len(),
        ensures
            final(self).inv(),
            final(self).range == old(self).range,
            final(self).root_idx == old(self).root_idx,
            (final(self).octants@, h) == spec_materialize(
                old(self).octants@,
                xa,
                ya,
                za,
                c,
                *func,
            ),
    {
        proof {
            lemma_materialize_props(self.octants@, xa, ya, za, c, *func);
        }
        match c {
            Subdivided::Idx(idx) => idx,
            Subdivided::Value(_) => {
                let feature = dual_contour::new_feature(xa, ya, za, func);
                self.add_octant(Octant::new(xa, ya, za, feature))
            },
        }
    }

    /// Recursive top-down build of one region: sample the centre at the
    /// bottom, merge homogeneous regions on the way up, and materialise a
    /// new internal octant (with leaves for its homogeneous children)
    /// everywhere the samples disagree.
    fn subdivide(
        &mut self,
        x_axis: OctAxis,
        y_axis: OctAxis,
        z_axis: OctAxis,
        depth: u8,
        func: &CsgFunc,
    ) -> (r: Subdivided)
        requires
            old(self).inv(),
            func.inv(),
            x_axis.inv(),
            y_axis.inv(),
            z_axis.inv(),
            x_axis.upper - x_axis.lower >= two_pow(depth as nat),
            y_axis.upper - y_axis.lower >= two_pow(depth as nat),
            z_axis.upper - z_axis.lower >= two_pow(depth as nat),
        ensures
            final(self).inv(),
            final(self).range == old(self).range,
            ({
                let out = spec_subdivide(
                    old(self).octants@,
                    old(self).root_idx,
                    x_axis,
                    y_axis,
                    z_axis,
                    depth as nat,
                    *func,
                );
                final(self).octants@ == out.octs && final(self).root_idx == out.root && r
                    == out.result
            }),
            r matches Subdivided::Idx(h) ==> h < final(self).octants@.len(),
        decreases depth,
    {
        proof {
            lemma_two_pow_pos(depth as nat);
        }
        if depth == 0 {
            return Subdivided::Value(func.call(x_axis.center(), y_axis.center(), z_axis.center()));
        }
        let ghost orig_octs = old(self).octants@;
        let ghost orig_root = old(self).root_idx;
        let ghost fz = *func;
        let new_depth = depth - 1;
        proof {
            assert(two_pow(depth as nat) == 2 * two_pow(new_depth as nat));
            lemma_two_pow_pos(new_depth as nat);
        }
        let mut children: Vec<Subdivided> = Vec::new();
        let mut j: usize = 0;
        while j < 8
            invariant
                self.inv(),
                func.inv(),
                *func == fz,
                self.range == old(self).range,
                x_axis.inv(),
                y_axis.inv(),
                z_axis.inv(),
                x_axis.upper - x_axis.lower >= 2 * two_pow(new_depth as nat),
                y_axis.upper - y_axis.lower >= 2 * two_pow(new_depth as nat),
                z_axis.upper - z_axis.lower >= 2 * two_pow(new_depth as nat),
                two_pow(new_depth as nat) >= 1,
                depth as nat == new_depth as nat + 1,
                j <= 8,
                children@.len() == j,
                ({
                    let ch = spec_subdivide_children(
                        orig_octs,
                        orig_root,
                        x_axis,
                        y_axis,
                        z_axis,
                        depth as nat,
                        j as nat,
                        fz,
                    );
                    self.octants@ == ch.octs && self.root_idx == ch.root && children@ == ch.results
                }),
                forall|t: int|
                    0 <= t < j ==> ((#[trigger] children@[t]) matches Subdivided::Idx(h) ==> h
                        < self.octants@.len()),
            decreases 8 - j,
        {
            let ghost prev_octs = self.octants@;
            let (sx, sy, sz) = Octree::sub_axes(x_axis, y_axis, z_axis, j);
            let c = self.subdivide(sx, sy, sz, new_depth, func);
            children.push(c);
            proof {
                assert forall|t: int|
                    0 <= t < j + 1 implies ((#[trigger] children@[t]) matches Subdivided::Idx(h)
                        ==> h < self.octants@.len()) by {
                    if t < j {
                        assert(children@[t] == spec_subdivide_children(
                            orig_octs,
                            orig_root,
                            x_axis,
                            y_axis,
                            z_axis,
                            depth as nat,
                            j as nat,
                            fz,
                        ).results[t]);
                        lemma_subdivide_props(prev_octs, spec_subdivide_children(
                            orig_octs,
                            orig_root,
                            x_axis,
                            y_axis,
                            z_axis,
                            depth as nat,
                            j as nat,
                            fz,
                        ).root, sx, sy, sz, new_depth as nat, fz);
                    }
                }
            }
            j = j + 1;
        }
        let ghost ch = spec_subdivide_children(
            orig_octs,
            orig_root,
            x_axis,
            y_axis,
            z_axis,
            depth as nat,
            8,
            fz,
        );

        if let Some(merged_region) = Octree::merge_octants(&children) {
            return merged_region;
        }
        let mut handles: Vec<OctantIdx> = Vec::new();
        let mut j2: usize = 0;
        while j2 < 8
            invariant
                self.inv(),
                func.inv(),
                *func == fz,
                self.range == old(self).range,
                self.root_idx == ch.root,
                x_axis.inv(),
                y_axis.inv(),
                z_axis.inv(),
                x_axis.upper - x_axis.lower >= 2 * two_pow(new_depth as nat),
                y_axis.upper - y_axis.lower >= 2 * two_pow(new_depth as nat),
                z_axis.upper - z_axis.lower >= 2 * two_pow(new_depth as nat),
                two_pow(new_depth as nat) >= 1,
                j2 <= 8,
                children@.len() == 8,
                children@ == ch.results,
                handles@.len() == j2,
                ({
                    let m = spec_materialize_seq(
                        ch.octs,
                        x_axis,
                        y_axis,
                        z_axis,
                        ch.results,
                        j2 as nat,
                        fz,
                    );
                    self.octants@ == m.0 && handles@ == m.1
                }),
                forall|t: int| 0 <= t < j2 ==> #[trigger] handles@[t] < self.octants@.len(),
                forall|t: int|
                    0 <= t < 8 ==> ((#[trigger] children@[t]) matches Subdivided::Idx(h) ==> h
                        < ch.octs.len()),
                ch.octs.len() <= self.octants@.len(),
            decreases 8 - j2,
        {
            let ghost prev_octs = self.octants@;
            let (sx, sy, sz) = Octree::sub_axes(x_axis, y_axis, z_axis, j2);
            let h = self.materialize(sx, sy, sz, children[j2], func);
            handles.push(h);
            proof {
                assert forall|t: int|
                    0 <= t < j2 + 1 implies #[trigger] handles@[t] < self.octants@.len() by {
                    if t < j2 {
                        assert(handles@[t] < prev_octs.len());
                        assert(prev_octs.len() <= self.octants@.len()) by {
                            lemma_materialize_props(prev_octs, sx, sy, sz, children@[j2 as int], fz);
                        }
                    }
                }
            }
            j2 = j2 + 1;
        }
        let ghost before = self.octants@;
        let h0 = handles[0];
        let h1 = handles[1];
        let h2 = handles[2];
        let h3 = handles[3];
        let h4 = handles[4];
        let h5 = handles[5];
        let h6 = handles[6];
        let h7 = handles[7];
        let root = self.add_octant(
            Octant {
                x_axis,
                y_axis,
                z_axis,
                children: Some([h0, h1, h2, h3, h4, h5, h6, h7]),
                feature: None,
            },
        );
        self.root_idx = Some(root);
        proof {
            let octs = self.octants@;
            assert forall|i: int| 0 <= i < octs.len() implies (#[trigger] octs[i]).inv(i) by {
                if i < before.len() {
                    assert(octs[i] == before[i]);
                    assert(before[i].inv(i));
                }
            }
        }
        Subdivided::Idx(root)
    }

    /// Renders an object into the octree from `function` at the given
    /// resolution: the world range is subdivided until a cell's edge drops
    /// below `resolution`. Returns the (single, always-zero) shape handle.
    pub fn render_shape(&mut self, resolution: i64, function: &CsgFunc) -> (h: ShapeHandle)
        requires
            old(self).inv(),
            function.inv(),
            1 <= resolution <= COORD_LIMIT,
            old(self).range.upper - old(self).range.lower >= 1,
        ensures
            h == 0,
            final(self).inv(),
            final(self).range == old(self).range,
            ({
                let out = spec_subdivide(
                    old(self).octants@,
                    old(self).root_idx,
                    old(self).range,
                    old(self).range,
                    old(self).range,
                    depth_for(old(self).range.upper - old(self).range.lower, resolution as int),
                    *function,
                );
                final(self).octants@ == out.octs && final(self).root_idx == out.root
            }),
    {
        let len = self.range.length();
        let mut d: u8 = 0;
        let mut step: i64 = resolution;
        while step * 2 <= len
            invariant
                1 <= step <= 2 * COORD_LIMIT,
                0 <= len <= 2 * COORD_LIMIT,
                two_pow(d as nat) <= step,
                d >= 1 ==> step <= len,
                depth_for(len as int, resolution as int) == d + depth_for(len as int, step as int),
            decreases len - step,
        {
            proof {
                if d >= 32 {
                    lemma_two_pow_mono(32, d as nat);
                    lemma_two_pow_32();
                }
                assert(two_pow((d + 1) as nat) == 2 * two_pow(d as nat));
            }
            step = step * 2;
            d = d + 1;
        }
        let range = self.range;
        proof {
            lemma_two_pow_pos(d as nat);
        }
        self.subdivide(range, range, range, d, function);
        0
    }
}


/// The faces of the whole octree: the extraction seeded at the root, or
/// nothing for a tree that never materialised one.
pub open spec fn spec_extract_faces(t: Octree) -> Seq<Face> {
    match t.root_idx {
        Some(idx) => dual_contour::spec_cell_faces(t.octants@, idx as int),
        None => Seq::<Face>::empty(),
    }
}

/// The leaf octants under `i`, in traversal order: children are visited
/// from the last slot down.
pub open spec fn spec_leaves(octs: Seq<Octant>, i: int) -> Seq<Octant>
    decreases osize(octs, i),
    when 0 <= i < octs.len() && arena_inv(octs)
    via spec_leaves_dec
{
    match octs[i].children {
        None => seq![octs[i]],
        Some(c) => spec_leaves(octs, c[7] as int) + spec_leaves(octs, c[6] as int) + spec_leaves(
            octs,
            c[5] as int,
        ) + spec_leaves(octs, c[4] as int) + spec_leaves(octs, c[3] as int) + spec_leaves(
            octs,
            c[2] as int,
        ) + spec_leaves(octs, c[1] as int) + spec_leaves(octs, c[0] as int),
    }
}

#[via_fn]
proof fn spec_leaves_dec(octs: Seq<Octant>, i: int) {
    if octs[i].children is Some {
        assert(octs[i].inv(i));
        lemma_osize_pos(octs, i);
        lemma_osize_children(octs, i);
    }
}

/// All leaf octants of the octree, in traversal order.
pub open spec fn spec_octree_leaves(t: Octree) -> Seq<Octant> {
    match t.root_idx {
        Some(r) => spec_leaves(t.octants@, r as int),
        None => Seq::<Octant>::empty(),
    }
}

/// The feature points present among a row of leaves, in order.
pub open spec fn spec_features_of(leaves: Seq<Octant>) -> Seq<Point>
    decreases leaves.len(),
{
    if leaves.len() == 0 {
        Seq::<Point>::empty()
    } else {
        let prev = spec_features_of(leaves.drop_last());
        match leaves.last().feature {
            Some(p) => prev.push(p),
            None => prev,
        }
    }
}

impl Octree {
    /// Extracts the polygonal surface: one pass of the dual-contour
    /// recursion over the whole tree. A pure function of the arena.
    pub fn extract_faces(&self) -> (faces: Vec<Face>)
        requires
            self.inv(),
        ensures
            faces@ == spec_extract_faces(*self),
    {
        match self.root_idx {
            Some(idx) => dual_contour::cell_proc(self, idx),
            None => Vec::new(),
        }
    }

    /// Every leaf octant of the tree, exactly once, in traversal order.
    pub fn iter(&self) -> (leaves: Vec<Octant>)
        requires
            self.inv(),
        ensures
            leaves@ == spec_octree_leaves(*self),
    {
        let mut out: Vec<Octant> = Vec::new();
        match self.root_idx {
            Some(r) => {
                Octree::collect_leaves(self, r, &mut out);
            },
            None => {},
        }
        out
    }

    /// Append the leaves under `idx` to `out`.
    fn collect_leaves(tree: &Octree, idx: OctantIdx, out: &mut Vec<Octant>)
        requires
            tree.inv(),
            idx < tree.octants@.len(),
        ensures
            final(out)@ == old(out)@ + spec_leaves(tree.octants@, idx as int),
        decreases osize(tree.octants@, idx as int),
    {
        let o = tree.get_octant(idx);
        match o.children {
            None => {
                out.push(
                    Octant {
                        x_axis: o.x_axis,
                        y_axis: o.y_axis,
                        z_axis: o.z_axis,
                        children: None,
                        feature: o.feature,
                    },
                );
                proof {
                    assert(old(out)@.push(tree.octants@[idx as int]) =~= old(out)@ + seq![
                        tree.octants@[idx as int],
                    ]);
                }
            },
            Some(c) => {
                proof {
                    assert(tree.octants@[idx as int].inv(idx as int));
                    lemma_osize_pos(tree.octants@, idx as int);
                    lemma_osize_children(tree.octants@, idx as int);
                }
                Octree::collect_leaves(tree, c[7], out);
                Octree::collect_leaves(tree, c[6], out);
                Octree::collect_leaves(tree, c[5], out);
                Octree::collect_leaves(tree, c[4], out);
                Octree::collect_leaves(tree, c[3], out);
                Octree::collect_leaves(tree, c[2], out);
                Octree::collect_leaves(tree, c[1], out);
                Octree::collect_leaves(tree, c[0], out);
            },
        }
    }

    /// Every feature point present in the tree, in leaf-iteration order.
    pub fn features(&self) -> (pts: Vec<Point>)
        requires
            self.inv(),
        ensures
            pts@ == spec_features_of(spec_octree_leaves(*self)),
    {
        let leaves = self.iter();
        let mut pts: Vec<Point> = Vec::new();
        let mut i: usize = 0;
        while i < leaves.len()
            invariant
                i <= leaves@.len(),
                pts@ == spec_features_of(leaves@.take(i as int)),
            decreases leaves@.len() - i,
        {
            proof {
                assert(leaves@.take(i + 1).drop_last() =~= leaves@.take(i as int));
                assert(leaves@.take(i + 1).last() == leaves@[i as int]);
            }
            match leaves[i].feature {
                Some(p) => {
                    pts.push(p);
                },
                None => {},
            }
            i = i + 1;
        }
        proof {
            assert(leaves@.take(leaves@.len() as int) =~= leaves@);
        }
        pts
    }
}

} // verus!

