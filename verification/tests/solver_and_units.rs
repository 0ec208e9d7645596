//! Unit-level checks: field evaluation, edge bisection, the feature solver,
//! axes, and containment of every stored feature.

use conjure::dual_contour::{find_point_on_edge, new_feature, new_feature_mode};
use conjure::octree::{OctAxis, Octree};
use conjure::shape::CsgFunc;
use conjure::types::Point;

#[test]
fn field_values_sphere() {
    let f = CsgFunc::Sphere { center_x: 0, center_y: 0, center_z: 0, radius: 1000 };
    assert_eq!(f.call(0, 0, 0), -1000);
    assert_eq!(f.call(1000, 0, 0), 0);
    assert_eq!(f.call(0, 2000, 0), 1000);
    // isqrt floors: |(300,400,0)| = 500 exactly
    assert_eq!(f.call(300, 400, 0), -500);
}

#[test]
fn field_values_cube() {
    let f = CsgFunc::Cube {
        lower_x: -10,
        lower_y: -10,
        lower_z: -10,
        upper_x: 10,
        upper_y: 10,
        upper_z: 10,
    };
    assert_eq!(f.call(0, 0, 0), -10);
    assert_eq!(f.call(10, 0, 0), 0);
    assert_eq!(f.call(15, 3, -2), 5);
    assert_eq!(f.call(0, -12, 0), 2);
}

#[test]
fn field_values_union_intersect() {
    let a = CsgFunc::Constant { value: 3 };
    let b = CsgFunc::Constant { value: -7 };
    let u = CsgFunc::Union(Box::new(a), Box::new(b));
    assert_eq!(u.call(1, 2, 3), -7);
    let a2 = CsgFunc::Constant { value: 3 };
    let b2 = CsgFunc::Constant { value: -7 };
    let i = CsgFunc::Intersect(Box::new(a2), Box::new(b2));
    assert_eq!(i.call(1, 2, 3), 3);
}

#[test]
fn normals_point_along_gradient() {
    let f = CsgFunc::Cube {
        lower_x: -0x100_0000,
        lower_y: -0x100_0000,
        lower_z: -0x100_0000,
        upper_x: 0x100_0000,
        upper_y: 0x100_0000,
        upper_z: 0,
    };
    // inside the slab, away from the other walls, the field is z
    let n = f.normal(0, 0, -64);
    assert_eq!(n.x, 0);
    assert_eq!(n.y, 0);
    assert!(n.z > 0);
}

#[test]
fn bisection_locates_plane_crossing() {
    let big = 0x100_0000;
    let f = CsgFunc::Cube {
        lower_x: -big,
        lower_y: -big,
        lower_z: -big,
        upper_x: big,
        upper_y: big,
        upper_z: 0,
    };
    let p1 = Point::new(100, 100, -2048);
    let p2 = Point::new(100, 100, 2048);
    let hit = find_point_on_edge(p1, p2, &f).expect("the edge crosses the plane");
    assert_eq!(hit.x, 100);
    assert_eq!(hit.y, 100);
    // the crossing is within one part in 2^10 of the 4096-unit edge
    assert!(hit.z.abs() <= 4, "bisection landed at z = {}", hit.z);
}

#[test]
fn bisection_rejects_uniform_edge() {
    let f = CsgFunc::Constant { value: 5 };
    let p1 = Point::new(0, 0, -2048);
    let p2 = Point::new(0, 0, 2048);
    assert!(find_point_on_edge(p1, p2, &f).is_none());
    let g = CsgFunc::Constant { value: -5 };
    assert!(find_point_on_edge(p1, p2, &g).is_none());
}

#[test]
fn feature_requires_two_crossings() {
    // A uniform field crosses no edge: no feature.
    let xa = OctAxis::new(-512, 512);
    let f = CsgFunc::Constant { value: 1 };
    assert!(new_feature(xa, xa, xa, &f).is_none());
    // A plane through the cell crosses four vertical edges: a feature.
    let big = 0x100_0000;
    let plane = CsgFunc::Cube {
        lower_x: -big,
        lower_y: -big,
        lower_z: -big,
        upper_x: big,
        upper_y: big,
        upper_z: 0,
    };
    let feat = new_feature(xa, xa, xa, &plane).expect("the plane crosses the cell");
    assert!(feat.z.abs() <= 8, "plane feature at z = {}", feat.z);
    assert!(feat.x >= -512 && feat.x <= 512);
}

#[test]
fn feature_stays_in_cube() {
    // Even for a lopsided sphere cap, the clamped feature stays inside.
    let xa = OctAxis::new(0, 1024);
    let ya = OctAxis::new(0, 1024);
    let za = OctAxis::new(0, 1024);
    let f = CsgFunc::Sphere { center_x: 0, center_y: 0, center_z: 0, radius: 900 };
    if let Some(p) = new_feature(xa, ya, za, &f) {
        assert!(p.x >= 0 && p.x <= 1024);
        assert!(p.y >= 0 && p.y <= 1024);
        assert!(p.z >= 0 && p.z <= 1024);
    } else {
        panic!("the sphere shell crosses this cell");
    }
}

#[test]
fn centroid_pull_mode_also_contained() {
    let xa = OctAxis::new(-1024, 1024);
    let f = CsgFunc::Sphere { center_x: 0, center_y: 0, center_z: 0, radius: 800 };
    let plain = new_feature_mode(xa, xa, xa, &f, false);
    let pulled = new_feature_mode(xa, xa, xa, &f, true);
    assert_eq!(plain.is_some(), pulled.is_some());
    if let Some(p) = pulled {
        assert!(p.x >= -1024 && p.x <= 1024);
        assert!(p.y >= -1024 && p.y <= 1024);
        assert!(p.z >= -1024 && p.z <= 1024);
    }
}

#[test]
fn axis_constructor_swaps() {
    let a = OctAxis::new(5, -3);
    assert_eq!(a.lower, -3);
    assert_eq!(a.upper, 5);
    assert_eq!(a.length(), 8);
    assert_eq!(a.center(), 1);
    let (lo, hi) = a.split();
    assert_eq!(lo.lower, -3);
    assert_eq!(lo.upper, 1);
    assert_eq!(hi.lower, 1);
    assert_eq!(hi.upper, 5);
}

#[test]
fn every_stored_feature_is_contained() {
    // The containment invariant, checked concretely over a built tree.
    let scale = 256;
    let f = CsgFunc::Sphere { center_x: 0, center_y: 0, center_z: 0, radius: 10 * scale };
    let mut tree = Octree::new(-16 * scale, 16 * scale);
    tree.render_shape(scale, &f);
    let leaves = tree.iter();
    assert!(leaves.len() > 0);
    for leaf in &leaves {
        if let Some(p) = leaf.feature {
            assert!(leaf.x_axis.lower <= p.x && p.x <= leaf.x_axis.upper);
            assert!(leaf.y_axis.lower <= p.y && p.y <= leaf.y_axis.upper);
            assert!(leaf.z_axis.lower <= p.z && p.z <= leaf.z_axis.upper);
        }
        assert!(leaf.is_leaf());
    }
}

#[test]
fn get_octant_reads_the_arena() {
    let scale = 256;
    let f = CsgFunc::Sphere { center_x: 0, center_y: 0, center_z: 0, radius: 10 * scale };
    let mut tree = Octree::new(-16 * scale, 16 * scale);
    tree.render_shape(2 * scale, &f);
    let root = tree.root_idx.expect("the sphere straddles the world cube");
    let o = tree.get_octant(root);
    assert!(!o.is_leaf());
    assert!(!o.has_feature());
    assert_eq!(o.x_axis.lower, -16 * scale);
    assert_eq!(o.x_axis.upper, 16 * scale);
}
