//! End-to-end scenarios: building octrees over concrete fields and
//! extracting their meshes. Coordinates are fixed-point; each test picks its
//! own scale (units per world unit).

use conjure::octree::{OctAxis, Octant, Octree};
use conjure::shape::CsgFunc;
use conjure::types::{Face, Point};

fn sphere(cx: i64, cy: i64, cz: i64, r: i64) -> CsgFunc {
    CsgFunc::Sphere { center_x: cx, center_y: cy, center_z: cz, radius: r }
}

fn cube(l: i64, u: i64) -> CsgFunc {
    CsgFunc::Cube { lower_x: l, lower_y: l, lower_z: l, upper_x: u, upper_y: u, upper_z: u }
}

fn face_points(f: &Face) -> Vec<Point> {
    match *f {
        Face::Plane { ul, ur, ll, lr } => vec![ul, ur, ll, lr],
        Face::Triangle { ul, lr, ll } => vec![ul, lr, ll],
    }
}

#[test]
fn empty_inside() {
    // A field that is positive everywhere: nothing to mesh.
    let scale = 4096;
    let f = CsgFunc::Constant { value: 1 };
    let mut tree = Octree::new(-128 * scale, 128 * scale);
    let handle = tree.render_shape(scale, &f);
    assert_eq!(handle, 0);
    assert!(tree.root_idx.is_none());
    assert_eq!(tree.extract_faces().len(), 0);
    assert_eq!(tree.iter().len(), 0);
}

#[test]
fn empty_outside() {
    // A field that is negative everywhere merges to a homogeneous region.
    let scale = 4096;
    let f = CsgFunc::Constant { value: -1 };
    let mut tree = Octree::new(-128 * scale, 128 * scale);
    tree.render_shape(scale, &f);
    assert!(tree.root_idx.is_none());
    assert_eq!(tree.extract_faces().len(), 0);
}

#[test]
fn axis_aligned_plane() {
    // A horizontal plane through the cube: features hug it. The plane sits
    // off the cell lattice so that cells genuinely straddle it.
    let scale = 4096;
    let big = 0x1000_0000;
    let plane_z = -3000i64;
    let f = CsgFunc::Cube {
        lower_x: -big,
        lower_y: -big,
        lower_z: -big,
        upper_x: big,
        upper_y: big,
        upper_z: plane_z,
    };
    let mut tree = Octree::new(-8 * scale, 8 * scale);
    tree.render_shape(scale, &f);
    let feats = tree.features();
    assert!(feats.len() > 0);
    for p in &feats {
        assert!((p.z - plane_z).abs() <= 64, "feature z {} too far from the plane", p.z);
    }
    // Cells of the finest size dominate: most features hug the plane
    // within one part in 2^10 of their one-world-unit edge.
    let close = feats.iter().filter(|p| (p.z - plane_z).abs() <= 8).count();
    assert!(close * 2 >= feats.len(), "only {} of {} features near the plane", close, feats.len());
    let faces = tree.extract_faces();
    assert!(faces.len() >= 100);
    for face in &faces {
        for p in face_points(face) {
            assert!((p.z - plane_z).abs() <= 64);
        }
    }
}

#[test]
fn sphere_features_on_surface() {
    // Every feature sits near the sphere of radius 25.
    let scale = 256;
    let r = 25 * scale;
    let f = sphere(0, 0, 0, r);
    let mut tree = Octree::new(-32 * scale, 32 * scale);
    tree.render_shape(scale, &f);
    let feats = tree.features();
    assert!(feats.len() > 100);
    for p in &feats {
        let norm = ((p.x as f64).powi(2) + (p.y as f64).powi(2) + (p.z as f64).powi(2)).sqrt();
        let err = (norm - r as f64).abs();
        assert!(err < scale as f64, "feature at distance {} from the surface", err);
    }
    let faces = tree.extract_faces();
    assert!(faces.len() > 100);
}

#[test]
fn cube_faces_and_triangles() {
    // Features concentrate on the six planes of the cube at +-10; corners
    // produce triangles.
    let scale = 64;
    // just off the cell lattice, so cells straddle the shell
    let half = 10 * scale - 13;
    let f = cube(-half, half);
    let mut tree = Octree::new(-16 * scale, 16 * scale);
    tree.render_shape(scale / 2, &f);
    let feats = tree.features();
    assert!(feats.len() > 100);
    // Flat-face cells put the feature on the shell; cells straddling a
    // cube edge or corner average crossings from two or three faces, which
    // pulls the centroid inward by up to a quarter of the (possibly
    // merged) cell's edge.
    for p in &feats {
        let linf = p.x.abs().max(p.y.abs()).max(p.z.abs());
        assert!(
            half - 5 * scale <= linf && linf <= half + 2 * scale,
            "feature Chebyshev radius {} is off the cube shell",
            linf
        );
    }
    let on_shell = feats
        .iter()
        .filter(|p| {
            let linf = p.x.abs().max(p.y.abs()).max(p.z.abs());
            (linf - half).abs() <= scale
        })
        .count();
    assert!(on_shell * 2 >= feats.len());
    let faces = tree.extract_faces();
    assert!(faces.len() > 100);
    assert!(faces.iter().any(|f| matches!(f, Face::Plane { .. })));
}

#[test]
fn mixed_depth_tree_emits_triangles() {
    // Around an edge where one coarse leaf stands in for two slots,
    // deduplication leaves three distinct featured cells: a triangle.
    // Build such a tree by hand: one subdivided child beside seven coarse
    // leaf siblings, every leaf carrying a feature at its centre.
    fn centre(xa: OctAxis, ya: OctAxis, za: OctAxis) -> Point {
        Point::new(xa.center(), ya.center(), za.center())
    }

    fn leaf(xa: OctAxis, ya: OctAxis, za: OctAxis) -> Octant {
        Octant { x_axis: xa, y_axis: ya, z_axis: za, children: None, feature: Some(centre(xa, ya, za)) }
    }

    // canonical child sub-axes of (xa, ya, za) for slot j
    fn sub(xa: OctAxis, ya: OctAxis, za: OctAxis, j: usize) -> (OctAxis, OctAxis, OctAxis) {
        let (lx, rx) = xa.split();
        let (by, ty) = ya.split();
        let (fz, bz) = za.split();
        match j {
            0 => (lx, ty, fz),
            1 => (lx, ty, bz),
            2 => (lx, by, fz),
            3 => (lx, by, bz),
            4 => (rx, ty, fz),
            5 => (rx, ty, bz),
            6 => (rx, by, fz),
            _ => (rx, by, bz),
        }
    }

    let world = OctAxis::new(-1024, 1024);
    let mut octants: Vec<Octant> = Vec::new();
    // the eight grandchildren inside child slot 0
    let (c0x, c0y, c0z) = sub(world, world, world, 0);
    for j in 0..8 {
        let (xa, ya, za) = sub(c0x, c0y, c0z, j);
        octants.push(leaf(xa, ya, za));
    }
    // the subdivided child
    octants.push(Octant {
        x_axis: c0x,
        y_axis: c0y,
        z_axis: c0z,
        children: Some([0, 1, 2, 3, 4, 5, 6, 7]),
        feature: None,
    });
    // seven coarse siblings
    for j in 1..8 {
        let (xa, ya, za) = sub(world, world, world, j);
        octants.push(leaf(xa, ya, za));
    }
    // the root
    octants.push(Octant {
        x_axis: world,
        y_axis: world,
        z_axis: world,
        children: Some([8, 9, 10, 11, 12, 13, 14, 15]),
        feature: None,
    });
    let tree = Octree { octants, range: world, root_idx: Some(16) };
    let faces = tree.extract_faces();
    assert!(faces.len() > 0);
    let triangles = faces.iter().filter(|f| matches!(f, Face::Triangle { .. })).count();
    let quads = faces.iter().filter(|f| matches!(f, Face::Plane { .. })).count();
    assert!(triangles > 0, "coarse-fine edges should emit triangles");
    assert!(quads > 0);
}

#[test]
fn union_of_two_spheres() {
    // min(f1, f2): no feature lies strictly inside either sphere by more
    // than the bisection tolerance.
    let scale = 64;
    let r = 5 * scale;
    let f = CsgFunc::Union(
        Box::new(sphere(0, 0, 0, r)),
        Box::new(sphere(7 * scale, 0, 0, r)),
    );
    let mut tree = Octree::new(-16 * scale, 16 * scale);
    tree.render_shape(scale / 2, &f);
    let feats = tree.features();
    assert!(feats.len() > 50);
    let dist = |p: &Point, cx: i64| -> f64 {
        (((p.x - cx) as f64).powi(2) + (p.y as f64).powi(2) + (p.z as f64).powi(2)).sqrt()
    };
    for p in &feats {
        let d0 = dist(p, 0);
        let d1 = dist(p, 7 * scale);
        let inside = d0.min(d1) - r as f64;
        assert!(inside > -(scale as f64), "feature {} world units deep inside", -inside);
    }
}

#[test]
fn determinism_two_runs() {
    // Two identical runs produce byte-identical face lists.
    let scale = 256;
    let f1 = sphere(0, 0, 0, 10 * scale);
    let f2 = sphere(0, 0, 0, 10 * scale);
    let mut t1 = Octree::new(-16 * scale, 16 * scale);
    let mut t2 = Octree::new(-16 * scale, 16 * scale);
    t1.render_shape(scale, &f1);
    t2.render_shape(scale, &f2);
    assert_eq!(t1.extract_faces(), t2.extract_faces());
    assert_eq!(t1.features(), t2.features());
}

#[test]
fn extraction_idempotent() {
    // Extracting twice from one tree yields identical output.
    let scale = 256;
    let f = sphere(0, 0, 0, 10 * scale);
    let mut tree = Octree::new(-16 * scale, 16 * scale);
    tree.render_shape(scale, &f);
    let a = tree.extract_faces();
    let b = tree.extract_faces();
    assert_eq!(a, b);
}

#[test]
fn finer_resolution_never_coarser() {
    // Halving the target edge length cannot reduce the leaf count.
    let scale = 256;
    let f = sphere(0, 0, 0, 10 * scale);
    let mut coarse = Octree::new(-16 * scale, 16 * scale);
    coarse.render_shape(2 * scale, &f);
    let mut fine = Octree::new(-16 * scale, 16 * scale);
    fine.render_shape(scale, &f);
    assert!(fine.iter().len() >= coarse.iter().len());
}

#[test]
fn sphere_symmetry() {
    // The feature set of an origin sphere is invariant under reflections
    // and coordinate exchanges, exactly, in fixed-point arithmetic.
    let scale = 256;
    let f = sphere(0, 0, 0, 5 * scale);
    let mut tree = Octree::new(-8 * scale, 8 * scale);
    tree.render_shape(scale, &f);
    let feats: Vec<(i64, i64, i64)> = tree.features().iter().map(|p| (p.x, p.y, p.z)).collect();
    assert!(feats.len() > 20);
    let normalize = |mut v: Vec<(i64, i64, i64)>| {
        v.sort();
        v
    };
    let base = normalize(feats.clone());
    let mirrored = normalize(feats.iter().map(|&(x, y, z)| (-x, y, z)).collect());
    assert_eq!(base, mirrored, "reflection in x should preserve the feature set");
    let swapped = normalize(feats.iter().map(|&(x, y, z)| (y, x, z)).collect());
    assert_eq!(base, swapped, "exchanging x and y should preserve the feature set");
    let swapped_z = normalize(feats.iter().map(|&(x, y, z)| (x, z, y)).collect());
    assert_eq!(base, swapped_z, "exchanging y and z should preserve the feature set");
}

#[test]
fn scale_invariance_cube() {
    // Doubling bounds, resolution and the cube's extent doubles the mesh:
    // the same number of faces, with features scaled accordingly.
    let scale = 64;
    let f1 = cube(-10 * scale, 10 * scale);
    let f2 = cube(-20 * scale, 20 * scale);
    let mut t1 = Octree::new(-16 * scale, 16 * scale);
    t1.render_shape(scale / 2, &f1);
    let mut t2 = Octree::new(-32 * scale, 32 * scale);
    t2.render_shape(scale, &f2);
    let faces1 = t1.extract_faces();
    let faces2 = t2.extract_faces();
    assert_eq!(faces1.len(), faces2.len());
    let mut p1: Vec<(i64, i64, i64)> = t1.features().iter().map(|p| (p.x, p.y, p.z)).collect();
    let mut p2: Vec<(i64, i64, i64)> = t2.features().iter().map(|p| (p.x, p.y, p.z)).collect();
    assert_eq!(p1.len(), p2.len());
    p1.sort();
    p2.sort();
    for (a, b) in p1.iter().zip(p2.iter()) {
        assert!((2 * a.0 - b.0).abs() <= 4);
        assert!((2 * a.1 - b.1).abs() <= 4);
        assert!((2 * a.2 - b.2).abs() <= 4);
    }
}

#[test]
fn render_appends_to_arena() {
    // Handles are stable: rendering never invalidates earlier octants.
    let scale = 256;
    let f = sphere(0, 0, 0, 10 * scale);
    let mut tree = Octree::new(-16 * scale, 16 * scale);
    tree.render_shape(2 * scale, &f);
    let before: Vec<bool> = tree.iter().iter().map(|o| o.has_feature()).collect();
    let n = tree.octants.len();
    tree.render_shape(scale, &f);
    assert!(tree.octants.len() >= n);
    let after: Vec<bool> = tree.iter().iter().map(|o| o.has_feature()).collect();
    assert!(after.len() >= before.len());
}
