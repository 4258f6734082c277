//! Foundations: transforms, bounding boxes, the convex building blocks,
//! and the shared draw-command record.

use physcore::aabb::AABB;
use physcore::convex::{
    add_if_unique_edge, epa_penetration, find_furthest_point, get_face_normals, gjk_intersects,
    next_simplex, support, GjkOutcome,
};
use physcore::drawcmd::IndirectDrawCommand;
use physcore::transform::{rotation_y, Transform};
use physcore::vec3::IVec3;
use physcore::UNITS_PER_METER;

#[test]
fn transform_starts_at_unit_scale() {
    let t = Transform::new(IVec3::new(5, 6, 7));
    assert_eq!(t.pos(), IVec3::new(5, 6, 7));
    assert_eq!(t.scl(), IVec3::new(UNITS_PER_METER, UNITS_PER_METER, UNITS_PER_METER));
    // unit cube volume, fixed point
    assert_eq!(t.volume(), UNITS_PER_METER);
}

#[test]
fn transform_scale_updates_cache_and_volume() {
    let mut t = Transform::empty();
    t.setscl(IVec3::new(2 * UNITS_PER_METER, UNITS_PER_METER, 3 * UNITS_PER_METER));
    assert_eq!(t.volume(), 6 * UNITS_PER_METER);
    // rotation-scale cache carries the scale on the diagonal
    assert_eq!(t.rotscale.rx, IVec3::new(2 * UNITS_PER_METER, 0, 0));
    assert_eq!(t.rotscale.rz, IVec3::new(0, 0, 3 * UNITS_PER_METER));
}

#[test]
fn quarter_turn_rotation_moves_the_look_vector() {
    // a quarter turn about y: sine one, cosine zero
    let mut t = Transform::empty();
    t.rotate_mat(&rotation_y(UNITS_PER_METER, 0));
    // the look row swings onto the x axis (up to fixed-point sign layout)
    let look = t.get_look_vector();
    assert_eq!(look, IVec3::new(-UNITS_PER_METER, 0, 0));
    let up = t.get_up_vector();
    assert_eq!(up, IVec3::new(0, UNITS_PER_METER, 0));
}

#[test]
fn aabb_grows_and_tests_overlap() {
    let mut a = AABB::from_extents(IVec3::new(0, 0, 0), IVec3::new(100, 100, 100));
    let b = AABB::from_extents(IVec3::new(500, 0, 0), IVec3::new(100, 100, 100));
    assert!(!a.touches(&b));
    a.fit(&b);
    assert!(a.touches(&b));
    assert!(a.contains(&AABB::from_extents(IVec3::new(200, 0, 0), IVec3::new(50, 50, 50))));
}

#[test]
fn furthest_point_picks_extreme_vertex() {
    let verts = vec![
        IVec3::new(-500000, -500000, 0),
        IVec3::new(500000, -500000, 0),
        IVec3::new(0, 700000, 0),
    ];
    let best = find_furthest_point(&verts, IVec3::new(0, UNITS_PER_METER, 0));
    assert_eq!(best, IVec3::new(0, 700000, 0));
    let best_x = find_furthest_point(&verts, IVec3::new(UNITS_PER_METER, 0, 0));
    assert_eq!(best_x, IVec3::new(500000, -500000, 0));
}

#[test]
fn support_subtracts_opposite_extremes() {
    let verts1 = vec![IVec3::new(-500000, 0, 0), IVec3::new(500000, 0, 0)];
    let verts2 = vec![IVec3::new(-200000, 0, 0), IVec3::new(200000, 0, 0)];
    let s = support(&verts1, &verts2, IVec3::new(UNITS_PER_METER, 0, 0));
    // furthest of the first along +x minus furthest of the second along -x
    assert_eq!(s, IVec3::new(700000, 0, 0));
}

#[test]
fn simplex_line_case_keeps_segment_when_origin_is_beside_it() {
    // segment from (1, 1) to (-1, 1): the origin projects inside it
    let mut simplex = vec![IVec3::new(1000000, 1000000, 0), IVec3::new(-1000000, 1000000, 0)];
    let mut dir = IVec3::new(0, 0, 0);
    let hit = next_simplex(&mut simplex, &mut dir);
    assert!(!hit);
    assert_eq!(simplex.len(), 2);
    // the new direction points toward the origin (negative y)
    assert!(dir.y < 0);
}

#[test]
fn simplex_tetrahedron_containing_origin_reports_hit() {
    let mut simplex = vec![
        IVec3::new(0, 0, 1000000),
        IVec3::new(-1000000, -500000, -1000000),
        IVec3::new(1000000, -500000, -1000000),
        IVec3::new(0, 1000000, -1000000),
    ];
    let mut dir = IVec3::new(0, 0, 0);
    let hit = next_simplex(&mut simplex, &mut dir);
    assert!(hit, "a tetrahedron around the origin confirms overlap");
    assert_eq!(simplex.len(), 4);
}

#[test]
fn gjk_finds_overlap_of_crossing_cubes() {
    // two half-meter cubes, centers 0.3 m apart on x: overlapping
    let mut verts1: Vec<IVec3> = Vec::new();
    let mut verts2: Vec<IVec3> = Vec::new();
    for xs in [-1i64, 1] {
        for ys in [-1i64, 1] {
            for zs in [-1i64, 1] {
                verts1.push(IVec3::new(xs * 250000, ys * 250000, zs * 250000));
                verts2.push(IVec3::new(300000 + xs * 250000, ys * 250000, zs * 250000));
            }
        }
    }
    assert_eq!(gjk_intersects(&verts1, &verts2), GjkOutcome::Intersecting);
}

#[test]
fn gjk_rejects_separated_cubes() {
    let mut verts1: Vec<IVec3> = Vec::new();
    let mut verts2: Vec<IVec3> = Vec::new();
    for xs in [-1i64, 1] {
        for ys in [-1i64, 1] {
            for zs in [-1i64, 1] {
                verts1.push(IVec3::new(xs * 250000, ys * 250000, zs * 250000));
                verts2.push(IVec3::new(2000000 + xs * 250000, ys * 250000, zs * 250000));
            }
        }
    }
    assert_eq!(gjk_intersects(&verts1, &verts2), GjkOutcome::Separated);
}

#[test]
fn face_normals_find_closest_face() {
    // a tetrahedron; face 0 lies in the z = -0.2 plane nearest the origin
    let poly = vec![
        IVec3::new(1000000, 0, -200000),
        IVec3::new(-1000000, 700000, -200000),
        IVec3::new(-1000000, -700000, -200000),
        IVec3::new(0, 0, 3000000),
    ];
    let faces: Vec<usize> = vec![0, 1, 2, 0, 3, 1, 1, 3, 2, 2, 3, 0];
    let (normals, min_face) = get_face_normals(&poly, &faces);
    assert_eq!(normals.len(), 4);
    assert_eq!(min_face, 0);
    // face 0 carries the exact unit normal of its plane and its true
    // distance from the origin in micrometers
    assert_eq!(normals[0].0, IVec3::new(0, 0, -UNITS_PER_METER));
    assert_eq!(normals[0].1, 200000);
    // every normal has (floor) unit length and a non-negative distance
    for (n, d) in normals.iter() {
        assert!(*d >= 0);
        let m = n.mag();
        assert!(
            (UNITS_PER_METER - 3..=UNITS_PER_METER + 1).contains(&m),
            "normal is not unit length: {}",
            m
        );
    }
}

#[test]
fn epa_reports_nearest_face_penetration() {
    // half-meter cubes with centers 0.3 m apart on x overlap by 0.2 m;
    // the Minkowski difference is a box whose face nearest the origin is
    // the +x face at 0.2 m, so the expansion settles on the unit +x
    // normal with 200000 um of depth
    let mut verts1: Vec<IVec3> = Vec::new();
    let mut verts2: Vec<IVec3> = Vec::new();
    for xs in [-1i64, 1] {
        for ys in [-1i64, 1] {
            for zs in [-1i64, 1] {
                verts1.push(IVec3::new(xs * 250000, ys * 250000, zs * 250000));
                verts2.push(IVec3::new(300000 + xs * 250000, ys * 250000, zs * 250000));
            }
        }
    }
    // a tetrahedron of Minkowski support points enclosing the origin
    let simplex = vec![
        IVec3::new(200000, 500000, 500000),
        IVec3::new(200000, -500000, -500000),
        IVec3::new(-800000, 500000, -500000),
        IVec3::new(-800000, -500000, 500000),
    ];
    let (n, d) = epa_penetration(&verts1, &verts2, &simplex)
        .expect("overlapping cubes have a penetration");
    assert_eq!(n, IVec3::new(UNITS_PER_METER, 0, 0));
    assert_eq!(d, 200000);
}

#[test]
fn epa_rejects_degenerate_polytope() {
    // four coincident points make every face cross product zero: no
    // normal exists and the driver reports no answer
    let verts1 = vec![IVec3::new(0, 0, 0)];
    let verts2 = vec![IVec3::new(0, 0, 0)];
    let p = IVec3::new(100000, 0, 0);
    let simplex = vec![p, p, p, p];
    assert!(epa_penetration(&verts1, &verts2, &simplex).is_none());
}

#[test]
fn unique_edges_cancel_reversed_pairs() {
    let faces: Vec<usize> = vec![10, 11, 12, 12, 11, 13];
    let mut edges: Vec<(usize, usize)> = Vec::new();
    add_if_unique_edge(&mut edges, &faces, 0, 1);
    assert_eq!(edges, vec![(10, 11)]);
    // the reverse of (11, 12) arrives as (12, 11) from the second face
    add_if_unique_edge(&mut edges, &faces, 1, 2);
    add_if_unique_edge(&mut edges, &faces, 3, 4);
    assert_eq!(edges, vec![(10, 11)]);
}

#[test]
fn draw_command_starts_empty_and_clones() {
    let c = IndirectDrawCommand::new();
    assert_eq!(c.indice_count, 0);
    assert_eq!(c.instance_count, 1);
    let d = c.clone();
    assert_eq!(c, d);
}
