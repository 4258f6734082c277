//! Narrow-phase behaviour on concrete shapes: sphere–sphere,
//! sphere–box, and the separating-axis box test, checked against
//! hand-computed values in micrometers.

use physcore::collisions::{collide, collision_SAT, Collider, ColliderType};
use physcore::transform::Transform;
use physcore::vec3::IVec3;
use physcore::UNITS_PER_METER;

fn unit_box_at(x: i64, y: i64, z: i64) -> Collider {
    Collider { shape: ColliderType::Box, transform: Transform::new(IVec3::new(x, y, z)) }
}

fn unit_sphere_at(x: i64, y: i64, z: i64) -> Collider {
    Collider { shape: ColliderType::Sphere, transform: Transform::new(IVec3::new(x, y, z)) }
}

#[test]
fn sphere_sphere_overlap_exact() {
    // radius 0.5 m each; centers 0.9 m apart: overlap of 0.1 m
    let a = unit_sphere_at(0, 0, 0);
    let b = unit_sphere_at(0, 900000, 0);
    let info = collide(&a, &b).expect("spheres 0.9 m apart with radii 0.5 m touch");
    // normal is the unit center-to-center direction, fixed point
    assert_eq!(info.normal, IVec3::new(0, -UNITS_PER_METER, 0));
    assert_eq!(info.collision_points.len(), 1);
    // penetration: floor distance minus radii sum = 900000 - 1000000
    assert_eq!(info.collision_points[0].1, -100000);
    // contact point: a's surface point along the center line toward b
    assert_eq!(info.collision_points[0].0, IVec3::new(0, 500000, 0));
}

#[test]
fn sphere_sphere_normal_is_unit_off_axis() {
    // centers 0.5 m apart along a 3-4-5 direction: the normal is the
    // exact unit direction in fixed point
    let a = unit_sphere_at(0, 0, 0);
    let b = unit_sphere_at(300000, 400000, 0);
    let info = collide(&a, &b).expect("overlapping spheres");
    assert_eq!(info.normal, IVec3::new(-600000, -800000, 0));
    assert_eq!(info.normal.mag(), UNITS_PER_METER);
}

#[test]
fn sphere_sphere_fractional_radius_boundary_is_exact() {
    // diameters of 1.000001 m each: radii sum 1.000001 m.  Two such
    // spheres exactly 1.000001 m apart touch; one micrometer farther
    // they do not.  Flooring each radius to whole micrometers would call
    // the touching pair separated.
    let scl = IVec3::new(1000001, 1000001, 1000001);
    let mut ta = Transform::new(IVec3::new(0, 0, 0));
    ta.setscl(scl);
    let mut tb = Transform::new(IVec3::new(1000001, 0, 0));
    tb.setscl(scl);
    let a = Collider { shape: ColliderType::Sphere, transform: ta };
    let b = Collider { shape: ColliderType::Sphere, transform: tb };
    let info = collide(&a, &b).expect("spheres at exactly the radii sum touch");
    assert_eq!(info.collision_points[0].1, 0);
    let mut tc = Transform::new(IVec3::new(1000002, 0, 0));
    tc.setscl(scl);
    let c = Collider { shape: ColliderType::Sphere, transform: tc };
    assert!(collide(&a, &c).is_none());
}

#[test]
fn sphere_sphere_boundary_and_miss() {
    let a = unit_sphere_at(0, 0, 0);
    // exactly touching: distance equals the radii sum
    let b = unit_sphere_at(1000000, 0, 0);
    let info = collide(&a, &b).expect("touching spheres report contact");
    assert_eq!(info.collision_points[0].1, 0);
    // one micrometer apart: no contact
    let c = unit_sphere_at(1000001, 0, 0);
    assert!(collide(&a, &c).is_none());
}

#[test]
fn sphere_sphere_coincident_centers() {
    // centers coincide: distance zero, full overlap, penetration minus
    // the radii sum
    let a = unit_sphere_at(0, 0, 0);
    let b = unit_sphere_at(0, 0, 0);
    let info = collide(&a, &b).expect("coincident spheres overlap");
    assert_eq!(info.normal, IVec3::new(0, 0, 0));
    assert_eq!(info.collision_points[0].1, -1000000);
}

#[test]
fn sub_centimeter_spheres_collide() {
    // 4 mm diameter spheres: no box-path scale floor applies to spheres,
    // and the exact squared comparison works at millimeter sizes too
    let scl = IVec3::new(4000, 4000, 4000);
    let mut ta = Transform::new(IVec3::new(0, 0, 0));
    ta.setscl(scl);
    let mut tb = Transform::new(IVec3::new(3000, 0, 0));
    tb.setscl(scl);
    let a = Collider { shape: ColliderType::Sphere, transform: ta };
    let b = Collider { shape: ColliderType::Sphere, transform: tb };
    let info = collide(&a, &b).expect("4 mm spheres 3 mm apart overlap");
    // penetration: distance 3 mm minus the 4 mm radii sum
    assert_eq!(info.collision_points[0].1, -1000);
    let mut tc = Transform::new(IVec3::new(5000, 0, 0));
    tc.setscl(scl);
    let c = Collider { shape: ColliderType::Sphere, transform: tc };
    assert!(collide(&a, &c).is_none());
}

#[test]
fn sphere_box_closest_point_test() {
    // unit box at origin, sphere radius 0.5 centered 0.9 m up: the
    // closest point is the top face at y = 0.5 m, distance 0.4 m < 0.5 m
    let cube = unit_box_at(0, 0, 0);
    let sphere = unit_sphere_at(0, 900000, 0);
    let info = collide(&sphere, &cube).expect("sphere rests into the box top");
    // face normal +y, unit length in fixed point
    assert_eq!(info.normal, IVec3::new(0, UNITS_PER_METER, 0));
    assert_eq!(info.collision_points.len(), 1);
    // contact at the clamped point on the face
    assert_eq!(info.collision_points[0].0, IVec3::new(0, 500000, 0));
    // penetration: distance 0.4 m minus radius 0.5 m
    assert_eq!(info.collision_points[0].1, -100000);
}

#[test]
fn sphere_box_miss() {
    let cube = unit_box_at(0, 0, 0);
    let sphere = unit_sphere_at(0, 1100000, 0);
    // closest point distance 0.6 m > radius 0.5 m
    assert!(collide(&sphere, &cube).is_none());
}

#[test]
fn sphere_box_symmetric_dispatch() {
    // box-then-sphere takes the same path with the box as the frame
    let cube = unit_box_at(0, 0, 0);
    let sphere = unit_sphere_at(0, 900000, 0);
    let a = collide(&sphere, &cube).expect("hit");
    let b = collide(&cube, &sphere).expect("hit");
    assert_eq!(a.normal, b.normal);
    assert_eq!(a.collision_points[0], b.collision_points[0]);
}

#[test]
fn box_box_overlap_matches_intervals() {
    // unit boxes: centers within 1 m on every axis collide, farther do not
    let a = unit_box_at(0, 0, 0);
    let hit = collision_SAT(&a, &unit_box_at(0, 900000, 0));
    assert!(hit.is_some());
    let touch = collision_SAT(&a, &unit_box_at(1000000, 0, 0));
    assert!(touch.is_some());
    let miss = collision_SAT(&a, &unit_box_at(1000001, 0, 0));
    assert!(miss.is_none());
    let diag_miss = collision_SAT(&a, &unit_box_at(1000001, 1000001, 1000001));
    assert!(diag_miss.is_none());
    let diag_hit = collision_SAT(&a, &unit_box_at(999999, 999999, 999999));
    assert!(diag_hit.is_some());
}

#[test]
fn box_box_penetration_direction() {
    // B 0.9 m above A: every penetrating corner reports exactly the
    // 0.1 m face depth (the grazed side planes, at distance zero, do not
    // nominate), and the normal is the unit +Y face direction
    let a = unit_box_at(0, 0, 0);
    let b = unit_box_at(0, 900000, 0);
    let info = collision_SAT(&a, &b).expect("stacked boxes overlap");
    assert!(!info.collision_points.is_empty());
    for (_, pen) in info.collision_points.iter() {
        assert_eq!(*pen, 100000);
    }
    // the preferred scan is A's corners against B's planes, so the
    // normal is the unit direction of B's penetrated bottom face
    assert_eq!(info.normal, IVec3::new(0, -UNITS_PER_METER, 0));
}

#[test]
fn box_box_agrees_with_interval_oracle_on_grid() {
    // cross-check: for unit axis-aligned boxes the separating-axis test
    // must agree with a direct interval-overlap test on all three axes
    let a = unit_box_at(0, 0, 0);
    let step = 333333i64;
    for ix in -4i64..5 {
        for iy in -4i64..5 {
            for iz in -4i64..5 {
                let (x, y, z) = (ix * step, iy * step, iz * step);
                let b = unit_box_at(x, y, z);
                let sat = collision_SAT(&a, &b).is_some();
                // closed interval overlap with half-extents 0.5 m each
                let oracle = x.abs() <= 1000000 && y.abs() <= 1000000 && z.abs() <= 1000000;
                assert_eq!(
                    sat, oracle,
                    "separating-axis disagreed with intervals at ({}, {}, {})",
                    x, y, z
                );
            }
        }
    }
}

#[test]
fn vector_magnitude_is_floor_length() {
    let v = IVec3::new(3000000, 4000000, 0);
    assert_eq!(v.mag(), 5000000);
    let w = IVec3::new(1000000, 1000000, 0);
    // sqrt(2) meters, floored to whole micrometers
    assert_eq!(w.mag(), 1414213);
}

#[test]
fn box_box_distant_is_none() {
    // beyond the numeric range gate the test reports no collision
    let a = unit_box_at(0, 0, 0);
    let b = unit_box_at(300000000000, 0, 0);
    assert!(collision_SAT(&a, &b).is_none());
}
