//! Rigid-body dynamics: mass and inertia formulas, impulses, and the
//! end-to-end physics tick on small scenes.

use physcore::collisions::ColliderType;
use physcore::inertia::{mass, moment_of_inertia};
use physcore::physics_update::{do_physics, GRAVITY, TICKS_PER_SECOND};
use physcore::rigidbody::Body;
use physcore::sas::SpatialAccelerationStructure;
use physcore::transform::Transform;
use physcore::vec3::IVec3;
use physcore::UNITS_PER_METER;

fn unit_body(shape: ColliderType, x: i64, y: i64, z: i64) -> Body {
    Body::new(Transform::new(IVec3::new(x, y, z)), shape)
}

#[test]
fn box_mass_is_density_times_volume() {
    // unit cube, density 1.0: mass 1.0 in fixed point
    let scl = IVec3::new(UNITS_PER_METER, UNITS_PER_METER, UNITS_PER_METER);
    assert_eq!(mass(ColliderType::Box, &scl, UNITS_PER_METER), UNITS_PER_METER);
    // a 2 x 1 x 1 box at density 2.0: mass 4.0
    let scl2 = IVec3::new(2 * UNITS_PER_METER, UNITS_PER_METER, UNITS_PER_METER);
    assert_eq!(mass(ColliderType::Box, &scl2, 2 * UNITS_PER_METER), 4 * UNITS_PER_METER);
}

#[test]
fn sphere_mass_carries_four_thirds_pi() {
    // unit-diameter sphere, density 1.0: (4/3)pi x 1 m^3 in the
    // truncating fixed-point products: 1333333 * 3141500 / 1e6 = 4188665,
    // then twice by 1.0
    let scl = IVec3::new(UNITS_PER_METER, UNITS_PER_METER, UNITS_PER_METER);
    assert_eq!(mass(ColliderType::Sphere, &scl, UNITS_PER_METER), 4188665);
}

#[test]
fn box_inertia_formula() {
    // unit cube of mass 1.0: each axis (1/12) * (1 + 1) = 0.166666
    let scl = IVec3::new(UNITS_PER_METER, UNITS_PER_METER, UNITS_PER_METER);
    let tensor = moment_of_inertia(ColliderType::Box, &scl, UNITS_PER_METER);
    assert_eq!(tensor, IVec3::new(166666, 166666, 166666));
}

#[test]
fn sphere_inertia_formula() {
    // sphere of diameter 1 m and mass 1.0: (2/5) * 1 * 0.25 = 0.1
    let scl = IVec3::new(UNITS_PER_METER, UNITS_PER_METER, UNITS_PER_METER);
    let tensor = moment_of_inertia(ColliderType::Sphere, &scl, UNITS_PER_METER);
    assert_eq!(tensor, IVec3::new(100000, 100000, 100000));
}

#[test]
fn impulse_changes_velocity_by_force_over_mass() {
    let mut b = unit_body(ColliderType::Box, 0, 0, 0);
    // unit cube, density 1.0: mass 1.0; a 0.5-unit force gives 0.5 m/tick
    b.impulse(&IVec3::new(500000, 0, 0));
    assert_eq!(b.velocity, IVec3::new(500000, 0, 0));
}

#[test]
fn falling_body_gains_gravity_each_tick() {
    // an isolated sphere: after N ticks its velocity is exactly N times
    // the per-tick gravity, and nothing else changes it
    let sas = SpatialAccelerationStructure::new();
    let mut bodies = vec![unit_body(ColliderType::Sphere, 0, 0, 0)];
    let n: i64 = 100;
    let mut expected_pos_y: i64 = 0;
    let mut expected_vel_y: i64 = 0;
    for _ in 0..n {
        let _ = do_physics(&sas, &mut bodies);
        expected_vel_y += GRAVITY;
        expected_pos_y += expected_vel_y / TICKS_PER_SECOND;
    }
    assert_eq!(bodies[0].velocity, IVec3::new(0, n * GRAVITY, 0));
    assert_eq!(bodies[0].transform.pos, IVec3::new(0, expected_pos_y, 0));
    assert_eq!(bodies[0].angular_velocity, IVec3::new(0, 0, 0));
}

#[test]
fn body_in_tree_but_alone_still_just_falls() {
    // broad phase returns only the body itself: the tick is pure
    // gravity and integration
    let mut sas = SpatialAccelerationStructure::new();
    let b = unit_body(ColliderType::Sphere, 0, 0, 0);
    sas.insert(0, &b.transform);
    let mut bodies = vec![b];
    let _ = do_physics(&sas, &mut bodies);
    assert_eq!(bodies[0].velocity, IVec3::new(0, GRAVITY, 0));
}

#[test]
fn stacked_boxes_exact_scene_pushes_apart() {
    // two unit boxes, B exactly above A penetrating 0.1 m, both density
    // 1, restitution 0: one tick pushes B up along +Y by exactly the
    // penetration, cancels its downward speed, and leaves A unmoved —
    // the corners grazing A's side planes (distance exactly zero) do not
    // mask the 0.1 m face depth
    let mut b = unit_body(ColliderType::Box, 0, 900000, 0);
    let mut a = unit_body(ColliderType::Box, 0, 0, 0);
    a.elasticity = 0;
    b.elasticity = 0;
    let mut sas = SpatialAccelerationStructure::new();
    sas.insert(0, &b.transform);
    sas.insert(1, &a.transform);
    let mut bodies = vec![b, a];
    let _ = do_physics(&sas, &mut bodies);
    assert_eq!(bodies[0].transform.pos, IVec3::new(0, 1000000, 0));
    assert_eq!(bodies[0].velocity, IVec3::new(0, 0, 0));
    // A, ticking second against the now exactly-touching B, is unmoved:
    // a touching contact has depth zero
    assert_eq!(bodies[1].transform.pos, IVec3::new(0, 0, 0));
}

#[test]
fn stacked_boxes_push_apart_inelastically() {
    // the off-axis variant of the stacked scene: the upper box is also
    // nudged 0.1 m sideways, so only one corner penetrates and no corner
    // rests exactly on a side plane; the outcome is the same push-apart
    // the penetrating box resolves on its own turn; it goes first so the
    // positional correction (which is applied asymmetrically, to the
    // body being ticked) lands on it
    let mut b = unit_body(ColliderType::Box, 100000, 900000, 100000);
    let mut a = unit_body(ColliderType::Box, 0, 0, 0);
    a.elasticity = 0;
    b.elasticity = 0;
    let mut sas = SpatialAccelerationStructure::new();
    sas.insert(0, &b.transform);
    sas.insert(1, &a.transform);
    let mut bodies = vec![b, a];
    let _ = do_physics(&sas, &mut bodies);
    let up = bodies[0].transform.pos.y - 900000;
    assert!(up > 50000, "upper box only moved {} micrometers up", up);
    assert!(up < 200000, "upper box overshot: {} micrometers", up);
    assert!(
        bodies[0].velocity.y >= GRAVITY,
        "upper box gained downward speed: {}",
        bodies[0].velocity.y
    );
}

#[test]
fn overlapping_spheres_separate() {
    // sphere pair of radius 0.5 m with centers 0.9 m apart: a contact
    // with 0.1 m of overlap; the second sphere reacts away from the first
    let a = unit_body(ColliderType::Sphere, 0, 0, 0);
    let b = unit_body(ColliderType::Sphere, 0, 900000, 0);
    let mut sas = SpatialAccelerationStructure::new();
    sas.insert(0, &a.transform);
    sas.insert(1, &b.transform);
    let mut bodies = vec![a, b];
    let _ = do_physics(&sas, &mut bodies);
    // the second body's tick sees the first below it and reflects its
    // point velocity along the (downward) center difference
    assert!(
        bodies[1].velocity.y > GRAVITY,
        "upper sphere kept falling unchecked: {}",
        bodies[1].velocity.y
    );
}

#[test]
fn rotation_steps_report_damped_angular_velocity() {
    let sas = SpatialAccelerationStructure::new();
    let mut b = unit_body(ColliderType::Box, 0, 0, 0);
    b.angular_velocity = IVec3::new(600000, 0, 0);
    let mut bodies = vec![b];
    let steps = do_physics(&sas, &mut bodies);
    // damping: 0.6 * 0.99 = 0.594; step: 0.594 / 60 = 0.0099
    assert_eq!(bodies[0].angular_velocity, IVec3::new(594000, 0, 0));
    assert_eq!(steps[0], IVec3::new(9900, 0, 0));
}
