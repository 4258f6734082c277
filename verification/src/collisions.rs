//! Narrow-phase collision detection.
//!
//! Shape-pair tests produce a collision manifold: a normal and a list of
//! contact points, each a world position in micrometers with a signed
//! penetration depth in micrometers.  Geometry runs in fixed-point
//! integers throughout, so every branch of every test is stated exactly
//! in the contracts.
//!
//! Conventions carried by the manifold:
//! - every normal is a unit-length fixed-point direction: sphere–sphere
//!   stores the unit center-to-center direction (zero when the centers
//!   coincide — the one degenerate case, which the solver ignores),
//!   sphere–box a unit box-face direction, box–box a unit separating
//!   plane normal;
//! - sphere tests store a penetration that is *negative* on overlap
//!   (`distance − radii`); the separating-axis test stores non-negative
//!   penetration depths, each the distance through the face its vertex
//!   came in by (zero for a vertex resting exactly on the surface).

use vstd::prelude::*;
use crate::fx::{abs_i, div_t, fx_mul_s, div_trunc, UNITS_PER_METER};
use crate::vec3::{
    IVec3, V3, v_add, v_sub, v_neg, v_scale_fx, v_mag2, v_bounded, v_dot_fx, isqrt_u128,
};
use crate::mat3::{Mat3, M3, m_mul_vec_fx, m_transpose, m_bounded};
use crate::transform::{Transform, m_inv_rot_scale, POS_CAP, SCL_CAP, ROT_CAP};

verus! {

/// Shape tag of a collider.
#[derive(Clone, Copy, PartialEq, Eq, Structural, Debug)]
pub enum ColliderType {
    Sphere,
    Convex,
    Box,
}

/// A collider: a shape tag plus the owning body's transform.  Scale
/// doubles as the box edge lengths / the sphere diameter, in fixed-point
/// meters.
#[derive(Clone, Copy, PartialEq, Eq, Structural, Debug)]
pub struct Collider {
    pub shape: ColliderType,
    pub transform: Transform,
}

/// Smallest scale component a box collider may have: one centimeter,
/// which keeps the separating-axis arithmetic (the inverse rotation-scale
/// matrix in particular) inside 64 bits.  Spheres have no such floor:
/// their tests never divide by the scale.
pub const COLLIDE_SCL_MIN: i64 = 10000;

/// Every scale component is at least the box floor.
pub open spec fn box_scl_ok(t: Transform) -> bool {
    &&& t.scl@.x >= COLLIDE_SCL_MIN as int
    &&& t.scl@.y >= COLLIDE_SCL_MIN as int
    &&& t.scl@.z >= COLLIDE_SCL_MIN as int
}

/// Largest per-axis center distance at which the box–box test runs; box
/// scales are capped far below it, so more distant boxes cannot touch
/// and are reported as non-colliding directly.
pub const COLLIDE_REL_CAP: i64 = 0x4000000000;

impl Collider {
    /// A collider fit for its own narrow-phase path: a well-formed
    /// transform, and for a box the scale floor its plane arithmetic
    /// needs.
    pub open spec fn wf(&self) -> bool {
        &&& self.transform.wf()
        &&& (self.shape is Box ==> box_scl_ok(self.transform))
    }
}

/// A confirmed contact: the collision normal and the contact points,
/// each a world position (micrometers) with its penetration depth
/// (micrometers).
pub struct CollisionInfo {
    pub normal: IVec3,
    pub collision_points: Vec<(IVec3, i64)>,
}

/// `r` is the floor of the square root of `n`.
pub open spec fn is_sqrt_floor(n: int, r: int) -> bool {
    r >= 0 && r * r <= n && (r + 1) * (r + 1) > n
}

/// The floor of the square root, as a spec-level value.
pub open spec fn sqrt_floor(n: int) -> int {
    choose|r: int| is_sqrt_floor(n, r)
}

/// The floor of the square root is unique, so any witness equals it.
pub proof fn lemma_sqrt_floor_unique(n: int, r: int)
    requires
        is_sqrt_floor(n, r),
    ensures
        sqrt_floor(n) == r,
{
    let r2 = sqrt_floor(n);
    assert(is_sqrt_floor(n, r2));
    assert(r2 == r) by {
        if r2 < r {
            assert((r2 + 1) * (r2 + 1) <= r * r) by (nonlinear_arith)
                requires
                    0 <= r2,
                    r2 + 1 <= r,
            ;
        }
        if r < r2 {
            assert((r + 1) * (r + 1) <= r2 * r2) by (nonlinear_arith)
                requires
                    0 <= r,
                    r + 1 <= r2,
            ;
        }
    }
}

/// Every non-negative integer has a floor square root, so `sqrt_floor`
/// really denotes it.
pub proof fn lemma_sqrt_exists(n: int)
    requires
        n >= 0,
    ensures
        is_sqrt_floor(n, sqrt_floor(n)),
    decreases n,
{
    if n == 0 {
        assert(is_sqrt_floor(0, 0));
    } else {
        lemma_sqrt_exists(n - 1);
        let r = sqrt_floor(n - 1);
        assert(is_sqrt_floor(n - 1, r));
        if (r + 1) * (r + 1) == n {
            assert((r + 2) * (r + 2) > n) by (nonlinear_arith)
                requires
                    r >= 0,
                    (r + 1) * (r + 1) == n,
            ;
            assert(is_sqrt_floor(n, r + 1));
        } else {
            assert(is_sqrt_floor(n, r));
        }
    }
    let w = choose|w: int| is_sqrt_floor(n, w);
    lemma_sqrt_floor_unique(n, w);
}

/// Law: the sphere–sphere test reports a collision exactly when four
/// times the squared center distance is at most the squared diameter sum
/// — equivalently, when the exact center distance is at most the exact
/// radii sum, with no rounding at the boundary — and the stored
/// penetration is the floor of that distance minus the (floored) radii
/// sum, so it matches the exact value to within one micrometer.
pub proof fn lemma_sphere_sphere_law(a: Transform, b: Transform, r: Option<CollisionInfo>)
    requires
        sphere_sphere_result_ok(a, b, r),
    ensures
        r is Some <==> 4 * v_mag2(v_sub(a.pos@, b.pos@)) <= (a.scl@.x + b.scl@.x) * (a.scl@.x
            + b.scl@.x),
        r is Some ==> {
            let m = v_mag2(v_sub(a.pos@, b.pos@));
            let d = sqrt_floor(m);
            &&& r.unwrap().collision_points@[0].1 == d - radii_sum(a, b)
            &&& d * d <= m < (d + 1) * (d + 1)
        },
{
    if r is Some {
        crate::vec3::lemma_square_nonneg(v_sub(a.pos@, b.pos@).x);
        crate::vec3::lemma_square_nonneg(v_sub(a.pos@, b.pos@).y);
        crate::vec3::lemma_square_nonneg(v_sub(a.pos@, b.pos@).z);
        lemma_sqrt_exists(v_mag2(v_sub(a.pos@, b.pos@)));
    }
}

/// Law: the sphere–box test reports a collision exactly when the
/// squared distance from the sphere's center to the closest point of
/// the box (the center clamped into the half-extents, an independent
/// closest-point computation) is at most the squared radius.
pub proof fn lemma_sphere_box_law(cube: Transform, sphere: Transform, r: Option<CollisionInfo>)
    requires
        sphere_box_result_ok(cube, sphere, r),
    ensures
        r is Some <==> v_mag2(
            v_sub(sphere_center_local(cube, sphere), closest_point_local(cube, sphere)),
        ) <= div_t(sphere.scl@.x, 2) * div_t(sphere.scl@.x, 2),
{
}

/// Sum of the two radii, as half the summed x scales (diameters) floored
/// to whole micrometers — at most one micrometer below the exact sum.
pub open spec fn radii_sum(a: Transform, b: Transform) -> int {
    div_t(a.scl@.x + b.scl@.x, 2)
}

/// The sphere–sphere overlap test: four times the squared center
/// distance against the squared diameter sum, both exact integers, so
/// fractional radii lose nothing at the boundary.
pub open spec fn sphere_sphere_hit(a: Transform, b: Transform) -> bool {
    4 * v_mag2(v_sub(a.pos@, b.pos@)) <= (a.scl@.x + b.scl@.x) * (a.scl@.x + b.scl@.x)
}

/// The unit direction of `v` in fixed point (millionths): each component
/// divided by the floor length, truncated; the zero vector when `v` is
/// zero — the explicit degenerate-normalize policy.
pub open spec fn v_unit_fx(v: V3) -> V3 {
    let d = sqrt_floor(v_mag2(v));
    if d == 0 {
        V3 { x: 0, y: 0, z: 0 }
    } else {
        V3 {
            x: div_t(v.x * (UNITS_PER_METER as int), d),
            y: div_t(v.y * (UNITS_PER_METER as int), d),
            z: div_t(v.z * (UNITS_PER_METER as int), d),
        }
    }
}

/// No component's magnitude exceeds the floor of the vector's length.
proof fn lemma_component_le_sqrt(x: int, m: int, d: int)
    requires
        is_sqrt_floor(m, d),
        x * x <= m,
    ensures
        abs_i(x) <= d,
{
    if abs_i(x) > d {
        assert(abs_i(x) * abs_i(x) >= (d + 1) * (d + 1)) by (nonlinear_arith)
            requires
                abs_i(x) >= d + 1,
                d >= 0,
        ;
        assert(abs_i(x) * abs_i(x) == x * x) by (nonlinear_arith);
    }
}

/// The fixed-point unit direction, executable: exact truncated quotients
/// over the floor length, the zero vector for the zero input.  Every
/// component of the result stays within one fixed-point unit.
pub(crate) fn unit_dir(v: &IVec3) -> (r: IVec3)
    requires
        v_bounded(v@, 0x800000000000000),
    ensures
        r@ == v_unit_fx(v@),
        v_bounded(r@, UNITS_PER_METER as int),
{
    proof {
        crate::vec3::lemma_mag2_bound(v@, 0x800000000000000);
    }
    let d2 = v.mag2_wide();
    let dist = isqrt_i128(d2);
    proof {
        lemma_sqrt_floor_unique(d2 as int, dist as int);
    }
    if dist == 0 {
        IVec3::zero()
    } else {
        proof {
            crate::vec3::lemma_square_nonneg(v@.x);
            crate::vec3::lemma_square_nonneg(v@.y);
            crate::vec3::lemma_square_nonneg(v@.z);
            lemma_component_le_sqrt(v@.x, d2 as int, dist as int);
            lemma_component_le_sqrt(v@.y, d2 as int, dist as int);
            lemma_component_le_sqrt(v@.z, d2 as int, dist as int);
            lemma_unit_quotient(v@.x, dist as int);
            lemma_unit_quotient(v@.y, dist as int);
            lemma_unit_quotient(v@.z, dist as int);
            crate::fx::lemma_i64_product_fits(v@.x, UNITS_PER_METER as int);
            crate::fx::lemma_i64_product_fits(v@.y, UNITS_PER_METER as int);
            crate::fx::lemma_i64_product_fits(v@.z, UNITS_PER_METER as int);
        }
        let x = crate::fx::div_trunc_wide(
            (v.x as i128) * (UNITS_PER_METER as i128),
            dist as i128,
        );
        let y = crate::fx::div_trunc_wide(
            (v.y as i128) * (UNITS_PER_METER as i128),
            dist as i128,
        );
        let z = crate::fx::div_trunc_wide(
            (v.z as i128) * (UNITS_PER_METER as i128),
            dist as i128,
        );
        IVec3 { x: x as i64, y: y as i64, z: z as i64 }
    }
}

/// A fixed-point unit direction never exceeds one unit per component.
pub proof fn lemma_unit_fx_bounded(v: V3)
    ensures
        v_bounded(v_unit_fx(v), UNITS_PER_METER as int),
{
    crate::vec3::lemma_square_nonneg(v.x);
    crate::vec3::lemma_square_nonneg(v.y);
    crate::vec3::lemma_square_nonneg(v.z);
    lemma_sqrt_exists(v_mag2(v));
    let d = sqrt_floor(v_mag2(v));
    if d != 0 {
        lemma_component_le_sqrt(v.x, v_mag2(v), d);
        lemma_component_le_sqrt(v.y, v_mag2(v), d);
        lemma_component_le_sqrt(v.z, v_mag2(v), d);
        lemma_unit_quotient(v.x, d);
        lemma_unit_quotient(v.y, d);
        lemma_unit_quotient(v.z, d);
    }
}

/// A component at most the length divides out to at most one fixed-point
/// unit.
proof fn lemma_unit_quotient(x: int, d: int)
    requires
        d >= 1,
        abs_i(x) <= d,
    ensures
        abs_i(div_t(x * (UNITS_PER_METER as int), d)) <= UNITS_PER_METER as int,
{
    let u = UNITS_PER_METER as int;
    assert(abs_i(x * u) == abs_i(x) * u) by (nonlinear_arith)
        requires
            u > 0,
    ;
    assert(abs_i(x) * u <= d * u) by (nonlinear_arith)
        requires
            abs_i(x) <= d,
            u > 0,
    ;
    crate::fx::lemma_div_t_bound(x * u, d, d * u);
    assert((d * u) / d == u) by {
        vstd::arithmetic::div_mod::lemma_div_multiples_vanish(u, d);
        assert(d * u == u * d) by (nonlinear_arith);
    }
}

/// Square roots of values in the world's range fit comfortably in i64.
proof fn lemma_sqrt_small(n: int, r: int)
    requires
        is_sqrt_floor(n, r),
        n <= 0x1000000000000000000000000000000,
    ensures
        r <= 0x2000000000000000,
{
    if r > 0x2000000000000000 {
        assert(r * r > 0x1000000000000000000000000000000) by (nonlinear_arith)
            requires
                r > 0x2000000000000000,
        ;
    }
}

/// Floor square root of a non-negative 128-bit value.
pub(crate) fn isqrt_i128(n: i128) -> (r: i64)
    requires
        n >= 0,
        n <= 0x1000000000000000000000000000000,
    ensures
        is_sqrt_floor(n as int, r as int),
        r >= 0,
{
    let nu: u128 = n as u128;
    proof {
        assert(nu == n);
    }
    let ru = isqrt_u128(nu);
    proof {
        lemma_sqrt_small(n as int, ru as int);
    }
    ru as i64
}

/// Sphere–sphere narrow phase.  A hit exactly when the center distance
/// is at most the sum of radii, compared as exact squared integers (four
/// times the squared distance against the squared diameter sum, so a
/// fractional radii sum loses nothing); the normal is the unit
/// center-to-center direction in fixed point (zero when the centers
/// coincide), the single contact point is the first sphere's surface
/// point along the center-to-center direction toward the second (its
/// center when the centers coincide), and the penetration is the (floor)
/// distance minus the radii sum — negative on overlap.
fn sphere_sphere(a: &Transform, b: &Transform) -> (r: Option<CollisionInfo>)
    requires
        a.wf(),
        b.wf(),
    ensures
        r is Some <==> sphere_sphere_hit(*a, *b),
        match r {
            Some(info) => {
                let diff = v_sub(a.pos@, b.pos@);
                &&& info.normal@ == v_unit_fx(diff)
                &&& info.collision_points@.len() == 1
                &&& info.collision_points@[0].0@ == v_add(
                    v_scale_fx(v_unit_fx(v_sub(b.pos@, a.pos@)), div_t(a.scl@.x, 2)),
                    a.pos@,
                )
                &&& info.collision_points@[0].1 == sqrt_floor(v_mag2(diff)) - radii_sum(*a, *b)
            },
            None => true,
        },
{
    proof {
        crate::fx::lemma_div_t_le(a.scl@.x, 2);
        crate::fx::lemma_div_t_le(a.scl@.x + b.scl@.x, 2);
    }
    let ra = div_trunc(a.scl().x, 2);
    let dsum = a.scl().x + b.scl().x;
    let rsum = div_trunc(dsum, 2);
    let v = a.pos().sub(&b.pos());
    proof {
        crate::fx::lemma_i64_product_fits(dsum as int, dsum as int);
        crate::vec3::lemma_mag2_bound(v@, 2 * POS_CAP as int);
    }
    let min_d2: i128 = (dsum as i128) * (dsum as i128);
    let d2 = v.mag2_wide();
    if min_d2 >= 4 * d2 {
        let dist = isqrt_i128(d2);
        let normal = unit_dir(&v);
        let toward = b.pos().sub(&a.pos());
        let u = unit_dir(&toward);
        proof {
            lemma_sqrt_floor_unique(d2 as int, dist as int);
            crate::fx::lemma_fx_mul_bound(u@.x, ra as int, UNITS_PER_METER as int, SCL_CAP as int);
            crate::fx::lemma_fx_mul_bound(u@.y, ra as int, UNITS_PER_METER as int, SCL_CAP as int);
            crate::fx::lemma_fx_mul_bound(u@.z, ra as int, UNITS_PER_METER as int, SCL_CAP as int);
        }
        let offset = u.scale_fx(ra);
        let hit = offset.add(&a.pos());
        let mut points: Vec<(IVec3, i64)> = Vec::new();
        points.push((hit, dist - rsum));
        Some(CollisionInfo { normal, collision_points: points })
    } else {
        None
    }
}

/// The sphere's center expressed in the box's unrotated frame, in
/// micrometers.
pub open spec fn sphere_center_local(cube: Transform, sphere: Transform) -> V3 {
    m_mul_vec_fx(m_transpose(cube.rot@), v_sub(sphere.pos@, cube.pos@))
}

/// Clamp a value into `[-h, h]` the way the closest-point search does.
pub open spec fn clamp_s(v: int, h: int) -> int {
    if v > h {
        h
    } else if v < -h {
        -h
    } else {
        v
    }
}

/// The closest point of the box (half-extents from the scale) to the
/// sphere center, in the box's unrotated frame.
pub open spec fn closest_point_local(cube: Transform, sphere: Transform) -> V3 {
    let c = sphere_center_local(cube, sphere);
    V3 {
        x: clamp_s(c.x, div_t(cube.scl@.x, 2)),
        y: clamp_s(c.y, div_t(cube.scl@.y, 2)),
        z: clamp_s(c.z, div_t(cube.scl@.z, 2)),
    }
}

/// The sphere–box overlap test: squared distance from the clamped
/// closest point to the sphere center against the squared radius.
pub open spec fn sphere_box_hit(cube: Transform, sphere: Transform) -> bool {
    let d = v_sub(sphere_center_local(cube, sphere), closest_point_local(cube, sphere));
    v_mag2(d) <= div_t(sphere.scl@.x, 2) * div_t(sphere.scl@.x, 2)
}

/// The face normal of the box at its closest point, chosen by which
/// half-extent the clamped point saturates, ties resolved in the fixed
/// order +y, −y, +x, −x, +z, −z; zero when the center lies strictly
/// inside the box.  Unit length in fixed point, in the box frame.
pub open spec fn face_normal_local(cube: Transform, sphere: Transform) -> V3 {
    let c = closest_point_local(cube, sphere);
    let u = UNITS_PER_METER as int;
    if c.y == div_t(cube.scl@.y, 2) {
        V3 { x: 0, y: u, z: 0 }
    } else if c.y == -div_t(cube.scl@.y, 2) {
        V3 { x: 0, y: -u, z: 0 }
    } else if c.x == div_t(cube.scl@.x, 2) {
        V3 { x: u, y: 0, z: 0 }
    } else if c.x == -div_t(cube.scl@.x, 2) {
        V3 { x: -u, y: 0, z: 0 }
    } else if c.z == div_t(cube.scl@.z, 2) {
        V3 { x: 0, y: 0, z: u }
    } else if c.z == -div_t(cube.scl@.z, 2) {
        V3 { x: 0, y: 0, z: -u }
    } else {
        V3 { x: 0, y: 0, z: 0 }
    }
}

/// Clamps one coordinate into the closed interval `[-h, h]`.
fn clamp(v: i64, h: i64) -> (r: i64)
    requires
        h >= 0,
    ensures
        r == clamp_s(v as int, h as int),
{
    if v > h {
        h
    } else if v < -h {
        -h
    } else {
        v
    }
}

/// Sphere–box narrow phase.  The sphere center moves into the box's
/// unrotated frame; the clamped closest point decides overlap by exact
/// squared-distance comparison.  On a hit the contact point is the
/// closest point carried back to world space, the normal the saturated
/// face direction rotated back to world space, and the penetration the
/// (floor) distance minus the radius — negative on overlap, zero
/// treated as touching.
fn sphere_box(cube: &Transform, sphere: &Transform) -> (r: Option<CollisionInfo>)
    requires
        cube.wf(),
        sphere.wf(),
    ensures
        r is Some <==> sphere_box_hit(*cube, *sphere),
        match r {
            Some(info) => {
                let local = closest_point_local(*cube, *sphere);
                let d = v_sub(sphere_center_local(*cube, *sphere), local);
                &&& info.normal@ == m_mul_vec_fx(cube.rot@, face_normal_local(*cube, *sphere))
                &&& info.collision_points@.len() == 1
                &&& info.collision_points@[0].0@ == v_add(
                    m_mul_vec_fx(cube.rot@, local),
                    cube.pos@,
                )
                &&& info.collision_points@[0].1 == sqrt_floor(v_mag2(d)) - div_t(
                    sphere.scl@.x,
                    2,
                )
            },
            None => true,
        },
{
    let unrot = cube.unrotate();
    let rel = sphere.pos().sub(&cube.pos());
    proof {
        assert(m_bounded(m_transpose(cube.rot@), ROT_CAP as int));
        crate::mat3::lemma_mul_vec_fx_bound(
            m_transpose(cube.rot@),
            rel@,
            ROT_CAP as int,
            2 * POS_CAP as int,
        );
    }
    let center = unrot.mul_vec_fx(&rel);
    let hx = div_trunc(cube.scl().x, 2);
    let hy = div_trunc(cube.scl().y, 2);
    let hz = div_trunc(cube.scl().z, 2);
    proof {
        crate::fx::lemma_div_t_le(cube.scl@.x, 2);
        crate::fx::lemma_div_t_le(cube.scl@.y, 2);
        crate::fx::lemma_div_t_le(cube.scl@.z, 2);
        crate::fx::lemma_div_t_le(sphere.scl@.x, 2);
    }
    let closest = IVec3 { x: clamp(center.x, hx), y: clamp(center.y, hy), z: clamp(center.z, hz) };
    let radius = div_trunc(sphere.scl().x, 2);
    let d = center.sub(&closest);
    proof {
        crate::vec3::lemma_mag2_bound(d@, 3000000000000000int);
        crate::fx::lemma_i64_product_fits(radius as int, radius as int);
    }
    let d2 = d.mag2_wide();
    let min_d2: i128 = (radius as i128) * (radius as i128);
    if min_d2 >= d2 {
        let mut normal = IVec3::zero();
        if closest.y == hy {
            normal = IVec3 { x: 0, y: UNITS_PER_METER, z: 0 };
        } else if closest.y == -hy {
            normal = IVec3 { x: 0, y: -UNITS_PER_METER, z: 0 };
        } else if closest.x == hx {
            normal = IVec3 { x: UNITS_PER_METER, y: 0, z: 0 };
        } else if closest.x == -hx {
            normal = IVec3 { x: -UNITS_PER_METER, y: 0, z: 0 };
        } else if closest.z == hz {
            normal = IVec3 { x: 0, y: 0, z: UNITS_PER_METER };
        } else if closest.z == -hz {
            normal = IVec3 { x: 0, y: 0, z: -UNITS_PER_METER };
        }
        let back = cube.rotatemat();
        let world_normal = back.mul_vec_fx(&normal);
        let hit = back.mul_vec_fx(&closest).add(&cube.pos());
        let dist = isqrt_i128(d2);
        proof {
            lemma_sqrt_floor_unique(d2 as int, dist as int);
        }
        let mut points: Vec<(IVec3, i64)> = Vec::new();
        points.push((hit, dist - radius));
        Some(CollisionInfo { normal: world_normal, collision_points: points })
    } else {
        None
    }
}

/// A separating plane candidate: a fixed-point normal and a point on the
/// plane, both in the first box's local space.
#[derive(Clone, Copy, PartialEq, Eq, Structural, Debug)]
pub struct Plane {
    pub normal: IVec3,
    pub pos: IVec3,
}

/// Mathematical model of a plane.
pub struct PlaneS {
    pub normal: V3,
    pub pos: V3,
}

impl View for Plane {
    type V = PlaneS;

    open spec fn view(&self) -> PlaneS {
        PlaneS { normal: self.normal@, pos: self.pos@ }
    }
}

/// Half the unit cube's edge, in fixed point.
pub const UNIT_HALF: i64 = 500000;

/// Signed fixed-point distance from a point to a plane.
pub open spec fn sd_s(p: PlaneS, v: V3) -> int {
    v_dot_fx(p.normal, v_sub(v, p.pos))
}

/// The first `j` plane distances are all non-positive.
pub open spec fn inside_upto(planes: Seq<PlaneS>, v: V3, j: int) -> bool
    decreases j,
{
    j <= 0 || (sd_s(planes[j - 1], v) <= 0 && inside_upto(planes, v, j - 1))
}

/// The vertex lies on the non-positive side of every plane.
pub open spec fn inside_s(planes: Seq<PlaneS>, v: V3) -> bool {
    inside_upto(planes, v, planes.len() as int)
}

/// Index of the plane paired with `j`: face planes arrive in parallel
/// pairs, the two faces of one axis adjacent in scan order.
pub open spec fn pair_of(j: int) -> int {
    if j % 2 == 0 {
        j + 1
    } else {
        j - 1
    }
}

/// Plane `j` nominates a penetration depth for the vertex: the vertex
/// strictly overlaps it (a distance of exactly zero is touching, not
/// overlapping), and it is the nearer of its parallel pair — the face
/// the vertex came through, never the far side of the box.
pub open spec fn depth_candidate(planes: Seq<PlaneS>, v: V3, j: int) -> bool {
    sd_s(planes[j], v) < 0 && abs_i(sd_s(planes[j], v)) <= abs_i(sd_s(planes[pair_of(j)], v))
}

/// Running least penetration magnitude and its plane normal over the
/// first `j` planes, exactly as the scan keeps them: only nominating
/// planes count, and only a strictly smaller magnitude replaces the
/// best so far.
pub open spec fn least_upto(planes: Seq<PlaneS>, v: V3, j: int) -> (int, V3)
    decreases j,
{
    if j <= 0 {
        (i64::MAX as int, V3 { x: 0, y: 0, z: 0 })
    } else {
        let prev = least_upto(planes, v, j - 1);
        let d = sd_s(planes[j - 1], v);
        if depth_candidate(planes, v, j - 1) && abs_i(d) < prev.0 {
            (abs_i(d), planes[j - 1].normal)
        } else {
            prev
        }
    }
}

/// The first plane among the first `j` whose distance to the vertex is
/// exactly zero, as a found-flag and its normal.
pub open spec fn first_zero_upto(planes: Seq<PlaneS>, v: V3, j: int) -> (bool, V3)
    decreases j,
{
    if j <= 0 {
        (false, V3 { x: 0, y: 0, z: 0 })
    } else {
        let pre = first_zero_upto(planes, v, j - 1);
        if pre.0 {
            pre
        } else if sd_s(planes[j - 1], v) == 0 {
            (true, planes[j - 1].normal)
        } else {
            pre
        }
    }
}

/// What one penetrating vertex reports: the least magnitude among the
/// nominating planes and that plane's normal; a vertex no plane
/// nominates rests exactly on the other box's surface, and reports depth
/// zero with the normal of its first touching plane.
pub open spec fn vertex_depth_normal(planes: Seq<PlaneS>, v: V3) -> (int, V3) {
    let cand = least_upto(planes, v, planes.len() as int);
    if cand.0 == i64::MAX as int {
        (0, first_zero_upto(planes, v, planes.len() as int).1)
    } else {
        cand
    }
}

/// The contact points the plane scan produces from the first `i`
/// vertices: for each vertex inside all planes, its world position and
/// its reported penetration depth.
pub open spec fn sat_points_upto(
    verts: Seq<V3>,
    planes: Seq<PlaneS>,
    m2w: M3,
    origin: V3,
    i: int,
) -> Seq<(V3, int)>
    decreases i,
{
    if i <= 0 {
        Seq::empty()
    } else {
        let pre = sat_points_upto(verts, planes, m2w, origin, i - 1);
        if inside_s(planes, verts[i - 1]) {
            pre.push(
                (
                    v_add(m_mul_vec_fx(m2w, verts[i - 1]), origin),
                    vertex_depth_normal(planes, verts[i - 1]).0,
                ),
            )
        } else {
            pre
        }
    }
}

/// The local normal the scan leaves behind: that of the last vertex
/// found inside, or `init` when none is.
pub open spec fn sat_normal_upto(verts: Seq<V3>, planes: Seq<PlaneS>, i: int, init: V3) -> V3
    decreases i,
{
    if i <= 0 {
        init
    } else if inside_s(planes, verts[i - 1]) {
        vertex_depth_normal(planes, verts[i - 1]).1
    } else {
        sat_normal_upto(verts, planes, i - 1, init)
    }
}

/// Exec contact list matches its model point for point.
pub open spec fn points_match(ps: Seq<(IVec3, i64)>, ms: Seq<(V3, int)>) -> bool {
    ps.len() == ms.len() && (forall|k: int|
        0 <= k < ms.len() ==> (#[trigger] ps[k]).0@ == ms[k].0 && ps[k].1 == ms[k].1)
}

/// Bound on vertex and plane-point coordinates entering the plane scan.
pub const SAT_V_CAP: i64 = 0x1000000000000;

/// Bound on plane-normal coordinates entering the plane scan.
pub const SAT_N_CAP: i64 = 0x100000000;

/// Every coordinate of the scan is bounded as `sat_plane_loop` needs,
/// and the planes arrive as parallel pairs.
pub open spec fn sat_inputs_ok(verts: Seq<V3>, planes: Seq<PlaneS>, m2w: M3, origin: V3) -> bool {
    &&& planes.len() % 2 == 0
    &&& (forall|k: int| 0 <= k < verts.len() ==> v_bounded(#[trigger] verts[k], SAT_V_CAP as int))
    &&& (forall|j: int|
        0 <= j < planes.len() ==> v_bounded(
            (#[trigger] planes[j]).normal,
            SAT_N_CAP as int,
        ) && v_bounded(planes[j].pos, SAT_V_CAP as int))
    &&& m_bounded(m2w, crate::transform::RS_CAP as int)
    &&& v_bounded(origin, POS_CAP as int)
}

/// A signed distance computed from bounded inputs stays well inside i64.
proof fn lemma_sd_bounds(p: PlaneS, v: V3)
    requires
        v_bounded(p.normal, SAT_N_CAP as int),
        v_bounded(p.pos, SAT_V_CAP as int),
        v_bounded(v, SAT_V_CAP as int),
    ensures
        abs_i(fx_mul_s(p.normal.x, v.x - p.pos.x)) <= 2500000000000000000,
        abs_i(fx_mul_s(p.normal.y, v.y - p.pos.y)) <= 2500000000000000000,
        abs_i(fx_mul_s(p.normal.z, v.z - p.pos.z)) <= 2500000000000000000,
        abs_i(sd_s(p, v)) <= 7500000000000000000,
{
    crate::mat3::lemma_dot_fx_bound(
        p.normal,
        v_sub(v, p.pos),
        SAT_N_CAP as int,
        2 * SAT_V_CAP as int,
    );
    assert((SAT_N_CAP as int * (2 * SAT_V_CAP as int)) / (UNITS_PER_METER as int)
        <= 2500000000000000000) by {
        vstd::arithmetic::div_mod::lemma_div_is_ordered(
            SAT_N_CAP as int * (2 * SAT_V_CAP as int),
            2500000000000000000int * 1000000int,
            UNITS_PER_METER as int,
        );
        vstd::arithmetic::div_mod::lemma_div_multiples_vanish(
            2500000000000000000int,
            1000000int,
        );
    }
}

/// Scans one vertex against every plane, in order: bails out at the
/// first positive distance, otherwise reports the vertex's penetration
/// depth and normal — the least magnitude among nominating planes, or
/// zero with the first touching plane's normal when none nominates.
fn check_vertex(planes: &Vec<Plane>, v: &IVec3) -> (r: Option<(i64, IVec3)>)
    requires
        planes@.len() % 2 == 0,
        forall|j: int|
            0 <= j < planes@.len() ==> v_bounded(
                (#[trigger] planes@[j])@.normal,
                SAT_N_CAP as int,
            ) && v_bounded(planes@[j]@.pos, SAT_V_CAP as int),
        v_bounded(v@, SAT_V_CAP as int),
    ensures
        r is Some <==> inside_s(planes@.map_values(|p: Plane| p@), v@),
        match r {
            Some(best) => {
                let m = vertex_depth_normal(planes@.map_values(|p: Plane| p@), v@);
                best.0 == m.0 && best.1@ == m.1
            },
            None => true,
        },
{
    let ghost pm = planes@.map_values(|p: Plane| p@);
    let mut least: i64 = i64::MAX;
    let mut least_normal = IVec3::zero();
    let mut zero_found = false;
    let mut zero_normal = IVec3::zero();
    let n = planes.len();
    let mut j: usize = 0;
    while j < n
        invariant
            n == planes@.len(),
            n % 2 == 0,
            j <= n,
            pm == planes@.map_values(|p: Plane| p@),
            forall|j2: int|
                0 <= j2 < planes@.len() ==> v_bounded(
                    (#[trigger] planes@[j2])@.normal,
                    SAT_N_CAP as int,
                ) && v_bounded(planes@[j2]@.pos, SAT_V_CAP as int),
            v_bounded(v@, SAT_V_CAP as int),
            inside_upto(pm, v@, j as int),
            least == least_upto(pm, v@, j as int).0,
            least_normal@ == least_upto(pm, v@, j as int).1,
            zero_found == first_zero_upto(pm, v@, j as int).0,
            zero_normal@ == first_zero_upto(pm, v@, j as int).1,
        decreases n - j,
    {
        let p = planes[j];
        proof {
            lemma_sd_bounds(p@, v@);
            assert(pm[j as int] == p@);
        }
        let diff = v.sub(&p.pos);
        let d = p.normal.dot_fx(&diff);
        if d > 0 {
            proof {
                lemma_not_inside(pm, v@, j as int, n as int);
            }
            return None;
        }
        if d == 0 {
            if !zero_found {
                zero_found = true;
                zero_normal = p.normal;
            }
        } else {
            // the paired face of the same axis decides whether this is
            // the near side
            let jp: usize = if j % 2 == 0 {
                j + 1
            } else {
                j - 1
            };
            let pp = planes[jp];
            proof {
                lemma_sd_bounds(pp@, v@);
                assert(pm[jp as int] == pp@);
                assert(jp as int == pair_of(j as int));
            }
            let pdiff = v.sub(&pp.pos);
            let dp = pp.normal.dot_fx(&pdiff);
            let adp: i64 = if dp >= 0 {
                dp
            } else {
                -dp
            };
            let mag = -d;
            if mag <= adp && mag < least {
                least = mag;
                least_normal = p.normal;
            }
        }
        j = j + 1;
    }
    if least == i64::MAX {
        Some((0, zero_normal))
    } else {
        Some((least, least_normal))
    }
}

/// A positive distance at index `j` keeps the vertex outside for any
/// longer prefix.
proof fn lemma_not_inside(planes: Seq<PlaneS>, v: V3, j: int, n: int)
    requires
        0 <= j < n <= planes.len(),
        sd_s(planes[j], v) > 0,
    ensures
        !inside_upto(planes, v, n),
    decreases n,
{
    if n - 1 > j {
        lemma_not_inside(planes, v, j, n - 1);
    }
}

/// The vertex-against-planes scan of the separating-axis test: every
/// vertex on the non-positive side of every plane contributes a contact
/// point (its world position and least penetration magnitude), and the
/// last such vertex leaves its best normal behind.
#[allow(non_snake_case)]
fn sat_plane_loop(
    obj1_verts: &Vec<IVec3>,
    obj2_planes: &Vec<Plane>,
    least_normal: &mut IVec3,
    model_to_world: &Mat3,
    obj1_pos: &IVec3,
    collision_points: &mut Vec<(IVec3, i64)>,
)
    requires
        sat_inputs_ok(
            obj1_verts@.map_values(|w: IVec3| w@),
            obj2_planes@.map_values(|p: Plane| p@),
            model_to_world@,
            obj1_pos@,
        ),
    ensures
        final(least_normal)@ == sat_normal_upto(
            obj1_verts@.map_values(|w: IVec3| w@),
            obj2_planes@.map_values(|p: Plane| p@),
            obj1_verts@.len() as int,
            old(least_normal)@,
        ),
        final(collision_points)@.len() >= old(collision_points)@.len(),
        final(collision_points)@.take(old(collision_points)@.len() as int) == old(
            collision_points,
        )@,
        points_match(
            final(collision_points)@.skip(old(collision_points)@.len() as int),
            sat_points_upto(
                obj1_verts@.map_values(|w: IVec3| w@),
                obj2_planes@.map_values(|p: Plane| p@),
                model_to_world@,
                obj1_pos@,
                obj1_verts@.len() as int,
            ),
        ),
{
    let ghost vm = obj1_verts@.map_values(|w: IVec3| w@);
    let ghost pm = obj2_planes@.map_values(|p: Plane| p@);
    let ghost base = collision_points@;
    let n = obj1_verts.len();
    let mut i: usize = 0;
    while i < n
        invariant
            n == obj1_verts@.len(),
            i <= n,
            vm == obj1_verts@.map_values(|w: IVec3| w@),
            pm == obj2_planes@.map_values(|p: Plane| p@),
            sat_inputs_ok(vm, pm, model_to_world@, obj1_pos@),
            least_normal@ == sat_normal_upto(vm, pm, i as int, old(least_normal)@),
            collision_points@.len() >= base.len(),
            collision_points@.take(base.len() as int) == base,
            points_match(
                collision_points@.skip(base.len() as int),
                sat_points_upto(vm, pm, model_to_world@, obj1_pos@, i as int),
            ),
        decreases n - i,
    {
        let v = obj1_verts[i];
        proof {
            assert(vm[i as int] == v@);
            assert forall|j2: int| 0 <= j2 < obj2_planes@.len() implies v_bounded(
                (#[trigger] obj2_planes@[j2])@.normal,
                SAT_N_CAP as int,
            ) && v_bounded(obj2_planes@[j2]@.pos, SAT_V_CAP as int) by {
                assert(pm[j2] == obj2_planes@[j2]@);
            }
        }
        let ghost cp_pre = collision_points@;
        match check_vertex(obj2_planes, &v) {
            Some(best) => {
                proof {
                    crate::mat3::lemma_mul_vec_fx_bound(
                        model_to_world@,
                        v@,
                        crate::transform::RS_CAP as int,
                        SAT_V_CAP as int,
                    );
                }
                let world = model_to_world.mul_vec_fx(&v).add(obj1_pos);
                collision_points.push((world, best.0));
                *least_normal = best.1;
                proof {
                    let cps = collision_points@;
                    assert(cps.take(base.len() as int) =~= base);
                    let pre_model = sat_points_upto(vm, pm, model_to_world@, obj1_pos@, i as int);
                    let new_model = sat_points_upto(
                        vm,
                        pm,
                        model_to_world@,
                        obj1_pos@,
                        i as int + 1,
                    );
                    assert(inside_s(pm, vm[i as int]));
                    assert(new_model == pre_model.push(
                        (
                            v_add(m_mul_vec_fx(model_to_world@, vm[i as int]), obj1_pos@),
                            vertex_depth_normal(pm, vm[i as int]).0,
                        ),
                    ));
                    assert(cps.skip(base.len() as int) =~= cp_pre.skip(base.len() as int).push(
                        (world, best.0),
                    ));
                    assert(points_match(cps.skip(base.len() as int), new_model)) by {
                        let pe = cp_pre.skip(base.len() as int);
                        assert forall|k: int|
                            0 <= k < new_model.len() implies (#[trigger] cps.skip(
                            base.len() as int,
                        )[k]).0@ == new_model[k].0 && cps.skip(base.len() as int)[k].1
                            == new_model[k].1 by {
                            if k < pre_model.len() {
                                assert(pe[k].0@ == pre_model[k].0 && pe[k].1 == pre_model[k].1);
                            }
                        }
                    }
                }
            },
            None => {},
        }
        i = i + 1;
    }
}

/// Corner `k` of the first box's unit cube, in its scan order.
pub open spec fn corner_a(k: int) -> V3 {
    let h = UNIT_HALF as int;
    V3 {
        x: if k % 4 == 2 || k % 4 == 3 {
            h
        } else {
            -h
        },
        y: if k % 2 == 1 {
            h
        } else {
            -h
        },
        z: if k >= 4 {
            h
        } else {
            -h
        },
    }
}

/// Corner `k` of the second box's unit cube, in its scan order.
pub open spec fn corner_b(k: int) -> V3 {
    let h = UNIT_HALF as int;
    V3 {
        x: if k >= 4 {
            h
        } else {
            -h
        },
        y: if k % 4 == 2 || k % 4 == 3 {
            h
        } else {
            -h
        },
        z: if k % 2 == 1 {
            h
        } else {
            -h
        },
    }
}

/// Face plane `j` of the unit cube, in the scan order +y, −y, +x, −x,
/// +z, −z.
pub open spec fn unit_plane(j: int) -> PlaneS {
    let u = UNITS_PER_METER as int;
    let h = UNIT_HALF as int;
    if j == 0 {
        PlaneS { normal: V3 { x: 0, y: u, z: 0 }, pos: V3 { x: 0, y: h, z: 0 } }
    } else if j == 1 {
        PlaneS { normal: V3 { x: 0, y: -u, z: 0 }, pos: V3 { x: 0, y: -h, z: 0 } }
    } else if j == 2 {
        PlaneS { normal: V3 { x: u, y: 0, z: 0 }, pos: V3 { x: h, y: 0, z: 0 } }
    } else if j == 3 {
        PlaneS { normal: V3 { x: -u, y: 0, z: 0 }, pos: V3 { x: -h, y: 0, z: 0 } }
    } else if j == 4 {
        PlaneS { normal: V3 { x: 0, y: 0, z: u }, pos: V3 { x: 0, y: 0, z: h } }
    } else {
        PlaneS { normal: V3 { x: 0, y: 0, z: -u }, pos: V3 { x: 0, y: 0, z: -h } }
    }
}

/// The matrix taking world offsets into the first box's unit space.
pub open spec fn w2m(t: Transform) -> M3 {
    m_inv_rot_scale(t.rot@, t.scl@)
}

/// The second box's center, expressed in the first box's unit space.
pub open spec fn sat_rel(t1: Transform, t2: Transform) -> V3 {
    m_mul_vec_fx(w2m(t1), v_sub(t2.pos@, t1.pos@))
}

/// The second box's rotation–scale matrix.
pub open spec fn rs2(t2: Transform) -> M3 {
    crate::transform::m_scale_cols(t2.rot@, t2.scl@)
}

/// Corner `k` of the second box carried into the first box's unit space.
pub open spec fn sat_vert2(t1: Transform, t2: Transform, k: int) -> V3 {
    v_add(sat_rel(t1, t2), m_mul_vec_fx(w2m(t1), m_mul_vec_fx(rs2(t2), corner_b(k))))
}

/// Face plane `j` of the second box carried into the first box's space:
/// the normal through the inverse then the second rotation, the plane
/// point through the second rotation–scale and the inverse.
pub open spec fn sat_plane2(t1: Transform, t2: Transform, j: int) -> PlaneS {
    PlaneS {
        normal: m_mul_vec_fx(t2.rot@, m_mul_vec_fx(w2m(t1), unit_plane(j).normal)),
        pos: v_add(sat_rel(t1, t2), m_mul_vec_fx(w2m(t1), m_mul_vec_fx(rs2(t2), unit_plane(j).pos))),
    }
}

pub open spec fn verts1_seq() -> Seq<V3> {
    Seq::new(8, |k: int| corner_a(k))
}

pub open spec fn verts2_seq(t1: Transform, t2: Transform) -> Seq<V3> {
    Seq::new(8, |k: int| sat_vert2(t1, t2, k))
}

pub open spec fn planes1_seq() -> Seq<PlaneS> {
    Seq::new(6, |j: int| unit_plane(j))
}

pub open spec fn planes2_seq(t1: Transform, t2: Transform) -> Seq<PlaneS> {
    Seq::new(6, |j: int| sat_plane2(t1, t2, j))
}

/// The first box's rotation–scale matrix: unit space back to world.
pub open spec fn m2w1(t1: Transform) -> M3 {
    crate::transform::m_scale_cols(t1.rot@, t1.scl@)
}

/// Contact points found by testing the first box's corners against the
/// second box's planes.
pub open spec fn sat_points1(t1: Transform, t2: Transform) -> Seq<(V3, int)> {
    sat_points_upto(verts1_seq(), planes2_seq(t1, t2), m2w1(t1), t1.pos@, 8)
}

/// Contact points found by testing the second box's corners against the
/// first box's planes.
pub open spec fn sat_points2(t1: Transform, t2: Transform) -> Seq<(V3, int)> {
    sat_points_upto(verts2_seq(t1, t2), planes1_seq(), m2w1(t1), t1.pos@, 8)
}

/// The separating-axis outcome: some corner of either box lies on the
/// inner side of all six of the other box's planes.
pub open spec fn sat_hit(t1: Transform, t2: Transform) -> bool {
    sat_points1(t1, t2).len() + sat_points2(t1, t2).len() > 0
}

/// The reported world normal: the last penetrating corner's best plane
/// normal, from the first box's scan when it found any points (rotated
/// by the first rotation), otherwise the negated normal from the second
/// scan rotated by the second rotation.
pub open spec fn sat_normal(t1: Transform, t2: Transform) -> V3 {
    let zero = V3 { x: 0, y: 0, z: 0 };
    if sat_points1(t1, t2).len() > 0 {
        m_mul_vec_fx(
            t1.rot@,
            sat_normal_upto(verts1_seq(), planes2_seq(t1, t2), 8, zero),
        )
    } else {
        m_mul_vec_fx(
            t2.rot@,
            v_neg(sat_normal_upto(verts2_seq(t1, t2), planes1_seq(), 8, zero)),
        )
    }
}

/// Corner `k` of the first box, executable.
fn corner_a_at(k: usize) -> (r: IVec3)
    requires
        k < 8,
    ensures
        r@ == corner_a(k as int),
{
    let h = UNIT_HALF;
    let x: i64 = if k % 4 == 2 || k % 4 == 3 {
        h
    } else {
        -h
    };
    let y: i64 = if k % 2 == 1 {
        h
    } else {
        -h
    };
    let z: i64 = if k >= 4 {
        h
    } else {
        -h
    };
    IVec3 { x, y, z }
}

/// Corner `k` of the second box, executable.
fn corner_b_at(k: usize) -> (r: IVec3)
    requires
        k < 8,
    ensures
        r@ == corner_b(k as int),
{
    let h = UNIT_HALF;
    let x: i64 = if k >= 4 {
        h
    } else {
        -h
    };
    let y: i64 = if k % 4 == 2 || k % 4 == 3 {
        h
    } else {
        -h
    };
    let z: i64 = if k % 2 == 1 {
        h
    } else {
        -h
    };
    IVec3 { x, y, z }
}

/// Face plane `j` of the unit cube, executable.
fn unit_plane_at(j: usize) -> (r: Plane)
    requires
        j < 6,
    ensures
        r@ == unit_plane(j as int),
{
    let u = UNITS_PER_METER;
    let h = UNIT_HALF;
    if j == 0 {
        Plane { normal: IVec3 { x: 0, y: u, z: 0 }, pos: IVec3 { x: 0, y: h, z: 0 } }
    } else if j == 1 {
        Plane { normal: IVec3 { x: 0, y: -u, z: 0 }, pos: IVec3 { x: 0, y: -h, z: 0 } }
    } else if j == 2 {
        Plane { normal: IVec3 { x: u, y: 0, z: 0 }, pos: IVec3 { x: h, y: 0, z: 0 } }
    } else if j == 3 {
        Plane { normal: IVec3 { x: -u, y: 0, z: 0 }, pos: IVec3 { x: -h, y: 0, z: 0 } }
    } else if j == 4 {
        Plane { normal: IVec3 { x: 0, y: 0, z: u }, pos: IVec3 { x: 0, y: 0, z: h } }
    } else {
        Plane { normal: IVec3 { x: 0, y: 0, z: -u }, pos: IVec3 { x: 0, y: 0, z: -h } }
    }
}

/// The inverse rotation–scale of a collider-ready transform has small
/// entries: rotation entries over at least a centimeter of scale.
proof fn lemma_w2m_cap(t: Transform)
    requires
        t.wf(),
        t.scl@.x >= COLLIDE_SCL_MIN as int,
        t.scl@.y >= COLLIDE_SCL_MIN as int,
        t.scl@.z >= COLLIDE_SCL_MIN as int,
    ensures
        m_bounded(w2m(t), 200000000),
{
    lemma_w2m_entry(t.rot@.rx.x, t.scl@.x);
    lemma_w2m_entry(t.rot@.rx.y, t.scl@.y);
    lemma_w2m_entry(t.rot@.rx.z, t.scl@.z);
    lemma_w2m_entry(t.rot@.ry.x, t.scl@.x);
    lemma_w2m_entry(t.rot@.ry.y, t.scl@.y);
    lemma_w2m_entry(t.rot@.ry.z, t.scl@.z);
    lemma_w2m_entry(t.rot@.rz.x, t.scl@.x);
    lemma_w2m_entry(t.rot@.rz.y, t.scl@.y);
    lemma_w2m_entry(t.rot@.rz.z, t.scl@.z);
}

proof fn lemma_w2m_entry(a: int, s: int)
    requires
        abs_i(a) <= ROT_CAP as int,
        COLLIDE_SCL_MIN as int <= s <= SCL_CAP as int,
    ensures
        abs_i(crate::fx::fx_div_s(a, s)) <= 200000000,
{
    assert(abs_i(a * (UNITS_PER_METER as int)) <= 2000000000000) by {
        vstd::arithmetic::mul::lemma_mul_upper_bound(
            abs_i(a),
            2000000,
            UNITS_PER_METER as int,
            1000000,
        );
        assert(abs_i(a) * (UNITS_PER_METER as int) == abs_i(a * (UNITS_PER_METER as int)))
            by (nonlinear_arith);
    }
    crate::fx::lemma_div_t_bound(a * (UNITS_PER_METER as int), s, 2000000000000);
    assert(2000000000000int / abs_i(s) <= 200000000int) by {
        vstd::arithmetic::div_mod::lemma_div_is_ordered_by_denominator(
            2000000000000,
            10000,
            abs_i(s),
        );
    }
}

/// The last normal the scan keeps is zero or one of the plane normals,
/// so a bound on those is a bound on it.
proof fn lemma_scan_normal_bounded(verts: Seq<V3>, planes: Seq<PlaneS>, i: int, cap: int)
    requires
        cap >= 0,
        forall|j: int| 0 <= j < planes.len() ==> v_bounded((#[trigger] planes[j]).normal, cap),
    ensures
        v_bounded(sat_normal_upto(verts, planes, i, V3 { x: 0, y: 0, z: 0 }), cap),
    decreases i,
{
    if i > 0 {
        lemma_scan_normal_bounded(verts, planes, i - 1, cap);
        lemma_least_normal_bounded(planes, verts[i - 1], planes.len() as int, cap);
        lemma_first_zero_bounded(planes, verts[i - 1], planes.len() as int, cap);
    }
}

/// The first touching plane's normal is zero or a plane normal.
proof fn lemma_first_zero_bounded(planes: Seq<PlaneS>, v: V3, j: int, cap: int)
    requires
        cap >= 0,
        j <= planes.len(),
        forall|j2: int| 0 <= j2 < planes.len() ==> v_bounded((#[trigger] planes[j2]).normal, cap),
    ensures
        v_bounded(first_zero_upto(planes, v, j).1, cap),
    decreases j,
{
    if j > 0 {
        lemma_first_zero_bounded(planes, v, j - 1, cap);
    }
}

proof fn lemma_least_normal_bounded(planes: Seq<PlaneS>, v: V3, j: int, cap: int)
    requires
        cap >= 0,
        j <= planes.len(),
        forall|j2: int| 0 <= j2 < planes.len() ==> v_bounded((#[trigger] planes[j2]).normal, cap),
    ensures
        v_bounded(least_upto(planes, v, j).1, cap),
    decreases j,
{
    if j > 0 {
        lemma_least_normal_bounded(planes, v, j - 1, cap);
    }
}

/// Box–box narrow phase by the separating-axis theorem.  The first box
/// becomes the unit cube at the origin; the second box's corners and
/// planes move into that space.  Corners of either box on the inner side
/// of all six of the other's planes are the contact points, each carried
/// back to world micrometers with its penetration depth: the least
/// distance among the faces the corner strictly overlaps on their near
/// side — a face at distance exactly zero is touching, not overlapping,
/// and never nominates the depth, so a flush stack reports its true
/// face-to-face depth rather than zero from a grazed side plane.  The
/// reported normal comes from whichever direction found points,
/// preferring the first, rotated into world space.
///
/// Boxes farther apart than `COLLIDE_REL_CAP` on any axis cannot touch
/// (scales are capped far below that) and report no collision directly.
#[allow(non_snake_case)]
pub fn collision_SAT(obj1: &Collider, obj2: &Collider) -> (r: Option<CollisionInfo>)
    requires
        obj1.transform.wf(),
        obj2.transform.wf(),
        box_scl_ok(obj1.transform),
        box_scl_ok(obj2.transform),
    ensures
        ({
            let t1 = obj1.transform;
            let t2 = obj2.transform;
            if v_bounded(v_sub(t2.pos@, t1.pos@), COLLIDE_REL_CAP as int) {
                &&& (r is Some <==> sat_hit(t1, t2))
                &&& match r {
                    Some(info) => {
                        &&& info.normal@ == sat_normal(t1, t2)
                        &&& points_match(
                            info.collision_points@,
                            sat_points1(t1, t2) + sat_points2(t1, t2),
                        )
                    },
                    None => true,
                }
            } else {
                r is None
            }
        }),
{
    let t1 = &obj1.transform;
    let t2 = &obj2.transform;
    let p1 = t1.pos();
    let p2 = t2.pos();
    let rel = p2.sub(&p1);
    if rel.x > COLLIDE_REL_CAP || rel.x < -COLLIDE_REL_CAP || rel.y > COLLIDE_REL_CAP || rel.y
        < -COLLIDE_REL_CAP || rel.z > COLLIDE_REL_CAP || rel.z < -COLLIDE_REL_CAP {
        return None;
    }
    proof {
        lemma_w2m_cap(*t1);
        crate::transform::lemma_rotscale_cap(*t1);
        crate::transform::lemma_rotscale_cap(*t2);
    }
    let mat = t1.world_to_model();
    let model_to_world = t1.rotscale;
    proof {
        crate::mat3::lemma_mul_vec_fx_bound(mat@, rel@, 200000000, COLLIDE_REL_CAP as int);
        crate::fx::lemma_div_le(
            200000000int * COLLIDE_REL_CAP as int,
            UNITS_PER_METER as int,
            55000000000000,
        );
    }
    let transformed_rel = mat.mul_vec_fx(&rel);
    let ghost t1g = *t1;
    let ghost t2g = *t2;

    let mut verts2: Vec<IVec3> = Vec::new();
    let mut k: usize = 0;
    while k < 8
        invariant
            k <= 8,
            verts2@.len() == k,
            obj1.wf(),
            obj2.wf(),
            t1g == obj1.transform,
            t2g == obj2.transform,
            *t1 == t1g,
            *t2 == t2g,
            mat@ == w2m(t1g),
            m_bounded(mat@, 200000000),
            m_bounded(obj2.transform.rotscale@, crate::transform::RS_CAP as int),
            transformed_rel@ == sat_rel(t1g, t2g),
            v_bounded(transformed_rel@, 165000000000000),
            forall|k2: int|
                0 <= k2 < k ==> (#[trigger] verts2@[k2])@ == sat_vert2(t1g, t2g, k2)
                    && v_bounded(verts2@[k2]@, SAT_V_CAP as int),
        decreases 8 - k,
    {
        let c = corner_b_at(k);
        proof {
            crate::mat3::lemma_mul_vec_fx_bound(
                obj2.transform.rotscale@,
                c@,
                crate::transform::RS_CAP as int,
                UNIT_HALF as int,
            );
            crate::fx::lemma_div_le(
                crate::transform::RS_CAP as int * UNIT_HALF as int,
                UNITS_PER_METER as int,
                1000000000,
            );
        }
        let w = t2.rotscale.mul_vec_fx(&c);
        proof {
            crate::mat3::lemma_mul_vec_fx_bound(mat@, w@, 200000000, 3000000000);
            crate::fx::lemma_div_le(
                200000000int * 3000000000int,
                UNITS_PER_METER as int,
                600000000000,
            );
        }
        let lv = mat.mul_vec_fx(&w);
        let v = transformed_rel.add(&lv);
        verts2.push(v);
        k = k + 1;
    }

    let mut verts1: Vec<IVec3> = Vec::new();
    let mut k1: usize = 0;
    while k1 < 8
        invariant
            k1 <= 8,
            verts1@.len() == k1,
            forall|k2: int|
                0 <= k2 < k1 ==> (#[trigger] verts1@[k2])@ == corner_a(k2) && v_bounded(
                    verts1@[k2]@,
                    SAT_V_CAP as int,
                ),
        decreases 8 - k1,
    {
        verts1.push(corner_a_at(k1));
        k1 = k1 + 1;
    }

    let mut planes1: Vec<Plane> = Vec::new();
    let mut j1: usize = 0;
    while j1 < 6
        invariant
            j1 <= 6,
            planes1@.len() == j1,
            forall|j2: int|
                0 <= j2 < j1 ==> (#[trigger] planes1@[j2])@ == unit_plane(j2) && v_bounded(
                    planes1@[j2]@.normal,
                    SAT_N_CAP as int,
                ) && v_bounded(planes1@[j2]@.pos, SAT_V_CAP as int),
        decreases 6 - j1,
    {
        planes1.push(unit_plane_at(j1));
        j1 = j1 + 1;
    }

    let mut planes2: Vec<Plane> = Vec::new();
    let mut j: usize = 0;
    while j < 6
        invariant
            j <= 6,
            planes2@.len() == j,
            obj1.wf(),
            obj2.wf(),
            t1g == obj1.transform,
            t2g == obj2.transform,
            *t1 == t1g,
            *t2 == t2g,
            mat@ == w2m(t1g),
            m_bounded(mat@, 200000000),
            m_bounded(obj2.transform.rotscale@, crate::transform::RS_CAP as int),
            transformed_rel@ == sat_rel(t1g, t2g),
            v_bounded(transformed_rel@, 165000000000000),
            forall|j2: int|
                0 <= j2 < j ==> (#[trigger] planes2@[j2])@ == sat_plane2(t1g, t2g, j2)
                    && v_bounded(planes2@[j2]@.normal, SAT_N_CAP as int) && v_bounded(
                    planes2@[j2]@.pos,
                    SAT_V_CAP as int,
                ),
        decreases 6 - j,
    {
        let p = unit_plane_at(j);
        proof {
            crate::mat3::lemma_mul_vec_fx_bound(
                mat@,
                p@.normal,
                200000000,
                UNITS_PER_METER as int,
            );
            crate::fx::lemma_div_le(
                200000000int * UNITS_PER_METER as int,
                UNITS_PER_METER as int,
                200000000,
            );
        }
        let n1 = mat.mul_vec_fx(&p.normal);
        proof {
            crate::mat3::lemma_mul_vec_fx_bound(
                obj2.transform.rot@,
                n1@,
                ROT_CAP as int,
                600000000,
            );
            crate::fx::lemma_div_le(
                ROT_CAP as int * 600000000int,
                UNITS_PER_METER as int,
                1200000000,
            );
        }
        let n = t2.rotatemat().mul_vec_fx(&n1);
        proof {
            crate::mat3::lemma_mul_vec_fx_bound(
                obj2.transform.rotscale@,
                p@.pos,
                crate::transform::RS_CAP as int,
                UNIT_HALF as int,
            );
            crate::fx::lemma_div_le(
                crate::transform::RS_CAP as int * UNIT_HALF as int,
                UNITS_PER_METER as int,
                1000000000,
            );
        }
        let sp = t2.rotscale.mul_vec_fx(&p.pos);
        proof {
            crate::mat3::lemma_mul_vec_fx_bound(mat@, sp@, 200000000, 3000000000);
            crate::fx::lemma_div_le(
                200000000int * 3000000000int,
                UNITS_PER_METER as int,
                600000000000,
            );
        }
        let pp = transformed_rel.add(&mat.mul_vec_fx(&sp));
        planes2.push(Plane { normal: n, pos: pp });
        j = j + 1;
    }

    proof {
        crate::transform::lemma_rotscale_cap(t1g);
        assert(verts1@.map_values(|w: IVec3| w@) =~= verts1_seq());
        assert(verts2@.map_values(|w: IVec3| w@) =~= verts2_seq(t1g, t2g));
        assert(planes1@.map_values(|p: Plane| p@) =~= planes1_seq());
        assert(planes2@.map_values(|p: Plane| p@) =~= planes2_seq(t1g, t2g));
        assert(model_to_world@ == m2w1(t1g));
        assert(sat_inputs_ok(verts1_seq(), planes2_seq(t1g, t2g), model_to_world@, t1g.pos@));
        assert(sat_inputs_ok(verts2_seq(t1g, t2g), planes1_seq(), model_to_world@, t1g.pos@));
    }

    let mut pts1: Vec<(IVec3, i64)> = Vec::new();
    let mut ln1 = IVec3::zero();
    sat_plane_loop(&verts1, &planes2, &mut ln1, &model_to_world, &p1, &mut pts1);
    let mut pts2: Vec<(IVec3, i64)> = Vec::new();
    let mut ln2 = IVec3::zero();
    sat_plane_loop(&verts2, &planes1, &mut ln2, &model_to_world, &p1, &mut pts2);

    if pts1.len() == 0 && pts2.len() == 0 {
        return None;
    }
    proof {
        let zero = V3 { x: 0int, y: 0int, z: 0int };
        lemma_scan_normal_bounded(verts1_seq(), planes2_seq(t1g, t2g), 8, SAT_N_CAP as int);
        lemma_scan_normal_bounded(verts2_seq(t1g, t2g), planes1_seq(), 8, SAT_N_CAP as int);
        crate::mat3::lemma_mul_vec_fx_bound(t1g.rot@, ln1@, ROT_CAP as int, SAT_N_CAP as int);
        crate::mat3::lemma_mul_vec_fx_bound(
            t2g.rot@,
            v_neg(ln2@),
            ROT_CAP as int,
            SAT_N_CAP as int,
        );
    }
    let normal = if pts1.len() == 0 {
        t2.rotatemat().mul_vec_fx(&ln2.neg())
    } else {
        t1.rotatemat().mul_vec_fx(&ln1)
    };
    let ghost pm1 = pts1@;
    let ghost pm2 = pts2@;
    pts1.append(&mut pts2);
    proof {
        assert(pts1@ == pm1 + pm2);
        let ms = sat_points1(t1g, t2g) + sat_points2(t1g, t2g);
        assert(points_match(pts1@, ms)) by {
            assert(pm1.take(0) =~= Seq::<(IVec3, i64)>::empty());
            assert(pm1.skip(0) =~= pm1);
            assert(pm2.skip(0) =~= pm2);
            assert(points_match(pm1, sat_points1(t1g, t2g)));
            assert(points_match(pm2, sat_points2(t1g, t2g)));
            assert forall|w: int|
                0 <= w < ms.len() implies (#[trigger] pts1@[w]).0@ == ms[w].0 && pts1@[w].1
                == ms[w].1 by {
                if w < pm1.len() {
                    assert(pts1@[w] == pm1[w]);
                } else {
                    assert(pts1@[w] == pm2[w - pm1.len()]);
                }
            }
        }
    }
    Some(CollisionInfo { normal, collision_points: pts1 })
}

/// The unit scale vector.
pub open spec fn unit_scl() -> V3 {
    V3 { x: UNITS_PER_METER as int, y: UNITS_PER_METER as int, z: UNITS_PER_METER as int }
}

/// Applying the identity matrix in fixed point is the identity.
proof fn lemma_identity_vec(v: V3)
    ensures
        m_mul_vec_fx(crate::mat3::m_identity(), v) == v,
{
    crate::fx::lemma_fx_mul_unit(v.x);
    crate::fx::lemma_fx_mul_unit(v.y);
    crate::fx::lemma_fx_mul_unit(v.z);
}

/// Negating the fixed-point one negates the other factor.
proof fn lemma_fx_mul_neg_unit(x: int)
    ensures
        fx_mul_s(-(UNITS_PER_METER as int), x) == -x,
{
    let u = UNITS_PER_METER as int;
    if x >= 0 {
        assert((-u) * x == -(u * x)) by (nonlinear_arith);
        assert(u * x >= 0) by (nonlinear_arith)
            requires
                x >= 0,
                u > 0,
        ;
        assert(abs_i((-u) * x) == u * x);
        assert(abs_i(x) == x);
    } else {
        assert((-u) * x == u * (-x)) by (nonlinear_arith);
        assert(u * (-x) > 0) by (nonlinear_arith)
            requires
                x < 0,
                u > 0,
        ;
        assert(abs_i((-u) * x) == u * (-x));
        assert(abs_i(x) == -x);
    }
    assert((u * abs_i(x)) / u == abs_i(x)) by {
        vstd::arithmetic::div_mod::lemma_div_multiples_vanish(abs_i(x), u);
    }
}

/// With identity rotations and unit scales, the whole separating-axis
/// setup collapses: the unit-space frame is the world frame shifted to
/// the first box's center.
proof fn lemma_unit_setup(t1: Transform, t2: Transform)
    requires
        t1.rot@ == crate::mat3::m_identity(),
        t2.rot@ == crate::mat3::m_identity(),
        t1.scl@ == unit_scl(),
        t2.scl@ == unit_scl(),
    ensures
        w2m(t1) == crate::mat3::m_identity(),
        rs2(t2) == crate::mat3::m_identity(),
        m2w1(t1) == crate::mat3::m_identity(),
        sat_rel(t1, t2) == v_sub(t2.pos@, t1.pos@),
        forall|k: int|
            0 <= k < 8 ==> #[trigger] sat_vert2(t1, t2, k) == v_add(
                v_sub(t2.pos@, t1.pos@),
                corner_b(k),
            ),
        forall|j: int|
            0 <= j < 6 ==> #[trigger] sat_plane2(t1, t2, j) == (PlaneS {
                normal: unit_plane(j).normal,
                pos: v_add(v_sub(t2.pos@, t1.pos@), unit_plane(j).pos),
            }),
{
    let u = UNITS_PER_METER as int;
    assert(crate::fx::fx_div_s(u, u) == u && crate::fx::fx_div_s(0, u) == 0) by {
        vstd::arithmetic::div_mod::lemma_div_multiples_vanish(u, u);
        vstd::arithmetic::div_mod::lemma_div_of0(u);
        assert(u * u == 1000000000000int);
        assert(crate::fx::div_t(u * u, u) == (u * u) / u);
        assert((u * u) / u == u) by {
            vstd::arithmetic::div_mod::lemma_div_multiples_vanish(u, u);
        }
    }
    crate::fx::lemma_fx_mul_unit(u);
    crate::fx::lemma_fx_mul_unit(0);
    assert(w2m(t1) == crate::mat3::m_identity());
    assert(rs2(t2) == crate::mat3::m_identity());
    assert(m2w1(t1) == crate::mat3::m_identity());
    lemma_identity_vec(v_sub(t2.pos@, t1.pos@));
    assert forall|k: int|
        0 <= k < 8 implies #[trigger] sat_vert2(t1, t2, k) == v_add(
        v_sub(t2.pos@, t1.pos@),
        corner_b(k),
    ) by {
        lemma_identity_vec(corner_b(k));
        lemma_identity_vec(m_mul_vec_fx(crate::mat3::m_identity(), corner_b(k)));
    }
    assert forall|j: int|
        0 <= j < 6 implies #[trigger] sat_plane2(t1, t2, j) == (PlaneS {
        normal: unit_plane(j).normal,
        pos: v_add(v_sub(t2.pos@, t1.pos@), unit_plane(j).pos),
    }) by {
        lemma_identity_vec(unit_plane(j).normal);
        lemma_identity_vec(m_mul_vec_fx(crate::mat3::m_identity(), unit_plane(j).normal));
        lemma_identity_vec(unit_plane(j).pos);
        lemma_identity_vec(m_mul_vec_fx(crate::mat3::m_identity(), unit_plane(j).pos));
    }
}

/// A vertex is inside the six unit planes shifted by `shift` exactly
/// when it lies within half a unit of `shift` on every axis.
proof fn lemma_inside_shifted_unit_planes(planes: Seq<PlaneS>, shift: V3, v: V3)
    requires
        planes.len() == 6,
        forall|j: int|
            0 <= j < 6 ==> #[trigger] planes[j] == (PlaneS {
                normal: unit_plane(j).normal,
                pos: v_add(shift, unit_plane(j).pos),
            }),
    ensures
        inside_s(planes, v) <==> (abs_i(v.x - shift.x) <= UNIT_HALF as int && abs_i(
            v.y - shift.y,
        ) <= UNIT_HALF as int && abs_i(v.z - shift.z) <= UNIT_HALF as int),
{
    let u = UNITS_PER_METER as int;
    let h = UNIT_HALF as int;
    crate::fx::lemma_fx_mul_unit(v.x - shift.x - h);
    crate::fx::lemma_fx_mul_unit(v.y - shift.y - h);
    crate::fx::lemma_fx_mul_unit(v.z - shift.z - h);
    crate::fx::lemma_fx_mul_unit(0);
    lemma_fx_mul_neg_unit(v.x - shift.x + h);
    lemma_fx_mul_neg_unit(v.y - shift.y + h);
    lemma_fx_mul_neg_unit(v.z - shift.z + h);
    crate::fx::lemma_fx_mul_unit(v.x - (shift.x + 0));
    crate::fx::lemma_fx_mul_unit(v.y - (shift.y + 0));
    crate::fx::lemma_fx_mul_unit(v.z - (shift.z + 0));
    lemma_fx_mul_neg_unit(v.x - (shift.x + 0));
    lemma_fx_mul_neg_unit(v.y - (shift.y + 0));
    lemma_fx_mul_neg_unit(v.z - (shift.z + 0));
    assert(sd_s(planes[0], v) == v.y - shift.y - h);
    assert(sd_s(planes[1], v) == -(v.y - shift.y + h));
    assert(sd_s(planes[2], v) == v.x - shift.x - h);
    assert(sd_s(planes[3], v) == -(v.x - shift.x + h));
    assert(sd_s(planes[4], v) == v.z - shift.z - h);
    assert(sd_s(planes[5], v) == -(v.z - shift.z + h));
    assert(inside_upto(planes, v, 6) == (sd_s(planes[5], v) <= 0 && inside_upto(planes, v, 5)));
    assert(inside_upto(planes, v, 5) == (sd_s(planes[4], v) <= 0 && inside_upto(planes, v, 4)));
    assert(inside_upto(planes, v, 4) == (sd_s(planes[3], v) <= 0 && inside_upto(planes, v, 3)));
    assert(inside_upto(planes, v, 3) == (sd_s(planes[2], v) <= 0 && inside_upto(planes, v, 2)));
    assert(inside_upto(planes, v, 2) == (sd_s(planes[1], v) <= 0 && inside_upto(planes, v, 1)));
    assert(inside_upto(planes, v, 1) == (sd_s(planes[0], v) <= 0 && inside_upto(planes, v, 0)));
    assert(inside_upto(planes, v, 0));
}

/// The plane scan produces points exactly when some vertex is inside
/// every plane.
proof fn lemma_points_pos_iff(verts: Seq<V3>, planes: Seq<PlaneS>, m2w: M3, origin: V3, i: int)
    requires
        0 <= i,
    ensures
        sat_points_upto(verts, planes, m2w, origin, i).len() > 0 <==> exists|k: int|
            0 <= k < i && inside_s(planes, #[trigger] verts[k]),
    decreases i,
{
    if i > 0 {
        lemma_points_pos_iff(verts, planes, m2w, origin, i - 1);
        if inside_s(planes, verts[i - 1]) {
            assert(0 <= i - 1 < i && inside_s(planes, verts[i - 1]));
        }
    }
}

/// Law: for unit boxes with no rotation, the separating-axis test
/// agrees with the direct interval-overlap test: the boxes collide
/// exactly when their centers are within one meter (the sum of the two
/// half-extents) on all three axes.
///
/// The unit-scale premise is load-bearing: at other scales the truncated
/// inverse-scale mapping can move the exact-touch boundary by a few
/// micrometers (a 3 m box stores 333333 as its inverse scale, so centers
/// 2000001 µm apart against a unit box land on the same unit-space
/// coordinate as 2000000 µm and still report contact), so the exact
/// closed-interval law holds only where the mapping is exact.
pub proof fn lemma_box_box_unit_axis_aligned_law(
    t1: Transform,
    t2: Transform,
    r: Option<CollisionInfo>,
)
    requires
        sat_result_ok(t1, t2, r),
        t1.rot@ == crate::mat3::m_identity(),
        t2.rot@ == crate::mat3::m_identity(),
        t1.scl@ == unit_scl(),
        t2.scl@ == unit_scl(),
        v_bounded(v_sub(t2.pos@, t1.pos@), COLLIDE_REL_CAP as int),
    ensures
        r is Some <==> (abs_i(t2.pos@.x - t1.pos@.x) <= UNITS_PER_METER as int && abs_i(
            t2.pos@.y - t1.pos@.y,
        ) <= UNITS_PER_METER as int && abs_i(t2.pos@.z - t1.pos@.z) <= UNITS_PER_METER as int),
{
    let rel = v_sub(t2.pos@, t1.pos@);
    let h = UNIT_HALF as int;
    lemma_unit_setup(t1, t2);
    let p2 = planes2_seq(t1, t2);
    assert(forall|j: int|
        0 <= j < 6 ==> #[trigger] p2[j] == (PlaneS {
            normal: unit_plane(j).normal,
            pos: v_add(rel, unit_plane(j).pos),
        }));
    lemma_points_pos_iff(verts1_seq(), p2, m2w1(t1), t1.pos@, 8);
    lemma_points_pos_iff(verts2_seq(t1, t2), planes1_seq(), m2w1(t1), t1.pos@, 8);
    if r is Some {
        assert(sat_hit(t1, t2));
        if sat_points1(t1, t2).len() > 0 {
            let k = choose|k: int| 0 <= k < 8 && inside_s(p2, #[trigger] verts1_seq()[k]);
            let c = corner_a(k);
            assert(verts1_seq()[k] == c);
            lemma_inside_shifted_unit_planes(p2, rel, c);
            assert(abs_i(c.x) == h && abs_i(c.y) == h && abs_i(c.z) == h);
        } else {
            let k = choose|k: int|
                0 <= k < 8 && inside_s(planes1_seq(), #[trigger] verts2_seq(t1, t2)[k]);
            let c = corner_b(k);
            assert(verts2_seq(t1, t2)[k] == v_add(rel, c));
            assert(forall|j: int|
                0 <= j < 6 ==> #[trigger] planes1_seq()[j] == (PlaneS {
                    normal: unit_plane(j).normal,
                    pos: v_add(V3 { x: 0, y: 0, z: 0 }, unit_plane(j).pos),
                }));
            lemma_inside_shifted_unit_planes(
                planes1_seq(),
                V3 { x: 0, y: 0, z: 0 },
                v_add(rel, c),
            );
            assert(abs_i(c.x) == h && abs_i(c.y) == h && abs_i(c.z) == h);
        }
    }
    if abs_i(rel.x) <= UNITS_PER_METER as int && abs_i(rel.y) <= UNITS_PER_METER as int && abs_i(
        rel.z,
    ) <= UNITS_PER_METER as int {
        let k0: int = (if rel.x >= 0 {
            2int
        } else {
            0int
        }) + (if rel.y >= 0 {
            1int
        } else {
            0int
        }) + (if rel.z >= 0 {
            4int
        } else {
            0int
        });
        let c = corner_a(k0);
        assert(c.x == if rel.x >= 0 {
            h
        } else {
            -h
        });
        assert(c.y == if rel.y >= 0 {
            h
        } else {
            -h
        });
        assert(c.z == if rel.z >= 0 {
            h
        } else {
            -h
        });
        lemma_inside_shifted_unit_planes(p2, rel, c);
        assert(inside_s(p2, c));
        assert(verts1_seq()[k0] == c);
        assert(0 <= k0 < 8 && inside_s(p2, verts1_seq()[k0]));
        assert(sat_points1(t1, t2).len() > 0);
        assert(sat_hit(t1, t2));
    }
}

/// The sphere–sphere manifold, exactly as `collide` produces it.
pub open spec fn sphere_sphere_result_ok(a: Transform, b: Transform, r: Option<CollisionInfo>) -> bool {
    &&& (r is Some <==> sphere_sphere_hit(a, b))
    &&& match r {
        Some(info) => {
            let diff = v_sub(a.pos@, b.pos@);
            &&& info.normal@ == v_unit_fx(diff)
            &&& info.collision_points@.len() == 1
            &&& info.collision_points@[0].0@ == v_add(
                v_scale_fx(v_unit_fx(v_sub(b.pos@, a.pos@)), div_t(a.scl@.x, 2)),
                a.pos@,
            )
            &&& info.collision_points@[0].1 == sqrt_floor(v_mag2(diff)) - radii_sum(a, b)
        },
        None => true,
    }
}

/// The sphere–box manifold, exactly as `collide` produces it.
pub open spec fn sphere_box_result_ok(
    cube: Transform,
    sphere: Transform,
    r: Option<CollisionInfo>,
) -> bool {
    &&& (r is Some <==> sphere_box_hit(cube, sphere))
    &&& match r {
        Some(info) => {
            let local = closest_point_local(cube, sphere);
            let d = v_sub(sphere_center_local(cube, sphere), local);
            &&& info.normal@ == m_mul_vec_fx(cube.rot@, face_normal_local(cube, sphere))
            &&& info.collision_points@.len() == 1
            &&& info.collision_points@[0].0@ == v_add(m_mul_vec_fx(cube.rot@, local), cube.pos@)
            &&& info.collision_points@[0].1 == sqrt_floor(v_mag2(d)) - div_t(sphere.scl@.x, 2)
        },
        None => true,
    }
}

/// The box–box manifold, exactly as `collide` produces it: the
/// separating-axis result within numeric range, no collision beyond it.
pub open spec fn sat_result_ok(t1: Transform, t2: Transform, r: Option<CollisionInfo>) -> bool {
    if v_bounded(v_sub(t2.pos@, t1.pos@), COLLIDE_REL_CAP as int) {
        &&& (r is Some <==> sat_hit(t1, t2))
        &&& match r {
            Some(info) => {
                &&& info.normal@ == sat_normal(t1, t2)
                &&& points_match(
                    info.collision_points@,
                    sat_points1(t1, t2) + sat_points2(t1, t2),
                )
            },
            None => true,
        }
    } else {
        r is None
    }
}

/// A collision manifold as a mathematical value: the normal and the
/// ordered contact points, each a world position with its penetration.
pub struct ManifoldS {
    pub normal: V3,
    pub points: Seq<(V3, int)>,
}

/// The sphere–sphere manifold as a function of the two transforms.
pub open spec fn sphere_sphere_s(a: Transform, b: Transform) -> Option<ManifoldS> {
    let diff = v_sub(a.pos@, b.pos@);
    if sphere_sphere_hit(a, b) {
        Some(
            ManifoldS {
                normal: v_unit_fx(diff),
                points: seq![
                    (
                        v_add(
                            v_scale_fx(v_unit_fx(v_sub(b.pos@, a.pos@)), div_t(a.scl@.x, 2)),
                            a.pos@,
                        ),
                        sqrt_floor(v_mag2(diff)) - radii_sum(a, b),
                    ),
                ],
            },
        )
    } else {
        None
    }
}

/// The sphere–box manifold as a function of the two transforms.
pub open spec fn sphere_box_s(cube: Transform, sphere: Transform) -> Option<ManifoldS> {
    let local = closest_point_local(cube, sphere);
    let d = v_sub(sphere_center_local(cube, sphere), local);
    if sphere_box_hit(cube, sphere) {
        Some(
            ManifoldS {
                normal: m_mul_vec_fx(cube.rot@, face_normal_local(cube, sphere)),
                points: seq![
                    (
                        v_add(m_mul_vec_fx(cube.rot@, local), cube.pos@),
                        sqrt_floor(v_mag2(d)) - div_t(sphere.scl@.x, 2),
                    ),
                ],
            },
        )
    } else {
        None
    }
}

/// The box–box manifold as a function of the two transforms.
pub open spec fn box_box_s(t1: Transform, t2: Transform) -> Option<ManifoldS> {
    if !v_bounded(v_sub(t2.pos@, t1.pos@), COLLIDE_REL_CAP as int) {
        None
    } else if sat_hit(t1, t2) {
        Some(
            ManifoldS {
                normal: sat_normal(t1, t2),
                points: sat_points1(t1, t2) + sat_points2(t1, t2),
            },
        )
    } else {
        None
    }
}

/// The whole narrow phase as a function of the two colliders: exactly
/// the manifold `collide` produces, `None` exactly when it reports no
/// collision.
pub open spec fn collide_s(a: Collider, b: Collider) -> Option<ManifoldS> {
    match (a.shape, b.shape) {
        (ColliderType::Box, ColliderType::Box) => box_box_s(a.transform, b.transform),
        (ColliderType::Sphere, ColliderType::Box) => sphere_box_s(b.transform, a.transform),
        (ColliderType::Box, ColliderType::Sphere) => sphere_box_s(a.transform, b.transform),
        (ColliderType::Sphere, ColliderType::Sphere) => sphere_sphere_s(a.transform, b.transform),
        _ => None,
    }
}

/// The executable result carries exactly the model manifold.
pub open spec fn result_matches(r: Option<CollisionInfo>, m: Option<ManifoldS>) -> bool {
    match m {
        Some(ms) => {
            &&& r is Some
            &&& r.unwrap().normal@ == ms.normal
            &&& points_match(r.unwrap().collision_points@, ms.points)
        },
        None => r is None,
    }
}

/// Narrow-phase dispatch over the shape pair.  Convex colliders are not
/// yet supported here and are excluded by precondition, mirroring the
/// fatal unsupported-pair condition of the design; the remaining pairs
/// are delegated to the exact tests above, the sphere–box pair with the
/// box taken as the frame of reference whichever side it arrives on.
pub fn collide(a: &Collider, b: &Collider) -> (r: Option<CollisionInfo>)
    requires
        a.wf(),
        b.wf(),
        !(a.shape is Convex),
        !(b.shape is Convex),
    ensures
        a.shape is Box && b.shape is Box ==> sat_result_ok(a.transform, b.transform, r),
        a.shape is Sphere && b.shape is Box ==> sphere_box_result_ok(
            b.transform,
            a.transform,
            r,
        ),
        a.shape is Box && b.shape is Sphere ==> sphere_box_result_ok(
            a.transform,
            b.transform,
            r,
        ),
        a.shape is Sphere && b.shape is Sphere ==> sphere_sphere_result_ok(
            a.transform,
            b.transform,
            r,
        ),
        result_matches(r, collide_s(*a, *b)),
{
    let r = match (a.shape, b.shape) {
        (ColliderType::Box, ColliderType::Box) => collision_SAT(a, b),
        (ColliderType::Sphere, ColliderType::Box) => sphere_box(&b.transform, &a.transform),
        (ColliderType::Box, ColliderType::Sphere) => sphere_box(&a.transform, &b.transform),
        (ColliderType::Sphere, ColliderType::Sphere) => sphere_sphere(
            &a.transform,
            &b.transform,
        ),
        _ => None,
    };
    proof {
        match collide_s(*a, *b) {
            Some(ms) => {
                assert(r is Some);
                assert(r.unwrap().collision_points@ =~= r.unwrap().collision_points@);
                if a.shape is Sphere && b.shape is Sphere {
                    assert(points_match(r.unwrap().collision_points@, ms.points));
                }
                if (a.shape is Sphere && b.shape is Box) || (a.shape is Box
                    && b.shape is Sphere) {
                    assert(points_match(r.unwrap().collision_points@, ms.points));
                }
            },
            None => {
                assert(r is None);
            },
        }
    }
    r
}

} // verus!
