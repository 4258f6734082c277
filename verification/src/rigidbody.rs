//! Rigid-body state and impulse application.
//!
//! A body couples a transform with its motion state: linear velocity in
//! micrometers per tick, angular velocity in fixed-point radians per
//! tick, and the material properties (density, friction, restitution).
//! Mass and the inertia tensor are always derived from shape, scale and
//! density, never stored.

use vstd::prelude::*;
use crate::fx::{abs_i, fx_div_s, fx_div, fx_mul, UNITS_PER_METER};
use crate::vec3::{IVec3, V3, v_add, v_cross_fx, v_bounded};
use crate::transform::Transform;
use crate::collisions::ColliderType;
use crate::inertia::{mass_s, moment_of_inertia_s, DENS_CAP, MASS_SCL_CAP, MASS_CAP};

verus! {

/// Largest force component an impulse accepts, fixed point.
pub const FORCE_CAP: i64 = 1000000000000;

/// Largest linear velocity component the dynamics operate on,
/// micrometers per tick.
pub const VEL_CAP: i64 = 1000000000000000;

/// Largest angular velocity component the point-velocity formula
/// accepts, fixed-point radians per tick.
pub const AV_CAP: i64 = 1000000000;

/// Largest contact offset from the center the dynamics accept, in
/// micrometers.
pub const ARM_CAP: i64 = 1000000000;

/// Smallest inertia-tensor component torque is applied against, fixed
/// point; below it the angular response is skipped rather than blown up.
pub const TENSOR_MIN: i64 = 1000;

/// A rigid body: placement, shape, material, and motion state.
#[derive(Clone, Copy, PartialEq, Eq, Structural, Debug)]
pub struct Body {
    pub transform: Transform,
    pub collider_type: ColliderType,
    pub density: i64,
    pub friction: i64,
    pub elasticity: i64,
    pub velocity: IVec3,
    pub angular_velocity: IVec3,
}

/// Velocity change of an impulse: force over mass, carried to
/// fixed-point precision.
pub open spec fn impulse_delta_s(force: V3, m: int) -> V3 {
    V3 { x: fx_div_s(force.x, m), y: fx_div_s(force.y, m), z: fx_div_s(force.z, m) }
}

/// Angular velocity change of a torque: the lever-arm cross the force,
/// divided component-wise by the diagonal inertia tensor at the center
/// of mass (deliberately not translated to the contact point).
pub open spec fn torque_delta_s(rel: V3, force: V3, tensor: V3) -> V3 {
    let t = v_cross_fx(rel, force);
    V3 { x: fx_div_s(t.x, tensor.x), y: fx_div_s(t.y, tensor.y), z: fx_div_s(t.z, tensor.z) }
}

/// Velocity a local point moves at from rotation alone: the angular
/// velocity cross the point — the rotational half of the standard
/// rigid-body point-velocity formula.
pub open spec fn local_point_velocity_s(av: V3, point: V3) -> V3 {
    v_cross_fx(av, point)
}

impl Body {
    /// Material, shape and placement bounds every dynamic operation
    /// relies on.
    pub open spec fn wf(&self) -> bool {
        &&& self.transform.wf()
        &&& !(self.collider_type is Convex)
        &&& self.transform.scl@.x <= MASS_SCL_CAP as int
        &&& self.transform.scl@.y <= MASS_SCL_CAP as int
        &&& self.transform.scl@.z <= MASS_SCL_CAP as int
        &&& (self.collider_type is Box ==> crate::collisions::box_scl_ok(self.transform))
        &&& 1 <= self.density <= DENS_CAP
        &&& 0 <= self.elasticity <= 2 * UNITS_PER_METER
        &&& 0 <= self.friction <= 2 * UNITS_PER_METER
    }

    /// The body's collider: its shape around its transform.
    pub open spec fn collider_s(&self) -> crate::collisions::Collider {
        crate::collisions::Collider { shape: self.collider_type, transform: self.transform }
    }

    /// Fresh body at a transform: density one, no motion, the given
    /// shape, and moderate default friction and restitution.
    pub fn new(transform: Transform, collider_type: ColliderType) -> (b: Body)
        requires
            transform.wf(),
            !(collider_type is Convex),
            transform.scl@.x <= MASS_SCL_CAP as int,
            transform.scl@.y <= MASS_SCL_CAP as int,
            transform.scl@.z <= MASS_SCL_CAP as int,
            collider_type is Box ==> crate::collisions::box_scl_ok(transform),
        ensures
            b.wf(),
            b.transform == transform,
            b.collider_type == collider_type,
            b.density == UNITS_PER_METER,
            b.friction == 400000,
            b.elasticity == 300000,
            b.velocity@ == (V3 { x: 0int, y: 0int, z: 0int }),
            b.angular_velocity@ == (V3 { x: 0int, y: 0int, z: 0int }),
    {
        Body {
            transform,
            collider_type,
            density: UNITS_PER_METER,
            friction: 400000,
            elasticity: 300000,
            velocity: IVec3::zero(),
            angular_velocity: IVec3::zero(),
        }
    }

    /// Mass, derived from shape, scale and density.
    pub fn mass(&self) -> (r: i64)
        requires
            self.wf(),
        ensures
            r == mass_s(self.collider_type, self.transform.scl@, self.density as int),
            0 <= r <= MASS_CAP,
    {
        crate::inertia::mass(self.collider_type, &self.transform.scl(), self.density)
    }

    /// Diagonal inertia tensor, derived the same way.
    pub fn inertia_tensor(&self) -> (r: IVec3)
        requires
            self.wf(),
        ensures
            r@ == moment_of_inertia_s(
                self.collider_type,
                self.transform.scl@,
                mass_s(self.collider_type, self.transform.scl@, self.density as int),
            ),
            r@.x >= 0 && r@.y >= 0 && r@.z >= 0,
            v_bounded(r@, 300000000000000000),
    {
        let m = self.mass();
        crate::inertia::moment_of_inertia(self.collider_type, &self.transform.scl(), m)
    }

    /// Applies a linear impulse: velocity grows by force over mass.
    pub fn impulse(&mut self, force: &IVec3)
        requires
            old(self).wf(),
            v_bounded(force@, FORCE_CAP as int),
            mass_s(
                old(self).collider_type,
                old(self).transform.scl@,
                old(self).density as int,
            ) >= 1,
            v_bounded(old(self).velocity@, VEL_CAP as int),
        ensures
            *final(self) == (Body {
                velocity: IVec3 {
                    x: (old(self).velocity@.x + impulse_delta_s(
                        force@,
                        mass_s(
                            old(self).collider_type,
                            old(self).transform.scl@,
                            old(self).density as int,
                        ),
                    ).x) as i64,
                    y: (old(self).velocity@.y + impulse_delta_s(
                        force@,
                        mass_s(
                            old(self).collider_type,
                            old(self).transform.scl@,
                            old(self).density as int,
                        ),
                    ).y) as i64,
                    z: (old(self).velocity@.z + impulse_delta_s(
                        force@,
                        mass_s(
                            old(self).collider_type,
                            old(self).transform.scl@,
                            old(self).density as int,
                        ),
                    ).z) as i64,
                },
                ..*old(self)
            }),
            final(self).velocity@ == v_add(
                old(self).velocity@,
                impulse_delta_s(
                    force@,
                    mass_s(
                        old(self).collider_type,
                        old(self).transform.scl@,
                        old(self).density as int,
                    ),
                ),
            ),
    {
        let m = self.mass();
        proof {
            lemma_div_fits(force@.x, m as int);
            lemma_div_fits(force@.y, m as int);
            lemma_div_fits(force@.z, m as int);
        }
        let dx = fx_div(force.x, m);
        let dy = fx_div(force.y, m);
        let dz = fx_div(force.z, m);
        self.velocity = IVec3 {
            x: self.velocity.x + dx,
            y: self.velocity.y + dy,
            z: self.velocity.z + dz,
        };
    }

    /// Accumulates the angular velocity change of a force applied at an
    /// offset from the center: lever cross force over the diagonal
    /// tensor.  Requires every tensor component above the floor; the
    /// physics step checks that before calling.
    pub fn torque_from_force_at_pos(&mut self, force: &IVec3, rel_pos: &IVec3)
        requires
            old(self).wf(),
            v_bounded(force@, FORCE_CAP as int),
            v_bounded(rel_pos@, ARM_CAP as int),
            v_bounded(old(self).angular_velocity@, 4000000000000000000),
            moment_of_inertia_s(
                old(self).collider_type,
                old(self).transform.scl@,
                mass_s(
                    old(self).collider_type,
                    old(self).transform.scl@,
                    old(self).density as int,
                ),
            ).x >= TENSOR_MIN as int,
            moment_of_inertia_s(
                old(self).collider_type,
                old(self).transform.scl@,
                mass_s(
                    old(self).collider_type,
                    old(self).transform.scl@,
                    old(self).density as int,
                ),
            ).y >= TENSOR_MIN as int,
            moment_of_inertia_s(
                old(self).collider_type,
                old(self).transform.scl@,
                mass_s(
                    old(self).collider_type,
                    old(self).transform.scl@,
                    old(self).density as int,
                ),
            ).z >= TENSOR_MIN as int,
        ensures
            final(self).angular_velocity@ == v_add(
                old(self).angular_velocity@,
                torque_delta_s(
                    rel_pos@,
                    force@,
                    moment_of_inertia_s(
                        old(self).collider_type,
                        old(self).transform.scl@,
                        mass_s(
                            old(self).collider_type,
                            old(self).transform.scl@,
                            old(self).density as int,
                        ),
                    ),
                ),
            ),
            *final(self) == (Body { angular_velocity: final(self).angular_velocity, ..*old(self) }),
    {
        let tensor = self.inertia_tensor();
        proof {
            crate::vec3::lemma_cross_fx_cap(
                rel_pos@,
                force@,
                ARM_CAP as int,
                FORCE_CAP as int,
                1000000000000000,
            );
            let t = v_cross_fx(rel_pos@, force@);
            lemma_div_tensor_fits(t.x, tensor@.x);
            lemma_div_tensor_fits(t.y, tensor@.y);
            lemma_div_tensor_fits(t.z, tensor@.z);
        }
        let torque = rel_pos.cross_fx(force);
        let dx = fx_div(torque.x, tensor.x);
        let dy = fx_div(torque.y, tensor.y);
        let dz = fx_div(torque.z, tensor.z);
        self.angular_velocity = IVec3 {
            x: self.angular_velocity.x + dx,
            y: self.angular_velocity.y + dy,
            z: self.angular_velocity.z + dz,
        };
    }

    /// Applies an impulse at an offset: the linear impulse, then the
    /// torque it exerts.
    pub fn impulse_at_pos(&mut self, force: &IVec3, rel_pos: &IVec3)
        requires
            old(self).wf(),
            v_bounded(force@, FORCE_CAP as int),
            v_bounded(rel_pos@, ARM_CAP as int),
            v_bounded(old(self).velocity@, VEL_CAP as int),
            v_bounded(old(self).angular_velocity@, 4000000000000000000),
            mass_s(
                old(self).collider_type,
                old(self).transform.scl@,
                old(self).density as int,
            ) >= 1,
            moment_of_inertia_s(
                old(self).collider_type,
                old(self).transform.scl@,
                mass_s(
                    old(self).collider_type,
                    old(self).transform.scl@,
                    old(self).density as int,
                ),
            ).x >= TENSOR_MIN as int,
            moment_of_inertia_s(
                old(self).collider_type,
                old(self).transform.scl@,
                mass_s(
                    old(self).collider_type,
                    old(self).transform.scl@,
                    old(self).density as int,
                ),
            ).y >= TENSOR_MIN as int,
            moment_of_inertia_s(
                old(self).collider_type,
                old(self).transform.scl@,
                mass_s(
                    old(self).collider_type,
                    old(self).transform.scl@,
                    old(self).density as int,
                ),
            ).z >= TENSOR_MIN as int,
        ensures
            final(self).velocity@ == v_add(
                old(self).velocity@,
                impulse_delta_s(
                    force@,
                    mass_s(
                        old(self).collider_type,
                        old(self).transform.scl@,
                        old(self).density as int,
                    ),
                ),
            ),
            final(self).angular_velocity@ == v_add(
                old(self).angular_velocity@,
                torque_delta_s(
                    rel_pos@,
                    force@,
                    moment_of_inertia_s(
                        old(self).collider_type,
                        old(self).transform.scl@,
                        mass_s(
                            old(self).collider_type,
                            old(self).transform.scl@,
                            old(self).density as int,
                        ),
                    ),
                ),
            ),
            *final(self) == (Body {
                velocity: final(self).velocity,
                angular_velocity: final(self).angular_velocity,
                ..*old(self)
            }),
    {
        self.impulse(force);
        self.torque_from_force_at_pos(force, rel_pos);
    }

    /// Velocity of a point given in body-local micrometers: the
    /// rotational sweep plus the linear velocity.
    pub fn velocity_at_point(&self, point: &IVec3) -> (r: IVec3)
        requires
            self.wf(),
            v_bounded(point@, ARM_CAP as int),
            v_bounded(self.angular_velocity@, AV_CAP as int),
            v_bounded(self.velocity@, VEL_CAP as int),
        ensures
            r@ == v_add(
                local_point_velocity_s(self.angular_velocity@, point@),
                self.velocity@,
            ),
    {
        let lv = self.local_velocity_at_point(point);
        lv.add(&self.velocity)
    }

    /// The rotational part of the point velocity alone.
    pub fn local_velocity_at_point(&self, point: &IVec3) -> (r: IVec3)
        requires
            self.wf(),
            v_bounded(point@, ARM_CAP as int),
            v_bounded(self.angular_velocity@, AV_CAP as int),
        ensures
            r@ == local_point_velocity_s(self.angular_velocity@, point@),
            v_bounded(r@, 2000000000000),
    {
        proof {
            crate::vec3::lemma_cross_fx_cap(
                self.angular_velocity@,
                point@,
                AV_CAP as int,
                ARM_CAP as int,
                1000000000000,
            );
        }
        self.angular_velocity.cross_fx(point)
    }
}

/// Dividing a capped force by a mass of at least one stays inside i64.
proof fn lemma_div_fits(f: int, m: int)
    requires
        abs_i(f) <= FORCE_CAP as int,
        m >= 1,
    ensures
        abs_i(fx_div_s(f, m)) <= 1000000000000000000,
        i64::MIN <= fx_div_s(f, m) <= i64::MAX,
{
    assert(abs_i(f * (UNITS_PER_METER as int)) <= 1000000000000000000) by {
        vstd::arithmetic::mul::lemma_mul_upper_bound(
            abs_i(f),
            FORCE_CAP as int,
            UNITS_PER_METER as int,
            UNITS_PER_METER as int,
        );
        assert(abs_i(f) * (UNITS_PER_METER as int) == abs_i(f * (UNITS_PER_METER as int)))
            by (nonlinear_arith);
    }
    crate::fx::lemma_div_t_bound(f * (UNITS_PER_METER as int), m, 1000000000000000000);
    vstd::arithmetic::div_mod::lemma_div_is_ordered_by_denominator(
        1000000000000000000,
        1,
        abs_i(m),
    );
}

/// Dividing a torque by a tensor component above the floor stays well
/// inside i64.
proof fn lemma_div_tensor_fits(t: int, tensor: int)
    requires
        abs_i(t) <= 2000000000000000,
        tensor >= TENSOR_MIN as int,
    ensures
        abs_i(fx_div_s(t, tensor)) <= 2000000000000000000,
        i64::MIN <= fx_div_s(t, tensor) <= i64::MAX,
{
    assert(abs_i(t * (UNITS_PER_METER as int)) <= 2000000000000000int * 1000000) by {
        vstd::arithmetic::mul::lemma_mul_upper_bound(
            abs_i(t),
            2000000000000000,
            UNITS_PER_METER as int,
            UNITS_PER_METER as int,
        );
        assert(abs_i(t) * (UNITS_PER_METER as int) == abs_i(t * (UNITS_PER_METER as int)))
            by (nonlinear_arith);
    }
    crate::fx::lemma_div_t_bound(
        t * (UNITS_PER_METER as int),
        tensor,
        2000000000000000int * 1000000,
    );
    assert((2000000000000000int * 1000000) / abs_i(tensor) <= 2000000000000000000) by {
        vstd::arithmetic::div_mod::lemma_div_is_ordered_by_denominator(
            2000000000000000int * 1000000,
            TENSOR_MIN as int,
            abs_i(tensor),
        );
        crate::fx::lemma_div_le(
            2000000000000000int * 1000000,
            TENSOR_MIN as int,
            2000000000000000000,
        );
    }
}

} // verus!
