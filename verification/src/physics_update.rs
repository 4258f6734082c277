//! The per-tick physics driver.
//!
//! For every rigid body, in index order: apply gravity, ask the broad
//! phase what could be touching, run the narrow phase on each candidate,
//! resolve confirmed contacts with a positional correction and impulses,
//! then integrate.  Rotation integration needs the sine and cosine of
//! each per-tick angle, which fixed-point arithmetic cannot supply, so
//! the step returns each body's angular step (damped angular velocity
//! over the tick rate) for the caller to turn into rotations.
//!
//! Numeric edge policies, each applied in place of undefined arithmetic:
//! a degenerate (zero-ish) contact normal is ignored; penetrations,
//! correction vectors, forces and angular responses saturate at fixed
//! caps rather than overflow; a body integrating past the world's
//! coordinate cap keeps its position.  The step's contract pins the
//! whole tick exactly: `tick_body_s` is the mathematical tick — gravity,
//! every broad-phase candidate resolved in order (positional correction
//! and impulses included, every saturation guard a stated branch), then
//! integration — and `do_physics` returns precisely that state for every
//! body, each ticked against the state its predecessors left behind.

use vstd::prelude::*;
use crate::fx::{abs_i, fx_mul_s, fx_div_s, fx_mul, fx_div, UNITS_PER_METER};
use crate::vec3::{
    IVec3, V3, v_add, v_sub, v_neg, v_scale_fx, v_div_t, v_dot_fx, v_bounded, scale_fx_checked,
    iv_of,
};
use crate::transform::{Transform, POS_CAP};
use crate::aabb::{AABB, aabb_of_transform};
use crate::sas::SpatialAccelerationStructure;
use crate::collisions::{Collider, collide, collide_s, ManifoldS};
use crate::rigidbody::{
    Body, FORCE_CAP, VEL_CAP, AV_CAP, ARM_CAP, TENSOR_MIN, impulse_delta_s, torque_delta_s,
    local_point_velocity_s,
};
use crate::inertia::{mass_s, moment_of_inertia_s};

verus! {

/// Gravity per tick, micrometers per tick per tick.
pub const GRAVITY: i64 = -28912;

/// Fixed tick rate.
pub const TICKS_PER_SECOND: i64 = 60;

/// Angular velocity keeps this fraction per tick.
pub const ANGULAR_DAMPING_FX: i64 = 990000;

/// Deepest penetration the positional correction responds to.
pub const PEN_CAP: i64 = 1000000000;

/// Largest positional correction per contact, per axis, micrometers.
pub const CORR_CAP: i64 = 2000000000;

/// Largest collision-normal component resolution accepts, fixed point.
pub const NORM_CAP: i64 = 100000000;

/// Largest point-velocity component resolution accepts.
pub const VAT_CAP: i64 = 10000000000000;

/// Largest per-tick linear velocity entering a tick.
pub const TICK_VEL_CAP: i64 = 1000000000000;

/// Position cap with room for one tick of movement.
pub const TICK_POS_CAP: i64 = POS_CAP - 20000000000;

/// The body's broad-phase query returns nothing but the body itself, so
/// the tick reduces to gravity and integration.
pub open spec fn isolated(sas: SpatialAccelerationStructure, b: Body, id: u64) -> bool {
    let bb = aabb_of_transform(b.transform);
    sas.nodes@.len() == 0 || (forall|k: int|
        0 <= k < sas.collect(0, bb).len() ==> #[trigger] sas.collect(0, bb)[k] == id)
}

/// Every body is fit to enter a tick.
pub open spec fn tick_body_ok(b: Body) -> bool {
    &&& b.wf()
    &&& v_bounded(b.velocity@, TICK_VEL_CAP as int)
    &&& v_bounded(b.angular_velocity@, AV_CAP as int)
    &&& v_bounded(b.transform.pos@, TICK_POS_CAP as int)
    &&& mass_s(b.collider_type, b.transform.scl@, b.density as int) >= 1
}

/// What one isolated tick does to a body: gravity into the velocity,
/// one sixtieth of it into the position, damping into the angular
/// velocity.
pub open spec fn isolated_tick_velocity(b: Body) -> V3 {
    v_add(b.velocity@, V3 { x: 0, y: GRAVITY as int, z: 0 })
}

pub open spec fn isolated_tick_pos(b: Body) -> V3 {
    v_add(b.transform.pos@, v_div_t(isolated_tick_velocity(b), TICKS_PER_SECOND as int))
}

pub open spec fn isolated_tick_av(b: Body) -> V3 {
    v_scale_fx(b.angular_velocity@, ANGULAR_DAMPING_FX as int)
}

/// The angular step handed back for rotation integration.
pub open spec fn isolated_tick_rot_step(b: Body) -> V3 {
    v_div_t(isolated_tick_av(b), TICKS_PER_SECOND as int)
}

/// The velocity an isolated body has after `n` ticks of gravity: each
/// tick adds the constant per-tick gravity, which is exactly what the
/// tick's contract gives a body whose broad-phase query finds only
/// itself.
pub open spec fn velocity_after_ticks(v0: V3, n: nat) -> V3
    decreases n,
{
    if n == 0 {
        v0
    } else {
        v_add(velocity_after_ticks(v0, (n - 1) as nat), V3 { x: 0, y: GRAVITY as int, z: 0 })
    }
}

/// Law: a body falling free for `n` ticks carries exactly `n` times the
/// per-tick gravity on top of its starting velocity — the pure
/// integration path accumulates nothing else.
pub proof fn lemma_free_fall_velocity(v0: V3, n: nat)
    ensures
        velocity_after_ticks(v0, n) == (V3 { x: v0.x, y: v0.y + n * GRAVITY, z: v0.z }),
    decreases n,
{
    if n > 0 {
        lemma_free_fall_velocity(v0, (n - 1) as nat);
    }
}

/// Mass of a body, from its own fields.
pub open spec fn body_mass(b: Body) -> int {
    mass_s(b.collider_type, b.transform.scl@, b.density as int)
}

/// Diagonal inertia tensor of a body, from its own fields.
pub open spec fn body_tensor(b: Body) -> V3 {
    moment_of_inertia_s(b.collider_type, b.transform.scl@, body_mass(b))
}

/// Running deepest penetration over the first `p` contact points, capped
/// at `PEN_CAP`, exactly as the scan keeps it.
pub open spec fn pen_fold(pts: Seq<(V3, int)>, p: int) -> int
    decreases p,
{
    if p <= 0 {
        0
    } else {
        let prev = pen_fold(pts, p - 1);
        let pen = pts[p - 1].1;
        if pen > prev {
            if pen > PEN_CAP as int {
                PEN_CAP as int
            } else {
                pen
            }
        } else {
            prev
        }
    }
}

/// Running sum of the in-range contact positions over the first `p`
/// points.
pub open spec fn total_fold(pts: Seq<(V3, int)>, p: int) -> V3
    decreases p,
{
    if p <= 0 {
        V3 { x: 0, y: 0, z: 0 }
    } else {
        let prev = total_fold(pts, p - 1);
        if v_bounded(pts[p - 1].0, 1000000000000000) {
            v_add(prev, pts[p - 1].0)
        } else {
            prev
        }
    }
}

/// The first `p` contact positions all lie in the sane coordinate range.
pub open spec fn points_sane_upto(pts: Seq<(V3, int)>, p: int) -> bool
    decreases p,
{
    p <= 0 || (v_bounded(pts[p - 1].0, 1000000000000000) && points_sane_upto(pts, p - 1))
}

/// What resolving one confirmed manifold does to the body, exactly: the
/// positional correction along the normal by the deepest penetration,
/// then the torque and linear impulses at the averaged contact point.
/// Every saturation guard of the resolution appears as the matching
/// branch, so the result is pinned for every input.
#[verifier::opaque]
pub open spec fn resolve_manifold_s(body: Body, other: Body, m: ManifoldS) -> Body {
    let npoints = m.points.len() as int;
    if !v_bounded(m.normal, NORM_CAP as int) {
        body
    } else if !(v_bounded(body.velocity@, VEL_CAP as int) && v_bounded(
        body.angular_velocity@,
        AV_CAP as int,
    )) {
        body
    } else if npoints == 0 || npoints > 64 {
        body
    } else if !points_sane_upto(m.points, npoints) {
        body
    } else {
        let greatest = pen_fold(m.points, npoints);
        let corr = v_scale_fx(m.normal, greatest);
        let pos1 = if v_bounded(corr, CORR_CAP as int) && v_bounded(
            v_add(body.transform.pos@, corr),
            POS_CAP as int,
        ) {
            v_add(body.transform.pos@, corr)
        } else {
            body.transform.pos@
        };
        let b1 = Body { transform: Transform { pos: iv_of(pos1), ..body.transform }, ..body };
        let avg = v_div_t(total_fold(m.points, npoints), npoints);
        let arm = v_sub(avg, pos1);
        if !v_bounded(arm, ARM_CAP as int) {
            b1
        } else {
            let e = fx_mul_s(body.elasticity as int, other.elasticity as int) + UNITS_PER_METER
                as int;
            let vat = v_add(local_point_velocity_s(b1.angular_velocity@, arm), b1.velocity@);
            if !v_bounded(vat, VAT_CAP as int) {
                b1
            } else {
                let d1 = v_dot_fx(m.normal, vat);
                let d2 = v_dot_fx(m.normal, m.normal);
                if d2 < 1000 {
                    b1
                } else {
                    let q = fx_div_s(d1, d2);
                    let en = v_scale_fx(m.normal, -e);
                    if !v_bounded(en, 1000000000000) {
                        b1
                    } else {
                        let desired = v_scale_fx(en, q);
                        if !v_bounded(desired, 1000000000000) {
                            b1
                        } else {
                            let mass = body_mass(body);
                            let torque_force = v_scale_fx(v_neg(vat), mass);
                            if !v_bounded(torque_force, FORCE_CAP as int) {
                                b1
                            } else {
                                let desired_force = v_scale_fx(desired, mass);
                                if !v_bounded(desired_force, FORCE_CAP as int) {
                                    b1
                                } else {
                                    let tensor = body_tensor(body);
                                    if tensor.x >= TENSOR_MIN as int && tensor.y >= TENSOR_MIN
                                        as int && tensor.z >= TENSOR_MIN as int {
                                        let b2 = Body {
                                            angular_velocity: iv_of(
                                                v_add(
                                                    b1.angular_velocity@,
                                                    torque_delta_s(arm, torque_force, tensor),
                                                ),
                                            ),
                                            ..b1
                                        };
                                        if v_bounded(b2.angular_velocity@, 4000000000000000000) {
                                            Body {
                                                velocity: iv_of(
                                                    v_add(
                                                        b2.velocity@,
                                                        impulse_delta_s(desired_force, mass),
                                                    ),
                                                ),
                                                angular_velocity: iv_of(
                                                    v_add(
                                                        b2.angular_velocity@,
                                                        torque_delta_s(arm, desired_force, tensor),
                                                    ),
                                                ),
                                                ..b2
                                            }
                                        } else {
                                            Body {
                                                velocity: iv_of(
                                                    v_add(
                                                        b2.velocity@,
                                                        impulse_delta_s(desired_force, mass),
                                                    ),
                                                ),
                                                ..b2
                                            }
                                        }
                                    } else {
                                        Body {
                                            velocity: iv_of(
                                                v_add(
                                                    b1.velocity@,
                                                    impulse_delta_s(desired_force, mass),
                                                ),
                                            ),
                                            ..b1
                                        }
                                    }
                                }
                            }
                        }
                    }
                }
            }
        }
    }
}

/// What testing one broad-phase candidate does to the body: nothing for
/// an unsupported shape or a clear pair, the manifold resolution
/// otherwise.
pub open spec fn resolve_s(body: Body, other: Body) -> Body {
    if body.collider_type is Convex || other.collider_type is Convex {
        body
    } else {
        match collide_s(body.collider_s(), other.collider_s()) {
            Some(m) => resolve_manifold_s(body, other, m),
            None => body,
        }
    }
}

/// The body after the first `k` broad-phase candidates have been tested
/// and resolved, in order; the body's own handle and stale handles are
/// skipped.
pub open spec fn resolve_fold(bodies: Seq<Body>, i: int, b: Body, cands: Seq<u64>, k: int) -> Body
    decreases k,
{
    if k <= 0 {
        b
    } else {
        let prev = resolve_fold(bodies, i, b, cands, k - 1);
        let cand = cands[k - 1];
        if cand == i as u64 || cand >= bodies.len() as u64 {
            prev
        } else {
            resolve_s(prev, bodies[cand as int])
        }
    }
}

/// The candidate list the broad phase hands the tick for a body.
pub open spec fn tick_candidates(sas: SpatialAccelerationStructure, b: Body) -> Seq<u64> {
    if sas.nodes@.len() == 0 {
        Seq::empty()
    } else {
        sas.collect(0, aabb_of_transform(b.transform))
    }
}

/// The integrated position: one tick of velocity, kept only inside the
/// world's coordinate cap.
pub open spec fn integrate_pos(b: Body) -> V3 {
    let np = v_add(b.transform.pos@, v_div_t(b.velocity@, TICKS_PER_SECOND as int));
    if v_bounded(np, POS_CAP as int) {
        np
    } else {
        b.transform.pos@
    }
}

/// The damped angular velocity.
pub open spec fn damped_av(b: Body) -> V3 {
    v_scale_fx(b.angular_velocity@, ANGULAR_DAMPING_FX as int)
}

/// One whole tick of the body at `i`, exactly: gravity into the
/// velocity, the broad-phase candidates resolved in order, then the
/// integration — and the angular step handed back.
pub open spec fn tick_body_s(bodies: Seq<Body>, sas: SpatialAccelerationStructure, i: int) -> (
    Body,
    V3,
) {
    let b0 = bodies[i];
    let bg = Body { velocity: iv_of(v_add(b0.velocity@, V3 { x: 0, y: GRAVITY as int, z: 0 })), ..b0 };
    let cands = tick_candidates(sas, b0);
    let br = resolve_fold(bodies, i, bg, cands, cands.len() as int);
    let av2 = damped_av(br);
    (
        Body {
            transform: Transform { pos: iv_of(integrate_pos(br)), ..br.transform },
            angular_velocity: iv_of(av2),
            ..br
        },
        v_div_t(av2, TICKS_PER_SECOND as int),
    )
}

/// The bodies after the first `j` of them have taken their tick, each
/// against the state its predecessors left behind — the exact order the
/// step runs in.
pub open spec fn ticked_upto(
    sas: SpatialAccelerationStructure,
    bodies0: Seq<Body>,
    j: int,
) -> Seq<Body>
    decreases j,
{
    if j <= 0 {
        bodies0
    } else {
        let prev = ticked_upto(sas, bodies0, j - 1);
        prev.update(j - 1, tick_body_s(prev, sas, j - 1).0)
    }
}

/// Component-wise magnitude check.
fn in_bounds(v: &IVec3, cap: i64) -> (r: bool)
    requires
        cap >= 0,
    ensures
        r == v_bounded(v@, cap as int),
{
    -cap <= v.x && v.x <= cap && -cap <= v.y && v.y <= cap && -cap <= v.z && v.z <= cap
}

/// Tests the body against one broad-phase candidate and resolves a
/// confirmed contact: the positional correction, then the torque and
/// linear impulses.  The body afterwards is exactly `resolve_s` of the
/// body and the candidate.
#[verifier::rlimit(100)]
fn resolve_candidate(body: &mut Body, other: &Body)
    requires
        old(body).wf(),
        other.wf(),
        body_mass(*old(body)) >= 1,
    ensures
        *final(body) == resolve_s(*old(body), *other),
        final(body).wf(),
        final(body).transform.scl@ == old(body).transform.scl@,
        final(body).transform.rot@ == old(body).transform.rot@,
        final(body).collider_type == old(body).collider_type,
        final(body).density == old(body).density,
        final(body).friction == old(body).friction,
        final(body).elasticity == old(body).elasticity,
{
    proof {
        reveal(resolve_manifold_s);
    }
    let ghost b0 = *body;
    if matches!(body.collider_type, crate::collisions::ColliderType::Convex) || matches!(
        other.collider_type,
        crate::collisions::ColliderType::Convex,
    ) {
        return ;
    }
    let c1 = Collider { shape: body.collider_type, transform: body.transform };
    let c2 = Collider { shape: other.collider_type, transform: other.transform };
    let collision = collide(&c1, &c2);
    let ghost ms = collide_s(c1, c2);
    let info = match collision {
        Some(info) => info,
        None => {
            return ;
        },
    };
    let ghost m = ms.unwrap();
    proof {
        assert(info.normal@ == m.normal);
        assert(crate::collisions::points_match(info.collision_points@, m.points));
    }
    // saturation guards: skip resolution outside the numeric range
    if !in_bounds(&info.normal, NORM_CAP) {
        return ;
    }
    if !in_bounds(&body.velocity, VEL_CAP) || !in_bounds(&body.angular_velocity, AV_CAP) {
        return ;
    }
    let npoints = info.collision_points.len();
    if npoints == 0 || npoints > 64 {
        return ;
    }
    // deepest penetration, capped, and the contact-point sum
    let mut greatest: i64 = 0;
    let mut total = IVec3::zero();
    let mut p: usize = 0;
    let mut points_sane = true;
    while p < npoints
        invariant
            npoints == info.collision_points@.len(),
            npoints == m.points.len(),
            crate::collisions::points_match(info.collision_points@, m.points),
            p <= npoints,
            npoints <= 64,
            0 <= greatest <= PEN_CAP,
            greatest == pen_fold(m.points, p as int),
            points_sane == points_sane_upto(m.points, p as int),
            total@ == total_fold(m.points, p as int),
            v_bounded(total@, (p as int) * 1000000000000000),
        decreases npoints - p,
    {
        let (pt, pen) = info.collision_points[p];
        proof {
            assert(info.collision_points@[p as int].0@ == m.points[p as int].0);
            assert(info.collision_points@[p as int].1 == m.points[p as int].1);
        }
        if !in_bounds(&pt, 1000000000000000) {
            points_sane = false;
        } else {
            total = total.add(&pt);
        }
        if pen > greatest {
            greatest = if pen > PEN_CAP {
                PEN_CAP
            } else {
                pen
            };
        }
        p = p + 1;
    }
    if !points_sane {
        return ;
    }
    // positional correction along the normal by the deepest penetration
    let ghost pos1 = if v_bounded(v_scale_fx(m.normal, greatest as int), CORR_CAP as int)
        && v_bounded(
        v_add(b0.transform.pos@, v_scale_fx(m.normal, greatest as int)),
        POS_CAP as int,
    ) {
        v_add(b0.transform.pos@, v_scale_fx(m.normal, greatest as int))
    } else {
        b0.transform.pos@
    };
    match scale_fx_checked(&info.normal, greatest, CORR_CAP) {
        Some(corr) => {
            let px: i128 = body.transform.pos.x as i128 + corr.x as i128;
            let py: i128 = body.transform.pos.y as i128 + corr.y as i128;
            let pz: i128 = body.transform.pos.z as i128 + corr.z as i128;
            let capw: i128 = POS_CAP as i128;
            if -capw <= px && px <= capw && -capw <= py && py <= capw && -capw <= pz && pz
                <= capw {
                body.transform.setpos(IVec3 { x: px as i64, y: py as i64, z: pz as i64 });
            }
        },
        None => {},
    }
    let ghost b1 = Body { transform: Transform { pos: iv_of(pos1), ..b0.transform }, ..b0 };
    proof {
        assert(body.transform.pos@ == pos1);
        assert(*body == b1);
    }
    // effective contact point: the average of the contact points,
    // relative to the (corrected) body position
    let avg = total.div_scalar(npoints as i64);
    let hx: i128 = avg.x as i128 - body.transform.pos.x as i128;
    let hy: i128 = avg.y as i128 - body.transform.pos.y as i128;
    let hz: i128 = avg.z as i128 - body.transform.pos.z as i128;
    let armw: i128 = ARM_CAP as i128;
    if !(-armw <= hx && hx <= armw && -armw <= hy && hy <= armw && -armw <= hz && hz <= armw) {
        return ;
    }
    let hitpos = IVec3 { x: hx as i64, y: hy as i64, z: hz as i64 };
    proof {
        assert(hitpos@ == v_sub(v_div_t(total_fold(m.points, npoints as int), npoints as int), pos1));
    }
    // combined restitution
    proof {
        crate::fx::lemma_fx_mul_bound(
            body.elasticity as int,
            other.elasticity as int,
            2 * UNITS_PER_METER as int,
            2 * UNITS_PER_METER as int,
        );
        crate::fx::lemma_div_le(
            (2 * UNITS_PER_METER as int) * (2 * UNITS_PER_METER as int),
            UNITS_PER_METER as int,
            4000000,
        );
    }
    let e = fx_mul(body.elasticity, other.elasticity) + UNITS_PER_METER;
    // relative velocity at the contact point
    let vat = body.velocity_at_point(&hitpos);
    if !in_bounds(&vat, VAT_CAP) {
        return ;
    }
    // desired change: reflect the normal component of the point
    // velocity, scaled by the restitution
    proof {
        crate::vec3::lemma_cross_fx_cap(
            info.normal@,
            vat@,
            NORM_CAP as int,
            VAT_CAP as int,
            1000000000000000,
        );
        crate::vec3::lemma_cross_fx_cap(
            info.normal@,
            info.normal@,
            NORM_CAP as int,
            NORM_CAP as int,
            10000000000,
        );
    }
    let d1 = info.normal.dot_fx(&vat);
    let d2 = info.normal.dot_fx(&info.normal);
    if d2 < 1000 {
        // degenerate normal: no well-defined reflection direction
        return ;
    }
    proof {
        lemma_ratio_fits(d1 as int, d2 as int);
    }
    let q = fx_div(d1, d2);
    let en = match scale_fx_checked(&info.normal, -e, 1000000000000) {
        Some(v) => v,
        None => {
            return ;
        },
    };
    let desired = match scale_fx_checked(&en, q, 1000000000000) {
        Some(v) => v,
        None => {
            return ;
        },
    };
    let mass = body.mass();
    // the impulses, saturating rather than overflowing
    let torque_force = match scale_fx_checked(&vat.neg(), mass, FORCE_CAP) {
        Some(v) => v,
        None => {
            return ;
        },
    };
    let desired_force = match scale_fx_checked(&desired, mass, FORCE_CAP) {
        Some(v) => v,
        None => {
            return ;
        },
    };
    let tensor = body.inertia_tensor();
    if tensor.x >= TENSOR_MIN && tensor.y >= TENSOR_MIN && tensor.z >= TENSOR_MIN {
        body.torque_from_force_at_pos(&torque_force, &hitpos);
        if in_bounds(&body.angular_velocity, 4000000000000000000) {
            body.impulse_at_pos(&desired_force, &hitpos);
        } else {
            // the angular state has saturated; apply the linear part
            body.impulse(&desired_force);
        }
    } else {
        // too little inertia for a stable angular response: apply
        // the linear impulse alone
        body.impulse(&desired_force);
    }
}

/// One tick for the body at `i`: gravity, broad phase, narrow phase and
/// resolution against each candidate, integration.  Returns the body's
/// angular step for the caller's rotation integration.
#[verifier::rlimit(100)]
fn tick_one(
    sas: &SpatialAccelerationStructure,
    bodies: &mut Vec<Body>,
    i: usize,
) -> (rot_step: IVec3)
    requires
        sas.wf(),
        i < old(bodies)@.len(),
        tick_body_ok(old(bodies)@[i as int]),
        forall|j: int| 0 <= j < old(bodies)@.len() ==> (#[trigger] old(bodies)@[j]).wf(),
    ensures
        final(bodies)@.len() == old(bodies)@.len(),
        forall|j: int|
            0 <= j < old(bodies)@.len() && j != i ==> final(bodies)@[j] == old(bodies)@[j],
        final(bodies)@[i as int].wf(),
        final(bodies)@[i as int].transform.scl@ == old(bodies)@[i as int].transform.scl@,
        final(bodies)@[i as int].transform.rot@ == old(bodies)@[i as int].transform.rot@,
        final(bodies)@[i as int].collider_type == old(bodies)@[i as int].collider_type,
        final(bodies)@[i as int].density == old(bodies)@[i as int].density,
        final(bodies)@[i as int].friction == old(bodies)@[i as int].friction,
        final(bodies)@[i as int].elasticity == old(bodies)@[i as int].elasticity,
        isolated(*sas, old(bodies)@[i as int], i as u64) ==> {
            &&& final(bodies)@[i as int].velocity@ == isolated_tick_velocity(
                old(bodies)@[i as int],
            )
            &&& final(bodies)@[i as int].transform.pos@ == isolated_tick_pos(
                old(bodies)@[i as int],
            )
            &&& final(bodies)@[i as int].angular_velocity@ == isolated_tick_av(
                old(bodies)@[i as int],
            )
            &&& rot_step@ == isolated_tick_rot_step(old(bodies)@[i as int])
        },
        final(bodies)@[i as int] == tick_body_s(old(bodies)@, *sas, i as int).0,
        rot_step@ == tick_body_s(old(bodies)@, *sas, i as int).1,
{
    let ghost b0 = old(bodies)@[i as int];
    let mut body = bodies[i];
    // gravity
    body.velocity = body.velocity.add(&IVec3 { x: 0, y: GRAVITY, z: 0 });
    let ghost bg = body;
    proof {
        assert(body.velocity@ == isolated_tick_velocity(b0));
        assert(bg == (Body {
            velocity: iv_of(v_add(b0.velocity@, V3 { x: 0, y: GRAVITY as int, z: 0 })),
            ..b0
        }));
    }
    // broad phase
    let bbox = AABB::new(&body.transform);
    let cands = sas.query_aabb(&bbox);
    proof {
        assert(bbox@ == aabb_of_transform(b0.transform));
    }
    let ghost isolated_run = isolated(*sas, b0, i as u64);
    let mut k: usize = 0;
    while k < cands.len()
        invariant
            sas.wf(),
            bodies@.len() == old(bodies)@.len(),
            i < bodies@.len(),
            k <= cands@.len(),
            bodies@ == old(bodies)@,
            forall|j: int| 0 <= j < bodies@.len() ==> (#[trigger] bodies@[j]).wf(),
            body.wf(),
            body.transform.scl@ == b0.transform.scl@,
            body.transform.rot@ == b0.transform.rot@,
            body.collider_type == b0.collider_type,
            body.density == b0.density,
            body.friction == b0.friction,
            body.elasticity == b0.elasticity,
            mass_s(body.collider_type, body.transform.scl@, body.density as int) >= 1,
            b0 == old(bodies)@[i as int],
            isolated_run == isolated(*sas, b0, i as u64),
            sas.nodes@.len() > 0 ==> cands@ == sas.collect(
                0,
                aabb_of_transform(b0.transform),
            ),
            sas.nodes@.len() == 0 ==> cands@ == Seq::<u64>::empty(),
            cands@ == tick_candidates(*sas, b0),
            body == resolve_fold(old(bodies)@, i as int, bg, cands@, k as int),
            isolated_run ==> body == (Body {
                velocity: IVec3 {
                    x: isolated_tick_velocity(b0).x as i64,
                    y: isolated_tick_velocity(b0).y as i64,
                    z: isolated_tick_velocity(b0).z as i64,
                },
                ..b0
            }),
        decreases cands@.len() - k,
    {
        let cand = cands[k];
        k = k + 1;
        if cand == i as u64 {
            proof {
                assert(body == resolve_fold(old(bodies)@, i as int, bg, cands@, k as int));
            }
            continue;
        }
        proof {
            if isolated_run {
                assert(cands@[k - 1] == i as u64);
                assert(false);
            }
        }
        if cand >= bodies.len() as u64 {
            // a stale handle with no body behind it: nothing to test
            proof {
                assert(body == resolve_fold(old(bodies)@, i as int, bg, cands@, k as int));
            }
            continue;
        }
        let other = bodies[cand as usize];
        let ghost pre_body = body;
        resolve_candidate(&mut body, &other);
        proof {
            assert(other == old(bodies)@[cand as int]);
            assert(body == resolve_s(pre_body, other));
            assert(body == resolve_fold(old(bodies)@, i as int, bg, cands@, k as int));
        }
    }
    let ghost br = body;
    // integration: velocity into position, damping into angular velocity
    let v_step = body.velocity.div_scalar(TICKS_PER_SECOND);
    proof {
        crate::fx::lemma_div_t_le(body.velocity@.x, TICKS_PER_SECOND as int);
        crate::fx::lemma_div_t_le(body.velocity@.y, TICKS_PER_SECOND as int);
        crate::fx::lemma_div_t_le(body.velocity@.z, TICKS_PER_SECOND as int);
    }
    let nx: i128 = body.transform.pos.x as i128 + v_step.x as i128;
    let ny: i128 = body.transform.pos.y as i128 + v_step.y as i128;
    let nz: i128 = body.transform.pos.z as i128 + v_step.z as i128;
    let capw: i128 = POS_CAP as i128;
    if -capw <= nx && nx <= capw && -capw <= ny && ny <= capw && -capw <= nz && nz <= capw {
        body.transform.setpos(IVec3 { x: nx as i64, y: ny as i64, z: nz as i64 });
    }
    proof {
        if isolated_run {
            crate::fx::lemma_div_t_bound(
                isolated_tick_velocity(b0).x,
                TICKS_PER_SECOND as int,
                TICK_VEL_CAP as int + 28912,
            );
            crate::fx::lemma_div_t_bound(
                isolated_tick_velocity(b0).y,
                TICKS_PER_SECOND as int,
                TICK_VEL_CAP as int + 28912,
            );
            crate::fx::lemma_div_t_bound(
                isolated_tick_velocity(b0).z,
                TICKS_PER_SECOND as int,
                TICK_VEL_CAP as int + 28912,
            );
            assert((TICK_VEL_CAP as int + 28912) / (TICKS_PER_SECOND as int) < 20000000000);
            assert(-capw <= nx && nx <= capw && -capw <= ny && ny <= capw && -capw <= nz && nz
                <= capw);
            assert(body.transform.pos@ == isolated_tick_pos(b0));
        }
    }
    let av_damped = match scale_fx_checked(&body.angular_velocity, ANGULAR_DAMPING_FX, i64::MAX) {
        Some(v) => v,
        None => body.angular_velocity,
    };
    proof {
        if isolated_run {
            crate::fx::lemma_fx_mul_unit_bound(
                b0.angular_velocity@.x,
                ANGULAR_DAMPING_FX as int,
                AV_CAP as int,
            );
            crate::fx::lemma_fx_mul_unit_bound(
                b0.angular_velocity@.y,
                ANGULAR_DAMPING_FX as int,
                AV_CAP as int,
            );
            crate::fx::lemma_fx_mul_unit_bound(
                b0.angular_velocity@.z,
                ANGULAR_DAMPING_FX as int,
                AV_CAP as int,
            );
            assert(av_damped@ == isolated_tick_av(b0));
        }
    }
    body.angular_velocity = av_damped;
    let rot_step = av_damped.div_scalar(TICKS_PER_SECOND);
    proof {
        crate::fx::lemma_div_t_le(av_damped@.x, TICKS_PER_SECOND as int);
        crate::fx::lemma_div_t_le(av_damped@.y, TICKS_PER_SECOND as int);
        crate::fx::lemma_div_t_le(av_damped@.z, TICKS_PER_SECOND as int);
        // the finished body is exactly the modelled tick of the body
        crate::fx::lemma_fx_mul_bound(
            br.angular_velocity@.x,
            ANGULAR_DAMPING_FX as int,
            0x8000000000000000,
            ANGULAR_DAMPING_FX as int,
        );
        crate::fx::lemma_fx_mul_bound(
            br.angular_velocity@.y,
            ANGULAR_DAMPING_FX as int,
            0x8000000000000000,
            ANGULAR_DAMPING_FX as int,
        );
        crate::fx::lemma_fx_mul_bound(
            br.angular_velocity@.z,
            ANGULAR_DAMPING_FX as int,
            0x8000000000000000,
            ANGULAR_DAMPING_FX as int,
        );
        assert((0x8000000000000000int * (ANGULAR_DAMPING_FX as int)) / (UNITS_PER_METER as int)
            <= i64::MAX) by {
            crate::fx::lemma_div_le(
                0x8000000000000000int * (ANGULAR_DAMPING_FX as int),
                UNITS_PER_METER as int,
                9131138316486228050,
            );
        }
        assert(av_damped@ == damped_av(br));
        assert(body.transform.pos@ == integrate_pos(br));
        assert(iv_of(br.transform.pos@) == br.transform.pos);
        assert(body.transform == (Transform { pos: iv_of(integrate_pos(br)), ..br.transform }));
        assert(body == tick_body_s(old(bodies)@, *sas, i as int).0);
        assert(rot_step@ == tick_body_s(old(bodies)@, *sas, i as int).1);
    }
    bodies[i] = body;
    rot_step
}

/// One physics tick over every body, in index order.  Returns, for each
/// body, the angular step (damped angular velocity over the tick rate)
/// the caller integrates into the rotations with its own trigonometry.
pub fn do_physics(
    sas: &SpatialAccelerationStructure,
    bodies: &mut Vec<Body>,
) -> (rot_steps: Vec<IVec3>)
    requires
        sas.wf(),
        forall|j: int| 0 <= j < old(bodies)@.len() ==> tick_body_ok(#[trigger] old(bodies)@[j]),
    ensures
        final(bodies)@.len() == old(bodies)@.len(),
        rot_steps@.len() == old(bodies)@.len(),
        forall|j: int|
            0 <= j < old(bodies)@.len() ==> {
                let nb = #[trigger] final(bodies)@[j];
                let ob = old(bodies)@[j];
                &&& nb.wf()
                &&& nb.transform.scl@ == ob.transform.scl@
                &&& nb.transform.rot@ == ob.transform.rot@
                &&& nb.collider_type == ob.collider_type
                &&& nb.density == ob.density
                &&& nb.friction == ob.friction
                &&& nb.elasticity == ob.elasticity
            },
        forall|j: int|
            0 <= j < old(bodies)@.len() && isolated(*sas, old(bodies)@[j], j as u64) ==> {
                let nb = #[trigger] final(bodies)@[j];
                let ob = old(bodies)@[j];
                &&& nb.velocity@ == isolated_tick_velocity(ob)
                &&& nb.transform.pos@ == isolated_tick_pos(ob)
                &&& nb.angular_velocity@ == isolated_tick_av(ob)
                &&& rot_steps@[j]@ == isolated_tick_rot_step(ob)
            },
        final(bodies)@ == ticked_upto(*sas, old(bodies)@, old(bodies)@.len() as int),
        forall|j: int|
            0 <= j < old(bodies)@.len() ==> (#[trigger] rot_steps@[j])@ == tick_body_s(
                ticked_upto(*sas, old(bodies)@, j),
                *sas,
                j,
            ).1,
{
    let mut rot_steps: Vec<IVec3> = Vec::new();
    let n = bodies.len();
    let mut i: usize = 0;
    while i < n
        invariant
            sas.wf(),
            n == old(bodies)@.len(),
            bodies@.len() == n,
            rot_steps@.len() == i,
            i <= n,
            forall|j: int| (i as int) <= j < n ==> #[trigger] bodies@[j] == old(bodies)@[j],
            forall|j: int| 0 <= j < n ==> (#[trigger] bodies@[j]).wf(),
            forall|j: int| 0 <= j < n ==> tick_body_ok(#[trigger] old(bodies)@[j]),
            bodies@ == ticked_upto(*sas, old(bodies)@, i as int),
            forall|j: int|
                0 <= j < (i as int) ==> (#[trigger] rot_steps@[j])@ == tick_body_s(
                    ticked_upto(*sas, old(bodies)@, j),
                    *sas,
                    j,
                ).1,
            forall|j: int|
                0 <= j < (i as int) ==> {
                    let nb = #[trigger] bodies@[j];
                    let ob = old(bodies)@[j];
                    &&& nb.transform.scl@ == ob.transform.scl@
                    &&& nb.transform.rot@ == ob.transform.rot@
                    &&& nb.collider_type == ob.collider_type
                    &&& nb.density == ob.density
                    &&& nb.friction == ob.friction
                    &&& nb.elasticity == ob.elasticity
                },
            forall|j: int|
                0 <= j < (i as int) && isolated(*sas, old(bodies)@[j], j as u64) ==> {
                    let nb = #[trigger] bodies@[j];
                    let ob = old(bodies)@[j];
                    &&& nb.velocity@ == isolated_tick_velocity(ob)
                    &&& nb.transform.pos@ == isolated_tick_pos(ob)
                    &&& nb.angular_velocity@ == isolated_tick_av(ob)
                    &&& rot_steps@[j]@ == isolated_tick_rot_step(ob)
                },
        decreases n - i,
    {
        let ghost pre = bodies@;
        let step = tick_one(sas, bodies, i);
        rot_steps.push(step);
        proof {
            assert(bodies@ =~= pre.update(i as int, tick_body_s(pre, *sas, i as int).0));
            assert(bodies@ == ticked_upto(*sas, old(bodies)@, i as int + 1));
        }
        i = i + 1;
    }
    proof {
        assert(bodies@ == ticked_upto(*sas, old(bodies)@, old(bodies)@.len() as int));
    }
    rot_steps
}

/// The reflection ratio fits once the squared normal clears its floor.
proof fn lemma_ratio_fits(d1: int, d2: int)
    requires
        abs_i(d1) <= 3000000000000000,
        d2 >= 1000,
    ensures
        abs_i(fx_div_s(d1, d2)) <= 3000000000000000000,
        i64::MIN <= fx_div_s(d1, d2) <= i64::MAX,
{
    assert(abs_i(d1 * (UNITS_PER_METER as int)) <= 3000000000000000int * 1000000) by {
        vstd::arithmetic::mul::lemma_mul_upper_bound(
            abs_i(d1),
            3000000000000000,
            UNITS_PER_METER as int,
            UNITS_PER_METER as int,
        );
        assert(abs_i(d1) * (UNITS_PER_METER as int) == abs_i(d1 * (UNITS_PER_METER as int)))
            by (nonlinear_arith);
    }
    crate::fx::lemma_div_t_bound(
        d1 * (UNITS_PER_METER as int),
        d2,
        3000000000000000int * 1000000,
    );
    assert((3000000000000000int * 1000000) / abs_i(d2) <= 3000000000000000000) by {
        vstd::arithmetic::div_mod::lemma_div_is_ordered_by_denominator(
            3000000000000000int * 1000000,
            1000,
            abs_i(d2),
        );
        crate::fx::lemma_div_le(
            3000000000000000int * 1000000,
            1000,
            3000000000000000000,
        );
    }
}

} // verus!
