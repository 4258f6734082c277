//! Placement of a body in the world.
//!
//! Position is a 64-bit integer vector in micrometers, so coordinates span
//! enormous ranges without precision loss.  Rotation is a fixed-point
//! matrix of millionths; scale is a fixed-point vector (1.0 meter stores as
//! one million).  A cached rotation–scale matrix combines the two, and the
//! well-formedness predicate `Transform::wf` ties the cache to its inputs
//! and keeps every field inside the bounds the arithmetic needs.
//!
//! Anything trigonometric (turning an angle into a rotation) happens
//! outside this crate: rotation mutators take the sine and cosine of the
//! angle as fixed-point fractions supplied by the caller, and compose
//! matrices from them.
//!
//! A deliberate design point: `wf` bounds the rotation entries but does
//! not assert orthonormality, which repeated fixed-point composition
//! cannot maintain exactly.  Accordingly `unrotate` and `world_to_model`
//! are specified as exactly what they compute — the transpose, and the
//! scale-divided transpose — not as proven inverses; a caller that needs
//! a fresh orthonormal frame rebuilds it with `setrotyxz_sc` from its
//! own trigonometry rather than composing drift away.

use vstd::prelude::*;
use crate::fx::{abs_i, fx_mul_s, fx_div_s, fx_mul, fx_div, UNITS_PER_METER};
use crate::vec3::{IVec3, V3, v_bounded};
use crate::mat3::{Mat3, M3, m_identity, m_bounded, m_transpose, m_mul_fx};

verus! {

/// Largest position magnitude the physics accepts, per axis, in
/// micrometers (about seventy thousand kilometers from the origin).
pub const POS_CAP: i64 = 0x400000000000;

/// Smallest accepted scale component: one millimeter, in fixed point.
pub const SCL_MIN: i64 = 1000;

/// Largest accepted scale component: one kilometer, in fixed point.
pub const SCL_CAP: i64 = 1000000000;

/// Largest accepted rotation-matrix entry magnitude: two, in fixed point,
/// leaving slack over the unit entries an exact rotation would have.
pub const ROT_CAP: i64 = 2000000;

/// Bound on the entries of a rotation–scale matrix or its inverse.
pub const RS_CAP: i64 = 2000000000;

/// A rotation matrix with each column scaled by the matching component of
/// `s` — the cached rotation–scale matrix.
pub open spec fn m_scale_cols(m: M3, s: V3) -> M3 {
    M3 {
        rx: V3 {
            x: fx_mul_s(m.rx.x, s.x),
            y: fx_mul_s(m.rx.y, s.y),
            z: fx_mul_s(m.rx.z, s.z),
        },
        ry: V3 {
            x: fx_mul_s(m.ry.x, s.x),
            y: fx_mul_s(m.ry.y, s.y),
            z: fx_mul_s(m.ry.z, s.z),
        },
        rz: V3 {
            x: fx_mul_s(m.rz.x, s.x),
            y: fx_mul_s(m.rz.y, s.y),
            z: fx_mul_s(m.rz.z, s.z),
        },
    }
}

/// The inverse of a rotation–scale matrix: the transposed rotation with
/// each row divided by the matching scale component.
pub open spec fn m_inv_rot_scale(m: M3, s: V3) -> M3 {
    M3 {
        rx: V3 {
            x: fx_div_s(m.rx.x, s.x),
            y: fx_div_s(m.ry.x, s.x),
            z: fx_div_s(m.rz.x, s.x),
        },
        ry: V3 {
            x: fx_div_s(m.rx.y, s.y),
            y: fx_div_s(m.ry.y, s.y),
            z: fx_div_s(m.rz.y, s.y),
        },
        rz: V3 {
            x: fx_div_s(m.rx.z, s.z),
            y: fx_div_s(m.ry.z, s.z),
            z: fx_div_s(m.rz.z, s.z),
        },
    }
}

/// Placement of a body: integer position, fixed-point rotation and scale,
/// and the cached rotation–scale matrix.
#[derive(Clone, Copy, PartialEq, Eq, Structural, Debug)]
pub struct Transform {
    pub pos: IVec3,
    pub rot: Mat3,
    pub scl: IVec3,
    /// Cached product of the rotation with the scale, kept consistent by
    /// every mutator.
    pub rotscale: Mat3,
}

impl Transform {
    /// Field bounds and cache consistency; every operation preserves it.
    pub open spec fn wf(&self) -> bool {
        &&& v_bounded(self.pos@, POS_CAP as int)
        &&& SCL_MIN as int <= self.scl@.x <= SCL_CAP as int
        &&& SCL_MIN as int <= self.scl@.y <= SCL_CAP as int
        &&& SCL_MIN as int <= self.scl@.z <= SCL_CAP as int
        &&& m_bounded(self.rot@, ROT_CAP as int)
        &&& self.rotscale@ == m_scale_cols(self.rot@, self.scl@)
    }

    /// Fresh transform at a position given in micrometers, unrotated and
    /// at unit scale.
    pub fn new(pos_in_um: IVec3) -> (t: Transform)
        requires
            v_bounded(pos_in_um@, POS_CAP as int),
        ensures
            t.wf(),
            t.pos@ == pos_in_um@,
            t.rot@ == m_identity(),
            t.scl@ == (V3 {
                x: UNITS_PER_METER as int,
                y: UNITS_PER_METER as int,
                z: UNITS_PER_METER as int,
            }),
    {
        let t = Transform {
            pos: pos_in_um,
            rot: Mat3::identity(),
            scl: IVec3::new(UNITS_PER_METER, UNITS_PER_METER, UNITS_PER_METER),
            rotscale: Mat3::identity(),
        };
        proof {
            lemma_unit_scale_cols_identity();
        }
        t
    }

    /// Fresh transform at the origin.
    pub fn empty() -> (t: Transform)
        ensures
            t.wf(),
            t.pos@ == (V3 { x: 0int, y: 0int, z: 0int }),
            t.rot@ == m_identity(),
    {
        Transform::new(IVec3::zero())
    }

    /// Position in micrometers.
    pub fn pos(&self) -> (r: IVec3)
        ensures
            r@ == self.pos@,
    {
        self.pos
    }

    /// Sets the position, in micrometers.
    pub fn setpos(&mut self, pos: IVec3)
        requires
            v_bounded(pos@, POS_CAP as int),
        ensures
            *final(self) == (Transform { pos, ..*old(self) }),
            old(self).wf() ==> final(self).wf(),
    {
        self.pos = pos;
    }

    /// Mutable access to the position, for callers that nudge it in
    /// place; the caller owns keeping it inside the world's bounds.
    pub fn pos_mut(&mut self) -> (r: &mut IVec3)
        ensures
            *r == old(self).pos,
            *final(self) == (Transform { pos: *final(r), ..*old(self) }),
    {
        &mut self.pos
    }

    /// Moves the position by `d` micrometers.
    pub fn translate(&mut self, d: &IVec3)
        requires
            v_bounded(crate::vec3::v_add(old(self).pos@, d@), POS_CAP as int),
        ensures
            *final(self) == (Transform {
                pos: IVec3 {
                    x: (old(self).pos@.x + d@.x) as i64,
                    y: (old(self).pos@.y + d@.y) as i64,
                    z: (old(self).pos@.z + d@.z) as i64,
                },
                ..*old(self)
            }),
            old(self).wf() ==> final(self).wf(),
    {
        self.pos = self.pos.add(d);
    }

    /// Scale, in fixed point (1.0 meter stores as one million).
    pub fn scl(&self) -> (r: IVec3)
        ensures
            r@ == self.scl@,
    {
        self.scl
    }

    /// Rotation matrix.
    pub fn rotatemat(&self) -> (r: Mat3)
        ensures
            r@ == self.rot@,
    {
        self.rot
    }

    /// Inverse of the rotation: its transpose.
    pub fn unrotate(&self) -> (r: Mat3)
        ensures
            r@ == m_transpose(self.rot@),
    {
        self.rot.transpose()
    }

    /// Sets the scale and recomputes the cached rotation–scale matrix.
    pub fn setscl(&mut self, scl: IVec3)
        requires
            old(self).wf(),
            SCL_MIN as int <= scl@.x <= SCL_CAP as int,
            SCL_MIN as int <= scl@.y <= SCL_CAP as int,
            SCL_MIN as int <= scl@.z <= SCL_CAP as int,
        ensures
            final(self).wf(),
            final(self).scl@ == scl@,
            final(self).pos@ == old(self).pos@,
            final(self).rot@ == old(self).rot@,
    {
        self.scl = scl;
        self.update_rotscale();
    }

    /// Recomputes the cached rotation–scale matrix from the current
    /// rotation and scale.
    fn update_rotscale(&mut self)
        requires
            m_bounded(old(self).rot@, ROT_CAP as int),
            SCL_MIN as int <= old(self).scl@.x <= SCL_CAP as int,
            SCL_MIN as int <= old(self).scl@.y <= SCL_CAP as int,
            SCL_MIN as int <= old(self).scl@.z <= SCL_CAP as int,
        ensures
            *final(self) == (Transform {
                rotscale: Mat3 {
                    rx: IVec3 {
                        x: fx_mul_s(old(self).rot@.rx.x, old(self).scl@.x) as i64,
                        y: fx_mul_s(old(self).rot@.rx.y, old(self).scl@.y) as i64,
                        z: fx_mul_s(old(self).rot@.rx.z, old(self).scl@.z) as i64,
                    },
                    ry: IVec3 {
                        x: fx_mul_s(old(self).rot@.ry.x, old(self).scl@.x) as i64,
                        y: fx_mul_s(old(self).rot@.ry.y, old(self).scl@.y) as i64,
                        z: fx_mul_s(old(self).rot@.ry.z, old(self).scl@.z) as i64,
                    },
                    rz: IVec3 {
                        x: fx_mul_s(old(self).rot@.rz.x, old(self).scl@.x) as i64,
                        y: fx_mul_s(old(self).rot@.rz.y, old(self).scl@.y) as i64,
                        z: fx_mul_s(old(self).rot@.rz.z, old(self).scl@.z) as i64,
                    },
                },
                ..*old(self)
            }),
            final(self).rotscale@ == m_scale_cols(old(self).rot@, old(self).scl@),
            m_bounded(final(self).rotscale@, RS_CAP as int),
    {
        proof {
            lemma_scale_cols_fits(self.rot@, self.scl@);
        }
        self.rotscale = Mat3 {
            rx: IVec3 {
                x: fx_mul(self.rot.rx.x, self.scl.x),
                y: fx_mul(self.rot.rx.y, self.scl.y),
                z: fx_mul(self.rot.rx.z, self.scl.z),
            },
            ry: IVec3 {
                x: fx_mul(self.rot.ry.x, self.scl.x),
                y: fx_mul(self.rot.ry.y, self.scl.y),
                z: fx_mul(self.rot.ry.z, self.scl.z),
            },
            rz: IVec3 {
                x: fx_mul(self.rot.rz.x, self.scl.x),
                y: fx_mul(self.rot.rz.y, self.scl.y),
                z: fx_mul(self.rot.rz.z, self.scl.z),
            },
        };
    }

    /// Composes the rotation with `r` (applied in local frame, matching a
    /// quaternion product on the right).  If the fixed-point product would
    /// leave the accepted entry bounds the rotation is left unchanged, so
    /// a well-formed transform can never be driven out of shape.
    pub fn rotate_mat(&mut self, r: &Mat3)
        requires
            old(self).wf(),
            m_bounded(r@, 4000000),
        ensures
            final(self).wf(),
            final(self).pos@ == old(self).pos@,
            final(self).scl@ == old(self).scl@,
            m_bounded(m_mul_fx(old(self).rot@, r@), ROT_CAP as int) ==> final(self).rot@
                == m_mul_fx(old(self).rot@, r@),
            !m_bounded(m_mul_fx(old(self).rot@, r@), ROT_CAP as int) ==> final(self).rot@
                == old(self).rot@,
    {
        let m = self.rot.mul_fx(r);
        if m.is_bounded(ROT_CAP) {
            self.rot = m;
            self.update_rotscale();
        }
    }

    /// Locally rotates around the up vector (a yaw), given the angle's
    /// sine and cosine in fixed point.
    pub fn yaw_sc(&mut self, s: i64, c: i64)
        requires
            old(self).wf(),
            abs_i(s as int) <= UNITS_PER_METER as int,
            abs_i(c as int) <= UNITS_PER_METER as int,
        ensures
            final(self).wf(),
            final(self).pos@ == old(self).pos@,
            final(self).scl@ == old(self).scl@,
            final(self).rot@ == rot_step_s(old(self).rot@, old(self).rot@.ry, s as int, c as int),
    {
        let axis = self.get_up_vector();
        let clamped = clamp_axis(&axis);
        let r = rotation_about_axis(&clamped, s, c);
        self.rotate_mat(&r);
    }

    /// Locally rotates around the right vector (a pitch).
    pub fn pitch_sc(&mut self, s: i64, c: i64)
        requires
            old(self).wf(),
            abs_i(s as int) <= UNITS_PER_METER as int,
            abs_i(c as int) <= UNITS_PER_METER as int,
        ensures
            final(self).wf(),
            final(self).pos@ == old(self).pos@,
            final(self).scl@ == old(self).scl@,
            final(self).rot@ == rot_step_s(old(self).rot@, old(self).rot@.rx, s as int, c as int),
    {
        let axis = self.get_right_vector();
        let clamped = clamp_axis(&axis);
        let r = rotation_about_axis(&clamped, s, c);
        self.rotate_mat(&r);
    }

    /// Locally rotates around the look vector (a roll).
    pub fn roll_sc(&mut self, s: i64, c: i64)
        requires
            old(self).wf(),
            abs_i(s as int) <= UNITS_PER_METER as int,
            abs_i(c as int) <= UNITS_PER_METER as int,
        ensures
            final(self).wf(),
            final(self).pos@ == old(self).pos@,
            final(self).scl@ == old(self).scl@,
            final(self).rot@ == rot_step_s(old(self).rot@, old(self).rot@.rz, s as int, c as int),
    {
        let axis = self.get_look_vector();
        let clamped = clamp_axis(&axis);
        let r = rotation_about_axis(&clamped, s, c);
        self.rotate_mat(&r);
    }

    /// Sets the rotation from intrinsic angles applied yaw, then pitch,
    /// then roll, each given as a fixed-point sine/cosine pair.
    pub fn setrotyxz_sc(&mut self, sy: i64, cy: i64, sx: i64, cx: i64, sz: i64, cz: i64)
        requires
            old(self).wf(),
            abs_i(sy as int) <= UNITS_PER_METER as int,
            abs_i(cy as int) <= UNITS_PER_METER as int,
            abs_i(sx as int) <= UNITS_PER_METER as int,
            abs_i(cx as int) <= UNITS_PER_METER as int,
            abs_i(sz as int) <= UNITS_PER_METER as int,
            abs_i(cz as int) <= UNITS_PER_METER as int,
        ensures
            final(self).wf(),
            final(self).pos@ == old(self).pos@,
            final(self).scl@ == old(self).scl@,
            final(self).rot@ == ({
                let m1 = rot_step_s(m_identity(), m_identity().ry, sy as int, cy as int);
                let m2 = rot_step_s(m1, m1.rx, sx as int, cx as int);
                rot_step_s(m2, m2.rz, sz as int, cz as int)
            }),
    {
        self.rot = Mat3::identity();
        self.update_rotscale();
        self.yaw_sc(sy, cy);
        self.pitch_sc(sx, cx);
        self.roll_sc(sz, cz);
    }

    /// Volume of the scaled unit shape, in fixed-point cubic meters.
    pub fn volume(&self) -> (r: i64)
        requires
            self.wf(),
        ensures
            r == fx_mul_s(fx_mul_s(self.scl@.x, self.scl@.y), self.scl@.z),
    {
        proof {
            crate::fx::lemma_fx_mul_bound(self.scl@.x, self.scl@.y, SCL_CAP as int, SCL_CAP as int);
            crate::fx::lemma_fx_mul_bound(
                fx_mul_s(self.scl@.x, self.scl@.y),
                self.scl@.z,
                1000000000000,
                SCL_CAP as int,
            );
        }
        fx_mul(fx_mul(self.scl.x, self.scl.y), self.scl.z)
    }

    /// Matrix taking world-frame offsets (relative to this transform's
    /// position) into the unit model frame: the inverse of the cached
    /// rotation–scale matrix.
    pub fn world_to_model(&self) -> (r: Mat3)
        requires
            self.wf(),
        ensures
            r@ == m_inv_rot_scale(self.rot@, self.scl@),
            m_bounded(r@, RS_CAP as int),
    {
        proof {
            lemma_inv_rot_scale_fits(self.rot@, self.scl@);
        }
        Mat3 {
            rx: IVec3 {
                x: fx_div(self.rot.rx.x, self.scl.x),
                y: fx_div(self.rot.ry.x, self.scl.x),
                z: fx_div(self.rot.rz.x, self.scl.x),
            },
            ry: IVec3 {
                x: fx_div(self.rot.rx.y, self.scl.y),
                y: fx_div(self.rot.ry.y, self.scl.y),
                z: fx_div(self.rot.rz.y, self.scl.y),
            },
            rz: IVec3 {
                x: fx_div(self.rot.rx.z, self.scl.z),
                y: fx_div(self.rot.ry.z, self.scl.z),
                z: fx_div(self.rot.rz.z, self.scl.z),
            },
        }
    }

    /// The unit up direction carried by the inverse rotation: the
    /// rotation's second row, in fixed point.
    pub fn get_up_vector(&self) -> (r: IVec3)
        ensures
            r@ == self.rot@.ry,
    {
        self.rot.ry
    }

    /// The unit look direction carried by the inverse rotation: the
    /// rotation's third row, in fixed point.
    pub fn get_look_vector(&self) -> (r: IVec3)
        ensures
            r@ == self.rot@.rz,
    {
        self.rot.rz
    }

    /// The unit right direction carried by the inverse rotation: the
    /// rotation's first row, in fixed point.
    pub fn get_right_vector(&self) -> (r: IVec3)
        ensures
            r@ == self.rot@.rx,
    {
        self.rot.rx
    }
}

/// A direction with each component clamped into the unit fixed-point
/// range, as the axis-angle builder expects of a unit axis.
pub open spec fn clamp_axis_s(v: V3) -> V3 {
    let u = UNITS_PER_METER as int;
    let cl = |a: int| if a > u { u } else if a < -u { -u } else { a };
    V3 { x: cl(v.x), y: cl(v.y), z: cl(v.z) }
}

/// One local rotation step: compose the rotation with the axis-angle
/// matrix about the (clamped) axis, unless the fixed-point product would
/// leave the accepted entry bounds, in which case the rotation stays.
pub open spec fn rot_step_s(m: M3, axis: V3, s: int, c: int) -> M3 {
    let r = m_rot_axis_s(clamp_axis_s(axis), s, c);
    if m_bounded(m_mul_fx(m, r), ROT_CAP as int) {
        m_mul_fx(m, r)
    } else {
        m
    }
}

/// Clamps a direction's components into the unit fixed-point range, as
/// the axis-angle builder expects of a unit axis.
fn clamp_axis(v: &IVec3) -> (r: IVec3)
    ensures
        r@ == clamp_axis_s(v@),
        v_bounded(r@, UNITS_PER_METER as int),
{
    let cx: i64 = if v.x > UNITS_PER_METER {
        UNITS_PER_METER
    } else if v.x < -UNITS_PER_METER {
        -UNITS_PER_METER
    } else {
        v.x
    };
    let cy: i64 = if v.y > UNITS_PER_METER {
        UNITS_PER_METER
    } else if v.y < -UNITS_PER_METER {
        -UNITS_PER_METER
    } else {
        v.y
    };
    let cz: i64 = if v.z > UNITS_PER_METER {
        UNITS_PER_METER
    } else if v.z < -UNITS_PER_METER {
        -UNITS_PER_METER
    } else {
        v.z
    };
    IVec3 { x: cx, y: cy, z: cz }
}

/// Rotation about the global x axis, from the sine and cosine of the
/// angle in fixed point.
pub open spec fn m_rot_x_s(s: int, c: int) -> M3 {
    let u = UNITS_PER_METER as int;
    M3 {
        rx: V3 { x: u, y: 0, z: 0 },
        ry: V3 { x: 0, y: c, z: -s },
        rz: V3 { x: 0, y: s, z: c },
    }
}

/// Rotation about the global y axis.
pub open spec fn m_rot_y_s(s: int, c: int) -> M3 {
    let u = UNITS_PER_METER as int;
    M3 {
        rx: V3 { x: c, y: 0, z: s },
        ry: V3 { x: 0, y: u, z: 0 },
        rz: V3 { x: -s, y: 0, z: c },
    }
}

/// Rotation about the global z axis.
pub open spec fn m_rot_z_s(s: int, c: int) -> M3 {
    let u = UNITS_PER_METER as int;
    M3 {
        rx: V3 { x: c, y: -s, z: 0 },
        ry: V3 { x: s, y: c, z: 0 },
        rz: V3 { x: 0, y: 0, z: u },
    }
}

/// Builds the x-axis rotation from caller-supplied trigonometry.
pub fn rotation_x(s: i64, c: i64) -> (r: Mat3)
    requires
        abs_i(s as int) <= UNITS_PER_METER as int,
        abs_i(c as int) <= UNITS_PER_METER as int,
    ensures
        r@ == m_rot_x_s(s as int, c as int),
        m_bounded(r@, UNITS_PER_METER as int),
{
    Mat3 {
        rx: IVec3 { x: UNITS_PER_METER, y: 0, z: 0 },
        ry: IVec3 { x: 0, y: c, z: -s },
        rz: IVec3 { x: 0, y: s, z: c },
    }
}

/// Builds the y-axis rotation from caller-supplied trigonometry.
pub fn rotation_y(s: i64, c: i64) -> (r: Mat3)
    requires
        abs_i(s as int) <= UNITS_PER_METER as int,
        abs_i(c as int) <= UNITS_PER_METER as int,
    ensures
        r@ == m_rot_y_s(s as int, c as int),
        m_bounded(r@, UNITS_PER_METER as int),
{
    Mat3 {
        rx: IVec3 { x: c, y: 0, z: s },
        ry: IVec3 { x: 0, y: UNITS_PER_METER, z: 0 },
        rz: IVec3 { x: -s, y: 0, z: c },
    }
}

/// Builds the z-axis rotation from caller-supplied trigonometry.
pub fn rotation_z(s: i64, c: i64) -> (r: Mat3)
    requires
        abs_i(s as int) <= UNITS_PER_METER as int,
        abs_i(c as int) <= UNITS_PER_METER as int,
    ensures
        r@ == m_rot_z_s(s as int, c as int),
        m_bounded(r@, UNITS_PER_METER as int),
{
    Mat3 {
        rx: IVec3 { x: c, y: -s, z: 0 },
        ry: IVec3 { x: s, y: c, z: 0 },
        rz: IVec3 { x: 0, y: 0, z: UNITS_PER_METER },
    }
}

/// Rotation about an arbitrary unit axis from its sine and cosine: the
/// axis-angle (Rodrigues) matrix, all in fixed point.
pub open spec fn m_rot_axis_s(k: V3, s: int, c: int) -> M3 {
    let u = UNITS_PER_METER as int;
    let oc = u - c;
    M3 {
        rx: V3 {
            x: c + fx_mul_s(oc, fx_mul_s(k.x, k.x)),
            y: fx_mul_s(oc, fx_mul_s(k.x, k.y)) - fx_mul_s(s, k.z),
            z: fx_mul_s(oc, fx_mul_s(k.x, k.z)) + fx_mul_s(s, k.y),
        },
        ry: V3 {
            x: fx_mul_s(oc, fx_mul_s(k.y, k.x)) + fx_mul_s(s, k.z),
            y: c + fx_mul_s(oc, fx_mul_s(k.y, k.y)),
            z: fx_mul_s(oc, fx_mul_s(k.y, k.z)) - fx_mul_s(s, k.x),
        },
        rz: V3 {
            x: fx_mul_s(oc, fx_mul_s(k.z, k.x)) - fx_mul_s(s, k.y),
            y: fx_mul_s(oc, fx_mul_s(k.z, k.y)) + fx_mul_s(s, k.x),
            z: c + fx_mul_s(oc, fx_mul_s(k.z, k.z)),
        },
    }
}

/// Builds the axis-angle rotation from a fixed-point unit axis and the
/// angle's sine and cosine.
pub fn rotation_about_axis(axis: &IVec3, s: i64, c: i64) -> (r: Mat3)
    requires
        v_bounded(axis@, UNITS_PER_METER as int),
        abs_i(s as int) <= UNITS_PER_METER as int,
        abs_i(c as int) <= UNITS_PER_METER as int,
    ensures
        r@ == m_rot_axis_s(axis@, s as int, c as int),
        m_bounded(r@, 4000000),
{
    proof {
        lemma_rodrigues_fits(axis@, s as int, c as int);
    }
    let oc = UNITS_PER_METER - c;
    Mat3 {
        rx: IVec3 {
            x: c + fx_mul(oc, fx_mul(axis.x, axis.x)),
            y: fx_mul(oc, fx_mul(axis.x, axis.y)) - fx_mul(s, axis.z),
            z: fx_mul(oc, fx_mul(axis.x, axis.z)) + fx_mul(s, axis.y),
        },
        ry: IVec3 {
            x: fx_mul(oc, fx_mul(axis.y, axis.x)) + fx_mul(s, axis.z),
            y: c + fx_mul(oc, fx_mul(axis.y, axis.y)),
            z: fx_mul(oc, fx_mul(axis.y, axis.z)) - fx_mul(s, axis.x),
        },
        rz: IVec3 {
            x: fx_mul(oc, fx_mul(axis.z, axis.x)) - fx_mul(s, axis.y),
            y: fx_mul(oc, fx_mul(axis.z, axis.y)) + fx_mul(s, axis.x),
            z: c + fx_mul(oc, fx_mul(axis.z, axis.z)),
        },
    }
}

/// Every product of the axis-angle construction stays within a few
/// fixed-point units.
proof fn lemma_rodrigues_fits(k: V3, s: int, c: int)
    requires
        v_bounded(k, UNITS_PER_METER as int),
        abs_i(s) <= UNITS_PER_METER as int,
        abs_i(c) <= UNITS_PER_METER as int,
    ensures
        abs_i(fx_mul_s(k.x, k.x)) <= 1000000,
        abs_i(fx_mul_s(k.y, k.y)) <= 1000000,
        abs_i(fx_mul_s(k.z, k.z)) <= 1000000,
        abs_i(fx_mul_s(k.x, k.y)) <= 1000000,
        abs_i(fx_mul_s(k.x, k.z)) <= 1000000,
        abs_i(fx_mul_s(k.y, k.x)) <= 1000000,
        abs_i(fx_mul_s(k.y, k.z)) <= 1000000,
        abs_i(fx_mul_s(k.z, k.x)) <= 1000000,
        abs_i(fx_mul_s(k.z, k.y)) <= 1000000,
        abs_i(fx_mul_s(s, k.x)) <= 1000000,
        abs_i(fx_mul_s(s, k.y)) <= 1000000,
        abs_i(fx_mul_s(s, k.z)) <= 1000000,
        abs_i(fx_mul_s((UNITS_PER_METER as int) - c, fx_mul_s(k.x, k.x))) <= 2000000,
        abs_i(fx_mul_s((UNITS_PER_METER as int) - c, fx_mul_s(k.y, k.y))) <= 2000000,
        abs_i(fx_mul_s((UNITS_PER_METER as int) - c, fx_mul_s(k.z, k.z))) <= 2000000,
        abs_i(fx_mul_s((UNITS_PER_METER as int) - c, fx_mul_s(k.x, k.y))) <= 2000000,
        abs_i(fx_mul_s((UNITS_PER_METER as int) - c, fx_mul_s(k.x, k.z))) <= 2000000,
        abs_i(fx_mul_s((UNITS_PER_METER as int) - c, fx_mul_s(k.y, k.x))) <= 2000000,
        abs_i(fx_mul_s((UNITS_PER_METER as int) - c, fx_mul_s(k.y, k.z))) <= 2000000,
        abs_i(fx_mul_s((UNITS_PER_METER as int) - c, fx_mul_s(k.z, k.x))) <= 2000000,
        abs_i(fx_mul_s((UNITS_PER_METER as int) - c, fx_mul_s(k.z, k.y))) <= 2000000,
{
    let u = UNITS_PER_METER as int;
    crate::fx::lemma_fx_mul_unit_bound(k.x, k.x, u);
    crate::fx::lemma_fx_mul_unit_bound(k.y, k.y, u);
    crate::fx::lemma_fx_mul_unit_bound(k.z, k.z, u);
    crate::fx::lemma_fx_mul_unit_bound(k.x, k.y, u);
    crate::fx::lemma_fx_mul_unit_bound(k.x, k.z, u);
    crate::fx::lemma_fx_mul_unit_bound(k.y, k.x, u);
    crate::fx::lemma_fx_mul_unit_bound(k.y, k.z, u);
    crate::fx::lemma_fx_mul_unit_bound(k.z, k.x, u);
    crate::fx::lemma_fx_mul_unit_bound(k.z, k.y, u);
    crate::fx::lemma_fx_mul_unit_bound(s, k.x, u);
    crate::fx::lemma_fx_mul_unit_bound(s, k.y, u);
    crate::fx::lemma_fx_mul_unit_bound(s, k.z, u);
    crate::fx::lemma_fx_mul_bound(u - c, fx_mul_s(k.x, k.x), 2 * u, u);
    crate::fx::lemma_fx_mul_bound(u - c, fx_mul_s(k.y, k.y), 2 * u, u);
    crate::fx::lemma_fx_mul_bound(u - c, fx_mul_s(k.z, k.z), 2 * u, u);
    crate::fx::lemma_fx_mul_bound(u - c, fx_mul_s(k.x, k.y), 2 * u, u);
    crate::fx::lemma_fx_mul_bound(u - c, fx_mul_s(k.x, k.z), 2 * u, u);
    crate::fx::lemma_fx_mul_bound(u - c, fx_mul_s(k.y, k.x), 2 * u, u);
    crate::fx::lemma_fx_mul_bound(u - c, fx_mul_s(k.y, k.z), 2 * u, u);
    crate::fx::lemma_fx_mul_bound(u - c, fx_mul_s(k.z, k.x), 2 * u, u);
    crate::fx::lemma_fx_mul_bound(u - c, fx_mul_s(k.z, k.y), 2 * u, u);
    assert((2 * u * u) / u == 2 * u) by {
        vstd::arithmetic::div_mod::lemma_div_multiples_vanish(2 * u, u);
    }
}

/// At unit scale the cached rotation–scale matrix of an unrotated
/// transform is the identity.
proof fn lemma_unit_scale_cols_identity()
    ensures
        m_scale_cols(
            m_identity(),
            V3 {
                x: UNITS_PER_METER as int,
                y: UNITS_PER_METER as int,
                z: UNITS_PER_METER as int,
            },
        ) == m_identity(),
{
    let u = UNITS_PER_METER as int;
    assert(u * u == 1000000000000int);
    assert(fx_mul_s(u, u) == u) by {
        vstd::arithmetic::div_mod::lemma_div_multiples_vanish(u, u);
    }
    assert(fx_mul_s(0, u) == 0) by {
        vstd::arithmetic::div_mod::lemma_div_of0(u);
    }
}

/// A well-formed transform's cached rotation–scale matrix is bounded.
pub proof fn lemma_rotscale_cap(t: Transform)
    requires
        t.wf(),
    ensures
        m_bounded(t.rotscale@, RS_CAP as int),
{
    lemma_scale_cols_fits(t.rot@, t.scl@);
}

/// Scaling rotation columns by well-formed scales stays inside i64 and
/// inside the rotation–scale entry cap.
proof fn lemma_scale_cols_fits(m: M3, s: V3)
    requires
        m_bounded(m, ROT_CAP as int),
        SCL_MIN as int <= s.x <= SCL_CAP as int,
        SCL_MIN as int <= s.y <= SCL_CAP as int,
        SCL_MIN as int <= s.z <= SCL_CAP as int,
    ensures
        m_bounded(m_scale_cols(m, s), RS_CAP as int),
{
    crate::fx::lemma_fx_mul_bound(m.rx.x, s.x, ROT_CAP as int, SCL_CAP as int);
    crate::fx::lemma_fx_mul_bound(m.rx.y, s.y, ROT_CAP as int, SCL_CAP as int);
    crate::fx::lemma_fx_mul_bound(m.rx.z, s.z, ROT_CAP as int, SCL_CAP as int);
    crate::fx::lemma_fx_mul_bound(m.ry.x, s.x, ROT_CAP as int, SCL_CAP as int);
    crate::fx::lemma_fx_mul_bound(m.ry.y, s.y, ROT_CAP as int, SCL_CAP as int);
    crate::fx::lemma_fx_mul_bound(m.ry.z, s.z, ROT_CAP as int, SCL_CAP as int);
    crate::fx::lemma_fx_mul_bound(m.rz.x, s.x, ROT_CAP as int, SCL_CAP as int);
    crate::fx::lemma_fx_mul_bound(m.rz.y, s.y, ROT_CAP as int, SCL_CAP as int);
    crate::fx::lemma_fx_mul_bound(m.rz.z, s.z, ROT_CAP as int, SCL_CAP as int);
}

/// Dividing rotation entries by well-formed scales stays inside i64 and
/// inside the inverse matrix entry cap.
proof fn lemma_inv_rot_scale_fits(m: M3, s: V3)
    requires
        m_bounded(m, ROT_CAP as int),
        SCL_MIN as int <= s.x <= SCL_CAP as int,
        SCL_MIN as int <= s.y <= SCL_CAP as int,
        SCL_MIN as int <= s.z <= SCL_CAP as int,
    ensures
        m_bounded(m_inv_rot_scale(m, s), RS_CAP as int),
{
    lemma_fx_div_cap(m.rx.x, s.x);
    lemma_fx_div_cap(m.rx.y, s.y);
    lemma_fx_div_cap(m.rx.z, s.z);
    lemma_fx_div_cap(m.ry.x, s.x);
    lemma_fx_div_cap(m.ry.y, s.y);
    lemma_fx_div_cap(m.ry.z, s.z);
    lemma_fx_div_cap(m.rz.x, s.x);
    lemma_fx_div_cap(m.rz.y, s.y);
    lemma_fx_div_cap(m.rz.z, s.z);
}

/// One entry of the inverse rotation–scale matrix is bounded by the
/// rotation cap divided by the smallest scale, re-scaled.
proof fn lemma_fx_div_cap(a: int, s: int)
    requires
        abs_i(a) <= ROT_CAP as int,
        SCL_MIN as int <= s <= SCL_CAP as int,
    ensures
        abs_i(fx_div_s(a, s)) <= RS_CAP as int,
{
    assert(abs_i(a * (UNITS_PER_METER as int)) <= 2000000000000) by {
        vstd::arithmetic::mul::lemma_mul_upper_bound(
            abs_i(a), 2000000, UNITS_PER_METER as int, 1000000,
        );
        assert(abs_i(a) * (UNITS_PER_METER as int) == abs_i(a * (UNITS_PER_METER as int)))
            by (nonlinear_arith);
    }
    crate::fx::lemma_div_t_bound(a * (UNITS_PER_METER as int), s, 2000000000000);
    assert(2000000000000int / abs_i(s) <= 2000000000int) by {
        vstd::arithmetic::div_mod::lemma_div_is_ordered_by_denominator(
            2000000000000, 1000, abs_i(s),
        );
    }
}

} // verus!
