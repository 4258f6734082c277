//! Fixed-point 3×3 matrices, stored by rows.
//!
//! A rotation is held as a matrix of fixed-point fractions (millionths), so
//! applying it to a vector is three fixed-point dot products.  `M3` is the
//! mathematical model over unbounded integers; every operation is specified
//! over it.

use vstd::prelude::*;
use crate::fx::{abs_i, fx_mul_s, fx_mul, UNITS_PER_METER};
use crate::vec3::{IVec3, V3, v_dot_fx, v_bounded};

verus! {

/// Mathematical model of a matrix: three rows of unbounded integers.
pub struct M3 {
    pub rx: V3,
    pub ry: V3,
    pub rz: V3,
}

/// Executable fixed-point matrix, rows `rx`, `ry`, `rz`.
#[derive(Clone, Copy, PartialEq, Eq, Structural, Debug)]
pub struct Mat3 {
    pub rx: IVec3,
    pub ry: IVec3,
    pub rz: IVec3,
}

impl View for Mat3 {
    type V = M3;

    open spec fn view(&self) -> M3 {
        M3 { rx: self.rx@, ry: self.ry@, rz: self.rz@ }
    }
}

/// The identity in fixed-point terms: ones on the diagonal.
pub open spec fn m_identity() -> M3 {
    M3 {
        rx: V3 { x: UNITS_PER_METER as int, y: 0, z: 0 },
        ry: V3 { x: 0, y: UNITS_PER_METER as int, z: 0 },
        rz: V3 { x: 0, y: 0, z: UNITS_PER_METER as int },
    }
}

/// Matrix–vector product: one fixed-point dot product per row.
pub open spec fn m_mul_vec_fx(m: M3, v: V3) -> V3 {
    V3 { x: v_dot_fx(m.rx, v), y: v_dot_fx(m.ry, v), z: v_dot_fx(m.rz, v) }
}

/// Columns of a matrix.
pub open spec fn m_col_x(m: M3) -> V3 {
    V3 { x: m.rx.x, y: m.ry.x, z: m.rz.x }
}

pub open spec fn m_col_y(m: M3) -> V3 {
    V3 { x: m.rx.y, y: m.ry.y, z: m.rz.y }
}

pub open spec fn m_col_z(m: M3) -> V3 {
    V3 { x: m.rx.z, y: m.ry.z, z: m.rz.z }
}

/// Transpose.
pub open spec fn m_transpose(m: M3) -> M3 {
    M3 { rx: m_col_x(m), ry: m_col_y(m), rz: m_col_z(m) }
}

/// Matrix product: fixed-point dot products of rows with columns.
pub open spec fn m_mul_fx(a: M3, b: M3) -> M3 {
    M3 {
        rx: V3 {
            x: v_dot_fx(a.rx, m_col_x(b)),
            y: v_dot_fx(a.rx, m_col_y(b)),
            z: v_dot_fx(a.rx, m_col_z(b)),
        },
        ry: V3 {
            x: v_dot_fx(a.ry, m_col_x(b)),
            y: v_dot_fx(a.ry, m_col_y(b)),
            z: v_dot_fx(a.ry, m_col_z(b)),
        },
        rz: V3 {
            x: v_dot_fx(a.rz, m_col_x(b)),
            y: v_dot_fx(a.rz, m_col_y(b)),
            z: v_dot_fx(a.rz, m_col_z(b)),
        },
    }
}

/// Every entry lies within `cap` in magnitude.
pub open spec fn m_bounded(m: M3, cap: int) -> bool {
    v_bounded(m.rx, cap) && v_bounded(m.ry, cap) && v_bounded(m.rz, cap)
}

/// A fixed-point dot product of a row bounded by `cap_m` with a vector
/// bounded by `cap_v` is bounded by three re-scaled term bounds.
pub proof fn lemma_dot_fx_bound(a: V3, b: V3, cap_a: int, cap_b: int)
    requires
        v_bounded(a, cap_a),
        v_bounded(b, cap_b),
    ensures
        abs_i(fx_mul_s(a.x, b.x)) <= (cap_a * cap_b) / (UNITS_PER_METER as int),
        abs_i(fx_mul_s(a.y, b.y)) <= (cap_a * cap_b) / (UNITS_PER_METER as int),
        abs_i(fx_mul_s(a.z, b.z)) <= (cap_a * cap_b) / (UNITS_PER_METER as int),
        abs_i(v_dot_fx(a, b)) <= 3 * ((cap_a * cap_b) / (UNITS_PER_METER as int)),
{
    crate::fx::lemma_fx_mul_bound(a.x, b.x, cap_a, cap_b);
    crate::fx::lemma_fx_mul_bound(a.y, b.y, cap_a, cap_b);
    crate::fx::lemma_fx_mul_bound(a.z, b.z, cap_a, cap_b);
}

/// Matrix–vector application keeps all components within three re-scaled
/// term bounds.
pub proof fn lemma_mul_vec_fx_bound(m: M3, v: V3, cap_m: int, cap_v: int)
    requires
        m_bounded(m, cap_m),
        v_bounded(v, cap_v),
    ensures
        v_bounded(m_mul_vec_fx(m, v), 3 * ((cap_m * cap_v) / (UNITS_PER_METER as int))),
{
    lemma_dot_fx_bound(m.rx, v, cap_m, cap_v);
    lemma_dot_fx_bound(m.ry, v, cap_m, cap_v);
    lemma_dot_fx_bound(m.rz, v, cap_m, cap_v);
    assert((cap_m * cap_v) / (UNITS_PER_METER as int) >= 0) by {
        vstd::arithmetic::mul::lemma_mul_nonnegative(cap_m, cap_v);
        vstd::arithmetic::div_mod::lemma_div_pos_is_pos(cap_m * cap_v, UNITS_PER_METER as int);
    }
}

impl Mat3 {
    pub fn identity() -> (r: Mat3)
        ensures
            r@ == m_identity(),
    {
        Mat3 {
            rx: IVec3 { x: UNITS_PER_METER, y: 0, z: 0 },
            ry: IVec3 { x: 0, y: UNITS_PER_METER, z: 0 },
            rz: IVec3 { x: 0, y: 0, z: UNITS_PER_METER },
        }
    }

    pub fn transpose(&self) -> (r: Mat3)
        ensures
            r@ == m_transpose(self@),
    {
        Mat3 {
            rx: IVec3 { x: self.rx.x, y: self.ry.x, z: self.rz.x },
            ry: IVec3 { x: self.rx.y, y: self.ry.y, z: self.rz.y },
            rz: IVec3 { x: self.rx.z, y: self.ry.z, z: self.rz.z },
        }
    }

    /// Applies the matrix to a vector.  The caps keep every intermediate
    /// fixed-point term inside i64.
    pub fn mul_vec_fx(&self, v: &IVec3) -> (r: IVec3)
        requires
            m_bounded(self@, 2000000000),
            v_bounded(v@, 0x4000000000000),
        ensures
            r@ == m_mul_vec_fx(self@, v@),
            v_bounded(r@, 3 * ((2000000000int * 0x4000000000000int) / (UNITS_PER_METER as int))),
    {
        proof {
            lemma_dot_fx_bound(self@.rx, v@, 2000000000, 0x4000000000000);
            lemma_dot_fx_bound(self@.ry, v@, 2000000000, 0x4000000000000);
            lemma_dot_fx_bound(self@.rz, v@, 2000000000, 0x4000000000000);
        }
        IVec3 {
            x: self.rx.dot_fx(v),
            y: self.ry.dot_fx(v),
            z: self.rz.dot_fx(v),
        }
    }

    /// Fixed-point matrix product; both factors bounded like rotations.
    pub fn mul_fx(&self, o: &Mat3) -> (r: Mat3)
        requires
            m_bounded(self@, 4000000),
            m_bounded(o@, 4000000),
        ensures
            r@ == m_mul_fx(self@, o@),
            m_bounded(r@, 48000000),
    {
        let ot = o.transpose();
        proof {
            lemma_dot_fx_bound(self@.rx, ot@.rx, 4000000, 4000000);
            lemma_dot_fx_bound(self@.rx, ot@.ry, 4000000, 4000000);
            lemma_dot_fx_bound(self@.rx, ot@.rz, 4000000, 4000000);
            lemma_dot_fx_bound(self@.ry, ot@.rx, 4000000, 4000000);
            lemma_dot_fx_bound(self@.ry, ot@.ry, 4000000, 4000000);
            lemma_dot_fx_bound(self@.ry, ot@.rz, 4000000, 4000000);
            lemma_dot_fx_bound(self@.rz, ot@.rx, 4000000, 4000000);
            lemma_dot_fx_bound(self@.rz, ot@.ry, 4000000, 4000000);
            lemma_dot_fx_bound(self@.rz, ot@.rz, 4000000, 4000000);
        }
        Mat3 {
            rx: IVec3 {
                x: self.rx.dot_fx(&ot.rx),
                y: self.rx.dot_fx(&ot.ry),
                z: self.rx.dot_fx(&ot.rz),
            },
            ry: IVec3 {
                x: self.ry.dot_fx(&ot.rx),
                y: self.ry.dot_fx(&ot.ry),
                z: self.ry.dot_fx(&ot.rz),
            },
            rz: IVec3 {
                x: self.rz.dot_fx(&ot.rx),
                y: self.rz.dot_fx(&ot.ry),
                z: self.rz.dot_fx(&ot.rz),
            },
        }
    }

    /// True when every entry's magnitude is at most `cap`.
    pub fn is_bounded(&self, cap: i64) -> (r: bool)
        requires
            cap >= 0,
        ensures
            r == m_bounded(self@, cap as int),
    {
        -cap <= self.rx.x && self.rx.x <= cap && -cap <= self.rx.y && self.rx.y <= cap
            && -cap <= self.rx.z && self.rx.z <= cap && -cap <= self.ry.x && self.ry.x <= cap
            && -cap <= self.ry.y && self.ry.y <= cap && -cap <= self.ry.z && self.ry.z <= cap
            && -cap <= self.rz.x && self.rz.x <= cap && -cap <= self.rz.y && self.rz.y <= cap
            && -cap <= self.rz.z && self.rz.z <= cap
    }
}

} // verus!
