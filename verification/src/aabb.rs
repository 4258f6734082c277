//! Axis-aligned bounding boxes with integer (micrometer) bounds.
//!
//! A box built from a transform is deliberately oversized: its half-extent
//! on every axis is the largest scale component, so rotation never has to
//! be considered in the broad phase.  The stored center is the position the
//! box was built around; growing a box with `fit` widens `min` and `max`
//! monotonically and leaves the center where it was, exactly as the
//! split/descend logic of the spatial structure expects.

use vstd::prelude::*;
use crate::vec3::{IVec3, V3, v_bounded, v_in_i64, v_abs_max};
use crate::transform::{Transform, POS_CAP, SCL_CAP};

verus! {

/// Mathematical model of a box: min and max corner and stored center.
pub struct A3 {
    pub min: V3,
    pub max: V3,
    pub center: V3,
}

/// Executable axis-aligned box.
#[derive(Clone, Copy, PartialEq, Eq, Structural, Debug)]
pub struct AABB {
    pub min: IVec3,
    pub max: IVec3,
    pub center: IVec3,
}

impl View for AABB {
    type V = A3;

    open spec fn view(&self) -> A3 {
        A3 { min: self.min@, max: self.max@, center: self.center@ }
    }
}

/// `a` encloses `b`: every point of `b` lies inside `a` (closed bounds).
pub open spec fn encloses(a: A3, b: A3) -> bool {
    &&& a.min.x <= b.min.x && b.max.x <= a.max.x
    &&& a.min.y <= b.min.y && b.max.y <= a.max.y
    &&& a.min.z <= b.min.z && b.max.z <= a.max.z
}

/// `a` strictly contains `b`: every point of `b` lies strictly inside.
pub open spec fn contains_strict(a: A3, b: A3) -> bool {
    &&& a.min.x < b.min.x && b.max.x < a.max.x
    &&& a.min.y < b.min.y && b.max.y < a.max.y
    &&& a.min.z < b.min.z && b.max.z < a.max.z
}

/// `a` touches `b`: the open-interval overlap test on every axis.
pub open spec fn touches_s(a: A3, b: A3) -> bool {
    &&& a.min.x < b.max.x && a.max.x > b.min.x
    &&& a.min.y < b.max.y && a.max.y > b.min.y
    &&& a.min.z < b.max.z && a.max.z > b.min.z
}

/// The smallest box enclosing both arguments, keeping `a`'s center.
pub open spec fn fit_s(a: A3, b: A3) -> A3 {
    A3 {
        min: V3 {
            x: if a.min.x <= b.min.x { a.min.x } else { b.min.x },
            y: if a.min.y <= b.min.y { a.min.y } else { b.min.y },
            z: if a.min.z <= b.min.z { a.min.z } else { b.min.z },
        },
        max: V3 {
            x: if a.max.x >= b.max.x { a.max.x } else { b.max.x },
            y: if a.max.y >= b.max.y { a.max.y } else { b.max.y },
            z: if a.max.z >= b.max.z { a.max.z } else { b.max.z },
        },
        center: a.center,
    }
}

/// The box a transform gets in the broad phase: centered on its position,
/// half-extent the largest scale component on all three axes.
pub open spec fn aabb_of_transform(t: Transform) -> A3 {
    let c = t.pos@;
    let h = v_abs_max(t.scl@);
    A3 {
        min: V3 { x: c.x - h, y: c.y - h, z: c.z - h },
        max: V3 { x: c.x + h, y: c.y + h, z: c.z + h },
        center: c,
    }
}

/// Growing a box to fit another encloses everything either enclosed.
pub proof fn lemma_fit_encloses(a: A3, b: A3)
    ensures
        encloses(fit_s(a, b), a),
        encloses(fit_s(a, b), b),
{
}

/// A box enclosing both arguments encloses their least upper bound.
pub proof fn lemma_fit_lub(outer: A3, a: A3, b: A3)
    requires
        encloses(outer, a),
        encloses(outer, b),
    ensures
        encloses(outer, fit_s(a, b)),
{
}

/// Enclosure is transitive.
pub proof fn lemma_encloses_trans(a: A3, b: A3, c: A3)
    requires
        encloses(a, b),
        encloses(b, c),
    ensures
        encloses(a, c),
{
}

impl AABB {
    /// Oversized box around a transform: position-centered, half-extent
    /// the largest scale component, so rotation can be ignored.
    pub fn new(transform: &Transform) -> (r: AABB)
        requires
            transform.wf(),
        ensures
            r@ == aabb_of_transform(*transform),
            v_bounded(r@.min, POS_CAP as int + SCL_CAP as int),
            v_bounded(r@.max, POS_CAP as int + SCL_CAP as int),
            r@.min.x <= r@.max.x,
            r@.min.y <= r@.max.y,
            r@.min.z <= r@.max.z,
    {
        let c = transform.pos();
        let h: i64 = transform.scl().abs_max();
        AABB {
            min: IVec3 { x: c.x - h, y: c.y - h, z: c.z - h },
            max: IVec3 { x: c.x + h, y: c.y + h, z: c.z + h },
            center: c,
        }
    }

    /// Box with the given center and half-extent per axis.
    pub fn from_extents(center: IVec3, half: IVec3) -> (r: AABB)
        requires
            half@.x >= 0,
            half@.y >= 0,
            half@.z >= 0,
            v_in_i64(crate::vec3::v_sub(center@, half@)),
            v_in_i64(crate::vec3::v_add(center@, half@)),
        ensures
            r@ == (A3 {
                min: crate::vec3::v_sub(center@, half@),
                max: crate::vec3::v_add(center@, half@),
                center: center@,
            }),
    {
        AABB { min: center.sub(&half), max: center.add(&half), center }
    }

    /// Grows this box so it encloses `other`; the center is kept, matching
    /// the structure's expand-on-insert behaviour which never recenters.
    pub fn fit(&mut self, other: &AABB)
        ensures
            final(self)@ == fit_s(old(self)@, other@),
    {
        if other.max.x > self.max.x {
            self.max.x = other.max.x;
        }
        if other.max.y > self.max.y {
            self.max.y = other.max.y;
        }
        if other.max.z > self.max.z {
            self.max.z = other.max.z;
        }
        if other.min.x < self.min.x {
            self.min.x = other.min.x;
        }
        if other.min.y < self.min.y {
            self.min.y = other.min.y;
        }
        if other.min.z < self.min.z {
            self.min.z = other.min.z;
        }
    }

    /// Strict containment: true when `other` fits strictly inside.
    pub fn contains(&self, other: &AABB) -> (r: bool)
        ensures
            r == contains_strict(self@, other@),
    {
        self.min.x < other.min.x && self.min.y < other.min.y && self.min.z < other.min.z
            && self.max.x > other.max.x && self.max.y > other.max.y && self.max.z > other.max.z
    }

    /// Open-interval overlap on every axis.
    pub fn touches(&self, other: &AABB) -> (r: bool)
        ensures
            r == touches_s(self@, other@),
    {
        self.min.x < other.max.x && self.max.x > other.min.x && self.min.y < other.max.y
            && self.max.y > other.min.y && self.min.z < other.max.z && self.max.z > other.min.z
    }
}

} // verus!
