//! Mass and moment of inertia, derived from shape, scale and density —
//! never stored, so they cannot go stale when the scale changes.
//!
//! The inertia tensor is diagonal (rotation is taken about the center of
//! mass along principal axes), so a vector of three components carries
//! it.  All values are fixed-point; the formulas mirror the fixed-point
//! products exactly.

use vstd::prelude::*;
use crate::fx::{fx_mul_s, fx_mul, UNITS_PER_METER};
use crate::vec3::{IVec3, V3};
use crate::collisions::ColliderType;

verus! {

/// Pi in fixed point, to the precision the mass formula uses.
pub const PI_FX: i64 = 3141500;

/// Four thirds in fixed point.
pub const FOUR_THIRDS_FX: i64 = 1333333;

/// One twelfth in fixed point.
pub const ONE_TWELFTH_FX: i64 = 83333;

/// Two fifths in fixed point.
pub const TWO_FIFTHS_FX: i64 = 400000;

/// Largest density a massive body may have: one hundred, fixed point.
pub const DENS_CAP: i64 = 100000000;

/// Largest scale component a massive body may have: twenty meters in
/// fixed point, which keeps every mass and inertia product inside i64.
pub const MASS_SCL_CAP: i64 = 20000000;

/// Largest mass the formulas can produce under those caps.
pub const MASS_CAP: i64 = 4000000000000000;

/// Volume of the scaled unit shape, in fixed-point cubic meters.
pub open spec fn volume_s(scl: V3) -> int {
    fx_mul_s(fx_mul_s(scl.x, scl.y), scl.z)
}

/// Mass: density times volume, with the sphere carrying the four-thirds
///-pi factor of its circumscribed formulation.
pub open spec fn mass_s(shape: ColliderType, scl: V3, density: int) -> int {
    if shape is Sphere {
        fx_mul_s(fx_mul_s(fx_mul_s(FOUR_THIRDS_FX as int, PI_FX as int), density), volume_s(scl))
    } else {
        fx_mul_s(density, volume_s(scl))
    }
}

/// Diagonal moment of inertia.  Sphere: two fifths of mass times squared
/// radius on every axis; box: one twelfth of mass times the sum of the
/// squares of the two other extents per axis.
pub open spec fn moment_of_inertia_s(shape: ColliderType, size: V3, mass: int) -> V3 {
    if shape is Sphere {
        let radius = fx_mul_s(size.x, 500000);
        let m = fx_mul_s(fx_mul_s(TWO_FIFTHS_FX as int, mass), fx_mul_s(radius, radius));
        V3 { x: m, y: m, z: m }
    } else {
        V3 {
            x: fx_mul_s(
                fx_mul_s(ONE_TWELFTH_FX as int, mass),
                fx_mul_s(size.y, size.y) + fx_mul_s(size.z, size.z),
            ),
            y: fx_mul_s(
                fx_mul_s(ONE_TWELFTH_FX as int, mass),
                fx_mul_s(size.x, size.x) + fx_mul_s(size.z, size.z),
            ),
            z: fx_mul_s(
                fx_mul_s(ONE_TWELFTH_FX as int, mass),
                fx_mul_s(size.y, size.y) + fx_mul_s(size.x, size.x),
            ),
        }
    }
}

/// Bounds every fixed product in the mass and inertia formulas needs.
pub open spec fn mass_inputs_ok(scl: V3, density: int) -> bool {
    &&& crate::transform::SCL_MIN as int <= scl.x <= MASS_SCL_CAP as int
    &&& crate::transform::SCL_MIN as int <= scl.y <= MASS_SCL_CAP as int
    &&& crate::transform::SCL_MIN as int <= scl.z <= MASS_SCL_CAP as int
    &&& 1 <= density <= DENS_CAP as int
}

proof fn lemma_mass_range_help(scl: V3, density: int)
    requires
        mass_inputs_ok(scl, density),
    ensures
        0 <= fx_mul_s(scl.x, scl.y) <= 400000000,
        0 <= volume_s(scl) <= 8000000000,
        0 <= fx_mul_s(density, volume_s(scl)) <= MASS_CAP as int,
        0 <= fx_mul_s(FOUR_THIRDS_FX as int, PI_FX as int) <= 4188790,
        0 <= fx_mul_s(fx_mul_s(FOUR_THIRDS_FX as int, PI_FX as int), density) <= 418879000000,
        0 <= fx_mul_s(
            fx_mul_s(fx_mul_s(FOUR_THIRDS_FX as int, PI_FX as int), density),
            volume_s(scl),
        ) <= MASS_CAP as int,
{
    let u = UNITS_PER_METER as int;
    crate::fx::lemma_fx_mul_nonneg(scl.x, scl.y);
    crate::fx::lemma_fx_mul_bound(scl.x, scl.y, MASS_SCL_CAP as int, MASS_SCL_CAP as int);
    crate::fx::lemma_div_le(MASS_SCL_CAP as int * MASS_SCL_CAP as int, u, 400000000);
    crate::fx::lemma_fx_mul_nonneg(fx_mul_s(scl.x, scl.y), scl.z);
    crate::fx::lemma_fx_mul_bound(fx_mul_s(scl.x, scl.y), scl.z, 400000000, MASS_SCL_CAP as int);
    crate::fx::lemma_div_le(400000000int * MASS_SCL_CAP as int, u, 8000000000);
    crate::fx::lemma_fx_mul_nonneg(density, volume_s(scl));
    crate::fx::lemma_fx_mul_bound(density, volume_s(scl), DENS_CAP as int, 8000000000);
    crate::fx::lemma_div_le(DENS_CAP as int * 8000000000, u, 800000000000);
    crate::fx::lemma_fx_mul_nonneg(FOUR_THIRDS_FX as int, PI_FX as int);
    crate::fx::lemma_fx_mul_bound(FOUR_THIRDS_FX as int, PI_FX as int, 1333333, 3141500);
    crate::fx::lemma_div_le(1333333int * 3141500int, u, 4188790);
    crate::fx::lemma_fx_mul_nonneg(fx_mul_s(FOUR_THIRDS_FX as int, PI_FX as int), density);
    crate::fx::lemma_fx_mul_bound(
        fx_mul_s(FOUR_THIRDS_FX as int, PI_FX as int),
        density,
        4188790,
        DENS_CAP as int,
    );
    crate::fx::lemma_div_le(4188790int * DENS_CAP as int, u, 418879000000);
    crate::fx::lemma_fx_mul_nonneg(
        fx_mul_s(fx_mul_s(FOUR_THIRDS_FX as int, PI_FX as int), density),
        volume_s(scl),
    );
    crate::fx::lemma_fx_mul_bound(
        fx_mul_s(fx_mul_s(FOUR_THIRDS_FX as int, PI_FX as int), density),
        volume_s(scl),
        418879000000,
        8000000000,
    );
    crate::fx::lemma_div_le(418879000000int * 8000000000, u, MASS_CAP as int);
}

/// Mass from shape, scale and density.
pub fn mass(shape: ColliderType, scl: &IVec3, density: i64) -> (r: i64)
    requires
        mass_inputs_ok(scl@, density as int),
    ensures
        r == mass_s(shape, scl@, density as int),
        0 <= r <= MASS_CAP,
{
    proof {
        lemma_mass_range_help(scl@, density as int);
    }
    let vol = fx_mul(fx_mul(scl.x, scl.y), scl.z);
    match shape {
        ColliderType::Sphere => fx_mul(fx_mul(fx_mul(FOUR_THIRDS_FX, PI_FX), density), vol),
        _ => fx_mul(density, vol),
    }
}

/// Diagonal moment of inertia from shape, scale and mass.  The convex
/// shape has no closed-form tensor here and is excluded, mirroring the
/// fatal unsupported-shape condition.
pub fn moment_of_inertia(collider_type: ColliderType, size: &IVec3, mass: i64) -> (r: IVec3)
    requires
        !(collider_type is Convex),
        crate::transform::SCL_MIN as int <= size@.x <= MASS_SCL_CAP as int,
        crate::transform::SCL_MIN as int <= size@.y <= MASS_SCL_CAP as int,
        crate::transform::SCL_MIN as int <= size@.z <= MASS_SCL_CAP as int,
        0 <= mass <= MASS_CAP,
    ensures
        r@ == moment_of_inertia_s(collider_type, size@, mass as int),
        crate::vec3::v_bounded(r@, 300000000000000000),
        r@.x >= 0 && r@.y >= 0 && r@.z >= 0,
{
    proof {
        lemma_inertia_fits(size@, mass as int);
    }
    match collider_type {
        ColliderType::Sphere => {
            let radius = fx_mul(size.x, 500000);
            let m = fx_mul(fx_mul(TWO_FIFTHS_FX, mass), fx_mul(radius, radius));
            IVec3 { x: m, y: m, z: m }
        },
        _ => {
            let xx = fx_mul(size.x, size.x);
            let yy = fx_mul(size.y, size.y);
            let zz = fx_mul(size.z, size.z);
            let tw = fx_mul(ONE_TWELFTH_FX, mass);
            IVec3 { x: fx_mul(tw, yy + zz), y: fx_mul(tw, xx + zz), z: fx_mul(tw, yy + xx) }
        },
    }
}

proof fn lemma_inertia_fits(size: V3, mass: int)
    requires
        crate::transform::SCL_MIN as int <= size.x <= MASS_SCL_CAP as int,
        crate::transform::SCL_MIN as int <= size.y <= MASS_SCL_CAP as int,
        crate::transform::SCL_MIN as int <= size.z <= MASS_SCL_CAP as int,
        0 <= mass <= MASS_CAP as int,
    ensures
        0 <= fx_mul_s(size.x, 500000) <= 10000000,
        0 <= fx_mul_s(size.x, size.x) <= 400000000,
        0 <= fx_mul_s(size.y, size.y) <= 400000000,
        0 <= fx_mul_s(size.z, size.z) <= 400000000,
        0 <= fx_mul_s(fx_mul_s(size.x, 500000), fx_mul_s(size.x, 500000)) <= 100000000,
        0 <= fx_mul_s(TWO_FIFTHS_FX as int, mass) <= 1600000000000000,
        0 <= fx_mul_s(ONE_TWELFTH_FX as int, mass) <= 333332000000000,
        0 <= fx_mul_s(
            fx_mul_s(TWO_FIFTHS_FX as int, mass),
            fx_mul_s(fx_mul_s(size.x, 500000), fx_mul_s(size.x, 500000)),
        ) <= 300000000000000000,
        0 <= fx_mul_s(
            fx_mul_s(ONE_TWELFTH_FX as int, mass),
            fx_mul_s(size.y, size.y) + fx_mul_s(size.z, size.z),
        ) <= 300000000000000000,
        0 <= fx_mul_s(
            fx_mul_s(ONE_TWELFTH_FX as int, mass),
            fx_mul_s(size.x, size.x) + fx_mul_s(size.z, size.z),
        ) <= 300000000000000000,
        0 <= fx_mul_s(
            fx_mul_s(ONE_TWELFTH_FX as int, mass),
            fx_mul_s(size.y, size.y) + fx_mul_s(size.x, size.x),
        ) <= 300000000000000000,
{
    let u = UNITS_PER_METER as int;
    crate::fx::lemma_fx_mul_nonneg(size.x, 500000);
    crate::fx::lemma_fx_mul_bound(size.x, 500000, MASS_SCL_CAP as int, 500000);
    crate::fx::lemma_div_le(MASS_SCL_CAP as int * 500000, u, 10000000);
    crate::fx::lemma_fx_mul_nonneg(size.x, size.x);
    crate::fx::lemma_fx_mul_nonneg(size.y, size.y);
    crate::fx::lemma_fx_mul_nonneg(size.z, size.z);
    crate::fx::lemma_fx_mul_bound(size.x, size.x, MASS_SCL_CAP as int, MASS_SCL_CAP as int);
    crate::fx::lemma_fx_mul_bound(size.y, size.y, MASS_SCL_CAP as int, MASS_SCL_CAP as int);
    crate::fx::lemma_fx_mul_bound(size.z, size.z, MASS_SCL_CAP as int, MASS_SCL_CAP as int);
    crate::fx::lemma_div_le(MASS_SCL_CAP as int * MASS_SCL_CAP as int, u, 400000000);
    let rad = fx_mul_s(size.x, 500000);
    crate::fx::lemma_fx_mul_nonneg(rad, rad);
    crate::fx::lemma_fx_mul_bound(rad, rad, 10000000, 10000000);
    crate::fx::lemma_div_le(10000000int * 10000000, u, 100000000);
    crate::fx::lemma_fx_mul_nonneg(TWO_FIFTHS_FX as int, mass);
    crate::fx::lemma_fx_mul_bound(TWO_FIFTHS_FX as int, mass, 400000, MASS_CAP as int);
    crate::fx::lemma_div_le(400000 * MASS_CAP as int, u, 1600000000000000);
    crate::fx::lemma_fx_mul_nonneg(ONE_TWELFTH_FX as int, mass);
    crate::fx::lemma_fx_mul_bound(ONE_TWELFTH_FX as int, mass, 83333, MASS_CAP as int);
    crate::fx::lemma_div_le(83333 * MASS_CAP as int, u, 333332000000000);
    let tf = fx_mul_s(TWO_FIFTHS_FX as int, mass);
    crate::fx::lemma_fx_mul_nonneg(tf, fx_mul_s(rad, rad));
    crate::fx::lemma_fx_mul_bound(tf, fx_mul_s(rad, rad), 1600000000000000, 100000000);
    crate::fx::lemma_div_le(1600000000000000int * 100000000int, u, 300000000000000000);
    let tw = fx_mul_s(ONE_TWELFTH_FX as int, mass);
    crate::fx::lemma_fx_mul_nonneg(tw, fx_mul_s(size.y, size.y) + fx_mul_s(size.z, size.z));
    crate::fx::lemma_fx_mul_nonneg(tw, fx_mul_s(size.x, size.x) + fx_mul_s(size.z, size.z));
    crate::fx::lemma_fx_mul_nonneg(tw, fx_mul_s(size.y, size.y) + fx_mul_s(size.x, size.x));
    crate::fx::lemma_fx_mul_bound(
        tw,
        fx_mul_s(size.y, size.y) + fx_mul_s(size.z, size.z),
        333332000000000,
        800000000,
    );
    crate::fx::lemma_fx_mul_bound(
        tw,
        fx_mul_s(size.x, size.x) + fx_mul_s(size.z, size.z),
        333332000000000,
        800000000,
    );
    crate::fx::lemma_fx_mul_bound(
        tw,
        fx_mul_s(size.y, size.y) + fx_mul_s(size.x, size.x),
        333332000000000,
        800000000,
    );
    crate::fx::lemma_div_le(333332000000000int * 800000000int, u, 300000000000000000);
}

} // verus!
