//! Integer 3-vectors.
//!
//! `IVec3` is the executable vector: three i64 components, read as
//! micrometers for positions and velocities and as fixed-point millionths
//! for dimensionless directions and scales.  `V3` is its mathematical
//! model — the same three components as unbounded integers — and every
//! vector operation is specified over `V3`.

use vstd::prelude::*;
use crate::fx::{abs_i, div_t, fx_mul_s, fx_mul, div_trunc, UNITS_PER_METER};

verus! {

/// Mathematical model of a vector: three unbounded integers.
pub struct V3 {
    pub x: int,
    pub y: int,
    pub z: int,
}

/// Executable integer vector.
#[derive(Clone, Copy, PartialEq, Eq, Structural, Debug)]
pub struct IVec3 {
    pub x: i64,
    pub y: i64,
    pub z: i64,
}

impl View for IVec3 {
    type V = V3;

    open spec fn view(&self) -> V3 {
        V3 { x: self.x as int, y: self.y as int, z: self.z as int }
    }
}

/// Component-wise sum.
pub open spec fn v_add(a: V3, b: V3) -> V3 {
    V3 { x: a.x + b.x, y: a.y + b.y, z: a.z + b.z }
}

/// Component-wise difference.
pub open spec fn v_sub(a: V3, b: V3) -> V3 {
    V3 { x: a.x - b.x, y: a.y - b.y, z: a.z - b.z }
}

/// Component-wise negation.
pub open spec fn v_neg(a: V3) -> V3 {
    V3 { x: -a.x, y: -a.y, z: -a.z }
}

/// Fixed-point scaling of every component by the fraction `k`.
pub open spec fn v_scale_fx(a: V3, k: int) -> V3 {
    V3 { x: fx_mul_s(a.x, k), y: fx_mul_s(a.y, k), z: fx_mul_s(a.z, k) }
}

/// Truncating division of every component by the integer `d`.
pub open spec fn v_div_t(a: V3, d: int) -> V3 {
    V3 { x: div_t(a.x, d), y: div_t(a.y, d), z: div_t(a.z, d) }
}

/// Exact dot product, without re-scaling.
pub open spec fn v_dot(a: V3, b: V3) -> int {
    a.x * b.x + a.y * b.y + a.z * b.z
}

/// Fixed-point dot product: each term re-scaled, truncating toward zero.
pub open spec fn v_dot_fx(a: V3, b: V3) -> int {
    fx_mul_s(a.x, b.x) + fx_mul_s(a.y, b.y) + fx_mul_s(a.z, b.z)
}

/// Fixed-point cross product.
pub open spec fn v_cross_fx(a: V3, b: V3) -> V3 {
    V3 {
        x: fx_mul_s(a.y, b.z) - fx_mul_s(a.z, b.y),
        y: fx_mul_s(a.z, b.x) - fx_mul_s(a.x, b.z),
        z: fx_mul_s(a.x, b.y) - fx_mul_s(a.y, b.x),
    }
}

/// Squared length, exact.
pub open spec fn v_mag2(a: V3) -> int {
    v_dot(a, a)
}

/// Largest component magnitude.
pub open spec fn v_abs_max(a: V3) -> int {
    if abs_i(a.x) >= abs_i(a.y) && abs_i(a.x) >= abs_i(a.z) {
        abs_i(a.x)
    } else if abs_i(a.y) >= abs_i(a.z) {
        abs_i(a.y)
    } else {
        abs_i(a.z)
    }
}

/// All three components lie within `cap` in magnitude.
pub open spec fn v_bounded(a: V3, cap: int) -> bool {
    abs_i(a.x) <= cap && abs_i(a.y) <= cap && abs_i(a.z) <= cap
}

/// All three components fit in i64.
pub open spec fn v_in_i64(a: V3) -> bool {
    i64::MIN <= a.x <= i64::MAX && i64::MIN <= a.y <= i64::MAX && i64::MIN <= a.z <= i64::MAX
}

/// The executable vector a model vector denotes, component casts and all
/// — the bridge every exact machine-state contract is written through.
pub open spec fn iv_of(a: V3) -> IVec3 {
    IVec3 { x: a.x as i64, y: a.y as i64, z: a.z as i64 }
}

impl IVec3 {
    pub fn new(x: i64, y: i64, z: i64) -> (r: IVec3)
        ensures
            r@ == (V3 { x: x as int, y: y as int, z: z as int }),
    {
        IVec3 { x, y, z }
    }

    pub fn zero() -> (r: IVec3)
        ensures
            r@ == (V3 { x: 0int, y: 0int, z: 0int }),
    {
        IVec3 { x: 0, y: 0, z: 0 }
    }

    pub fn add(&self, o: &IVec3) -> (r: IVec3)
        requires
            v_in_i64(v_add(self@, o@)),
        ensures
            r@ == v_add(self@, o@),
    {
        IVec3 { x: self.x + o.x, y: self.y + o.y, z: self.z + o.z }
    }

    pub fn sub(&self, o: &IVec3) -> (r: IVec3)
        requires
            v_in_i64(v_sub(self@, o@)),
        ensures
            r@ == v_sub(self@, o@),
    {
        IVec3 { x: self.x - o.x, y: self.y - o.y, z: self.z - o.z }
    }

    pub fn neg(&self) -> (r: IVec3)
        requires
            v_in_i64(v_neg(self@)),
        ensures
            r@ == v_neg(self@),
    {
        IVec3 { x: -self.x, y: -self.y, z: -self.z }
    }

    /// Scales every component by the fixed-point fraction `k`.
    pub fn scale_fx(&self, k: i64) -> (r: IVec3)
        requires
            v_in_i64(v_scale_fx(self@, k as int)),
        ensures
            r@ == v_scale_fx(self@, k as int),
    {
        IVec3 { x: fx_mul(self.x, k), y: fx_mul(self.y, k), z: fx_mul(self.z, k) }
    }

    /// Truncating division of every component by `d`.
    pub fn div_scalar(&self, d: i64) -> (r: IVec3)
        requires
            d != 0,
            !(self@.x == i64::MIN && d == -1),
            !(self@.y == i64::MIN && d == -1),
            !(self@.z == i64::MIN && d == -1),
        ensures
            r@ == v_div_t(self@, d as int),
    {
        proof {
            crate::fx::lemma_div_t_le(self.x as int, d as int);
            crate::fx::lemma_div_t_le(self.y as int, d as int);
            crate::fx::lemma_div_t_le(self.z as int, d as int);
        }
        IVec3 {
            x: div_trunc(self.x, d),
            y: div_trunc(self.y, d),
            z: div_trunc(self.z, d),
        }
    }

    /// Exact dot product, widened to 128 bits.  Component magnitudes are
    /// capped at `2^62` so the three products cannot overflow the sum.
    pub fn dot_wide(&self, o: &IVec3) -> (r: i128)
        requires
            v_bounded(self@, 0x4000000000000000),
            v_bounded(o@, 0x4000000000000000),
        ensures
            r == v_dot(self@, o@),
    {
        proof {
            lemma_term_bound(self@.x, o@.x);
            lemma_term_bound(self@.y, o@.y);
            lemma_term_bound(self@.z, o@.z);
        }
        (self.x as i128) * (o.x as i128) + (self.y as i128) * (o.y as i128)
            + (self.z as i128) * (o.z as i128)
    }

    /// Exact squared length, widened to 128 bits.
    pub fn mag2_wide(&self) -> (r: i128)
        requires
            v_bounded(self@, 0x4000000000000000),
        ensures
            r == v_mag2(self@),
            r >= 0,
    {
        proof {
            lemma_square_nonneg(self@.x);
            lemma_square_nonneg(self@.y);
            lemma_square_nonneg(self@.z);
        }
        self.dot_wide(self)
    }

    /// Fixed-point dot product.
    pub fn dot_fx(&self, o: &IVec3) -> (r: i64)
        requires
            i64::MIN <= fx_mul_s(self@.x, o@.x) <= i64::MAX,
            i64::MIN <= fx_mul_s(self@.y, o@.y) <= i64::MAX,
            i64::MIN <= fx_mul_s(self@.z, o@.z) <= i64::MAX,
            i64::MIN <= v_dot_fx(self@, o@) <= i64::MAX,
            i64::MIN <= fx_mul_s(self@.x, o@.x) + fx_mul_s(self@.y, o@.y) <= i64::MAX,
        ensures
            r == v_dot_fx(self@, o@),
    {
        fx_mul(self.x, o.x) + fx_mul(self.y, o.y) + fx_mul(self.z, o.z)
    }

    /// Fixed-point cross product.
    pub fn cross_fx(&self, o: &IVec3) -> (r: IVec3)
        requires
            i64::MIN <= fx_mul_s(self@.y, o@.z) <= i64::MAX,
            i64::MIN <= fx_mul_s(self@.z, o@.y) <= i64::MAX,
            i64::MIN <= fx_mul_s(self@.z, o@.x) <= i64::MAX,
            i64::MIN <= fx_mul_s(self@.x, o@.z) <= i64::MAX,
            i64::MIN <= fx_mul_s(self@.x, o@.y) <= i64::MAX,
            i64::MIN <= fx_mul_s(self@.y, o@.x) <= i64::MAX,
            v_in_i64(v_cross_fx(self@, o@)),
        ensures
            r@ == v_cross_fx(self@, o@),
    {
        IVec3 {
            x: fx_mul(self.y, o.z) - fx_mul(self.z, o.y),
            y: fx_mul(self.z, o.x) - fx_mul(self.x, o.z),
            z: fx_mul(self.x, o.y) - fx_mul(self.y, o.x),
        }
    }

    /// Length of the vector, rounded down to whole micrometers — the
    /// integer counterpart of a float magnitude truncated to i64.
    pub fn mag(&self) -> (r: i64)
        requires
            v_bounded(self@, 0x1000000000000000),
        ensures
            r >= 0,
            r * r <= v_mag2(self@),
            (r + 1) * (r + 1) > v_mag2(self@),
    {
        proof {
            lemma_mag2_bound(self@, 0x1000000000000000);
        }
        let m2 = self.mag2_wide();
        let r = isqrt_u128(m2 as u128);
        proof {
            assert(m2 as u128 == m2);
            if r > 0x4000000000000000u128 {
                assert(r * r > (0x4000000000000000 as int) * (0x4000000000000000 as int))
                    by (nonlinear_arith)
                    requires
                        r > 0x4000000000000000,
                ;
            }
        }
        r as i64
    }

    /// Largest component magnitude; the caller rules out `i64::MIN`.
    pub fn abs_max(&self) -> (r: i64)
        requires
            self@.x != i64::MIN,
            self@.y != i64::MIN,
            self@.z != i64::MIN,
        ensures
            r == v_abs_max(self@),
    {
        let ax: i64 = if self.x >= 0 { self.x } else { -self.x };
        let ay: i64 = if self.y >= 0 { self.y } else { -self.y };
        let az: i64 = if self.z >= 0 { self.z } else { -self.z };
        if ax >= ay && ax >= az {
            ax
        } else if ay >= az {
            ay
        } else {
            az
        }
    }
}

/// A product of two values below `2^62` in magnitude stays below `2^124`.
proof fn lemma_term_bound(a: int, b: int)
    requires
        abs_i(a) <= 0x4000000000000000,
        abs_i(b) <= 0x4000000000000000,
    ensures
        abs_i(a * b) <= 0x10000000000000000000000000000000,
{
    assert(abs_i(a) * abs_i(b) <= 0x4000000000000000 * 0x4000000000000000) by {
        vstd::arithmetic::mul::lemma_mul_upper_bound(
            abs_i(a), 0x4000000000000000, abs_i(b), 0x4000000000000000,
        );
    }
    assert(abs_i(a) * abs_i(b) == abs_i(a * b)) by (nonlinear_arith);
}

/// Squares are non-negative.
pub proof fn lemma_square_nonneg(a: int)
    ensures
        a * a >= 0,
{
    vstd::arithmetic::mul::lemma_mul_nonnegative(abs_i(a), abs_i(a));
    assert(abs_i(a) * abs_i(a) == a * a) by (nonlinear_arith);
}

/// Fixed-point scaling with an explicit magnitude check: the scaled
/// vector when every component stays within `cap`, nothing otherwise.
pub fn scale_fx_checked(v: &IVec3, k: i64, cap: i64) -> (r: Option<IVec3>)
    requires
        cap >= 0,
    ensures
        match r {
            Some(w) => w@ == v_scale_fx(v@, k as int) && v_bounded(w@, cap as int),
            None => !v_bounded(v_scale_fx(v@, k as int), cap as int),
        },
{
    proof {
        crate::fx::lemma_i64_product_fits(v@.x, k as int);
        crate::fx::lemma_i64_product_fits(v@.y, k as int);
        crate::fx::lemma_i64_product_fits(v@.z, k as int);
    }
    let x: i128 = crate::fx::div_trunc_wide(
        (v.x as i128) * (k as i128),
        UNITS_PER_METER as i128,
    );
    let y: i128 = crate::fx::div_trunc_wide(
        (v.y as i128) * (k as i128),
        UNITS_PER_METER as i128,
    );
    let z: i128 = crate::fx::div_trunc_wide(
        (v.z as i128) * (k as i128),
        UNITS_PER_METER as i128,
    );
    let capw: i128 = cap as i128;
    if -capw <= x && x <= capw && -capw <= y && y <= capw && -capw <= z && z <= capw {
        Some(IVec3 { x: x as i64, y: y as i64, z: z as i64 })
    } else {
        None
    }
}

/// With `ca * cb <= cap` (re-scaled), every fixed-point product of
/// components fits under `cap`, so cross products and dot products of
/// vectors bounded by `ca` and `cb` fit as stated.
pub proof fn lemma_cross_fx_cap(a: V3, b: V3, ca: int, cb: int, cap: int)
    requires
        v_bounded(a, ca),
        v_bounded(b, cb),
        0 <= ca * cb <= (UNITS_PER_METER as int) * cap,
    ensures
        abs_i(fx_mul_s(a.y, b.z)) <= cap,
        abs_i(fx_mul_s(a.z, b.y)) <= cap,
        abs_i(fx_mul_s(a.z, b.x)) <= cap,
        abs_i(fx_mul_s(a.x, b.z)) <= cap,
        abs_i(fx_mul_s(a.x, b.y)) <= cap,
        abs_i(fx_mul_s(a.y, b.x)) <= cap,
        abs_i(fx_mul_s(a.x, b.x)) <= cap,
        abs_i(fx_mul_s(a.y, b.y)) <= cap,
        abs_i(fx_mul_s(a.z, b.z)) <= cap,
        v_bounded(v_cross_fx(a, b), 2 * cap),
        abs_i(v_dot_fx(a, b)) <= 3 * cap,
{
    crate::fx::lemma_fx_mul_bound(a.y, b.z, ca, cb);
    crate::fx::lemma_fx_mul_bound(a.z, b.y, ca, cb);
    crate::fx::lemma_fx_mul_bound(a.z, b.x, ca, cb);
    crate::fx::lemma_fx_mul_bound(a.x, b.z, ca, cb);
    crate::fx::lemma_fx_mul_bound(a.x, b.y, ca, cb);
    crate::fx::lemma_fx_mul_bound(a.y, b.x, ca, cb);
    crate::fx::lemma_fx_mul_bound(a.x, b.x, ca, cb);
    crate::fx::lemma_fx_mul_bound(a.y, b.y, ca, cb);
    crate::fx::lemma_fx_mul_bound(a.z, b.z, ca, cb);
    crate::fx::lemma_div_le(ca * cb, UNITS_PER_METER as int, cap);
}

/// A component bound gives a bound on the squared length.
pub proof fn lemma_mag2_bound(a: V3, cap: int)
    requires
        v_bounded(a, cap),
        cap >= 0,
    ensures
        0 <= v_mag2(a) <= 3 * (cap * cap),
{
    lemma_square_nonneg(a.x);
    lemma_square_nonneg(a.y);
    lemma_square_nonneg(a.z);
    assert(a.x * a.x <= cap * cap && a.y * a.y <= cap * cap && a.z * a.z <= cap * cap) by {
        vstd::arithmetic::mul::lemma_mul_upper_bound(abs_i(a.x), cap, abs_i(a.x), cap);
        vstd::arithmetic::mul::lemma_mul_upper_bound(abs_i(a.y), cap, abs_i(a.y), cap);
        vstd::arithmetic::mul::lemma_mul_upper_bound(abs_i(a.z), cap, abs_i(a.z), cap);
        assert(abs_i(a.x) * abs_i(a.x) == a.x * a.x) by (nonlinear_arith);
        assert(abs_i(a.y) * abs_i(a.y) == a.y * a.y) by (nonlinear_arith);
        assert(abs_i(a.z) * abs_i(a.z) == a.z * a.z) by (nonlinear_arith);
    }
}

/// Floor of the square root of a 128-bit unsigned value, by bisection.
pub fn isqrt_u128(n: u128) -> (r: u128)
    ensures
        r * r <= n,
        (r + 1) * (r + 1) > n,
{
    let mut lo: u128 = 0;
    let mut hi: u128 = 0x10000000000000000;
    assert(hi * hi > n) by {
        assert(0x10000000000000000int * 0x10000000000000000int
            == 0x100000000000000000000000000000000int) by (nonlinear_arith);
    }
    while hi - lo > 1
        invariant
            lo < hi,
            hi <= 0x10000000000000000,
            lo * lo <= n,
            hi * hi > n,
        decreases hi - lo,
    {
        let mid: u128 = lo + (hi - lo) / 2;
        proof {
            vstd::arithmetic::mul::lemma_mul_upper_bound(
                mid as int, 0xffffffffffffffff, mid as int, 0xffffffffffffffff,
            );
        }
        if mid * mid <= n {
            lo = mid;
        } else {
            hi = mid;
        }
    }
    lo
}

} // verus!
