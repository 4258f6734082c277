//! Fixed-point arithmetic over 64-bit integers.
//!
//! World positions are integers in micrometers; dimensionless fractions
//! (rotation-matrix entries, scales, coefficients) are integers carrying a
//! denominator of one million.  Multiplying two fixed-point numbers therefore
//! re-scales the 128-bit product, truncating toward zero exactly as Rust's
//! `/` does.  The spec functions here (`div_t`, `fx_mul_s`, `fx_div_s`) give
//! those truncating operations a mathematical definition that every contract
//! in the crate is written against.

use vstd::prelude::*;
use vstd::arithmetic::div_mod::{lemma_div_is_ordered, lemma_div_nonincreasing, lemma_div_pos_is_pos};
use vstd::arithmetic::mul::lemma_mul_upper_bound;

verus! {

/// Integer units per meter: one micrometer is one unit, and fixed-point
/// fractions carry this denominator.
pub const UNITS_PER_METER: i64 = 1000000;

/// Absolute value of a mathematical integer.
pub open spec fn abs_i(a: int) -> int {
    if a >= 0 {
        a
    } else {
        -a
    }
}

/// Quotient of `a` by `b` truncated toward zero — the value Rust's `/`
/// computes on signed integers.  Meaningful only for `b != 0`.
pub open spec fn div_t(a: int, b: int) -> int {
    if (a >= 0) == (b >= 0) {
        abs_i(a) / abs_i(b)
    } else {
        -(abs_i(a) / abs_i(b))
    }
}

/// Fixed-point product: the integer product re-scaled by the fixed
/// denominator, truncated toward zero.
pub open spec fn fx_mul_s(a: int, b: int) -> int {
    div_t(a * b, UNITS_PER_METER as int)
}

/// Fixed-point quotient: `a / b` carried to fixed-point precision,
/// truncated toward zero.  Meaningful only for `b != 0`.
pub open spec fn fx_div_s(a: int, b: int) -> int {
    div_t(a * (UNITS_PER_METER as int), b)
}

/// The truncated quotient's magnitude never exceeds the dividend's.
pub proof fn lemma_div_t_le(a: int, b: int)
    requires
        b != 0,
    ensures
        abs_i(div_t(a, b)) <= abs_i(a),
{
    lemma_div_nonincreasing(abs_i(a), abs_i(b));
    lemma_div_pos_is_pos(abs_i(a), abs_i(b));
}

/// A bound on the dividend carries to the truncated quotient.
pub proof fn lemma_div_t_bound(a: int, b: int, cap: int)
    requires
        b != 0,
        abs_i(a) <= cap,
    ensures
        abs_i(div_t(a, b)) <= cap / abs_i(b),
{
    lemma_div_is_ordered(abs_i(a), cap, abs_i(b));
    lemma_div_pos_is_pos(abs_i(a), abs_i(b));
}

/// Bounds on both factors carry to the fixed-point product.
pub proof fn lemma_fx_mul_bound(a: int, b: int, cap_a: int, cap_b: int)
    requires
        abs_i(a) <= cap_a,
        abs_i(b) <= cap_b,
    ensures
        abs_i(fx_mul_s(a, b)) <= (cap_a * cap_b) / (UNITS_PER_METER as int),
{
    assert(abs_i(a * b) <= cap_a * cap_b) by {
        lemma_mul_upper_bound(abs_i(a), cap_a, abs_i(b), cap_b);
        assert(abs_i(a) * abs_i(b) == abs_i(a * b)) by (nonlinear_arith);
        assert(abs_i(a) >= 0 && abs_i(b) >= 0);
    }
    lemma_div_t_bound(a * b, UNITS_PER_METER as int, cap_a * cap_b);
}

/// Multiplying by a fraction of at most one (in fixed-point terms) never
/// grows the other factor.
pub proof fn lemma_fx_mul_unit_bound(a: int, b: int, cap_a: int)
    requires
        abs_i(a) <= cap_a,
        abs_i(b) <= UNITS_PER_METER as int,
    ensures
        abs_i(fx_mul_s(a, b)) <= cap_a,
{
    lemma_fx_mul_bound(a, b, cap_a, UNITS_PER_METER as int);
    assert((cap_a * (UNITS_PER_METER as int)) / (UNITS_PER_METER as int) == cap_a)
        by (nonlinear_arith);
}

/// A quotient is at most `c` when the dividend is at most `d * c`.
pub proof fn lemma_div_le(x: int, d: int, c: int)
    requires
        d > 0,
        0 <= x,
        x <= d * c,
    ensures
        x / d <= c,
{
    lemma_div_is_ordered(x, d * c, d);
    vstd::arithmetic::div_mod::lemma_div_multiples_vanish(c, d);
}

/// Multiplying by the fixed-point one is the identity, and by zero is
/// zero — the arithmetic facts every identity-rotation argument uses.
pub proof fn lemma_fx_mul_unit(x: int)
    ensures
        fx_mul_s(UNITS_PER_METER as int, x) == x,
        fx_mul_s(x, UNITS_PER_METER as int) == x,
        fx_mul_s(0, x) == 0,
        fx_mul_s(x, 0) == 0,
{
    let u = UNITS_PER_METER as int;
    assert(abs_i(u * x) == u * abs_i(x));
    assert(abs_i(x * u) == u * abs_i(x));
    assert((u * abs_i(x)) / u == abs_i(x)) by {
        vstd::arithmetic::div_mod::lemma_div_multiples_vanish(abs_i(x), u);
    }
    assert(0int / u == 0) by {
        vstd::arithmetic::div_mod::lemma_div_of0(u);
    }
}

/// A fixed-point product of non-negative factors is non-negative.
pub proof fn lemma_fx_mul_nonneg(a: int, b: int)
    requires
        0 <= a,
        0 <= b,
    ensures
        0 <= fx_mul_s(a, b),
{
    vstd::arithmetic::mul::lemma_mul_nonnegative(a, b);
    lemma_div_pos_is_pos(a * b, UNITS_PER_METER as int);
}

/// Truncated division by an i64, as Rust computes it.
///
/// The one signed-overflow case (`i64::MIN / -1`) is excluded by the
/// precondition.
pub fn div_trunc(a: i64, b: i64) -> (q: i64)
    requires
        b != 0,
        !(a == i64::MIN && b == -1),
    ensures
        q == div_t(a as int, b as int),
{
    proof {
        lemma_div_t_le(a as int, b as int);
    }
    let am: u128 = (if a >= 0 { a as i128 } else { -(a as i128) }) as u128;
    let bm: u128 = (if b >= 0 { b as i128 } else { -(b as i128) }) as u128;
    let qm: u128 = am / bm;
    assert(qm == abs_i(a as int) / abs_i(b as int));
    if (a >= 0) == (b >= 0) {
        assert(qm <= 0x8000000000000000u128);
        assert(qm != 0x8000000000000000u128) by {
            if qm == 0x8000000000000000u128 {
                assert(abs_i(a as int) / abs_i(b as int) >= 0x8000000000000000);
                lemma_div_nonincreasing(abs_i(a as int), abs_i(b as int));
                assert(abs_i(a as int) == 0x8000000000000000);
                assert(a == i64::MIN);
                assert(abs_i(b as int) == 1) by {
                    if abs_i(b as int) >= 2 {
                        lemma_div_is_ordered_half(abs_i(a as int), abs_i(b as int));
                    }
                }
            }
        }
        qm as i64
    } else {
        assert(qm <= 0x8000000000000000u128);
        (-(qm as i128)) as i64
    }
}

/// Division by two or more at least halves a non-negative dividend.
proof fn lemma_div_is_ordered_half(x: int, d: int)
    requires
        x >= 0,
        d >= 2,
    ensures
        x / d <= x / 2,
{
    lemma_div_is_ordered_by_denominator_pub(x, 2, d);
}

proof fn lemma_div_is_ordered_by_denominator_pub(x: int, y: int, z: int)
    requires
        0 <= x,
        1 <= y <= z,
    ensures
        x / y >= x / z,
{
    vstd::arithmetic::div_mod::lemma_div_is_ordered_by_denominator(x, y, z);
}

/// Truncated division over i128, used for re-scaling 128-bit products.
/// Restricted to dividends whose magnitude stays below `2^126`, which every
/// product of two i64 values satisfies.
pub(crate) fn div_trunc_wide(a: i128, b: i128) -> (q: i128)
    requires
        b != 0,
        abs_i(a as int) <= 0x40000000000000000000000000000000,
        abs_i(b as int) <= 0x40000000000000000000000000000000,
    ensures
        q == div_t(a as int, b as int),
{
    proof {
        lemma_div_t_le(a as int, b as int);
    }
    let am: u128 = (if a >= 0 { a } else { -a }) as u128;
    let bm: u128 = (if b >= 0 { b } else { -b }) as u128;
    let qm: u128 = am / bm;
    assert(qm == abs_i(a as int) / abs_i(b as int));
    if (a >= 0) == (b >= 0) {
        qm as i128
    } else {
        -(qm as i128)
    }
}

/// Fixed-point multiply: re-scales the exact 128-bit product, truncating
/// toward zero.  The caller guarantees the re-scaled result fits in i64.
pub fn fx_mul(a: i64, b: i64) -> (r: i64)
    requires
        i64::MIN <= fx_mul_s(a as int, b as int) <= i64::MAX,
    ensures
        r == fx_mul_s(a as int, b as int),
{
    proof {
        lemma_i64_product_fits(a as int, b as int);
    }
    let p: i128 = (a as i128) * (b as i128);
    let q: i128 = div_trunc_wide(p, UNITS_PER_METER as i128);
    q as i64
}

/// Fixed-point divide: widens the dividend by the fixed denominator before
/// the truncating division.  The caller guarantees the result fits in i64.
pub fn fx_div(a: i64, b: i64) -> (r: i64)
    requires
        b != 0,
        i64::MIN <= fx_div_s(a as int, b as int) <= i64::MAX,
    ensures
        r == fx_div_s(a as int, b as int),
{
    proof {
        lemma_i64_product_fits(a as int, UNITS_PER_METER as int);
    }
    let p: i128 = (a as i128) * (UNITS_PER_METER as i128);
    let q: i128 = div_trunc_wide(p, b as i128);
    q as i64
}

/// The product of two i64 values always fits well inside i128.
pub proof fn lemma_i64_product_fits(a: int, b: int)
    requires
        i64::MIN <= a <= i64::MAX,
        i64::MIN <= b <= i64::MAX,
    ensures
        abs_i(a * b) <= 0x40000000000000000000000000000000,
{
    assert(abs_i(a * b) <= 0x8000000000000000 * 0x8000000000000000) by {
        lemma_mul_upper_bound(abs_i(a), 0x8000000000000000, abs_i(b), 0x8000000000000000);
        assert(abs_i(a) * abs_i(b) == abs_i(a * b)) by (nonlinear_arith);
    }
}

} // verus!
