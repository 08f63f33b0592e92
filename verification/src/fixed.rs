//! Fixed-point arithmetic for gameplay values.
//!
//! A value of one unit is stored as [`SCALE`]; one thousandth of a unit is the
//! smallest step. Addition saturates at the `i64` range and multiplication
//! scales the double-width product back down, truncating toward zero, so both
//! are total functions: no input can make them fail.

use vstd::prelude::*;

verus! {

/// Number of fixed-point steps in one unit.
pub const SCALE: i64 = 1000;

/// Clamps an unbounded integer into the `i64` range.
pub open spec fn sat_i64(x: int) -> int {
    if x > i64::MAX {
        i64::MAX as int
    } else if x < i64::MIN {
        i64::MIN as int
    } else {
        x
    }
}

/// Saturating fixed-point addition.
pub open spec fn spec_sat_add(a: i64, b: i64) -> i64 {
    sat_i64(a + b) as i64
}

/// Saturating fixed-point sum of `a` and `b`.
#[verifier::when_used_as_spec(spec_sat_add)]
pub fn sat_add(a: i64, b: i64) -> (r: i64)
    ensures
        r == spec_sat_add(a, b),
{
    match a.checked_add(b) {
        Some(c) => c,
        None => {
            if a > 0 {
                i64::MAX
            } else {
                i64::MIN
            }
        },
    }
}

/// Saturating fixed-point subtraction.
pub open spec fn spec_sat_sub(a: i64, b: i64) -> i64 {
    sat_i64(a - b) as i64
}

/// Saturating fixed-point difference of `a` and `b`.
#[verifier::when_used_as_spec(spec_sat_sub)]
pub fn sat_sub(a: i64, b: i64) -> (r: i64)
    ensures
        r == spec_sat_sub(a, b),
{
    match a.checked_sub(b) {
        Some(c) => c,
        None => {
            if b < 0 {
                i64::MAX
            } else {
                i64::MIN
            }
        },
    }
}

/// Fixed-point product scaled back down by [`SCALE`], truncated toward zero
/// and saturated at the `i64` range.
pub open spec fn spec_mul_down(a: i64, b: i64) -> i64 {
    let p = a * b;
    let q = if p >= 0 {
        p / (SCALE as int)
    } else {
        -((-p) / (SCALE as int))
    };
    sat_i64(q) as i64
}

/// Fixed-point product of `a` and `b`: `(a * b) / SCALE`, truncated toward
/// zero, saturated at the `i64` range.
#[verifier::when_used_as_spec(spec_mul_down)]
pub fn mul_down(a: i64, b: i64) -> (r: i64)
    ensures
        r == spec_mul_down(a, b),
{
    proof {
        lemma_i64_product_in_i128(a, b);
    }
    let p: i128 = (a as i128) * (b as i128);
    if p >= 0 {
        let q: u128 = (p as u128) / (SCALE as u128);
        if q > (i64::MAX as u128) {
            i64::MAX
        } else {
            q as i64
        }
    } else {
        let m: u128 = ((-p) as u128) / (SCALE as u128);
        if m >= 9223372036854775808u128 {
            i64::MIN
        } else {
            -(m as i64)
        }
    }
}

/// Number of whole units closest to the fixed-point value `v`, rounding
/// halves away from zero.
pub open spec fn spec_round_units(v: i64) -> i64 {
    (if v >= 0 {
        (v + SCALE / 2) / (SCALE as int)
    } else {
        -((-v + SCALE / 2) / (SCALE as int))
    }) as i64
}

/// Rounds the fixed-point value `v` to the nearest whole number of units,
/// halves away from zero.
#[verifier::when_used_as_spec(spec_round_units)]
pub fn round_units(v: i64) -> (r: i64)
    ensures
        r == spec_round_units(v),
{
    if v >= 0 {
        (((v as u64) + 500) / 1000) as i64
    } else {
        let m: u128 = (((-(v as i128)) as u128) + 500) / 1000;
        -(m as i64)
    }
}

/// `v` rounded to whole units and clamped into the `i32` range.
pub open spec fn spec_round_to_i32(v: i64) -> i32 {
    let u = spec_round_units(v);
    if u > i32::MAX {
        i32::MAX
    } else if u < i32::MIN {
        i32::MIN
    } else {
        u as i32
    }
}

/// Rounds `v` to whole units and saturates into the `i32` range.
#[verifier::when_used_as_spec(spec_round_to_i32)]
pub fn round_to_i32(v: i64) -> (r: i32)
    ensures
        r == spec_round_to_i32(v),
{
    let u = round_units(v);
    if u > i32::MAX as i64 {
        i32::MAX
    } else if u < i32::MIN as i64 {
        i32::MIN
    } else {
        u as i32
    }
}

/// `v` rounded to whole units and clamped into the `u32` range; negative
/// values clamp to zero.
pub open spec fn spec_round_to_u32(v: i64) -> u32 {
    let u = spec_round_units(v);
    if u > u32::MAX {
        u32::MAX
    } else if u < 0 {
        0u32
    } else {
        u as u32
    }
}

/// Rounds `v` to whole units and saturates into the `u32` range, clamping
/// negative values to zero.
#[verifier::when_used_as_spec(spec_round_to_u32)]
pub fn round_to_u32(v: i64) -> (r: u32)
    ensures
        r == spec_round_to_u32(v),
{
    let u = round_units(v);
    if u > u32::MAX as i64 {
        u32::MAX
    } else if u < 0 {
        0
    } else {
        u as u32
    }
}

/// `x` clamped into the closed interval `[lo, hi]`.
pub open spec fn spec_clamp(x: i64, lo: i64, hi: i64) -> i64 {
    if x < lo {
        lo
    } else if x > hi {
        hi
    } else {
        x
    }
}

/// Clamps `x` into the interval `[lo, hi]`.
#[verifier::when_used_as_spec(spec_clamp)]
pub fn clamp(x: i64, lo: i64, hi: i64) -> (r: i64)
    requires
        lo <= hi,
    ensures
        r == spec_clamp(x, lo, hi),
{
    if x < lo {
        lo
    } else if x > hi {
        hi
    } else {
        x
    }
}

/// The product of two `i64` values stays well inside the `i128` range, so
/// both it and its negation are representable.
proof fn lemma_i64_product_in_i128(a: i64, b: i64)
    ensures
        -85070591730234615865843651857942052864 <= a * b
            <= 85070591730234615865843651857942052864,
{
    assert(-85070591730234615865843651857942052864 <= a * b
        <= 85070591730234615865843651857942052864) by (nonlinear_arith)
        requires
            i64::MIN <= a <= i64::MAX,
            i64::MIN <= b <= i64::MAX,
    ;
}

} // verus!
