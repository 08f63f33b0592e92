//! Deterministic seeded noise over grid coordinates, in fixed point.
//!
//! The room generator needs two scalar fields: a single-octave value noise
//! and a ridged fractal noise. Both are pure functions of the seed, the
//! sample position, and the tuning parameters, so two runs over the same
//! inputs always agree.

use vstd::prelude::*;

use crate::fixed::{clamp, mul_down, sat_add, spec_clamp, spec_mul_down, spec_sat_add, SCALE};

verus! {

/// Largest fixed-point frequency the noise accepts: 16384 lattice units per
/// cell, reached by octave doubling.
pub const MAX_FREQUENCY: i64 = 16384000;

/// 64-bit avalanche mix: every input bit flips each output bit with equal
/// chance, which makes lattice corners look independent.
pub open spec fn spec_mix64(z0: u64) -> u64 {
    let z1 = (z0 ^ (z0 >> 33)).wrapping_mul(0xff51afd7ed558ccd);
    let z2 = (z1 ^ (z1 >> 33)).wrapping_mul(0xc4ceb9fe1a85ec53);
    z2 ^ (z2 >> 33)
}

/// Mixes the bits of `z0`.
#[verifier::when_used_as_spec(spec_mix64)]
fn mix64(z0: u64) -> (r: u64)
    ensures
        r == spec_mix64(z0),
{
    let z1 = (z0 ^ (z0 >> 33)).wrapping_mul(0xff51afd7ed558ccd);
    let z2 = (z1 ^ (z1 >> 33)).wrapping_mul(0xc4ceb9fe1a85ec53);
    z2 ^ (z2 >> 33)
}

/// The reproducible pseudo-random lattice value at corner `(xi, yi)` for
/// `seed`, in `[-SCALE, SCALE]`.
pub open spec fn spec_corner(seed: u32, xi: u64, yi: u64) -> i64 {
    let h = spec_mix64(
        (seed as u64) ^ xi.wrapping_mul(0x9e3779b97f4a7c15) ^ yi.wrapping_mul(0xc2b2ae3d27d4eb4f),
    );
    ((h % 2001) - 1000) as i64
}

/// Evaluates the lattice corner value, in `[-SCALE, SCALE]`.
#[verifier::when_used_as_spec(spec_corner)]
fn corner(seed: u32, xi: u64, yi: u64) -> (r: i64)
    ensures
        r == spec_corner(seed, xi, yi),
        -SCALE <= r <= SCALE,
{
    let h = mix64(
        (seed as u64) ^ xi.wrapping_mul(0x9e3779b97f4a7c15) ^ yi.wrapping_mul(0xc2b2ae3d27d4eb4f),
    );
    ((h % 2001) as i64) - 1000
}

/// Bilinear value noise at the fixed-point sample position `(px, py)`:
/// the four surrounding lattice corners, interpolated and clamped into
/// `[-SCALE, SCALE]`.
pub open spec fn spec_value_noise(seed: u32, px: i64, py: i64) -> i64
    recommends
        px >= 0,
        py >= 0,
{
    let xu = px as u64;
    let yu = py as u64;
    let x0 = (xu / 1000) as u64;
    let y0 = (yu / 1000) as u64;
    let fx = (xu % 1000) as i64;
    let fy = (yu % 1000) as i64;
    let c00 = spec_corner(seed, x0, y0);
    let c10 = spec_corner(seed, (x0 + 1) as u64, y0);
    let c01 = spec_corner(seed, x0, (y0 + 1) as u64);
    let c11 = spec_corner(seed, (x0 + 1) as u64, (y0 + 1) as u64);
    let n0 = spec_clamp(
        spec_sat_add(c00, spec_mul_down((c10 - c00) as i64, fx)),
        (-SCALE) as i64,
        SCALE,
    );
    let n1 = spec_clamp(
        spec_sat_add(c01, spec_mul_down((c11 - c01) as i64, fx)),
        (-SCALE) as i64,
        SCALE,
    );
    spec_clamp(
        spec_sat_add(n0, spec_mul_down((n1 - n0) as i64, fy)),
        (-SCALE) as i64,
        SCALE,
    )
}

/// Samples the value noise field.
#[verifier::when_used_as_spec(spec_value_noise)]
pub fn value_noise(seed: u32, px: i64, py: i64) -> (r: i64)
    requires
        0 <= px <= 0x3fff_ffff_ffff_ffff,
        0 <= py <= 0x3fff_ffff_ffff_ffff,
    ensures
        r == spec_value_noise(seed, px, py),
        -SCALE <= r <= SCALE,
{
    let xu = px as u64;
    let yu = py as u64;
    let x0 = xu / 1000;
    let y0 = yu / 1000;
    let fx = (xu % 1000) as i64;
    let fy = (yu % 1000) as i64;
    let c00 = corner(seed, x0, y0);
    let c10 = corner(seed, x0 + 1, y0);
    let c01 = corner(seed, x0, y0 + 1);
    let c11 = corner(seed, x0 + 1, y0 + 1);
    let n0 = clamp(sat_add(c00, mul_down(c10 - c00, fx)), -SCALE, SCALE);
    let n1 = clamp(sat_add(c01, mul_down(c11 - c01, fx)), -SCALE, SCALE);
    clamp(sat_add(n0, mul_down(n1 - n0, fy)), -SCALE, SCALE)
}

/// Ridge transform: folds a noise value in `[-SCALE, SCALE]` so that values
/// near zero become crests, giving ridged terrain.
pub open spec fn spec_ridge(n: i64) -> i64
    recommends
        -SCALE <= n <= SCALE,
{
    let a: int = if n >= 0 {
        n as int
    } else {
        -(n as int)
    };
    (SCALE - 2 * a) as i64
}

/// Applies the ridge transform.
#[verifier::when_used_as_spec(spec_ridge)]
fn ridge(n: i64) -> (r: i64)
    requires
        -SCALE <= n <= SCALE,
    ensures
        r == spec_ridge(n),
        -SCALE <= r <= SCALE,
{
    let a = if n >= 0 {
        n
    } else {
        -n
    };
    SCALE - 2 * a
}

/// Ridged fractal noise: `octaves` layers of ridged value noise, each layer
/// at twice the frequency (capped at [`MAX_FREQUENCY`]) and with amplitude
/// scaled by `gain`, summed with saturation.
pub open spec fn spec_ridged_fractal(
    seed: u32,
    x: i64,
    y: i64,
    freq: i64,
    amp: i64,
    gain: i64,
    octaves: u32,
) -> i64
    recommends
        0 <= x <= 65535,
        0 <= y <= 65535,
        0 < freq <= MAX_FREQUENCY,
    decreases octaves,
{
    if octaves == 0 {
        0
    } else {
        let n = spec_value_noise(seed.wrapping_add(octaves as u32), sat_i64_mul(x, freq), sat_i64_mul(y, freq));
        let layer = spec_mul_down(amp, spec_ridge(n));
        let next_freq = if freq > MAX_FREQUENCY / 2 {
            MAX_FREQUENCY
        } else {
            (freq * 2) as i64
        };
        let rest = spec_ridged_fractal(
            seed,
            x,
            y,
            next_freq,
            spec_mul_down(amp, gain),
            gain,
            (octaves - 1) as u32,
        );
        spec_sat_add(layer, rest)
    }
}

/// The product `a * b` saturated at the `i64` range; total, so the fractal
/// spec stays well defined on any input.
pub open spec fn sat_i64_mul(a: i64, b: i64) -> i64 {
    crate::fixed::sat_i64(a * b) as i64
}

/// Samples the ridged fractal noise field.
pub fn ridged_fractal(seed: u32, x: i64, y: i64, freq: i64, amp: i64, gain: i64, octaves: u32) -> (r:
    i64)
    requires
        0 <= x <= 65535,
        0 <= y <= 65535,
        0 < freq <= MAX_FREQUENCY,
    ensures
        r == spec_ridged_fractal(seed, x, y, freq, amp, gain, octaves),
    decreases octaves,
{
    if octaves == 0 {
        0
    } else {
        proof {
            assert(x * freq <= 65535 * MAX_FREQUENCY && x * freq >= 0) by (nonlinear_arith)
                requires
                    0 <= x <= 65535,
                    0 < freq <= MAX_FREQUENCY,
            ;
            assert(y * freq <= 65535 * MAX_FREQUENCY && y * freq >= 0) by (nonlinear_arith)
                requires
                    0 <= y <= 65535,
                    0 < freq <= MAX_FREQUENCY,
            ;
        }
        let px = x * freq;
        let py = y * freq;
        proof {
            assert(sat_i64_mul(x, freq) == px);
            assert(sat_i64_mul(y, freq) == py);
        }
        let n = value_noise(seed.wrapping_add(octaves), px, py);
        let layer = mul_down(amp, ridge(n));
        let next_freq = if freq > MAX_FREQUENCY / 2 {
            MAX_FREQUENCY
        } else {
            freq * 2
        };
        let rest = ridged_fractal(seed, x, y, next_freq, mul_down(amp, gain), gain, octaves - 1);
        sat_add(layer, rest)
    }
}

} // verus!
