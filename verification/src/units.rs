//! Fixed-point scale and the machine bounds shared across the pipeline.
//!
//! Confidences, thresholds, mask coefficients and prototype values are
//! fixed-point numbers: the integer `v` stands for the real value
//! `v / UNIT`.  Box coordinates are integer image pixels.

use vstd::prelude::*;

verus! {

/// Fixed-point representation of `1.0` for scores, thresholds and mask
/// intensities.
pub const UNIT: i64 = 1_000_000;

/// Largest magnitude accepted for a raw tensor value (box channels and mask
/// coefficients), about `16.7` in units of `UNIT`.
pub const RAW_LIMIT: i64 = 0x100_0000;

/// Largest accepted image or model dimension, in pixels.
pub const DIM_LIMIT: u32 = 32768;

/// Largest magnitude a box coordinate can take after rescaling
/// (`RAW_LIMIT * DIM_LIMIT` fits well below this bound).
pub const COORD_LIMIT: i64 = 0x100_0000_0000;

/// Largest accepted number of mask channels.
pub const NM_LIMIT: u32 = 1024;

/// Largest accepted number of classes.
pub const NC_LIMIT: u32 = 65536;

/// Floor of `v * num / den`, for nonnegative operands.
pub open spec fn scale_div(v: int, num: int, den: int) -> int {
    (v * num) / den
}

/// `a / b` rounded to the nearest integer, halves away from zero, for
/// nonnegative operands.
pub open spec fn round_div(a: int, b: int) -> int {
    (2 * a + b) / (2 * b)
}

/// Floor of `v * num / den` computed exactly, without overflow, via `i128`
/// intermediates.
pub fn mul_div(v: i64, num: i64, den: i64) -> (r: i64)
    requires
        0 <= v <= RAW_LIMIT,
        0 <= num <= DIM_LIMIT,
        1 <= den,
    ensures
        r == scale_div(v as int, num as int, den as int),
        0 <= r <= RAW_LIMIT * DIM_LIMIT,
{
    proof {
        crate::arith::lemma_mul_bound(v as int, num as int, RAW_LIMIT as int, DIM_LIMIT as int);
    }
    let prod: i128 = (v as i128) * (num as i128);
    proof {
        crate::arith::lemma_div_bound(prod as int, den as int);
    }
    let wide: i128 = prod / (den as i128);
    wide as i64
}

/// `a * num / den` rounded half away from zero, computed exactly via `i128`
/// intermediates.
pub fn mul_div_round(a: i64, num: i64, den: i64) -> (r: i64)
    requires
        0 <= a <= DIM_LIMIT,
        0 <= num <= DIM_LIMIT,
        1 <= den <= DIM_LIMIT,
    ensures
        r == round_div(a * num, den as int),
        0 <= r,
{
    proof {
        crate::arith::lemma_mul_bound(a as int, num as int, DIM_LIMIT as int, DIM_LIMIT as int);
    }
    let prod: i128 = (a as i128) * (num as i128);
    proof {
        crate::arith::lemma_div_bound(2 * (prod as int) + (den as int), 2 * (den as int));
    }
    let wide: i128 = (2 * prod + (den as i128)) / (2 * (den as i128));
    wide as i64
}

} // verus!
