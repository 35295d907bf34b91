//! Fixed-point spectral decoding and excitation generation.
use vstd::prelude::*;

verus! {

/// Absolute value over the integers.
pub open spec fn abs(x: int) -> int {
    if x < 0 {
        -x
    } else {
        x
    }
}

/// Quotient rounded half away from zero; zero for a zero denominator.
pub open spec fn rounded_quotient(numerator: int, denominator: int) -> int {
    if denominator == 0 {
        0
    } else {
        let quotient = (abs(numerator) + abs(denominator) / 2) / abs(denominator);
        if (numerator >= 0) == (denominator >= 0) {
            quotient
        } else {
            -quotient
        }
    }
}

/// Round halves away from zero, as required by the normalization and window stages.
/// The quotient is exact; only `i64::MIN / -1` leaves the 64-bit range and wraps.
pub fn rounded_div(numerator: i64, denominator: i64) -> (result: i64)
    ensures
        result == rounded_quotient(numerator as int, denominator as int) as i64,
{
    if denominator == 0 {
        return 0;
    }
    let n: i128 = if numerator < 0 { -(numerator as i128) } else { numerator as i128 };
    let d: i128 = if denominator < 0 { -(denominator as i128) } else { denominator as i128 };
    let quotient: i128 = (n + d / 2) / d;
    assert(0 <= quotient <= n) by (nonlinear_arith)
        requires
            0 <= n,
            1 <= d,
            quotient == (n + d / 2) / (d as int);
    if (numerator >= 0) == (denominator >= 0) {
        quotient as i64
    } else {
        (-quotient) as i64
    }
}

/// Pitch quotient: halves of a negative numerator round toward zero, and the
/// magnitude saturates at 15 bits; zero for a nonpositive denominator.
pub open spec fn pitch_quotient(numerator: int, denominator: int) -> int {
    if denominator <= 0 {
        0
    } else {
        let bias = if numerator >= 0 {
            denominator / 2
        } else {
            (denominator - 1) / 2
        };
        let raw = (abs(numerator) + bias) / denominator;
        let magnitude = if raw > 32767 {
            32767
        } else {
            raw
        };
        if numerator >= 0 {
            magnitude
        } else {
            -magnitude
        }
    }
}

/// Pitch interpolation uses a different half-negative rule and saturates to 15 bits.
pub fn pitch_div(numerator: i32, denominator: i32) -> (result: i32)
    ensures
        result == pitch_quotient(numerator as int, denominator as int),
        -32767 <= result <= 32767,
{
    if denominator <= 0 {
        return 0;
    }
    let bias: i64 = if numerator >= 0 {
        (denominator / 2) as i64
    } else {
        ((denominator - 1) / 2) as i64
    };
    let n: i64 = if numerator < 0 { -(numerator as i64) } else { numerator as i64 };
    let raw: i64 = (n + bias) / (denominator as i64);
    let magnitude: i32 = if raw > 32767 { 32767 } else { raw as i32 };
    if numerator >= 0 {
        magnitude
    } else {
        -magnitude
    }
}

} // verus!

pub mod filter;

pub mod schedule;

pub mod effects;
