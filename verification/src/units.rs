//! Units, global limits, and integer scaling helpers.
//!
//! Every quantity in the library is an integer in micro-units:
//! lengths and coordinates in millionths of a length unit, angles in
//! microradians, times in microseconds. `SCALE` is the common scaling
//! factor; fractional positions along a path are parts per million,
//! so a position of `SCALE` is the end of the path.

use vstd::prelude::*;

verus! {

/// Micro-units per unit: scaling factor for fixed-point values and the
/// denominator of fractional path positions.
pub const SCALE: i64 = 1_000_000;

/// Largest admissible arc length of a single path segment, in micro-units.
pub const MAX_SEGMENT_LENGTH: i64 = 100_000_000_000_000;

/// Largest admissible radius of a circular segment, in micro-units.
pub const MAX_RADIUS: i64 = 1_000_000_000_000;

/// Largest admissible magnitude of a circular segment's swept angle,
/// in microradians.
pub const MAX_ARC: i64 = 100_000_000;

/// Largest number of segments a compound path may hold.
pub const MAX_SEGMENTS: usize = 1024;

/// Every pose coordinate a path can report stays within this bound.
pub const POSE_COORD_LIMIT: i64 = 1_000_000_000_000_000_000;

/// Every pose heading a path can report stays within this bound.
pub const POSE_HEADING_LIMIT: i64 = 1_000_000_000_000;

/// Largest admissible length, velocity and acceleration of a ramp,
/// in micro-units (per second, per second squared).
pub const MAX_RAMP_PARAM: i64 = 1_000_000_000_000;

/// Quotient of `n / d` rounded toward zero, as the machine division
/// operator computes it on signed integers.
pub open spec fn div_trunc(n: int, d: int) -> int {
    if n >= 0 {
        n / d
    } else {
        -((-n) / d)
    }
}

/// Divides a (possibly negative) scaled value by a positive divisor,
/// rounding toward zero.
pub fn div_trunc_i128(n: i128, d: i128) -> (r: i128)
    requires
        n > i128::MIN,
        d > 0,
    ensures
        r == div_trunc(n as int, d as int),
{
    n / d
}

/// Truncating division is antisymmetric in the numerator.
pub proof fn lemma_div_trunc_neg(n: int, d: int)
    requires
        d > 0,
    ensures
        div_trunc(-n, d) == -div_trunc(n, d),
{
}

/// A truncated quotient never exceeds the numerator's magnitude divided
/// by the divisor: `|div_trunc(n, d)| <= b` whenever `|n| <= b * d`.
pub proof fn lemma_div_trunc_bound(n: int, d: int, b: int)
    requires
        d > 0,
        b >= 0,
        -(b * d) <= n <= b * d,
    ensures
        -b <= div_trunc(n, d) <= b,
{
    if n >= 0 {
        assert(n / d <= b) by {
            vstd::arithmetic::div_mod::lemma_div_is_ordered(n, b * d, d);
            vstd::arithmetic::div_mod::lemma_div_by_multiple(b, d);
        };
        assert(n / d >= 0) by {
            vstd::arithmetic::div_mod::lemma_div_pos_is_pos(n, d);
        };
    } else {
        assert((-n) / d <= b) by {
            vstd::arithmetic::div_mod::lemma_div_is_ordered(-n, b * d, d);
            vstd::arithmetic::div_mod::lemma_div_by_multiple(b, d);
        };
        assert((-n) / d >= 0) by {
            vstd::arithmetic::div_mod::lemma_div_pos_is_pos(-n, d);
        };
    }
}

/// Exact division: a whole multiple of the divisor divides back to the
/// multiplier, for either sign.
pub proof fn lemma_div_trunc_exact(q: int, d: int)
    requires
        d > 0,
    ensures
        div_trunc(q * d, d) == q,
{
    if q >= 0 {
        vstd::arithmetic::div_mod::lemma_div_by_multiple(q, d);
    } else {
        assert(-(q * d) == (-q) * d) by {
            vstd::arithmetic::mul::lemma_mul_unary_negation(q, d);
        };
        vstd::arithmetic::div_mod::lemma_div_by_multiple(-q, d);
    }
}

} // verus!
