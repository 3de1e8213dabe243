//! The trapezoidal velocity profile: elapsed time to distance covered.
//!
//! A `Ramp` describes a 1D motion from rest over a fixed length under a
//! velocity cap and a symmetric acceleration/deceleration cap. The
//! profile accelerates at the cap, optionally cruises at the velocity
//! cap, and decelerates at the cap, coming to rest exactly at the
//! length. Lengths are micro-units, velocities micro-units per second,
//! accelerations micro-units per second squared, times microseconds.
//!
//! Converting between those units brings the fixed factors below: a
//! distance covered accelerating is `a * t * t / 2` in real units,
//! which in micro-units and microseconds is `a * t * t` divided by
//! `2 * 10^12`; a cruise distance `v * t` is divided by `10^6`.

use vstd::prelude::*;
use crate::path::PathError;
use crate::units::MAX_RAMP_PARAM;

verus! {

/// Ramp parameters are positive and within the machine caps.
pub open spec fn valid_ramp(l: int, v: int, a: int) -> bool {
    &&& 1 <= l <= MAX_RAMP_PARAM
    &&& 1 <= v <= MAX_RAMP_PARAM
    &&& 1 <= a <= MAX_RAMP_PARAM
}

/// `r` is the integer square root of `n`.
pub open spec fn is_sqrt(n: int, r: int) -> bool {
    &&& r >= 0
    &&& r * r <= n
    &&& n < (r + 1) * (r + 1)
}

/// The integer square root of a non-negative number.
pub open spec fn sqrt_floor(n: int) -> int {
    choose|r: int| is_sqrt(n, r)
}

/// Every non-negative number has an integer square root, and
/// `sqrt_floor` denotes it.
pub proof fn lemma_sqrt_floor_exists(n: int)
    requires
        n >= 0,
    ensures
        is_sqrt(n, sqrt_floor(n)),
    decreases n,
{
    if n == 0 {
        assert(is_sqrt(0, 0));
    } else {
        lemma_sqrt_floor_exists(n - 1);
        let r = sqrt_floor(n - 1);
        if (r + 1) * (r + 1) <= n {
            assert(is_sqrt(n, r + 1)) by (nonlinear_arith)
                requires
                    r >= 0,
                    r * r <= n - 1,
                    n - 1 < (r + 1) * (r + 1),
                    (r + 1) * (r + 1) <= n,
            ;
        } else {
            assert(is_sqrt(n, r));
        }
    }
}

/// Integer square roots are unique.
pub proof fn lemma_sqrt_unique(n: int, r1: int, r2: int)
    by (nonlinear_arith)
    requires
        is_sqrt(n, r1),
        is_sqrt(n, r2),
    ensures
        r1 == r2,
{
}

/// Distance covered accelerating from rest at `a` for `t` microseconds.
pub open spec fn accel_distance(a: int, t: int) -> int {
    a * t * t / 2_000_000_000_000
}

/// Distance covered cruising at `v` for `t` microseconds.
pub open spec fn cruise_distance(v: int, t: int) -> int {
    v * t / 1_000_000
}

/// Whether the profile needs a cruise phase: accelerating through a
/// triangular profile would pass the velocity cap.
pub open spec fn spec_is_trapezoid(l: int, v: int, a: int) -> bool {
    a * sqrt_floor(l * 1_000_000_000_000 / a) > v * 1_000_000
}

/// Half the ramp: the time spent accelerating (and, symmetrically,
/// decelerating), in microseconds.
pub open spec fn spec_half_ramp(l: int, v: int, a: int) -> int {
    if spec_is_trapezoid(l, v, a) {
        v * 1_000_000 / a
    } else {
        sqrt_floor(l * 1_000_000_000_000 / a)
    }
}

/// The time spent cruising at the velocity cap, in microseconds: the
/// length left over after both ramps, at the cap.
pub open spec fn spec_full_speed_time(l: int, v: int, a: int) -> int {
    if spec_is_trapezoid(l, v, a) {
        (l * a - v * v) * 1_000_000 / (a * v)
    } else {
        0
    }
}

/// The whole profile's duration in microseconds.
pub open spec fn spec_total_duration(l: int, v: int, a: int) -> int {
    2 * spec_half_ramp(l, v, a) + spec_full_speed_time(l, v, a)
}

/// The distance covered after `t` microseconds: the length once the
/// profile has run out; the pure acceleration distance on the first
/// ramp; then the full first ramp plus the cruise covered so far plus,
/// past the cruise, the deceleration's contribution.
pub open spec fn spec_position(l: int, v: int, a: int, t: int) -> int {
    let half = spec_half_ramp(l, v, a);
    let fst = spec_full_speed_time(l, v, a);
    let dur = 2 * half + fst;
    if dur <= t {
        l
    } else if t <= half {
        accel_distance(a, t)
    } else {
        let w = t - half;
        let cruise_t = if fst <= w {
            fst
        } else {
            w
        };
        let base = accel_distance(a, half) + cruise_distance(v, cruise_t);
        let w2 = w - cruise_t;
        if w2 > 0 {
            base + accel_distance(a, half) - accel_distance(a, half - w2)
        } else {
            base
        }
    }
}

/// The integer square root, by binary search.
fn isqrt(n: i128) -> (r: i64)
    requires
        0 <= n <= 1_000_000_000_000_000_000_000_000,
    ensures
        r == sqrt_floor(n as int),
        is_sqrt(n as int, r as int),
        0 <= r <= 1_000_000_000_000,
{
    let mut lo: i64 = 0;
    let mut hi: i64 = 1_000_000_000_000;
    proof {
        assert((1_000_000_000_001 as int) * 1_000_000_000_001 > 1_000_000_000_000_000_000_000_000)
            by (nonlinear_arith);
    }
    while lo < hi
        invariant
            0 <= lo <= hi <= 1_000_000_000_000,
            (lo as int) * (lo as int) <= n as int,
            (n as int) < ((hi as int) + 1) * ((hi as int) + 1),
        decreases hi - lo,
    {
        let mid: i64 = lo + (hi - lo + 1) / 2;
        proof {
            assert(0 <= (mid as int) * (mid as int) <= 1_000_000_000_000_000_000_000_000int)
                by (nonlinear_arith)
                requires
                    0 <= mid <= 1_000_000_000_000,
            ;
        }
        if (mid as i128) * (mid as i128) <= n {
            lo = mid;
        } else {
            hi = mid - 1;
        }
    }
    proof {
        assert(is_sqrt(n as int, lo as int));
        lemma_sqrt_floor_exists(n as int);
        lemma_sqrt_unique(n as int, lo as int, sqrt_floor(n as int));
    }
    lo
}

/// A trapezoidal (or, where the length is too short to reach the
/// velocity cap, triangular) motion profile over a fixed length.
#[derive(Clone, Copy, Debug)]
pub struct Ramp {
    pub length: i64,
    pub max_velocity: i64,
    pub max_acceleration: i64,
}

impl Ramp {
    /// The ramp's parameters are valid.
    pub open spec fn wf(&self) -> bool {
        valid_ramp(self.length as int, self.max_velocity as int, self.max_acceleration as int)
    }

    /// A profile over `length` micro-units with the given velocity and
    /// acceleration caps. Non-positive or over-large parameters are an
    /// invalid profile.
    pub fn new(length: i64, max_velocity: i64, max_acceleration: i64) -> (r: Result<
        Ramp,
        PathError,
    >)
        ensures
            r is Ok <==> valid_ramp(length as int, max_velocity as int, max_acceleration as int),
            r matches Ok(ramp) ==> ramp.wf() && ramp.length == length && ramp.max_velocity
                == max_velocity && ramp.max_acceleration == max_acceleration,
            !(r is Ok) ==> r == Err::<Ramp, PathError>(PathError::InvalidProfile),
    {
        if length < 1 || length > MAX_RAMP_PARAM || max_velocity < 1 || max_velocity
            > MAX_RAMP_PARAM || max_acceleration < 1 || max_acceleration > MAX_RAMP_PARAM {
            Err(PathError::InvalidProfile)
        } else {
            Ok(Ramp { length, max_velocity, max_acceleration })
        }
    }

    /// The time spent ramping (accelerating plus decelerating) and the
    /// time spent cruising at the velocity cap, in microseconds.
    pub fn segment_duration(&self) -> (r: (i64, i64))
        requires
            self.wf(),
        ensures
            r.0 == 2 * spec_half_ramp(
                self.length as int,
                self.max_velocity as int,
                self.max_acceleration as int,
            ),
            r.1 == spec_full_speed_time(
                self.length as int,
                self.max_velocity as int,
                self.max_acceleration as int,
            ),
            0 <= r.0 <= 2_000_000_000_000_000_000,
            0 <= r.1 <= 1_000_000_000_000_000_000,
    {
        let l = self.length;
        let v = self.max_velocity;
        let a = self.max_acceleration;
        proof {
            assert(0 <= (l as int) * 1_000_000_000_000 <= 1_000_000_000_000_000_000_000_000)
                by (nonlinear_arith)
                requires
                    1 <= l <= 1_000_000_000_000,
            ;
            vstd::arithmetic::div_mod::lemma_div_pos_is_pos((l as int) * 1_000_000_000_000, a as int);
            vstd::arithmetic::div_mod::lemma_div_nonincreasing((l as int) * 1_000_000_000_000, a as int);
        }
        let tri: i64 = isqrt((l as i128) * 1_000_000_000_000 / (a as i128));
        proof {
            assert(0 <= (a as int) * (tri as int) <= 1_000_000_000_000_000_000_000_000int)
                by (nonlinear_arith)
                requires
                    1 <= a <= 1_000_000_000_000,
                    0 <= tri <= 1_000_000_000_000,
            ;
        }
        if (a as i128) * (tri as i128) > (v as i128) * 1_000_000 {
            let half: i64 = v * 1_000_000 / a;
            proof {
                lemma_trapezoid_leftover(l as int, v as int, a as int);
                vstd::arithmetic::div_mod::lemma_div_pos_is_pos((v as int) * 1_000_000, a as int);
                vstd::arithmetic::div_mod::lemma_div_nonincreasing((v as int) * 1_000_000, a as int);
                assert(0 <= (l as int) * (a as int) <= 1_000_000_000_000_000_000_000_000int && 0
                    <= (v as int) * (v as int) <= 1_000_000_000_000_000_000_000_000int && 0 <= (
                a as int) * (v as int) <= 1_000_000_000_000_000_000_000_000int) by (nonlinear_arith)
                    requires
                        1 <= l <= 1_000_000_000_000,
                        1 <= v <= 1_000_000_000_000,
                        1 <= a <= 1_000_000_000_000,
                ;
                assert(0 <= ((l as int) * (a as int) - (v as int) * (v as int)) * 1_000_000
                    <= 1_000_000_000_000_000_000_000_000int * 1_000_000) by (nonlinear_arith)
                    requires
                        0 <= (l as int) * (a as int) - (v as int) * (v as int)
                            <= 1_000_000_000_000_000_000_000_000,
                ;
                assert(1 <= (a as int) * (v as int)) by (nonlinear_arith)
                    requires
                        1 <= a,
                        1 <= v,
                ;
            }
            let num: i128 = ((l as i128) * (a as i128) - (v as i128) * (v as i128)) * 1_000_000;
            let den: i128 = (a as i128) * (v as i128);
            proof {
                lemma_fst_bound(l as int, v as int, a as int);
                assert(0 <= (l as int) * 1_000_000 <= 1_000_000_000_000_000_000)
                    by (nonlinear_arith)
                    requires
                        1 <= l <= 1_000_000_000_000,
                ;
            }
            let fst: i64 = (num / den) as i64;
            (2 * half, fst)
        } else {
            (2 * tri, 0)
        }
    }

    /// The distance covered `elapsed` microseconds into the profile,
    /// clamped to the length once the profile has run out.
    pub fn position_at_duration(&self, elapsed: i64) -> (r: i64)
        requires
            self.wf(),
            elapsed >= 0,
        ensures
            r == spec_position(
                self.length as int,
                self.max_velocity as int,
                self.max_acceleration as int,
                elapsed as int,
            ),
            0 <= r <= self.length,
    {
        let l = self.length;
        let v = self.max_velocity;
        let a = self.max_acceleration;
        let (ramp_time, full_speed_time) = self.segment_duration();
        let ghost gh = spec_half_ramp(l as int, v as int, a as int);
        let ghost gfst = spec_full_speed_time(l as int, v as int, a as int);
        proof {
            lemma_profile_bounds(l as int, v as int, a as int);
            lemma_ramp_position_in_range(l as int, v as int, a as int, elapsed as int);
        }
        let duration = ramp_time + full_speed_time;
        if duration <= elapsed {
            return l;
        }
        let half = ramp_time / 2;
        proof {
            assert(gh * 2 == 2 * gh);
            vstd::arithmetic::div_mod::lemma_div_by_multiple(gh, 2);
            assert(half == gh);
        }
        if elapsed <= half {
            proof {
                assert(0 <= (a as int) * (elapsed as int) <= (a as int) * gh) by (nonlinear_arith)
                    requires
                        0 <= elapsed <= gh,
                        0 <= a,
                ;
                assert((a as int) * gh <= 1_000_000_000_000int * 1_000_000_000_000_000_000)
                    by (nonlinear_arith)
                    requires
                        0 <= a <= 1_000_000_000_000,
                        0 <= gh <= 1_000_000_000_000_000_000,
                ;
                assert(0 <= (a as int) * (elapsed as int) * (elapsed as int) <= (a as int) * gh * gh)
                    by (nonlinear_arith)
                    requires
                        0 <= elapsed <= gh,
                        0 <= a,
                ;
                lemma_accel_monotone(a as int, elapsed as int, gh);
            }
            let d: i64 = (((a as i128) * (elapsed as i128) * (elapsed as i128)) / 2_000_000_000_000)
                as i64;
            return d;
        }
        let w: i64 = elapsed - half;
        let cruise_t: i64 = if full_speed_time <= w {
            full_speed_time
        } else {
            w
        };
        proof {
            assert((a as int) * gh <= 1_000_000_000_000int * 1_000_000_000_000_000_000)
                by (nonlinear_arith)
                requires
                    0 <= a <= 1_000_000_000_000,
                    0 <= gh <= 1_000_000_000_000_000_000,
            ;
            lemma_accel_monotone(a as int, gh, gh);
            assert(0 <= (v as int) * (cruise_t as int) <= (v as int) * gfst) by (nonlinear_arith)
                requires
                    0 <= cruise_t <= gfst,
                    0 <= v,
            ;
            assert((v as int) * gfst <= 1_000_000_000_000int * 1_000_000_000_000_000_000)
                by (nonlinear_arith)
                requires
                    0 <= v <= 1_000_000_000_000,
                    0 <= gfst <= 1_000_000_000_000_000_000,
            ;
            lemma_cruise_monotone(v as int, cruise_t as int, gfst);
        }
        let accel_full: i64 = (((a as i128) * (half as i128) * (half as i128))
            / 2_000_000_000_000) as i64;
        let cruise_part: i64 = (((v as i128) * (cruise_t as i128)) / 1_000_000) as i64;
        let base: i64 = accel_full + cruise_part;
        let w2: i64 = w - cruise_t;
        if w2 > 0 {
            let back: i64 = half - w2;
            proof {
                assert(cruise_t == full_speed_time);
                assert(0 <= back && back <= half);
                assert(0 <= (a as int) * (back as int) * (back as int) <= (a as int) * gh * gh)
                    by (nonlinear_arith)
                    requires
                        0 <= back <= gh,
                        0 <= a,
                ;
                assert(0 <= (a as int) * (back as int) <= (a as int) * gh) by (nonlinear_arith)
                    requires
                        0 <= back <= gh,
                        0 <= a,
                ;
                lemma_accel_monotone(a as int, back as int, gh);
            }
            let decel: i64 = accel_full - (((a as i128) * (back as i128) * (back as i128))
                / 2_000_000_000_000) as i64;
            base + decel
        } else {
            base
        }
    }

    /// The profile's whole duration in microseconds.
    pub fn total_duration(&self) -> (r: i64)
        requires
            self.wf(),
        ensures
            r == spec_total_duration(
                self.length as int,
                self.max_velocity as int,
                self.max_acceleration as int,
            ),
            0 <= r <= 3_000_000_000_000_000_000,
    {
        let (ramp_time, full_speed_time) = self.segment_duration();
        ramp_time + full_speed_time
    }
}

/// The cruise time is non-negative and, scaled back to a distance at
/// the velocity cap, never exceeds the whole length.
pub proof fn lemma_fst_bound(l: int, v: int, a: int)
    requires
        valid_ramp(l, v, a),
        spec_is_trapezoid(l, v, a),
    ensures
        0 <= spec_full_speed_time(l, v, a) <= l * 1_000_000,
{
    lemma_trapezoid_leftover(l, v, a);
    let lv = l * a - v * v;
    let fst = spec_full_speed_time(l, v, a);
    assert(1 <= a * v) by (nonlinear_arith)
        requires
            1 <= a,
            1 <= v,
    ;
    assert(0 <= lv * 1_000_000) by (nonlinear_arith)
        requires
            0 <= lv,
    ;
    vstd::arithmetic::div_mod::lemma_div_pos_is_pos(lv * 1_000_000, a * v);
    vstd::arithmetic::div_mod::lemma_fundamental_div_mod(lv * 1_000_000, a * v);
    vstd::arithmetic::div_mod::lemma_mod_pos_bound(lv * 1_000_000, a * v);
    assert((a * v) * fst <= lv * 1_000_000);
    assert(fst <= l * 1_000_000) by (nonlinear_arith)
        requires
            (a * v) * fst <= lv * 1_000_000,
            lv <= l * a,
            a >= 1,
            v >= 1,
            fst >= 0,
            l >= 1,
    ;
}

/// In a trapezoidal profile some length is left over after both ramps:
/// the velocity cap squared is below the length times the acceleration.
pub proof fn lemma_trapezoid_leftover(l: int, v: int, a: int)
    requires
        valid_ramp(l, v, a),
        spec_is_trapezoid(l, v, a),
    ensures
        v * v < l * a,
        0 <= l * a - v * v <= 1_000_000_000_000_000_000_000_000,
{
    let q = l * 1_000_000_000_000 / a;
    assert(0 <= l * 1_000_000_000_000) by (nonlinear_arith)
        requires
            l >= 1,
    ;
    lemma_sqrt_floor_exists(q);
    vstd::arithmetic::div_mod::lemma_div_pos_is_pos(l * 1_000_000_000_000, a);
    let tri = sqrt_floor(q);
    vstd::arithmetic::div_mod::lemma_fundamental_div_mod(l * 1_000_000_000_000, a);
    assert(a * q <= l * 1_000_000_000_000) by {
        vstd::arithmetic::div_mod::lemma_mod_pos_bound(l * 1_000_000_000_000, a);
    };
    assert(v * v * 1_000_000_000_000 < l * a * 1_000_000_000_000) by (nonlinear_arith)
        requires
            a * tri > v * 1_000_000,
            tri * tri <= q,
            a * q <= l * 1_000_000_000_000,
            v >= 1,
            a >= 1,
            tri >= 0,
    ;
    assert(v * v < l * a) by (nonlinear_arith)
        requires
            v * v * 1_000_000_000_000 < l * a * 1_000_000_000_000,
    ;
    assert(l * a <= 1_000_000_000_000_000_000_000_000 && 0 <= v * v) by (nonlinear_arith)
        requires
            1 <= l <= 1_000_000_000_000,
            1 <= a <= 1_000_000_000_000,
            1 <= v,
    ;
}


/// Acceleration distance grows with elapsed time.
pub proof fn lemma_accel_monotone(a: int, s: int, t: int)
    requires
        0 <= s <= t,
        a >= 0,
    ensures
        0 <= accel_distance(a, s) <= accel_distance(a, t),
{
    assert(0 <= a * s * s <= a * t * t) by (nonlinear_arith)
        requires
            0 <= s <= t,
            a >= 0,
    ;
    vstd::arithmetic::div_mod::lemma_div_pos_is_pos(a * s * s, 2_000_000_000_000);
    vstd::arithmetic::div_mod::lemma_div_is_ordered(a * s * s, a * t * t, 2_000_000_000_000);
}

/// Cruise distance grows with elapsed time.
pub proof fn lemma_cruise_monotone(v: int, s: int, t: int)
    requires
        0 <= s <= t,
        v >= 0,
    ensures
        0 <= cruise_distance(v, s) <= cruise_distance(v, t),
{
    assert(0 <= v * s <= v * t) by (nonlinear_arith)
        requires
            0 <= s <= t,
            v >= 0,
    ;
    vstd::arithmetic::div_mod::lemma_div_pos_is_pos(v * s, 1_000_000);
    vstd::arithmetic::div_mod::lemma_div_is_ordered(v * s, v * t, 1_000_000);
}

/// The profile's phases stay within machine bounds, and the two ramps
/// plus the cruise never cover more than the length.
pub proof fn lemma_profile_bounds(l: int, v: int, a: int)
    requires
        valid_ramp(l, v, a),
    ensures
        0 <= spec_half_ramp(l, v, a) <= 1_000_000_000_000_000_000,
        0 <= spec_full_speed_time(l, v, a) <= 1_000_000_000_000_000_000,
        a * spec_half_ramp(l, v, a) * spec_half_ramp(l, v, a)
            <= 1_000_000_000_000_000_000_000_000_000_000_000_000,
        2 * accel_distance(a, spec_half_ramp(l, v, a)) + cruise_distance(
            v,
            spec_full_speed_time(l, v, a),
        ) <= l,
        0 <= accel_distance(a, spec_half_ramp(l, v, a)),
        0 <= cruise_distance(v, spec_full_speed_time(l, v, a)),
{
    let h = spec_half_ramp(l, v, a);
    let fst = spec_full_speed_time(l, v, a);
    assert(0 <= l * 1_000_000_000_000 <= 1_000_000_000_000_000_000_000_000) by (nonlinear_arith)
        requires
            1 <= l <= 1_000_000_000_000,
    ;
    let q = l * 1_000_000_000_000 / a;
    vstd::arithmetic::div_mod::lemma_div_pos_is_pos(l * 1_000_000_000_000, a);
    vstd::arithmetic::div_mod::lemma_div_nonincreasing(l * 1_000_000_000_000, a);
    lemma_sqrt_floor_exists(q);
    let tri = sqrt_floor(q);
    vstd::arithmetic::div_mod::lemma_fundamental_div_mod(l * 1_000_000_000_000, a);
    vstd::arithmetic::div_mod::lemma_mod_pos_bound(l * 1_000_000_000_000, a);
    assert(a * q <= l * 1_000_000_000_000);
    assert(tri <= 1_000_000_000_000) by (nonlinear_arith)
        requires
            tri >= 0,
            tri * tri <= 1_000_000_000_000_000_000_000_000,
    ;
    let ad = accel_distance(a, h);
    vstd::arithmetic::div_mod::lemma_fundamental_div_mod(a * h * h, 2_000_000_000_000);
    vstd::arithmetic::div_mod::lemma_mod_pos_bound(a * h * h, 2_000_000_000_000);
    if spec_is_trapezoid(l, v, a) {
        assert(h == v * 1_000_000 / a);
        assert(0 <= v * 1_000_000 <= 1_000_000_000_000_000_000) by (nonlinear_arith)
            requires
                1 <= v <= 1_000_000_000_000,
        ;
        vstd::arithmetic::div_mod::lemma_div_pos_is_pos(v * 1_000_000, a);
        vstd::arithmetic::div_mod::lemma_div_nonincreasing(v * 1_000_000, a);
        vstd::arithmetic::div_mod::lemma_fundamental_div_mod(v * 1_000_000, a);
        vstd::arithmetic::div_mod::lemma_mod_pos_bound(v * 1_000_000, a);
        assert(a * h <= v * 1_000_000);
        assert(a * h * h <= 1_000_000_000_000_000_000_000_000_000_000_000_000) by (nonlinear_arith)
            requires
                0 <= a * h <= 1_000_000_000_000_000_000,
                0 <= h <= 1_000_000_000_000_000_000,
    ;
        lemma_fst_bound(l, v, a);
        assert(l * 1_000_000 <= 1_000_000_000_000_000_000) by (nonlinear_arith)
            requires
                l <= 1_000_000_000_000,
        ;
        // first ramp times acceleration stays below the velocity cap squared
        assert(2_000_000_000_000 * ad <= a * h * h);
        assert(2 * ad * a <= v * v) by (nonlinear_arith)
            requires
                2_000_000_000_000 * ad <= a * h * h,
                a * h <= v * 1_000_000,
                a >= 1,
                h >= 0,
                ad >= 0,
    ;
        // the cruise at the cap covers no more than the leftover length
        let cd = cruise_distance(v, fst);
        vstd::arithmetic::div_mod::lemma_fundamental_div_mod(v * fst, 1_000_000);
        vstd::arithmetic::div_mod::lemma_mod_pos_bound(v * fst, 1_000_000);
        vstd::arithmetic::div_mod::lemma_div_pos_is_pos(v * fst, 1_000_000);
        assert(0 <= v * fst) by (nonlinear_arith)
            requires
                v >= 1,
                fst >= 0,
    ;
        assert(1_000_000 * cd <= v * fst);
        lemma_trapezoid_leftover(l, v, a);
        assert(0 <= (l * a - v * v) * 1_000_000) by (nonlinear_arith)
            requires
                0 <= l * a - v * v,
    ;
        assert(1 <= a * v) by (nonlinear_arith)
            requires
                1 <= a,
                1 <= v,
    ;
        vstd::arithmetic::div_mod::lemma_fundamental_div_mod((l * a - v * v) * 1_000_000, a * v);
        vstd::arithmetic::div_mod::lemma_mod_pos_bound((l * a - v * v) * 1_000_000, a * v);
        assert((a * v) * fst <= (l * a - v * v) * 1_000_000);
        assert(cd * a <= l * a - v * v) by (nonlinear_arith)
            requires
                1_000_000 * cd <= v * fst,
                (a * v) * fst <= (l * a - v * v) * 1_000_000,
                a >= 1,
                v >= 1,
                cd >= 0,
                fst >= 0,
    ;
        assert(2 * ad + cd <= l) by (nonlinear_arith)
            requires
                2 * ad * a <= v * v,
                cd * a <= l * a - v * v,
                a >= 1,
    ;
    } else {
        assert(h == tri);
        assert(fst == 0);
        assert(a * h * h <= l * 1_000_000_000_000) by (nonlinear_arith)
            requires
                h * h <= q,
                a * q <= l * 1_000_000_000_000,
                a >= 1,
                h >= 0,
    ;
        assert(2_000_000_000_000 * ad <= a * h * h);
        assert(2 * ad <= l) by (nonlinear_arith)
            requires
                2_000_000_000_000 * ad <= l * 1_000_000_000_000,
    ;
        assert(a * 0 == 0) by (nonlinear_arith);
        assert(v * 0 == 0);
        vstd::arithmetic::div_mod::lemma_div_of0(1_000_000);
        vstd::arithmetic::div_mod::lemma_div_pos_is_pos(a * h * h, 2_000_000_000_000);
        assert(a * h * h <= 1_000_000_000_000_000_000_000_000_000_000_000_000);
    }
    vstd::arithmetic::div_mod::lemma_div_pos_is_pos(a * h * h, 2_000_000_000_000);
    assert(0 <= a * h * h) by (nonlinear_arith)
        requires
            a >= 1,
            h >= 0,
    ;
}

/// The distance covered never leaves `[0, length]`, whatever the time.
pub proof fn lemma_ramp_position_in_range(l: int, v: int, a: int, t: int)
    requires
        valid_ramp(l, v, a),
        t >= 0,
    ensures
        0 <= spec_position(l, v, a, t) <= l,
{
    lemma_profile_bounds(l, v, a);
    let h = spec_half_ramp(l, v, a);
    let fst = spec_full_speed_time(l, v, a);
    let dur = 2 * h + fst;
    if dur <= t {
    } else if t <= h {
        lemma_accel_monotone(a, t, h);
    } else {
        let w = t - h;
        let ct = if fst <= w { fst } else { w };
        lemma_cruise_monotone(v, ct, fst);
        let w2 = w - ct;
        if w2 > 0 {
            lemma_accel_monotone(a, h - w2, h);
        }
    }
}

/// Monotonicity: waiting longer never reports a smaller distance.
pub proof fn lemma_ramp_position_monotonic(l: int, v: int, a: int, t1: int, t2: int)
    requires
        valid_ramp(l, v, a),
        0 <= t1 <= t2,
    ensures
        spec_position(l, v, a, t1) <= spec_position(l, v, a, t2),
{
    lemma_profile_bounds(l, v, a);
    lemma_ramp_position_in_range(l, v, a, t1);
    let h = spec_half_ramp(l, v, a);
    let fst = spec_full_speed_time(l, v, a);
    let dur = 2 * h + fst;
    if dur <= t2 {
    } else if t2 <= h {
        lemma_accel_monotone(a, t1, t2);
    } else if t1 <= h {
        lemma_accel_monotone(a, t1, h);
        let w = t2 - h;
        let ct = if fst <= w { fst } else { w };
        lemma_cruise_monotone(v, 0, ct);
        let r = w - ct;
        if r > 0 {
            assert(ct == fst);
            assert(r < h);
            lemma_accel_monotone(a, h - r, h);
        }
    } else {
        let w1 = t1 - h;
        let w2 = t2 - h;
        let ct1 = if fst <= w1 { fst } else { w1 };
        let ct2 = if fst <= w2 { fst } else { w2 };
        lemma_cruise_monotone(v, ct1, ct2);
        let r1 = w1 - ct1;
        let r2 = w2 - ct2;
        assert(0 <= r1 && r1 <= r2);
        if r2 > 0 {
            assert(ct2 == fst);
            assert(r2 < h);
            lemma_accel_monotone(a, h - r2, h);
        }
        if r1 > 0 {
            assert(ct1 == fst);
            assert(r1 < h);
            lemma_accel_monotone(a, h - r2, h - r1);
            lemma_accel_monotone(a, h - r1, h);
        }
    }
}

/// The profile starts at rest: at time zero no distance is covered.
/// (Parameters so extreme that the whole profile rounds to less than
/// one microsecond are excluded: there the first query already clamps.)
pub proof fn lemma_ramp_starts_at_rest(l: int, v: int, a: int)
    requires
        valid_ramp(l, v, a),
        spec_total_duration(l, v, a) >= 1,
    ensures
        spec_position(l, v, a, 0) == 0,
{
    lemma_profile_bounds(l, v, a);
    assert(a * 0 * 0 == 0) by (nonlinear_arith);
    vstd::arithmetic::div_mod::lemma_div_of0(2_000_000_000_000);
}

/// The profile ends exactly at the length: from the total duration on,
/// the reported distance is the length, with no overshoot.
pub proof fn lemma_ramp_reaches_length(l: int, v: int, a: int, t: int)
    requires
        valid_ramp(l, v, a),
        t >= spec_total_duration(l, v, a),
    ensures
        spec_position(l, v, a, t) == l,
{
}

} // verus!
