//! Fixed-point sine and cosine on microradian angles.
//!
//! Angles are integers in microradians. Results are scaled by `SCALE`,
//! so they range over `[-SCALE, SCALE]`. The evaluation reduces the
//! angle into one turn, folds it into the first eighth of a turn with
//! the usual symmetries, and evaluates a truncated Taylor polynomial
//! there with truncating fixed-point arithmetic. The specification
//! functions below define the result exactly; the executable code
//! computes precisely those values.

use vstd::prelude::*;

verus! {

/// One eighth of a turn in microradians (pi / 4).
pub const EIGHTH_TURN: i64 = 785_398;

/// One quarter of a turn in microradians (pi / 2).
pub const QUARTER_TURN: i64 = 1_570_796;

/// Half a turn in microradians (pi).
pub const HALF_TURN: i64 = 3_141_592;

/// A full turn in microradians (2 pi).
pub const FULL_TURN: i64 = 6_283_184;

/// `x^2`, downscaled into fixed point.
pub open spec fn t2(x: int) -> int {
    x * x / 1_000_000
}

/// `x^3`, downscaled into fixed point.
pub open spec fn t3(x: int) -> int {
    t2(x) * x / 1_000_000
}

/// `x^5`, downscaled into fixed point.
pub open spec fn t5(x: int) -> int {
    t3(x) * t2(x) / 1_000_000
}

/// `x^7`, downscaled into fixed point.
pub open spec fn t7(x: int) -> int {
    t5(x) * t2(x) / 1_000_000
}

/// `x^4`, downscaled into fixed point.
pub open spec fn t4(x: int) -> int {
    t2(x) * t2(x) / 1_000_000
}

/// `x^6`, downscaled into fixed point.
pub open spec fn t6(x: int) -> int {
    t4(x) * t2(x) / 1_000_000
}

/// Taylor polynomial for sine on `[0, EIGHTH_TURN]`, in truncating
/// fixed-point arithmetic: `x - x^3/6 + x^5/120 - x^7/5040`.
pub open spec fn poly_sin(x: int) -> int {
    x - t3(x) / 6 + t5(x) / 120 - t7(x) / 5040
}

/// Taylor polynomial for cosine on `[0, EIGHTH_TURN]`, in truncating
/// fixed-point arithmetic: `1 - x^2/2 + x^4/24 - x^6/720`.
pub open spec fn poly_cos(x: int) -> int {
    1_000_000 - t2(x) / 2 + t4(x) / 24 - t6(x) / 720
}

/// Sine on `[0, QUARTER_TURN)`, folded about the eighth turn.
pub open spec fn quarter_sin(x: int) -> int {
    if x > EIGHTH_TURN {
        poly_cos(QUARTER_TURN - x)
    } else {
        poly_sin(x)
    }
}

/// Cosine on `[0, QUARTER_TURN)`, folded about the eighth turn.
pub open spec fn quarter_cos(x: int) -> int {
    if x > EIGHTH_TURN {
        poly_sin(QUARTER_TURN - x)
    } else {
        poly_cos(x)
    }
}

/// Sine on `[0, HALF_TURN)`: `sin(q + x) == cos(x)` past the quarter.
pub open spec fn half_sin(x: int) -> int {
    if x >= QUARTER_TURN {
        quarter_cos(x - QUARTER_TURN)
    } else {
        quarter_sin(x)
    }
}

/// Cosine on `[0, HALF_TURN)`: `cos(q + x) == -sin(x)` past the quarter.
pub open spec fn half_cos(x: int) -> int {
    if x >= QUARTER_TURN {
        -quarter_sin(x - QUARTER_TURN)
    } else {
        quarter_cos(x)
    }
}

/// Sine on `[0, FULL_TURN)`: the second half mirrors the first.
pub open spec fn turn_sin(x: int) -> int {
    if x >= HALF_TURN {
        -half_sin(x - HALF_TURN)
    } else {
        half_sin(x)
    }
}

/// Cosine on `[0, FULL_TURN)`: the second half mirrors the first.
pub open spec fn turn_cos(x: int) -> int {
    if x >= HALF_TURN {
        -half_cos(x - HALF_TURN)
    } else {
        half_cos(x)
    }
}

/// Fixed-point sine of an arbitrary microradian angle, scaled by `SCALE`.
pub open spec fn spec_sin(x: int) -> int {
    if x >= 0 {
        turn_sin(x % (FULL_TURN as int))
    } else {
        -turn_sin((-x) % (FULL_TURN as int))
    }
}

/// Fixed-point cosine of an arbitrary microradian angle, scaled by `SCALE`.
pub open spec fn spec_cos(x: int) -> int {
    if x >= 0 {
        turn_cos(x % (FULL_TURN as int))
    } else {
        turn_cos((-x) % (FULL_TURN as int))
    }
}

/// Bounds of the downscaled powers on the polynomial's domain.
pub proof fn lemma_poly_parts(x: int)
    requires
        0 <= x <= EIGHTH_TURN,
    ensures
        0 <= t2(x) <= 616_850,
        0 <= t3(x) <= x,
        0 <= t5(x) <= t3(x),
        0 <= t7(x) <= t5(x),
        0 <= t4(x) <= t2(x),
        0 <= t6(x) <= t4(x),
{
    assert(0 <= x * x <= 616_850_018_404) by (nonlinear_arith)
        requires
            0 <= x <= 785_398,
    ;
    assert(0 <= t2(x) <= 616_850) by {
        vstd::arithmetic::div_mod::lemma_div_pos_is_pos(x * x, 1_000_000);
        vstd::arithmetic::div_mod::lemma_div_is_ordered(x * x, 616_850_018_404, 1_000_000);
    };
    assert(0 <= t2(x) * x <= 616_850 * x) by (nonlinear_arith)
        requires
            0 <= t2(x) <= 616_850,
            0 <= x,
    ;
    assert(0 <= t3(x) <= x) by {
        vstd::arithmetic::div_mod::lemma_div_pos_is_pos(t2(x) * x, 1_000_000);
        vstd::arithmetic::div_mod::lemma_div_is_ordered(t2(x) * x, 1_000_000 * x, 1_000_000);
        vstd::arithmetic::div_mod::lemma_div_by_multiple(x, 1_000_000);
        assert(x * 1_000_000 == 1_000_000 * x);
    };
    assert(0 <= t3(x) * t2(x) <= t3(x) * 1_000_000) by (nonlinear_arith)
        requires
            0 <= t3(x),
            0 <= t2(x) <= 1_000_000,
    ;
    assert(0 <= t5(x) <= t3(x)) by {
        vstd::arithmetic::div_mod::lemma_div_pos_is_pos(t3(x) * t2(x), 1_000_000);
        vstd::arithmetic::div_mod::lemma_div_is_ordered(t3(x) * t2(x), t3(x) * 1_000_000, 1_000_000);
        vstd::arithmetic::div_mod::lemma_div_by_multiple(t3(x), 1_000_000);
    };
    assert(0 <= t5(x) * t2(x) <= t5(x) * 1_000_000) by (nonlinear_arith)
        requires
            0 <= t5(x),
            0 <= t2(x) <= 1_000_000,
    ;
    assert(0 <= t7(x) <= t5(x)) by {
        vstd::arithmetic::div_mod::lemma_div_pos_is_pos(t5(x) * t2(x), 1_000_000);
        vstd::arithmetic::div_mod::lemma_div_is_ordered(t5(x) * t2(x), t5(x) * 1_000_000, 1_000_000);
        vstd::arithmetic::div_mod::lemma_div_by_multiple(t5(x), 1_000_000);
    };
    assert(0 <= t2(x) * t2(x) <= t2(x) * 1_000_000) by (nonlinear_arith)
        requires
            0 <= t2(x) <= 1_000_000,
    ;
    assert(0 <= t4(x) <= t2(x)) by {
        vstd::arithmetic::div_mod::lemma_div_pos_is_pos(t2(x) * t2(x), 1_000_000);
        vstd::arithmetic::div_mod::lemma_div_is_ordered(t2(x) * t2(x), t2(x) * 1_000_000, 1_000_000);
        vstd::arithmetic::div_mod::lemma_div_by_multiple(t2(x), 1_000_000);
    };
    assert(0 <= t4(x) * t2(x) <= t4(x) * 1_000_000) by (nonlinear_arith)
        requires
            0 <= t4(x),
            0 <= t2(x) <= 1_000_000,
    ;
    assert(0 <= t6(x) <= t4(x)) by {
        vstd::arithmetic::div_mod::lemma_div_pos_is_pos(t4(x) * t2(x), 1_000_000);
        vstd::arithmetic::div_mod::lemma_div_is_ordered(t4(x) * t2(x), t4(x) * 1_000_000, 1_000_000);
        vstd::arithmetic::div_mod::lemma_div_by_multiple(t4(x), 1_000_000);
    };
}

/// On the polynomial's domain, sine stays within `[0, x]` and cosine
/// within `[0, SCALE]`.
pub proof fn lemma_poly_bounds(x: int)
    requires
        0 <= x <= EIGHTH_TURN,
    ensures
        0 <= poly_sin(x) <= x,
        0 <= poly_cos(x) <= 1_000_000,
{
    lemma_poly_parts(x);
    // sine: the alternating tail never outweighs its leading term
    assert(t3(x) / 6 <= x / 6) by {
        vstd::arithmetic::div_mod::lemma_div_is_ordered(t3(x), x, 6);
    };
    assert(x / 6 <= x) by {
        vstd::arithmetic::div_mod::lemma_div_nonincreasing(x, 6);
    };
    assert(t7(x) / 5040 <= t5(x) / 120) by {
        vstd::arithmetic::div_mod::lemma_div_is_ordered(t7(x), t5(x), 5040);
        vstd::arithmetic::div_mod::lemma_div_is_ordered_by_denominator(t5(x), 120, 5040);
    };
    assert(t5(x) / 120 <= t3(x) / 6) by {
        vstd::arithmetic::div_mod::lemma_div_is_ordered(t5(x), t3(x), 120);
        vstd::arithmetic::div_mod::lemma_div_is_ordered_by_denominator(t3(x), 6, 120);
    };
    assert(0 <= t3(x) / 6 && 0 <= t5(x) / 120 && 0 <= t7(x) / 5040) by {
        vstd::arithmetic::div_mod::lemma_div_pos_is_pos(t3(x), 6);
        vstd::arithmetic::div_mod::lemma_div_pos_is_pos(t5(x), 120);
        vstd::arithmetic::div_mod::lemma_div_pos_is_pos(t7(x), 5040);
    };
    // cosine: likewise
    assert(t4(x) / 24 <= t2(x) / 2) by {
        vstd::arithmetic::div_mod::lemma_div_is_ordered(t4(x), t2(x), 24);
        vstd::arithmetic::div_mod::lemma_div_is_ordered_by_denominator(t2(x), 2, 24);
    };
    assert(t2(x) / 2 <= 308_425) by {
        vstd::arithmetic::div_mod::lemma_div_is_ordered(t2(x), 616_850, 2);
    };
    assert(t6(x) / 720 <= 858) by {
        vstd::arithmetic::div_mod::lemma_div_is_ordered(t6(x), 616_850, 720);
    };
    assert(0 <= t2(x) / 2 && 0 <= t4(x) / 24 && 0 <= t6(x) / 720) by {
        vstd::arithmetic::div_mod::lemma_div_pos_is_pos(t2(x), 2);
        vstd::arithmetic::div_mod::lemma_div_pos_is_pos(t4(x), 24);
        vstd::arithmetic::div_mod::lemma_div_pos_is_pos(t6(x), 720);
    };
}

/// Sine and cosine stay within `[-SCALE, SCALE]` on one turn.
pub proof fn lemma_turn_bounds(x: int)
    requires
        0 <= x < FULL_TURN,
    ensures
        -1_000_000 <= turn_sin(x) <= 1_000_000,
        -1_000_000 <= turn_cos(x) <= 1_000_000,
{
    let h = if x >= HALF_TURN {
        x - HALF_TURN
    } else {
        x
    };
    let q = if h >= QUARTER_TURN {
        h - QUARTER_TURN
    } else {
        h
    };
    if q > EIGHTH_TURN {
        lemma_poly_bounds(QUARTER_TURN - q);
    } else {
        lemma_poly_bounds(q);
    }
}

/// Sine and cosine stay within `[-SCALE, SCALE]` everywhere.
pub proof fn lemma_trig_bounds(x: int)
    ensures
        -1_000_000 <= spec_sin(x) <= 1_000_000,
        -1_000_000 <= spec_cos(x) <= 1_000_000,
{
    if x >= 0 {
        vstd::arithmetic::div_mod::lemma_mod_pos_bound(x, FULL_TURN as int);
        lemma_turn_bounds(x % (FULL_TURN as int));
    } else {
        vstd::arithmetic::div_mod::lemma_mod_pos_bound(-x, FULL_TURN as int);
        lemma_turn_bounds((-x) % (FULL_TURN as int));
    }
}

/// At angle zero the rotation is the identity: sine 0, cosine `SCALE`.
pub proof fn lemma_trig_zero()
    ensures
        spec_sin(0) == 0,
        spec_cos(0) == 1_000_000,
{
    vstd::arithmetic::div_mod::lemma_small_mod(0, FULL_TURN as nat);
    vstd::arithmetic::div_mod::lemma_div_of0(1_000_000);
    assert(t2(0) == 0);
    assert(t3(0) == 0);
    assert(t5(0) == 0);
    assert(t7(0) == 0);
    assert(t4(0) == 0);
    assert(t6(0) == 0);
    vstd::arithmetic::div_mod::lemma_div_of0(6);
    vstd::arithmetic::div_mod::lemma_div_of0(120);
    vstd::arithmetic::div_mod::lemma_div_of0(5040);
    vstd::arithmetic::div_mod::lemma_div_of0(2);
    vstd::arithmetic::div_mod::lemma_div_of0(24);
    vstd::arithmetic::div_mod::lemma_div_of0(720);
}

/// Evaluates the two Taylor polynomials on the first eighth of a turn.
fn eighth_sin_cos(x: i64) -> (r: (i64, i64))
    requires
        0 <= x <= EIGHTH_TURN,
    ensures
        r.0 == poly_sin(x as int),
        r.1 == poly_cos(x as int),
{
    proof {
        lemma_poly_parts(x as int);
        lemma_poly_bounds(x as int);
    }
    let x2: i64 = x * x / 1_000_000;
    let x3: i64 = x2 * x / 1_000_000;
    let x5: i64 = x3 * x2 / 1_000_000;
    let x7: i64 = x5 * x2 / 1_000_000;
    let x4: i64 = x2 * x2 / 1_000_000;
    let x6: i64 = x4 * x2 / 1_000_000;
    let s: i64 = x - x3 / 6 + x5 / 120 - x7 / 5040;
    let c: i64 = 1_000_000 - x2 / 2 + x4 / 24 - x6 / 720;
    (s, c)
}

/// Sine and cosine on the first quarter turn.
fn quarter_sin_cos(x: i64) -> (r: (i64, i64))
    requires
        0 <= x < QUARTER_TURN,
    ensures
        r.0 == quarter_sin(x as int),
        r.1 == quarter_cos(x as int),
        0 <= r.0 <= 1_000_000,
        0 <= r.1 <= 1_000_000,
{
    if x > EIGHTH_TURN {
        proof {
            lemma_poly_bounds(QUARTER_TURN - x);
        }
        let (s, c) = eighth_sin_cos(QUARTER_TURN - x);
        (c, s)
    } else {
        proof {
            lemma_poly_bounds(x as int);
        }
        eighth_sin_cos(x)
    }
}

/// Sine and cosine on the first half turn.
fn half_sin_cos(x: i64) -> (r: (i64, i64))
    requires
        0 <= x < HALF_TURN,
    ensures
        r.0 == half_sin(x as int),
        r.1 == half_cos(x as int),
        -1_000_000 <= r.0 <= 1_000_000,
        -1_000_000 <= r.1 <= 1_000_000,
{
    if x >= QUARTER_TURN {
        let (s, c) = quarter_sin_cos(x - QUARTER_TURN);
        (c, -s)
    } else {
        quarter_sin_cos(x)
    }
}

/// Sine and cosine on one full turn.
fn turn_sin_cos(x: i64) -> (r: (i64, i64))
    requires
        0 <= x < FULL_TURN,
    ensures
        r.0 == turn_sin(x as int),
        r.1 == turn_cos(x as int),
        -1_000_000 <= r.0 <= 1_000_000,
        -1_000_000 <= r.1 <= 1_000_000,
{
    if x >= HALF_TURN {
        let (s, c) = half_sin_cos(x - HALF_TURN);
        (-s, -c)
    } else {
        half_sin_cos(x)
    }
}

/// Fixed-point sine and cosine of a microradian angle, both scaled by
/// `SCALE` and exactly the values of `spec_sin` and `spec_cos`.
pub fn sin_cos(angle: i64) -> (r: (i64, i64))
    requires
        angle > i64::MIN,
    ensures
        r.0 == spec_sin(angle as int),
        r.1 == spec_cos(angle as int),
        -1_000_000 <= r.0 <= 1_000_000,
        -1_000_000 <= r.1 <= 1_000_000,
{
    let mag: i64 = if angle < 0 {
        -angle
    } else {
        angle
    };
    proof {
        vstd::arithmetic::div_mod::lemma_mod_pos_bound(mag as int, FULL_TURN as int);
    }
    let reduced: i64 = mag % FULL_TURN;
    let (s, c) = turn_sin_cos(reduced);
    if angle < 0 {
        (-s, c)
    } else {
        (s, c)
    }
}

} // verus!
