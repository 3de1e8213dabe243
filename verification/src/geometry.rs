//! Planar vectors and rotations in fixed-point arithmetic.
//!
//! A `Vector` is a 2D point or displacement with micro-unit
//! coordinates. A `Rotation` is a planar rotation represented by a
//! single microradian angle; rotations compose by adding angles, and
//! two rotations are equal exactly when their angles are. Applying a
//! rotation to a vector goes through the fixed-point sine and cosine
//! of `crate::trig`.

use vstd::prelude::*;
use crate::trig::{spec_sin, spec_cos, sin_cos, lemma_trig_zero};
use crate::units::{SCALE, POSE_COORD_LIMIT, div_trunc, div_trunc_i128};
use crate::units::{lemma_div_trunc_bound, lemma_div_trunc_exact, lemma_div_trunc_neg};

verus! {

/// A 2D point or displacement, coordinates in micro-units.
#[derive(Clone, Copy, Debug, PartialEq, Eq, Structural)]
pub struct Vector {
    pub x: i64,
    pub y: i64,
}

/// A planar rotation: a single angle in microradians.
#[derive(Clone, Copy, Debug, PartialEq, Eq, Structural)]
pub struct Rotation {
    pub angle: i64,
}

/// The x coordinate of a vector `(x, y)` rotated by `angle`:
/// `(x cos - y sin) / SCALE`, truncated toward zero.
pub open spec fn rotate_x(angle: int, x: int, y: int) -> int {
    div_trunc(x * spec_cos(angle) - y * spec_sin(angle), SCALE as int)
}

/// The y coordinate of a vector `(x, y)` rotated by `angle`:
/// `(x sin + y cos) / SCALE`, truncated toward zero.
pub open spec fn rotate_y(angle: int, x: int, y: int) -> int {
    div_trunc(x * spec_sin(angle) + y * spec_cos(angle), SCALE as int)
}

/// Rotating by angle zero moves nothing.
pub proof fn lemma_rotate_identity(x: int, y: int)
    ensures
        rotate_x(0, x, y) == x,
        rotate_y(0, x, y) == y,
{
    lemma_trig_zero();
    assert(x * 1_000_000 - y * 0 == x * 1_000_000);
    assert(x * 0 + y * 1_000_000 == y * 1_000_000);
    lemma_div_trunc_exact(x, SCALE as int);
    lemma_div_trunc_exact(y, SCALE as int);
}

/// Rotating the opposite vector gives the opposite result.
pub proof fn lemma_rotate_opposite(angle: int, x: int, y: int)
    ensures
        rotate_x(angle, -x, -y) == -rotate_x(angle, x, y),
        rotate_y(angle, -x, -y) == -rotate_y(angle, x, y),
{
    assert((-x) * spec_cos(angle) - (-y) * spec_sin(angle) == -(x * spec_cos(angle) - y
        * spec_sin(angle))) by (nonlinear_arith);
    assert((-x) * spec_sin(angle) + (-y) * spec_cos(angle) == -(x * spec_sin(angle) + y
        * spec_cos(angle))) by (nonlinear_arith);
    lemma_div_trunc_neg(x * spec_cos(angle) - y * spec_sin(angle), SCALE as int);
    lemma_div_trunc_neg(x * spec_sin(angle) + y * spec_cos(angle), SCALE as int);
}

/// A rotated vector's coordinates never exceed `|x| + |y|` in magnitude.
pub proof fn lemma_rotate_bound(angle: int, x: int, y: int, b: int)
    requires
        -b <= x <= b,
        -b <= y <= b,
        b >= 0,
    ensures
        -2 * b <= rotate_x(angle, x, y) <= 2 * b,
        -2 * b <= rotate_y(angle, x, y) <= 2 * b,
{
    crate::trig::lemma_trig_bounds(angle);
    let s = spec_sin(angle);
    let c = spec_cos(angle);
    assert(-(b * 1_000_000) <= x * c <= b * 1_000_000) by (nonlinear_arith)
        requires
            -b <= x <= b,
            -1_000_000 <= c <= 1_000_000,
            b >= 0,
    ;
    assert(-(b * 1_000_000) <= y * s <= b * 1_000_000) by (nonlinear_arith)
        requires
            -b <= y <= b,
            -1_000_000 <= s <= 1_000_000,
            b >= 0,
    ;
    assert(-(b * 1_000_000) <= x * s <= b * 1_000_000) by (nonlinear_arith)
        requires
            -b <= x <= b,
            -1_000_000 <= s <= 1_000_000,
            b >= 0,
    ;
    assert(-(b * 1_000_000) <= y * c <= b * 1_000_000) by (nonlinear_arith)
        requires
            -b <= y <= b,
            -1_000_000 <= c <= 1_000_000,
            b >= 0,
    ;
    assert((2 * b) * 1_000_000 == 2 * (b * 1_000_000)) by (nonlinear_arith);
    lemma_div_trunc_bound(x * c - y * s, SCALE as int, 2 * b);
    lemma_div_trunc_bound(x * s + y * c, SCALE as int, 2 * b);
}

impl Vector {
    /// A vector from its two coordinates.
    pub fn new(x: i64, y: i64) -> (r: Vector)
        ensures
            r.x == x,
            r.y == y,
    {
        Vector { x, y }
    }

    /// Componentwise sum of two vectors.
    pub fn plus(&self, other: &Vector) -> (r: Vector)
        requires
            i64::MIN <= self.x + other.x <= i64::MAX,
            i64::MIN <= self.y + other.y <= i64::MAX,
        ensures
            r.x == self.x + other.x,
            r.y == self.y + other.y,
    {
        Vector { x: self.x + other.x, y: self.y + other.y }
    }
}

impl Rotation {
    /// A rotation from its microradian angle.
    pub fn new(angle: i64) -> (r: Rotation)
        ensures
            r.angle == angle,
    {
        Rotation { angle }
    }

    /// The rotation's angle in microradians.
    pub fn angle(&self) -> (r: i64)
        ensures
            r == self.angle,
    {
        self.angle
    }

    /// Applies the rotation to a vector, in fixed-point arithmetic:
    /// exactly `(rotate_x, rotate_y)` of the angle and coordinates.
    pub fn transform_vector(&self, v: &Vector) -> (r: Vector)
        requires
            self.angle > i64::MIN,
            -POSE_COORD_LIMIT <= v.x <= POSE_COORD_LIMIT,
            -POSE_COORD_LIMIT <= v.y <= POSE_COORD_LIMIT,
        ensures
            r.x == rotate_x(self.angle as int, v.x as int, v.y as int),
            r.y == rotate_y(self.angle as int, v.x as int, v.y as int),
            -2 * POSE_COORD_LIMIT <= r.x <= 2 * POSE_COORD_LIMIT,
            -2 * POSE_COORD_LIMIT <= r.y <= 2 * POSE_COORD_LIMIT,
    {
        let (s, c) = sin_cos(self.angle);
        proof {
            lemma_rotate_bound(
                self.angle as int,
                v.x as int,
                v.y as int,
                POSE_COORD_LIMIT as int,
            );
            assert(-(POSE_COORD_LIMIT * 1_000_000) <= (v.x as i128) * (c as i128)
                <= POSE_COORD_LIMIT * 1_000_000) by (nonlinear_arith)
                requires
                    -POSE_COORD_LIMIT <= v.x <= POSE_COORD_LIMIT,
                    -1_000_000 <= c <= 1_000_000,
            ;
            assert(-(POSE_COORD_LIMIT * 1_000_000) <= (v.y as i128) * (s as i128)
                <= POSE_COORD_LIMIT * 1_000_000) by (nonlinear_arith)
                requires
                    -POSE_COORD_LIMIT <= v.y <= POSE_COORD_LIMIT,
                    -1_000_000 <= s <= 1_000_000,
            ;
            assert(-(POSE_COORD_LIMIT * 1_000_000) <= (v.x as i128) * (s as i128)
                <= POSE_COORD_LIMIT * 1_000_000) by (nonlinear_arith)
                requires
                    -POSE_COORD_LIMIT <= v.x <= POSE_COORD_LIMIT,
                    -1_000_000 <= s <= 1_000_000,
            ;
            assert(-(POSE_COORD_LIMIT * 1_000_000) <= (v.y as i128) * (c as i128)
                <= POSE_COORD_LIMIT * 1_000_000) by (nonlinear_arith)
                requires
                    -POSE_COORD_LIMIT <= v.y <= POSE_COORD_LIMIT,
                    -1_000_000 <= c <= 1_000_000,
            ;
        }
        let nx: i128 = (v.x as i128) * (c as i128) - (v.y as i128) * (s as i128);
        let ny: i128 = (v.x as i128) * (s as i128) + (v.y as i128) * (c as i128);
        let rx: i128 = div_trunc_i128(nx, 1_000_000);
        let ry: i128 = div_trunc_i128(ny, 1_000_000);
        Vector { x: rx as i64, y: ry as i64 }
    }
}

} // verus!
