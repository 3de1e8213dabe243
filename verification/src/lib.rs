//! Trajectory-planning core for a small differential-drive robot.
//!
//! The library represents piecewise paths (straight lines and circular
//! arcs), composes them into a single arc-length-parameterized path,
//! maps elapsed time to distance traveled under a trapezoidal velocity
//! profile, and projects path poses onto the ground-contact points of a
//! two-wheel chassis.
//!
//! All quantities are exact integers in micro-units: lengths and
//! coordinates in millionths of a length unit, angles in microradians,
//! times in microseconds. Fractional positions along a path are given
//! in parts per million of the total arc length.

use vstd::prelude::*;

pub mod compound;
pub mod encoder;
pub mod geometry;
pub mod path;
pub mod ramp;
pub mod trig;
pub mod twowheel;
pub mod units;

verus! {

} // verus!
