//! Differential-drive kinematics: wheel ground-contact points.
//!
//! A `TwoWheelRobot` is a chassis with two parallel wheels a fixed
//! wheelbase apart. For a pose on a path, each wheel sits half the
//! wheelbase away from the base point, perpendicular to the heading:
//! the offsets `(0, -wheelbase/2)` and `(0, wheelbase/2)` rotated by
//! the pose's heading. The two wheels always straddle the base point
//! exactly: their coordinates sum to twice the base coordinates.

use vstd::prelude::*;
use crate::geometry::{Vector, Rotation, rotate_x, rotate_y};
use crate::geometry::{lemma_rotate_bound, lemma_rotate_opposite};
use crate::path::{PathSegment, PathError};
use crate::units::{SCALE, MAX_RADIUS};

verus! {

/// The ground-contact points of the two wheels.
#[derive(Clone, Copy, Debug)]
pub struct WheelPositions {
    pub left: Vector,
    pub right: Vector,
}

/// A differential-drive chassis: wheelbase and wheel diameter, both in
/// micro-units.
#[derive(Clone, Copy, Debug)]
pub struct TwoWheelRobot {
    pub wheelbase: i64,
    pub wheeldiameter: i64,
}

impl TwoWheelRobot {
    /// The chassis dimensions are positive and within machine caps.
    pub open spec fn wf(&self) -> bool {
        &&& 1 <= self.wheelbase <= MAX_RADIUS
        &&& 1 <= self.wheeldiameter <= MAX_RADIUS
    }

    /// The wheels' ground-contact points at a fractional position along
    /// a path: the base point offset by half the wheelbase to either
    /// side, perpendicular to the pose's heading. The wheels straddle
    /// the base point exactly.
    pub fn wheel_position_at<P: PathSegment>(&self, path: &P, position: i64) -> (r: Result<
        WheelPositions,
        PathError,
    >)
        requires
            self.wf(),
            path.wf(),
        ensures
            r is Ok <==> (0 <= position <= SCALE && path.queryable()),
            !(r is Ok) ==> r == Err::<WheelPositions, PathError>(PathError::OutOfRange),
            r matches Ok(w) ==> ({
                let base = path.spec_at(position as int);
                let off = self.wheelbase as int / 2;
                &&& w.left.x == base.x + rotate_x(base.heading, 0, -off)
                &&& w.left.y == base.y + rotate_y(base.heading, 0, -off)
                &&& w.right.x == base.x + rotate_x(base.heading, 0, off)
                &&& w.right.y == base.y + rotate_y(base.heading, 0, off)
                &&& w.left.x + w.right.x == 2 * base.x
                &&& w.left.y + w.right.y == 2 * base.y
            }),
    {
        match path.at(position) {
            Err(e) => Err(e),
            Ok(pose) => {
                let base = pose.0;
                let rot = pose.1;
                let off: i64 = self.wheelbase / 2;
                proof {
                    lemma_rotate_bound(rot.angle as int, 0, -(off as int), off as int);
                    lemma_rotate_bound(rot.angle as int, 0, off as int, off as int);
                    lemma_rotate_opposite(rot.angle as int, 0, off as int);
                }
                let lw = rot.transform_vector(&Vector::new(0, -off));
                let rw = rot.transform_vector(&Vector::new(0, off));
                Ok(
                    WheelPositions {
                        left: Vector::new(base.x + lw.x, base.y + lw.y),
                        right: Vector::new(base.x + rw.x, base.y + rw.y),
                    },
                )
            },
        }
    }
}

} // verus!
