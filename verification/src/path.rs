//! Path segments: the building blocks of a piecewise path.
//!
//! A path segment is a curve of fixed arc length, parameterized by a
//! fractional position in parts per million: `0` is the segment's
//! start, `SCALE` its end. Querying a segment yields a pose — a point
//! and a heading — in the segment's own local frame, which starts at
//! the origin with identity heading. Two segment shapes exist: a
//! straight line and a circular arc whose signed sweep angle encodes
//! the turn direction (positive turns toward positive y).

use vstd::prelude::*;
use vstd::math::abs;
use crate::geometry::{Vector, Rotation, rotate_x, rotate_y};
use crate::geometry::{lemma_rotate_identity, lemma_rotate_bound};
use crate::units::{SCALE, MAX_SEGMENT_LENGTH, MAX_RADIUS, MAX_ARC};
use crate::units::{POSE_COORD_LIMIT, POSE_HEADING_LIMIT};

verus! {

/// How a path query can fail.
#[derive(Clone, Copy, Debug, PartialEq, Eq, Structural)]
pub enum PathError {
    /// Geometry that cannot be parameterized: a non-positive length or
    /// radius, a zero arc, or a path with nothing in it to measure.
    DegeneratePath,
    /// A fractional position outside `[0, SCALE]`, or a query against
    /// an empty compound path.
    OutOfRange,
    /// A ramp with a non-positive or over-large length, velocity or
    /// acceleration.
    InvalidProfile,
}

/// A pose: a point and a heading, as unbounded integers for
/// specification purposes.
pub ghost struct GPose {
    pub x: int,
    pub y: int,
    pub heading: int,
}

/// The pose at the origin with identity heading.
pub open spec fn origin_pose() -> GPose {
    GPose { x: 0, y: 0, heading: 0 }
}

/// Poses a path may report stay within these machine bounds.
pub open spec fn pose_bounded(p: GPose) -> bool {
    &&& -POSE_COORD_LIMIT <= p.x <= POSE_COORD_LIMIT
    &&& -POSE_COORD_LIMIT <= p.y <= POSE_COORD_LIMIT
    &&& -POSE_HEADING_LIMIT <= p.heading <= POSE_HEADING_LIMIT
}

/// A local pose expressed in the frame of a base pose: the local point
/// is rotated by the base heading and shifted to the base point, and
/// the headings add.
pub open spec fn compose_pose(base: GPose, local: GPose) -> GPose {
    GPose {
        x: base.x + rotate_x(base.heading, local.x, local.y),
        y: base.y + rotate_y(base.heading, local.x, local.y),
        heading: base.heading + local.heading,
    }
}

/// Composing with the identity pose at the base moves nothing.
pub proof fn lemma_compose_identity_base(local: GPose)
    ensures
        compose_pose(origin_pose(), local) == local,
{
    lemma_rotate_identity(local.x, local.y);
}

/// A curve of fixed arc length, queryable by fractional position.
pub trait PathSegment: Sized {
    /// The segment's parameters are valid geometry.
    spec fn wf(&self) -> bool;

    /// Exact arc length in micro-units.
    spec fn spec_length(&self) -> int;

    /// Whether pose queries are answerable at all. (A compound path
    /// must hold at least one segment; a plain segment always is.)
    spec fn queryable(&self) -> bool;

    /// The pose at a fractional position in `[0, SCALE]`, in the
    /// segment's local frame.
    spec fn spec_at(&self, position: int) -> GPose;

    /// Every queryable segment starts at the origin with identity
    /// heading.
    proof fn at_start(&self)
        requires
            self.wf(),
            self.queryable(),
        ensures
            self.spec_at(0) == origin_pose(),
    ;

    /// The segment's arc length, fixed at construction.
    fn length(&self) -> (r: i64)
        requires
            self.wf(),
        ensures
            r == self.spec_length(),
            r >= 0,
    ;

    /// The pose at fractional position `position`, or `OutOfRange` if
    /// the position lies outside `[0, SCALE]` or nothing can answer.
    fn at(&self, position: i64) -> (r: Result<(Vector, Rotation), PathError>)
        requires
            self.wf(),
        ensures
            r is Ok <==> (0 <= position <= SCALE && self.queryable()),
            !(r is Ok) ==> r == Err::<(Vector, Rotation), PathError>(PathError::OutOfRange),
            r matches Ok(pose) ==> {
                &&& pose.0.x == self.spec_at(position as int).x
                &&& pose.0.y == self.spec_at(position as int).y
                &&& pose.1.angle == self.spec_at(position as int).heading
                &&& pose_bounded(self.spec_at(position as int))
            },
    ;
}

/// A straight line of fixed length, along the local x axis.
#[derive(Clone, Copy, Debug)]
pub struct LinearSegment {
    pub length: i64,
}

impl LinearSegment {
    /// A straight segment of the given micro-unit length. Non-positive
    /// and over-large lengths are degenerate geometry.
    pub fn new(length: i64) -> (r: Result<LinearSegment, PathError>)
        ensures
            r is Ok <==> 1 <= length <= MAX_SEGMENT_LENGTH,
            r matches Ok(seg) ==> seg.wf() && seg.spec_length() == length,
            !(r is Ok) ==> r == Err::<LinearSegment, PathError>(PathError::DegeneratePath),
    {
        if length < 1 || length > MAX_SEGMENT_LENGTH {
            Err(PathError::DegeneratePath)
        } else {
            Ok(LinearSegment { length })
        }
    }
}

impl PathSegment for LinearSegment {
    open spec fn wf(&self) -> bool {
        1 <= self.length <= MAX_SEGMENT_LENGTH
    }

    open spec fn spec_length(&self) -> int {
        self.length as int
    }

    open spec fn queryable(&self) -> bool {
        true
    }

    /// The point `position * length / SCALE` along the x axis, with
    /// identity heading: the pose is proportional to the position.
    open spec fn spec_at(&self, position: int) -> GPose {
        GPose { x: position * self.length / (SCALE as int), y: 0, heading: 0 }
    }

    proof fn at_start(&self) {
        assert(0 as int * self.length == 0);
        vstd::arithmetic::div_mod::lemma_div_of0(SCALE as int);
    }

    fn length(&self) -> (r: i64) {
        self.length
    }

    fn at(&self, position: i64) -> (r: Result<(Vector, Rotation), PathError>) {
        if position < 0 || position > SCALE {
            return Err(PathError::OutOfRange);
        }
        proof {
            assert(0 <= position * self.length <= 1_000_000 * self.length) by (nonlinear_arith)
                requires
                    0 <= position <= 1_000_000,
                    0 <= self.length,
            ;
            vstd::arithmetic::div_mod::lemma_div_pos_is_pos(position * self.length, 1_000_000);
            vstd::arithmetic::div_mod::lemma_div_is_ordered(
                position * self.length,
                self.length * 1_000_000,
                1_000_000,
            );
            vstd::arithmetic::div_mod::lemma_div_by_multiple(self.length as int, 1_000_000);
        }
        let x: i64 = (((position as i128) * (self.length as i128)) / 1_000_000) as i64;
        Ok((Vector::new(x, 0), Rotation::new(0)))
    }
}

/// A circular arc of fixed radius and signed sweep angle. A positive
/// arc turns toward positive y, a negative arc toward negative y.
#[derive(Clone, Copy, Debug)]
pub struct CircleSegment {
    pub radius: i64,
    pub arc: i64,
}

impl CircleSegment {
    /// An arc of the given micro-unit radius and microradian sweep.
    /// A non-positive radius, a zero arc, or an arc shorter than one
    /// micro-unit is degenerate geometry.
    pub fn new(radius: i64, arc: i64) -> (r: Result<CircleSegment, PathError>)
        ensures
            r is Ok <==> (1 <= radius <= MAX_RADIUS && -MAX_ARC <= arc <= MAX_ARC && abs(
                arc as int,
            ) * radius >= SCALE),
            r matches Ok(seg) ==> seg.wf() && seg.spec_radius() == radius && seg.spec_arc()
                == arc,
            !(r is Ok) ==> r == Err::<CircleSegment, PathError>(PathError::DegeneratePath),
    {
        if radius < 1 || radius > MAX_RADIUS || arc < -MAX_ARC || arc > MAX_ARC {
            return Err(PathError::DegeneratePath);
        }
        let arc_mag: i64 = if arc < 0 {
            -arc
        } else {
            arc
        };
        proof {
            assert(arc_mag * radius <= 100_000_000int * 1_000_000_000_000) by (nonlinear_arith)
                requires
                    0 <= arc_mag <= 100_000_000,
                    0 <= radius <= 1_000_000_000_000,
            ;
        }
        if (arc_mag as i128) * (radius as i128) < 1_000_000 {
            Err(PathError::DegeneratePath)
        } else {
            Ok(CircleSegment { radius, arc })
        }
    }

    /// The arc's radius in micro-units.
    pub open spec fn spec_radius(&self) -> int {
        self.radius as int
    }

    /// The arc's signed sweep angle in microradians.
    pub open spec fn spec_arc(&self) -> int {
        self.arc as int
    }
}

/// The vector from the arc's center to its start: radius-long, pointing
/// away from the turn center along the local y axis.
pub open spec fn circle_center_offset(radius: int, arc: int) -> int {
    if arc >= 0 {
        -radius
    } else {
        radius
    }
}

/// The signed angle swept after a fraction `position` of the arc.
pub open spec fn circle_sweep(arc: int, position: int) -> int {
    let mag = abs(arc) * position / (SCALE as int);
    if arc >= 0 {
        mag
    } else {
        -mag
    }
}

impl PathSegment for CircleSegment {
    open spec fn wf(&self) -> bool {
        &&& 1 <= self.radius <= MAX_RADIUS
        &&& -MAX_ARC <= self.arc <= MAX_ARC
        &&& abs(self.arc as int) * self.radius >= SCALE
    }

    /// Arc length is `|arc| * radius / SCALE`.
    open spec fn spec_length(&self) -> int {
        abs(self.arc as int) * self.radius / (SCALE as int)
    }

    open spec fn queryable(&self) -> bool {
        true
    }

    /// The start point, seen from the turn center, rotated by the swept
    /// angle; the pose is that rotated point relative to the start, with
    /// the swept angle as heading.
    open spec fn spec_at(&self, position: int) -> GPose {
        let sweep = circle_sweep(self.arc as int, position);
        let offset = circle_center_offset(self.radius as int, self.arc as int);
        GPose {
            x: rotate_x(sweep, 0, offset),
            y: rotate_y(sweep, 0, offset) - offset,
            heading: sweep,
        }
    }

    proof fn at_start(&self) {
        assert(abs(self.arc as int) * 0 == 0);
        vstd::arithmetic::div_mod::lemma_div_of0(SCALE as int);
        let offset = circle_center_offset(self.radius as int, self.arc as int);
        lemma_rotate_identity(0, offset);
    }

    fn length(&self) -> (r: i64) {
        let arc_mag: i64 = if self.arc < 0 {
            -self.arc
        } else {
            self.arc
        };
        proof {
            assert(0 <= arc_mag * self.radius <= 100_000_000 * 1_000_000_000_000)
                by (nonlinear_arith)
                requires
                    0 <= arc_mag <= 100_000_000,
                    0 <= self.radius <= 1_000_000_000_000,
            ;
            vstd::arithmetic::div_mod::lemma_div_pos_is_pos(arc_mag * self.radius, 1_000_000);
            vstd::arithmetic::div_mod::lemma_div_is_ordered(
                arc_mag * self.radius,
                100_000_000int * 1_000_000_000_000,
                1_000_000,
            );
        }
        (((arc_mag as i128) * (self.radius as i128)) / 1_000_000) as i64
    }

    fn at(&self, position: i64) -> (r: Result<(Vector, Rotation), PathError>) {
        if position < 0 || position > SCALE {
            return Err(PathError::OutOfRange);
        }
        let arc_mag: i64 = if self.arc < 0 {
            -self.arc
        } else {
            self.arc
        };
        proof {
            assert(0 <= arc_mag * position <= arc_mag * 1_000_000) by (nonlinear_arith)
                requires
                    0 <= position <= 1_000_000,
                    0 <= arc_mag,
            ;
            vstd::arithmetic::div_mod::lemma_div_pos_is_pos(arc_mag * position, 1_000_000);
            vstd::arithmetic::div_mod::lemma_div_is_ordered(
                arc_mag * position,
                arc_mag * 1_000_000,
                1_000_000,
            );
            vstd::arithmetic::div_mod::lemma_div_by_multiple(arc_mag as int, 1_000_000);
        }
        let sweep_mag: i64 = (((arc_mag as i128) * (position as i128)) / 1_000_000) as i64;
        let sweep: i64 = if self.arc >= 0 {
            sweep_mag
        } else {
            -sweep_mag
        };
        let offset: i64 = if self.arc >= 0 {
            -self.radius
        } else {
            self.radius
        };
        proof {
            lemma_rotate_bound(sweep as int, 0, offset as int, self.radius as int);
        }
        let rot = Rotation::new(sweep);
        let moved = rot.transform_vector(&Vector::new(0, offset));
        let pos = Vector::new(moved.x, moved.y - offset);
        Ok((pos, rot))
    }
}

/// Any one path segment: the closed set of segment shapes.
#[derive(Clone, Copy, Debug)]
pub enum Segment {
    Linear(LinearSegment),
    Circle(CircleSegment),
}

impl PathSegment for Segment {
    open spec fn wf(&self) -> bool {
        match self {
            Segment::Linear(seg) => seg.wf(),
            Segment::Circle(seg) => seg.wf(),
        }
    }

    open spec fn spec_length(&self) -> int {
        match self {
            Segment::Linear(seg) => seg.spec_length(),
            Segment::Circle(seg) => seg.spec_length(),
        }
    }

    open spec fn queryable(&self) -> bool {
        true
    }

    open spec fn spec_at(&self, position: int) -> GPose {
        match self {
            Segment::Linear(seg) => seg.spec_at(position),
            Segment::Circle(seg) => seg.spec_at(position),
        }
    }

    proof fn at_start(&self) {
        match self {
            Segment::Linear(seg) => seg.at_start(),
            Segment::Circle(seg) => seg.at_start(),
        }
    }

    fn length(&self) -> (r: i64) {
        match self {
            Segment::Linear(seg) => seg.length(),
            Segment::Circle(seg) => seg.length(),
        }
    }

    fn at(&self, position: i64) -> (r: Result<(Vector, Rotation), PathError>) {
        match self {
            Segment::Linear(seg) => seg.at(position),
            Segment::Circle(seg) => seg.at(position),
        }
    }
}

/// A straight segment's pose is proportional to the fractional
/// position: `at(p) == (p * length / SCALE, 0)` with identity heading.
pub proof fn lemma_linear_at_proportional(seg: LinearSegment, position: int)
    requires
        seg.wf(),
    ensures
        seg.spec_at(position) == (GPose {
            x: position * seg.spec_length() / (SCALE as int),
            y: 0,
            heading: 0,
        }),
{
}

/// A straight segment ends at `(length, 0)` with identity heading.
pub proof fn lemma_linear_at_end(seg: LinearSegment)
    requires
        seg.wf(),
    ensures
        seg.spec_at(SCALE as int) == (GPose { x: seg.spec_length(), y: 0, heading: 0 }),
{
    vstd::arithmetic::div_mod::lemma_div_by_multiple(seg.spec_length(), 1_000_000);
    assert(1_000_000 * seg.spec_length() == seg.spec_length() * 1_000_000);
}

/// A circular segment's heading at the end is exactly its signed arc,
/// whichever the turn direction.
pub proof fn lemma_circle_at_end_heading(seg: CircleSegment)
    requires
        seg.wf(),
    ensures
        seg.spec_at(SCALE as int).heading == seg.spec_arc(),
{
    vstd::arithmetic::div_mod::lemma_div_by_multiple(abs(seg.spec_arc()) as int, 1_000_000);
    assert(abs(seg.spec_arc()) * 1_000_000 == 1_000_000 * abs(seg.spec_arc()));
}

/// Every well-formed segment starts at the origin with identity
/// heading, whichever shape it has.
pub proof fn lemma_segment_at_start(seg: Segment)
    requires
        seg.wf(),
    ensures
        seg.spec_at(0) == origin_pose(),
{
    match seg {
        Segment::Linear(l) => {
            assert(0 as int * l.length == 0);
            vstd::arithmetic::div_mod::lemma_div_of0(SCALE as int);
        },
        Segment::Circle(c) => {
            assert(abs(c.arc as int) * 0 == 0);
            vstd::arithmetic::div_mod::lemma_div_of0(SCALE as int);
            let offset = circle_center_offset(c.radius as int, c.arc as int);
            lemma_rotate_identity(0, offset);
        },
    }
}

/// A well-formed segment's arc length lies in `[1, MAX_SEGMENT_LENGTH]`.
pub proof fn lemma_segment_length_range(seg: Segment)
    requires
        seg.wf(),
    ensures
        1 <= seg.spec_length() <= MAX_SEGMENT_LENGTH,
{
    match seg {
        Segment::Linear(_) => {
        },
        Segment::Circle(c) => {
            let m = abs(c.arc as int) as int;
            assert(m * c.radius <= 100_000_000int * 1_000_000_000_000) by (nonlinear_arith)
                requires
                    0 <= m <= 100_000_000,
                    0 <= c.radius <= 1_000_000_000_000,
            ;
            assert(seg.spec_length() >= 1) by {
                vstd::arithmetic::div_mod::lemma_div_is_ordered(1_000_000, m * c.radius, 1_000_000);
                vstd::arithmetic::div_mod::lemma_div_by_multiple(1, 1_000_000);
            };
            assert(seg.spec_length() <= MAX_SEGMENT_LENGTH) by {
                vstd::arithmetic::div_mod::lemma_div_is_ordered(
                    m * c.radius,
                    100_000_000_000_000int * 1_000_000,
                    1_000_000,
                );
                vstd::arithmetic::div_mod::lemma_div_by_multiple(100_000_000_000_000, 1_000_000);
            };
        },
    }
}

/// A well-formed segment's local poses stay within one segment span:
/// coordinates within `MAX_SEGMENT_LENGTH`, heading within `MAX_ARC`.
pub proof fn lemma_segment_at_span(seg: Segment, position: int)
    requires
        seg.wf(),
        0 <= position <= SCALE,
    ensures
        -MAX_SEGMENT_LENGTH <= seg.spec_at(position).x <= MAX_SEGMENT_LENGTH,
        -MAX_SEGMENT_LENGTH <= seg.spec_at(position).y <= MAX_SEGMENT_LENGTH,
        -MAX_ARC <= seg.spec_at(position).heading <= MAX_ARC,
{
    match seg {
        Segment::Linear(l) => {
            assert(0 <= position * l.length <= 1_000_000 * l.length) by (nonlinear_arith)
                requires
                    0 <= position <= 1_000_000,
                    0 <= l.length,
            ;
            vstd::arithmetic::div_mod::lemma_div_pos_is_pos(position * l.length, 1_000_000);
            vstd::arithmetic::div_mod::lemma_div_is_ordered(
                position * l.length,
                l.length * 1_000_000,
                1_000_000,
            );
            vstd::arithmetic::div_mod::lemma_div_by_multiple(l.length as int, 1_000_000);
        },
        Segment::Circle(c) => {
            let m = abs(c.arc as int) as int;
            let sweep = circle_sweep(c.arc as int, position);
            let offset = circle_center_offset(c.radius as int, c.arc as int);
            assert(0 <= m * position <= m * 1_000_000) by (nonlinear_arith)
                requires
                    0 <= position <= 1_000_000,
                    0 <= m,
            ;
            assert(0 <= m * position / 1_000_000 <= m) by {
                vstd::arithmetic::div_mod::lemma_div_pos_is_pos(m * position, 1_000_000);
                vstd::arithmetic::div_mod::lemma_div_is_ordered(
                    m * position,
                    m * 1_000_000,
                    1_000_000,
                );
                vstd::arithmetic::div_mod::lemma_div_by_multiple(m as int, 1_000_000);
            };
            lemma_rotate_bound(sweep, 0, offset, c.radius as int);
        },
    }
}

} // verus!
