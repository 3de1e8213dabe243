use rabid::geometry::{Vector, Rotation};
use rabid::path::{PathSegment, LinearSegment, CircleSegment, Segment, PathError};
use rabid::compound::CompoundPath;

/// One unit in micro-units.
const UNIT: i64 = 1_000_000;

fn equal_eps(a: &Vector, b: &Vector, e: f64) -> bool {
    let dx = (a.x - b.x) as f64 / 1e6;
    let dy = (a.y - b.y) as f64 / 1e6;
    (dx * dx + dy * dy).sqrt() <= e
}

fn quarter_turn() -> i64 {
    (std::f64::consts::PI / 2.0 * 1e6) as i64
}

#[test]
fn linear_segment_length() {
    let segment = LinearSegment::new(10 * UNIT).unwrap();
    assert_eq!(segment.length(), 10 * UNIT);
}

#[test]
fn linear_segment_at() {
    let length = 10 * UNIT;
    let segment = LinearSegment::new(length).unwrap();
    let beginning = (Vector::new(0, 0), Rotation::new(0));
    let end = (Vector::new(length, 0), Rotation::new(0));

    assert_eq!(segment.at(0).unwrap(), beginning);
    assert_eq!(segment.at(UNIT).unwrap(), end);
}

#[test]
fn linear_segment_at_is_proportional() {
    let segment = LinearSegment::new(10 * UNIT).unwrap();
    let (pos, rot) = segment.at(250_000).unwrap();
    assert_eq!(pos, Vector::new(2_500_000, 0));
    assert_eq!(rot, Rotation::new(0));
}

#[test]
fn circle_segment_length() {
    let radius = 4 * UNIT;
    let arc = quarter_turn();
    let segment = CircleSegment::new(radius, arc).unwrap(); // 90 deg left turn
    assert_eq!(segment.length(), arc * 4);

    let segment = CircleSegment::new(radius, -arc).unwrap(); // 90 deg right(!) turn
    assert_eq!(segment.length(), arc * 4);
}

#[test]
fn circle_segment_at() {
    let radius = 4 * UNIT;
    let arc = quarter_turn();
    let segment = CircleSegment::new(radius, arc).unwrap(); // 90 deg left turn
    let (pos, rot) = segment.at(UNIT).unwrap();
    assert!(equal_eps(&pos, &Vector::new(radius, radius), 0.0001));
    assert_eq!(Rotation::new(arc), rot);

    let segment = CircleSegment::new(radius, -arc).unwrap(); // 90 deg right(!) turn
    let (pos, rot) = segment.at(UNIT).unwrap();
    assert!(equal_eps(&pos, &Vector::new(radius, -radius), 0.0001));
    assert_eq!(Rotation::new(-arc), rot);
}

#[test]
fn compound_path_length() {
    // This is how the path looks:
    //
    //              +   <- (14, 5), (pi/2)
    //              |
    //              +   <- (14, 4), (pi/2)
    //              |
    //              /
    // +--------++-/

    let radius = 4 * UNIT;
    let arc = quarter_turn();
    let straight = LinearSegment::new(10 * UNIT).unwrap();
    let curve = CircleSegment::new(radius, arc).unwrap();
    let straight2 = LinearSegment::new(UNIT).unwrap();
    let total = straight.length() + curve.length() + straight2.length();
    let mut compound_path = CompoundPath::new();
    compound_path.push(Segment::Linear(straight));
    compound_path.push(Segment::Circle(curve));
    compound_path.push(Segment::Linear(straight2));
    assert_eq!(total, compound_path.length());
    let (pos, rot) = compound_path.at(UNIT).unwrap();
    assert!(equal_eps(&Vector::new(14 * UNIT, 5 * UNIT), &pos, 0.0001));
    assert_eq!(Rotation::new(arc), rot);
}

#[test]
fn compound_path_starts_at_origin() {
    let mut path = CompoundPath::new();
    path.push(Segment::Linear(LinearSegment::new(3 * UNIT).unwrap()));
    path.push(Segment::Circle(CircleSegment::new(2 * UNIT, -quarter_turn()).unwrap()));
    let (pos, rot) = path.at(0).unwrap();
    assert_eq!(pos, Vector::new(0, 0));
    assert_eq!(rot, Rotation::new(0));
}

#[test]
fn compound_path_rejects_out_of_range() {
    let mut path = CompoundPath::new();
    path.push(Segment::Linear(LinearSegment::new(UNIT).unwrap()));
    assert_eq!(path.at(-1), Err(PathError::OutOfRange));
    assert_eq!(path.at(UNIT + 1), Err(PathError::OutOfRange));
}

#[test]
fn empty_compound_path_rejects_queries() {
    let path = CompoundPath::new();
    assert_eq!(path.at(0), Err(PathError::OutOfRange));
    assert_eq!(path.length(), 0);
}

#[test]
fn segment_rejects_out_of_range() {
    let straight = LinearSegment::new(UNIT).unwrap();
    assert_eq!(straight.at(-1), Err(PathError::OutOfRange));
    assert_eq!(straight.at(UNIT + 1), Err(PathError::OutOfRange));
    let curve = CircleSegment::new(UNIT, quarter_turn()).unwrap();
    assert_eq!(curve.at(-1), Err(PathError::OutOfRange));
    assert_eq!(curve.at(UNIT + 1), Err(PathError::OutOfRange));
}

#[test]
fn degenerate_segments_are_rejected() {
    assert_eq!(LinearSegment::new(0).unwrap_err(), PathError::DegeneratePath);
    assert_eq!(LinearSegment::new(-UNIT).unwrap_err(), PathError::DegeneratePath);
    assert_eq!(CircleSegment::new(0, quarter_turn()).unwrap_err(), PathError::DegeneratePath);
    assert_eq!(CircleSegment::new(UNIT, 0).unwrap_err(), PathError::DegeneratePath);
    assert_eq!(CircleSegment::new(-UNIT, quarter_turn()).unwrap_err(), PathError::DegeneratePath);
}

#[test]
fn compound_path_reports_relative_starts() {
    let mut path = CompoundPath::new();
    path.push(Segment::Linear(LinearSegment::new(UNIT).unwrap()));
    path.push(Segment::Linear(LinearSegment::new(3 * UNIT).unwrap()));
    assert_eq!(path.relative_start(0), Some(0));
    assert_eq!(path.relative_start(1), Some(250_000));
    assert_eq!(path.relative_start(2), None);
}

#[test]
fn compound_path_reports_relative_lengths() {
    let mut path = CompoundPath::new();
    path.push(Segment::Linear(LinearSegment::new(UNIT).unwrap()));
    path.push(Segment::Linear(LinearSegment::new(3 * UNIT).unwrap()));
    assert_eq!(path.relative_length(0), Some(250_000));
    assert_eq!(path.relative_length(1), Some(750_000));
    assert_eq!(path.relative_length(2), None);
}
