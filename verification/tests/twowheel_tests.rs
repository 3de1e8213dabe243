use rabid::geometry::Vector;
use rabid::path::{PathSegment, CircleSegment};
use rabid::twowheel::TwoWheelRobot;

fn equal_eps(a: &Vector, b: &Vector, e: f64) -> bool {
    let dx = (a.x - b.x) as f64 / 1e6;
    let dy = (a.y - b.y) as f64 / 1e6;
    (dx * dx + dy * dy).sqrt() <= e
}

#[test]
fn points_for_path() {
    let wheelbase = 23_500_000;
    let radius = 100_000_000;
    let robot = TwoWheelRobot { wheelbase, wheeldiameter: 10_000_000 };
    let full_turn = (std::f64::consts::PI * 2.0 * 1e6) as i64;
    let path = CircleSegment::new(radius, full_turn).unwrap();
    let left_offset = Vector::new(0, -wheelbase / 2);
    let right_offset = Vector::new(0, wheelbase / 2);

    let positions = robot.wheel_position_at(&path, 0).unwrap();
    assert!(equal_eps(&positions.left, &left_offset, 0.01));
    assert!(equal_eps(&positions.right, &right_offset, 0.01));

    // Turned one half circle up means the robot base sits at
    // (0, diameter), and the wheels are opposite from that.
    let base = Vector::new(0, radius * 2);
    let expected_left = Vector::new(base.x + right_offset.x, base.y + right_offset.y);
    let expected_right = Vector::new(base.x + left_offset.x, base.y + left_offset.y);
    let positions = robot.wheel_position_at(&path, 500_000).unwrap();
    assert!(equal_eps(&positions.left, &expected_left, 0.01));
    assert!(equal_eps(&positions.right, &expected_right, 0.01));
}

#[test]
fn wheels_straddle_the_base_pose() {
    let robot = TwoWheelRobot { wheelbase: 23_500_000, wheeldiameter: 10_000_000 };
    let full_turn = (std::f64::consts::PI * 2.0 * 1e6) as i64;
    let path = CircleSegment::new(100_000_000, full_turn).unwrap();
    let mut p: i64 = 0;
    while p <= 1_000_000 {
        let (base, _) = path.at(p).unwrap();
        let wheels = robot.wheel_position_at(&path, p).unwrap();
        assert_eq!(wheels.left.x + wheels.right.x, 2 * base.x);
        assert_eq!(wheels.left.y + wheels.right.y, 2 * base.y);
        p += 100_000;
    }
}
