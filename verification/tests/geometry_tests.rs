use table_scan::angle::angle_at_most;
use table_scan::geometry::{Geometry, Line, Point, Rect};
use std::cmp::Ordering;
use table_scan::polygon::{GeometryError, Poly};

fn pt(x: i32, y: i32) -> Point {
    Point { x, y }
}

fn sample_rect() -> Rect {
    Rect {
        top_left: pt(10, 10),
        top_right: pt(310, 10),
        bottom_right: pt(310, 210),
        bottom_left: pt(10, 210),
    }
}

#[test]
fn edges_join_the_corners_in_turn() {
    let r = sample_rect();
    assert_eq!(r.top(), Line { p1: pt(10, 10), p2: pt(310, 10) });
    assert_eq!(r.right(), Line { p1: pt(310, 10), p2: pt(310, 210) });
    assert_eq!(r.bottom(), Line { p1: pt(310, 210), p2: pt(10, 210) });
    assert_eq!(r.left(), Line { p1: pt(10, 210), p2: pt(10, 10) });
}

#[test]
fn corners_come_top_right_first() {
    let r = sample_rect();
    assert_eq!(r.corners(), vec![pt(310, 10), pt(10, 10), pt(10, 210), pt(310, 210)]);
}

#[test]
fn squared_length_of_a_point() {
    assert_eq!(pt(3, 4).length_squared(), 25);
    assert_eq!(pt(-3, -4).length_squared(), 25);
    assert_eq!(pt(0, 0).length_squared(), 0);
    assert_eq!(pt(i32::MIN, i32::MIN).length_squared(), 2 * (1u128 << 62));
}

#[test]
fn squared_length_of_a_line() {
    let l = Line { p1: pt(1, 2), p2: pt(4, 6) };
    assert_eq!(l.length_squared(), 25);
    let far = Line { p1: pt(i32::MIN, i32::MIN), p2: pt(i32::MAX, i32::MAX) };
    let side: u128 = (1u128 << 32) - 1;
    assert_eq!(far.length_squared(), 2 * side * side);
}

#[test]
fn centroid_is_the_mean_of_the_vertices() {
    let p = Poly(vec![pt(10, 10), pt(310, 10), pt(310, 210), pt(10, 210)]);
    assert_eq!(p.centroid(), Some(pt(160, 110)));
}

#[test]
fn centroid_rounds_towards_zero() {
    let p = Poly(vec![pt(-1, 1), pt(0, 0)]);
    assert_eq!(p.centroid(), Some(pt(0, 0)));
    let q = Poly(vec![pt(-3, 3), pt(0, 0)]);
    assert_eq!(q.centroid(), Some(pt(-1, 1)));
}

#[test]
fn centroid_of_extreme_points() {
    let p = Poly(vec![pt(i32::MAX, i32::MIN), pt(i32::MAX, i32::MIN), pt(i32::MAX, i32::MIN)]);
    assert_eq!(p.centroid(), Some(pt(i32::MAX, i32::MIN)));
}

#[test]
fn centroid_of_nothing_is_none() {
    assert_eq!(Poly(vec![]).centroid(), None);
}

#[test]
fn angle_grows_from_up_to_down() {
    // (0, 1) points along the positive y axis: angle 0.
    assert!(angle_at_most(0, 1, 1, 1));
    assert!(!angle_at_most(1, 1, 0, 1));
    // (1, 0) and (-1, 0) both stand at a right angle.
    assert!(angle_at_most(1, 0, -1, 0));
    assert!(angle_at_most(-1, 0, 1, 0));
    // (0, -1) is the largest angle.
    assert!(angle_at_most(1, -1, 0, -1));
    assert!(!angle_at_most(0, -1, 1, -1));
    assert!(angle_at_most(5, 0, 3, -1));
    assert!(!angle_at_most(3, -1, 5, 0));
}

#[test]
fn angle_does_not_depend_on_length() {
    assert!(angle_at_most(3, 4, 6, 8));
    assert!(angle_at_most(6, 8, 3, 4));
    assert!(angle_at_most(-3, -4, -6, -8));
    assert!(angle_at_most(-6, -8, -3, -4));
}

#[test]
fn angle_of_steep_vectors_is_told_apart() {
    // 4/5 = 0.8 against 12/13 = 0.923...: the second is nearer the axis.
    assert!(angle_at_most(5, 12, 3, 4));
    assert!(!angle_at_most(3, 4, 5, 12));
    assert!(angle_at_most(3, -4, 5, -12));
    assert!(!angle_at_most(5, -12, 3, -4));
}

#[test]
fn zero_vector_comes_first() {
    assert!(angle_at_most(0, 0, 0, 1));
    assert!(!angle_at_most(0, 1, 0, 0));
    assert!(!angle_at_most(0, -1, 0, 0));
    assert!(angle_at_most(0, 0, 0, 0));
}

#[test]
fn angle_of_the_longest_vectors() {
    assert!(angle_at_most(i64::MIN, i64::MAX, i64::MAX, i64::MIN));
    assert!(!angle_at_most(i64::MAX, i64::MIN, i64::MIN, i64::MAX));
    assert!(angle_at_most(i64::MIN, i64::MIN, 1, i64::MIN));
    assert!(!angle_at_most(1, i64::MIN, i64::MIN, i64::MIN));
}

#[test]
fn angle_at_the_limits() {
    let m: i64 = 0xffff_ffff;
    assert!(angle_at_most(m, m, m, -m));
    assert!(!angle_at_most(m, -m, m, m));
    assert!(angle_at_most(1, m, m, m));
    assert!(!angle_at_most(m, m, 1, m));
    assert!(angle_at_most(-m, -1, -1, -m));
    assert!(!angle_at_most(-1, -m, -m, -1));
}

#[test]
fn order_puts_lower_vertices_first() {
    let p = Poly(vec![pt(10, 10), pt(310, 10), pt(310, 210), pt(10, 210)]);
    let q = p.order().unwrap();
    assert_eq!(q.0, vec![pt(310, 210), pt(10, 210), pt(10, 10), pt(310, 10)]);
}

#[test]
fn order_sorts_by_angle() {
    // Around (0, 0): up, right and left at a right angle, down.
    let p = Poly(vec![pt(0, -4), pt(-4, 0), pt(0, 4), pt(4, 0)]);
    let q = p.order().unwrap();
    assert_eq!(q.0, vec![pt(0, 4), pt(-4, 0), pt(4, 0), pt(0, -4)]);
}

#[test]
fn order_twice_is_order_once() {
    let p = Poly(vec![pt(12, 7), pt(301, 15), pt(290, 220), pt(5, 190)]);
    let once = p.order().unwrap();
    let twice = once.order().unwrap();
    assert_eq!(once.0, twice.0);
    assert_eq!(once.0.len(), 4);
}

#[test]
fn order_leaves_out_a_vertex_on_the_centroid() {
    let p = Poly(vec![pt(0, 0), pt(1, 0), pt(1, 1), pt(0, 1)]);
    assert_eq!(p.centroid(), Some(pt(0, 0)));
    let q = p.order().unwrap();
    assert_eq!(q.0, vec![pt(0, 1), pt(1, 1), pt(1, 0)]);
}

#[test]
fn order_fails_on_a_single_point() {
    let p = Poly(vec![pt(5, 5), pt(5, 5), pt(5, 5), pt(5, 5)]);
    assert_eq!(p.order().err(), Some(GeometryError::DegeneratePolygon));
}

#[test]
fn order_fails_on_no_vertex() {
    assert_eq!(Poly(vec![]).order().err(), Some(GeometryError::DegeneratePolygon));
}

#[test]
fn doubled_area_of_a_rectangle() {
    let p = Poly(vec![pt(10, 10), pt(310, 10), pt(310, 210), pt(10, 210)]);
    assert_eq!(p.doubled_area(), 2 * 300 * 200);
    let back = Poly(vec![pt(10, 210), pt(310, 210), pt(310, 10), pt(10, 10)]);
    assert_eq!(back.doubled_area(), 2 * 300 * 200);
}

#[test]
fn doubled_area_of_a_triangle() {
    let p = Poly(vec![pt(0, 0), pt(4, 0), pt(0, 3)]);
    assert_eq!(p.doubled_area(), 12);
}

#[test]
fn doubled_area_of_little() {
    assert_eq!(Poly(vec![]).doubled_area(), 0);
    assert_eq!(Poly(vec![pt(3, 3)]).doubled_area(), 0);
    assert_eq!(Poly(vec![pt(3, 3), pt(9, 1)]).doubled_area(), 0);
}

#[test]
fn doubled_area_at_the_limits() {
    let p = Poly(vec![
        pt(i32::MIN, i32::MIN),
        pt(i32::MAX, i32::MIN),
        pt(i32::MAX, i32::MAX),
        pt(i32::MIN, i32::MAX),
    ]);
    let side: u128 = (1u128 << 32) - 1;
    assert_eq!(p.doubled_area(), 2 * side * side);
}

#[test]
fn order_after_a_vertex_was_left_out_may_differ() {
    // The centroid (-1, -2) is a vertex: three vertices are left, and their
    // centroid is another.
    let p = Poly(vec![pt(-3, -3), pt(-3, -2), pt(-1, -2), pt(0, -3)]);
    assert_eq!(p.centroid(), Some(pt(-1, -2)));
    let once = p.order().unwrap();
    assert_eq!(once.0, vec![pt(-3, -2), pt(-3, -3), pt(0, -3)]);
    assert_eq!(once.centroid(), Some(pt(-2, -2)));
    let twice = once.order().unwrap();
    assert_eq!(twice.0, vec![pt(-3, -2), pt(0, -3), pt(-3, -3)]);
}

#[test]
fn order_keeps_vertices_at_one_angle_as_they_stand() {
    // Seen from (0, 0), (2, 2) and (-3, 3) stand at the same angle, and so
    // do (3, -3) and (-2, -2).
    let p = Poly(vec![pt(3, -3), pt(2, 2), pt(-2, -2), pt(-3, 3)]);
    assert_eq!(p.centroid(), Some(pt(0, 0)));
    assert_eq!(p.order().unwrap().0, vec![pt(2, 2), pt(-3, 3), pt(3, -3), pt(-2, -2)]);
}

#[test]
fn polygons_compare_by_area() {
    let small = Poly(vec![pt(0, 0), pt(4, 0), pt(0, 3)]);
    let large = Poly(vec![pt(0, 0), pt(10, 0), pt(10, 10), pt(0, 10)]);
    let other = Poly(vec![pt(5, 5), pt(8, 5), pt(5, 9)]);
    assert!(small == other);
    assert!(small != large);
    assert!(small < large);
    assert!(large > other);
    assert!(small <= other && small >= other);
    assert_eq!(small.partial_cmp(&large), Some(Ordering::Less));
    assert_eq!(large.partial_cmp(&small), Some(Ordering::Greater));
    assert_eq!(small.partial_cmp(&other), Some(Ordering::Equal));
}
