use table_scan::detect::{
    assign_roles, detect_quadrilateral, quadrilateral_from, select_largest, DetectionError,
};
use table_scan::geometry::{Point, Rect};
use table_scan::polygon::Poly;
use table_scan::rectify::{plan_rectification, rounded_root, RectifyError};

fn pt(x: i32, y: i32) -> Point {
    Point { x, y }
}

fn upright(x: i32, y: i32, w: i32, h: i32) -> Poly {
    Poly(vec![pt(x, y), pt(x + w, y), pt(x + w, y + h), pt(x, y + h)])
}

#[test]
fn no_contour_gives_no_quadrilateral() {
    let none: Vec<Option<Poly>> = Vec::new();
    assert_eq!(detect_quadrilateral(&none).err(), Some(DetectionError::NoQuadrilateralFound));
    assert!(select_largest(&none).is_none());
}

#[test]
fn contours_that_are_no_quadrilaterals_give_none() {
    let candidates = vec![
        None,
        Some(Poly(vec![pt(0, 0), pt(40, 0), pt(0, 30)])),
        Some(Poly(vec![pt(0, 0), pt(40, 0), pt(50, 20), pt(40, 40), pt(0, 40)])),
        Some(Poly(vec![pt(7, 7), pt(7, 7), pt(7, 7), pt(7, 7)])),
        Some(Poly(vec![pt(0, 0), pt(1, 0), pt(1, 1), pt(0, 1)])),
        Some(Poly(vec![pt(0, 0), pt(10, 10), pt(30, 30), pt(40, 40)])),
    ];
    assert_eq!(
        detect_quadrilateral(&candidates).err(),
        Some(DetectionError::NoQuadrilateralFound)
    );
}

#[test]
fn the_largest_quadrilateral_is_taken() {
    let candidates = vec![
        Some(upright(0, 0, 20, 20)),
        None,
        Some(upright(10, 10, 300, 200)),
        Some(Poly(vec![pt(0, 0), pt(900, 0), pt(0, 900)])),
        Some(upright(5, 5, 100, 100)),
    ];
    let (place, quad) = select_largest(&candidates).unwrap();
    assert_eq!(place, 2);
    let expected = Rect {
        top_left: pt(10, 10),
        top_right: pt(310, 10),
        bottom_right: pt(310, 210),
        bottom_left: pt(10, 210),
    };
    assert_eq!(quad, expected);
    assert_eq!(detect_quadrilateral(&candidates), Ok(expected));
}

#[test]
fn of_two_largest_the_last_is_taken() {
    let candidates = vec![
        Some(upright(0, 0, 40, 30)),
        Some(upright(100, 100, 30, 40)),
        Some(upright(0, 0, 10, 10)),
    ];
    let (place, quad) = select_largest(&candidates).unwrap();
    assert_eq!(place, 1);
    assert_eq!(quad.top_left, pt(100, 100));
}

#[test]
fn roles_follow_the_fixed_places() {
    let ordered = Poly(vec![pt(1, 1), pt(2, 2), pt(3, 3), pt(4, 4)]);
    let quad = assign_roles(&ordered).unwrap();
    assert_eq!(quad.top_left, pt(3, 3));
    assert_eq!(quad.top_right, pt(4, 4));
    assert_eq!(quad.bottom_right, pt(1, 1));
    assert_eq!(quad.bottom_left, pt(2, 2));
}

#[test]
fn roles_need_four_vertices() {
    assert!(assign_roles(&Poly(vec![pt(1, 1), pt(2, 2), pt(3, 3)])).is_none());
    assert!(assign_roles(&Poly(vec![])).is_none());
    assert!(assign_roles(&Poly(vec![pt(1, 1), pt(2, 2), pt(3, 3), pt(4, 4), pt(5, 5)])).is_none());
}

#[test]
fn a_missing_candidate_gives_no_quadrilateral() {
    assert!(quadrilateral_from(&None).is_none());
    assert!(quadrilateral_from(&Some(upright(0, 0, 8, 8))).is_some());
}

#[test]
fn rounded_roots() {
    assert_eq!(rounded_root(0), 0);
    assert_eq!(rounded_root(1), 1);
    assert_eq!(rounded_root(2), 1);
    assert_eq!(rounded_root(3), 2);
    assert_eq!(rounded_root(4), 2);
    assert_eq!(rounded_root(6), 2);
    assert_eq!(rounded_root(7), 3);
    assert_eq!(rounded_root(12), 3);
    assert_eq!(rounded_root(13), 4);
    assert_eq!(rounded_root(90000), 300);
    assert_eq!(rounded_root(90300), 300);
    assert_eq!(rounded_root(90301), 301);
    assert_eq!(rounded_root(u128::MAX), 1u128 << 64);
}

#[test]
fn white_rectangle_on_black() {
    let candidates = vec![Some(upright(10, 10, 300, 200))];
    let area = candidates[0].as_ref().unwrap().doubled_area();
    assert!(area * 100 >= 2 * 300 * 200 * 99 && area * 100 <= 2 * 300 * 200 * 101);
    let quad = detect_quadrilateral(&candidates).unwrap();
    let plan = plan_rectification(&quad).unwrap();
    assert_eq!(plan.width, 300);
    assert_eq!(plan.height, 200);
    assert_eq!(plan.width_squared, 90000);
    assert_eq!(plan.height_squared, 40000);
    assert_eq!(plan.source, vec![pt(310, 10), pt(10, 10), pt(10, 210), pt(310, 210)]);
}

#[test]
fn upright_rectangle_keeps_its_size() {
    let quad = Rect {
        top_left: pt(-5, 3),
        top_right: pt(12, 3),
        bottom_right: pt(12, 4),
        bottom_left: pt(-5, 4),
    };
    let plan = plan_rectification(&quad).unwrap();
    assert_eq!((plan.width, plan.height), (17, 1));
}

#[test]
fn slanted_quadrilateral_takes_its_longer_edges() {
    let quad = Rect {
        top_left: pt(0, 0),
        top_right: pt(30, 40),
        bottom_right: pt(40, 140),
        bottom_left: pt(0, 100),
    };
    let plan = plan_rectification(&quad).unwrap();
    // top: 30^2 + 40^2, bottom: 40^2 + 40^2; left: 100^2, right: 10^2 + 100^2.
    assert_eq!(plan.width_squared, 3200);
    assert_eq!(plan.height_squared, 10100);
    assert_eq!(plan.width, 57);
    assert_eq!(plan.height, 100);
}

#[test]
fn corners_on_a_line_cannot_be_flattened() {
    let quad = Rect {
        top_left: pt(0, 0),
        top_right: pt(10, 0),
        bottom_right: pt(20, 0),
        bottom_left: pt(5, 9),
    };
    assert!(quad.is_degenerate());
    assert_eq!(plan_rectification(&quad).err(), Some(RectifyError::SingularTransform));
}

#[test]
fn doubled_corners_cannot_be_flattened() {
    let quad = Rect {
        top_left: pt(0, 0),
        top_right: pt(10, 0),
        bottom_right: pt(10, 10),
        bottom_left: pt(0, 0),
    };
    assert_eq!(plan_rectification(&quad).err(), Some(RectifyError::SingularTransform));
}

#[test]
fn a_proper_quadrilateral_is_not_degenerate() {
    let quad = Rect {
        top_left: pt(i32::MIN, i32::MIN),
        top_right: pt(i32::MAX, i32::MIN),
        bottom_right: pt(i32::MAX, i32::MAX),
        bottom_left: pt(i32::MIN, i32::MAX),
    };
    assert!(!quad.is_degenerate());
    let plan = plan_rectification(&quad).unwrap();
    assert_eq!(plan.width, (1u64 << 32) - 1);
    assert_eq!(plan.height, (1u64 << 32) - 1);
}

#[test]
fn corners_on_one_line_span_no_area() {
    let flat = Rect {
        top_left: pt(0, 0),
        top_right: pt(10, 10),
        bottom_right: pt(30, 30),
        bottom_left: pt(40, 40),
    };
    assert!(!flat.is_well_formed());
    let bent = Rect {
        top_left: pt(0, 0),
        top_right: pt(10, 0),
        bottom_right: pt(20, 0),
        bottom_left: pt(5, 9),
    };
    assert!(bent.is_well_formed());
    assert!(bent.is_degenerate());
}
