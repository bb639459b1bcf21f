use rusty_svg::geom::{ceil_to_unit, floor_to_unit, Point, Rect, Transform, COEF_ONE, UNIT};

fn rect(min_x: i64, min_y: i64, max_x: i64, max_y: i64) -> Rect {
    Rect { min_x, min_y, max_x, max_y }
}

#[test]
fn rect_union_and_intersection() {
    let a = rect(0, 0, 10, 10);
    let b = rect(5, -5, 20, 8);
    assert_eq!(a.union(&b), rect(0, -5, 20, 10));
    assert_eq!(a.intersect(&b), rect(5, 0, 10, 8));
    assert!(!a.intersect(&b).is_empty());
}

#[test]
fn disjoint_rects_meet_in_an_empty_rect() {
    let a = rect(0, 0, 10, 10);
    let b = rect(20, 20, 30, 30);
    assert!(a.intersect(&b).is_empty());
    assert!(rect(1, 0, 0, 5).is_empty());
    assert!(!rect(0, 0, 0, 0).is_empty());
}

#[test]
fn origin_size_round_trip() {
    let r = Rect::from_origin_size(-3, 4, 10, 6);
    assert_eq!(r, rect(-3, 4, 7, 10));
    assert_eq!((r.x(), r.y(), r.width(), r.height()), (-3, 4, 10, 6));
}

#[test]
fn identity_maps_points_to_themselves() {
    let id = Transform::identity();
    let p = Point { x: -12345, y: 678 };
    assert_eq!(id.apply(p), p);
}

#[test]
fn rotation_by_a_quarter_turn() {
    let rot = Transform { a: 0, b: COEF_ONE, c: -COEF_ONE, d: 0, e: 0, f: 0 };
    assert_eq!(rot.apply(Point { x: 3, y: 5 }), Point { x: -5, y: 3 });
    let r = rot.apply_rect(&rect(0, 0, 10, 20));
    assert_eq!(r, rect(-20, 0, 0, 10));
}

#[test]
fn scaling_rounds_down() {
    let half = Transform { a: COEF_ONE / 2, b: 0, c: 0, d: COEF_ONE / 2, e: 0, f: 0 };
    assert_eq!(half.apply(Point { x: 3, y: -3 }), Point { x: 1, y: -2 });
}

#[test]
fn prepend_applies_the_local_transform_first() {
    let translate = Transform { a: COEF_ONE, b: 0, c: 0, d: COEF_ONE, e: 10, f: 0 };
    let scale = Transform { a: 2 * COEF_ONE, b: 0, c: 0, d: 2 * COEF_ONE, e: 0, f: 0 };
    let p = Point { x: 1, y: 1 };
    assert_eq!(translate.prepend(&scale).apply(p), Point { x: 12, y: 2 });
    assert_eq!(scale.prepend(&translate).apply(p), Point { x: 22, y: 2 });
    assert_eq!(translate.prepend(&scale).apply(p), translate.apply(scale.apply(p)));
}

#[test]
fn rounding_to_whole_units() {
    assert_eq!(floor_to_unit(1500), UNIT);
    assert_eq!(ceil_to_unit(1500), 2 * UNIT);
    assert_eq!(floor_to_unit(-1500), -2 * UNIT);
    assert_eq!(ceil_to_unit(-1500), -UNIT);
    assert_eq!(floor_to_unit(2000), 2000);
    assert_eq!(ceil_to_unit(2000), 2000);
}
