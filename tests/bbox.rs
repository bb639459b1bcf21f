use rusty_svg::geom::{Rect, Transform, COEF_ONE, UNIT};
use rusty_svg::path::PathSegment;
use rusty_svg::scene::{Fill, LineCap, Node, NodeKind, SceneTree, Stroke};

fn rect(min_x: i64, min_y: i64, max_x: i64, max_y: i64) -> Rect {
    Rect { min_x, min_y, max_x, max_y }
}

fn u(v: i64) -> i64 {
    v * UNIT
}

fn node(kind: NodeKind, children: Vec<usize>) -> Node {
    Node { kind, transform: Transform::identity(), children }
}

fn rect_segments(x0: i64, y0: i64, x1: i64, y1: i64) -> Vec<PathSegment<i64>> {
    vec![
        PathSegment::MoveTo { x: x0, y: y0 },
        PathSegment::LineTo { x: x1, y: y0 },
        PathSegment::LineTo { x: x1, y: y1 },
        PathSegment::LineTo { x: x0, y: y1 },
        PathSegment::ClosePath,
    ]
}

fn filled(segments: Vec<PathSegment<i64>>, opacity: u8) -> Node {
    node(NodeKind::Path { segments, fill: Some(Fill { opacity }), stroke: None }, vec![])
}

fn root(children: Vec<usize>) -> Node {
    node(NodeKind::Root, children)
}

fn group(children: Vec<usize>) -> Node {
    node(NodeKind::Group { clip_path: None, mask: None }, children)
}

fn scene(nodes: Vec<Node>) -> SceneTree {
    SceneTree { nodes, view_box: rect(0, 0, u(200), u(100)) }
}

#[test]
fn filled_rectangle_bbox_is_its_coordinates() {
    let t = scene(vec![root(vec![1]), filled(rect_segments(u(10), u(20), u(110), u(70)), 255)]);
    assert_eq!(t.raw_content_bbox(), rect(u(10), u(20), u(110), u(70)));
}

#[test]
fn empty_scene_gives_zero_rect() {
    let t = scene(vec![root(vec![])]);
    assert_eq!(t.raw_content_bbox(), rect(0, 0, 0, 0));
    assert_eq!(t.document_visible_bbox(), rect(0, 0, 0, 0));
}

#[test]
fn group_bbox_is_union_in_either_order() {
    let a = filled(rect_segments(u(0), u(0), u(10), u(10)), 255);
    let b = filled(rect_segments(u(50), u(-5), u(60), u(5)), 255);
    let t1 = scene(vec![root(vec![1]), group(vec![2, 3]), a.clone(), b.clone()]);
    let t2 = scene(vec![root(vec![1]), group(vec![3, 2]), a, b]);
    let expected = rect(u(0), u(-5), u(60), u(10));
    assert_eq!(t1.raw_content_bbox(), expected);
    assert_eq!(t2.raw_content_bbox(), expected);
}

#[test]
fn visible_bbox_stays_in_view_box_and_is_rounded_out() {
    let t = scene(vec![
        root(vec![1, 2]),
        filled(rect_segments(1500, 2500, 3400, 4100), 255),
        filled(rect_segments(u(150), u(50), u(400), u(90)), 255),
    ]);
    assert_eq!(t.raw_content_bbox(), rect(1500, 2500, u(400), u(90)));
    assert_eq!(t.document_visible_bbox(), rect(u(1), u(2), u(200), u(90)));
}

#[test]
fn invisible_path_does_not_count() {
    let shown = filled(rect_segments(u(10), u(10), u(20), u(20)), 255);
    let hidden = filled(rect_segments(u(0), u(0), u(150), u(80)), 0);
    let with_hidden = scene(vec![root(vec![1, 2]), shown.clone(), hidden.clone()]);
    let without = scene(vec![root(vec![1]), shown, hidden]);
    assert_eq!(with_hidden.raw_content_bbox(), without.raw_content_bbox());
    assert_eq!(with_hidden.document_visible_bbox(), without.document_visible_bbox());
    assert_eq!(with_hidden.raw_content_bbox(), rect(u(10), u(10), u(20), u(20)));
}

#[test]
fn stroke_grows_the_bbox() {
    let segs = rect_segments(u(10), u(10), u(20), u(20));
    let plain = scene(vec![root(vec![1]), filled(segs.clone(), 255)]);
    let stroke = Stroke {
        width: u(4),
        line_cap: LineCap::Butt,
        opacity: 255,
        outline: Some(rect(u(8), u(8), u(22), u(22))),
    };
    let stroked = scene(vec![
        root(vec![1]),
        node(NodeKind::Path { segments: segs, fill: Some(Fill { opacity: 255 }), stroke: Some(stroke) }, vec![]),
    ]);
    assert_eq!(plain.raw_content_bbox(), rect(u(10), u(10), u(20), u(20)));
    assert_eq!(stroked.raw_content_bbox(), rect(u(8), u(8), u(22), u(22)));
}

#[test]
fn stroke_only_path_is_visible() {
    let stroke = Stroke { width: u(2), line_cap: LineCap::Round, opacity: 128, outline: Some(rect(u(4), u(4), u(16), u(6))) };
    let t = scene(vec![
        root(vec![1]),
        node(
            NodeKind::Path { segments: vec![PathSegment::MoveTo { x: u(5), y: u(5) }, PathSegment::LineTo { x: u(15), y: u(5) }], fill: None, stroke: Some(stroke) },
            vec![],
        ),
    ]);
    assert_eq!(t.raw_content_bbox(), rect(u(4), u(4), u(16), u(6)));
}

#[test]
fn clipped_group_matches_clip_region() {
    // The stroked shape is wider than the clip rectangle, which lies inside the canvas.
    let stroke = Stroke { width: u(10), line_cap: LineCap::Square, opacity: 255, outline: Some(rect(u(-5), u(15), u(205), u(65))) };
    let t = scene(vec![
        root(vec![1]),
        node(NodeKind::Group { clip_path: Some(3), mask: None }, vec![2]),
        node(NodeKind::Path { segments: rect_segments(u(0), u(20), u(200), u(60)), fill: None, stroke: Some(stroke) }, vec![]),
        node(NodeKind::ClipPath, vec![4]),
        filled(rect_segments(u(40), u(30), u(155), u(55)), 255),
    ]);
    let b = t.document_visible_bbox();
    assert_eq!(b, rect(u(40), u(30), u(155), u(55)));
    assert_eq!((b.width(), b.height()), (u(115), u(25)));
}

#[test]
fn clip_reference_cycle_fails_open() {
    // The clip path's own shape is a group clipped by that same clip path.
    let t = scene(vec![
        root(vec![1]),
        node(NodeKind::Group { clip_path: Some(3), mask: None }, vec![2]),
        filled(rect_segments(u(0), u(0), u(100), u(50)), 255),
        node(NodeKind::ClipPath, vec![4]),
        node(NodeKind::Group { clip_path: Some(3), mask: None }, vec![5]),
        filled(rect_segments(u(10), u(10), u(20), u(20)), 255),
    ]);
    assert_eq!(t.raw_content_bbox(), rect(u(10), u(10), u(20), u(20)));
}

#[test]
fn mask_clips_when_no_clip_path_resolves() {
    let t = scene(vec![
        root(vec![1]),
        node(NodeKind::Group { clip_path: Some(99), mask: Some(3) }, vec![2]),
        filled(rect_segments(u(0), u(0), u(100), u(50)), 255),
        node(NodeKind::Mask, vec![4]),
        filled(rect_segments(u(60), u(40), u(120), u(80)), 255),
    ]);
    assert_eq!(t.raw_content_bbox(), rect(u(60), u(40), u(100), u(50)));
}

#[test]
fn reference_to_wrong_kind_is_ignored() {
    let t = scene(vec![
        root(vec![1]),
        node(NodeKind::Group { clip_path: Some(2), mask: None }, vec![2]),
        filled(rect_segments(u(0), u(0), u(100), u(50)), 255),
    ]);
    assert_eq!(t.raw_content_bbox(), rect(u(0), u(0), u(100), u(50)));
}

#[test]
fn clip_that_misses_hides_the_group() {
    let t = scene(vec![
        root(vec![1]),
        node(NodeKind::Group { clip_path: Some(3), mask: None }, vec![2]),
        filled(rect_segments(u(0), u(0), u(10), u(10)), 255),
        node(NodeKind::ClipPath, vec![4]),
        filled(rect_segments(u(50), u(50), u(60), u(60)), 255),
    ]);
    assert_eq!(t.raw_content_bbox(), rect(0, 0, 0, 0));
}

#[test]
fn rotated_image_uses_all_four_corners() {
    let mut img = node(NodeKind::Image { view: rect(0, 0, u(10), u(20)) }, vec![]);
    img.transform = Transform { a: 0, b: COEF_ONE, c: -COEF_ONE, d: 0, e: u(50), f: 0 };
    let t = scene(vec![root(vec![1]), img]);
    assert_eq!(t.raw_content_bbox(), rect(u(30), u(0), u(50), u(10)));
}

#[test]
fn transforms_compose_down_the_tree() {
    let mut g = group(vec![2]);
    g.transform = Transform { a: COEF_ONE, b: 0, c: 0, d: COEF_ONE, e: u(5), f: u(7) };
    let mut p = filled(rect_segments(u(1), u(1), u(2), u(3)), 255);
    p.transform = Transform { a: 2 * COEF_ONE, b: 0, c: 0, d: 2 * COEF_ONE, e: 0, f: 0 };
    let t = scene(vec![root(vec![1]), g, p]);
    assert_eq!(t.raw_content_bbox(), rect(u(7), u(9), u(9), u(13)));
}

#[test]
fn curve_bbox_is_its_exact_extent() {
    let segs = vec![
        PathSegment::MoveTo { x: u(0), y: u(0) },
        PathSegment::CurveTo { x1: u(0), y1: u(30), x2: u(40), y2: u(30), x: u(40), y: u(0) },
    ];
    let t = scene(vec![root(vec![1]), filled(segs, 200)]);
    assert_eq!(t.raw_content_bbox(), rect(u(0), u(0), u(40), 22500));
}

#[test]
fn symmetric_arch_tops_out_at_three_quarters() {
    let segs = vec![
        PathSegment::MoveTo { x: 0, y: 0 },
        PathSegment::CurveTo { x1: 0, y1: u(10), x2: u(10), y2: u(10), x: u(10), y: 0 },
        PathSegment::ClosePath,
    ];
    let t = scene(vec![root(vec![1]), filled(segs, 255)]);
    assert_eq!(t.raw_content_bbox(), rect(0, 0, u(10), 7500));
}

#[test]
fn turning_point_value_is_rounded_up() {
    // y runs 0, 3, 0, 0 thousandths: its top, 4/3, lies at t = 1/3.
    let segs = vec![
        PathSegment::MoveTo { x: 0, y: 0 },
        PathSegment::CurveTo { x1: 1000, y1: 3000, x2: 2000, y2: 0, x: 3000, y: 0 },
    ];
    let t = scene(vec![root(vec![1]), filled(segs, 255)]);
    assert_eq!(t.raw_content_bbox(), rect(0, 0, 3000, 1334));
}

#[test]
fn curve_starts_at_the_pen() {
    // After the close the pen is back at (10, 10); the curve runs from there.
    let segs = vec![
        PathSegment::MoveTo { x: u(10), y: u(10) },
        PathSegment::LineTo { x: u(20), y: u(10) },
        PathSegment::ClosePath,
        PathSegment::CurveTo { x1: u(10), y1: u(10), x2: u(12), y2: u(12), x: u(12), y: u(12) },
    ];
    let t = scene(vec![root(vec![1]), filled(segs, 255)]);
    assert_eq!(t.raw_content_bbox(), rect(u(10), u(10), u(20), u(12)));
}

#[test]
fn very_wide_curve_is_bounded_by_its_control_points() {
    let segs = vec![
        PathSegment::MoveTo { x: 0, y: 0 },
        PathSegment::CurveTo { x1: 0, y1: u(1000), x2: u(10), y2: u(1000), x: u(10), y: 0 },
    ];
    let t = scene(vec![root(vec![1]), filled(segs, 255)]);
    assert_eq!(t.raw_content_bbox(), rect(0, 0, u(10), u(1000)));
}

#[test]
fn zero_opacity_fill_and_stroke_hide_a_path() {
    let stroke = Stroke { width: u(2), line_cap: LineCap::Butt, opacity: 0, outline: Some(rect(u(0), u(0), u(50), u(50))) };
    let t = scene(vec![
        root(vec![1]),
        node(
            NodeKind::Path { segments: rect_segments(u(1), u(1), u(40), u(40)), fill: Some(Fill { opacity: 0 }), stroke: Some(stroke) },
            vec![],
        ),
    ]);
    assert_eq!(t.raw_content_bbox(), rect(0, 0, 0, 0));
}

#[test]
fn clip_region_moves_with_the_group() {
    let mut g = node(NodeKind::Group { clip_path: Some(3), mask: None }, vec![2]);
    g.transform = Transform { a: COEF_ONE, b: 0, c: 0, d: COEF_ONE, e: u(10), f: 0 };
    let t = scene(vec![
        root(vec![1]),
        g,
        filled(rect_segments(u(0), u(0), u(20), u(20)), 255),
        node(NodeKind::ClipPath, vec![4]),
        filled(rect_segments(u(0), u(0), u(5), u(5)), 255),
    ]);
    assert_eq!(t.raw_content_bbox(), rect(u(10), u(0), u(15), u(5)));
}

#[test]
fn regrouping_children_keeps_the_union() {
    let a = filled(rect_segments(u(0), u(0), u(10), u(10)), 255);
    let b = filled(rect_segments(u(50), u(-5), u(60), u(5)), 255);
    let c = filled(rect_segments(u(20), u(30), u(25), u(40)), 255);
    let nested_right = scene(vec![root(vec![1]), group(vec![2, 3]), a.clone(), group(vec![4, 5]), b.clone(), c.clone()]);
    let nested_left = scene(vec![root(vec![1]), group(vec![2, 5]), group(vec![3, 4]), a.clone(), b.clone(), c.clone()]);
    let flat = scene(vec![root(vec![1]), group(vec![2, 3, 4]), a, b, c]);
    let expected = rect(u(0), u(-5), u(60), u(40));
    assert_eq!(nested_right.raw_content_bbox(), expected);
    assert_eq!(nested_left.raw_content_bbox(), expected);
    assert_eq!(flat.raw_content_bbox(), expected);
}
