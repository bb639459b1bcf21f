use rusty_svg::geom::UNIT;
use rusty_svg::outline::{build_contours, ContourStep};
use rusty_svg::path::PathSegment;

fn ends(c: &[ContourStep]) -> Vec<(i64, i64)> {
    c.iter()
        .map(|s| match s {
            ContourStep::Endpoint { x, y } => (*x, *y),
            ContourStep::Cubic { x, y, .. } => (*x, *y),
        })
        .collect()
}

#[test]
fn closing_line_near_start_is_dropped() {
    let segs = vec![
        PathSegment::MoveTo { x: 0, y: 0 },
        PathSegment::LineTo { x: 10 * UNIT, y: 0 },
        PathSegment::LineTo { x: 10 * UNIT, y: 10 * UNIT },
        PathSegment::LineTo { x: UNIT / 2, y: UNIT / 2 },
        PathSegment::ClosePath,
    ];
    let cs = build_contours(&segs);
    assert_eq!(cs.len(), 1);
    assert!(cs[0].closed);
    assert_eq!(ends(&cs[0].steps), vec![(0, 0), (10 * UNIT, 0), (10 * UNIT, 10 * UNIT)]);
}

#[test]
fn closing_line_one_unit_away_is_kept() {
    let segs = vec![
        PathSegment::MoveTo { x: 0, y: 0 },
        PathSegment::LineTo { x: 10 * UNIT, y: 0 },
        PathSegment::LineTo { x: UNIT, y: 0 },
        PathSegment::ClosePath,
    ];
    let cs = build_contours(&segs);
    assert_eq!(ends(&cs[0].steps), vec![(0, 0), (10 * UNIT, 0), (UNIT, 0)]);
}

#[test]
fn line_not_before_close_is_kept() {
    let segs = vec![
        PathSegment::MoveTo { x: 0, y: 0 },
        PathSegment::LineTo { x: 5 * UNIT, y: 0 },
        PathSegment::LineTo { x: 0, y: 0 },
    ];
    let cs = build_contours(&segs);
    assert_eq!(cs.len(), 1);
    assert!(!cs[0].closed);
    assert_eq!(cs[0].steps.len(), 3);
}

#[test]
fn moves_split_contours_and_empty_ones_vanish() {
    let segs = vec![
        PathSegment::ClosePath,
        PathSegment::MoveTo { x: 0, y: 0 },
        PathSegment::CurveTo { x1: 1, y1: 2, x2: 3, y2: 4, x: 5, y: 6 },
        PathSegment::MoveTo { x: 100 * UNIT, y: 100 * UNIT },
        PathSegment::LineTo { x: 200 * UNIT, y: 100 * UNIT },
        PathSegment::ClosePath,
        PathSegment::ClosePath,
    ];
    let cs = build_contours(&segs);
    assert_eq!(cs.len(), 2);
    assert!(!cs[0].closed);
    assert_eq!(
        cs[0].steps,
        vec![
            ContourStep::Endpoint { x: 0, y: 0 },
            ContourStep::Cubic { x1: 1, y1: 2, x2: 3, y2: 4, x: 5, y: 6 }
        ]
    );
    assert!(cs[1].closed);
    assert_eq!(ends(&cs[1].steps), vec![(100 * UNIT, 100 * UNIT), (200 * UNIT, 100 * UNIT)]);
}
