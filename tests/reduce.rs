use lyon_algorithms::geom::cubic_to_quadratic::cubic_to_quadratics;
use lyon_algorithms::geom::{point, CubicBezierSegment};
use rusty_svg::path::PathSegment;
use rusty_svg::reduce::{pen_positions, reduce_cubics_to_quadratics, Quadratic};

fn sample() -> Vec<PathSegment<f64>> {
    vec![
        PathSegment::MoveTo { x: 10.0, y: 10.0 },
        PathSegment::CurveTo { x1: 10.0, y1: 80.0, x2: 90.0, y2: -40.0, x: 100.0, y: 30.0 },
        PathSegment::LineTo { x: 50.0, y: 50.0 },
        PathSegment::ClosePath,
        PathSegment::CurveTo { x1: 0.0, y1: 0.0, x2: 5.0, y2: 5.0, x: 7.0, y: 3.0 },
    ]
}

fn pieces_for(segs: &[PathSegment<f64>], tolerance: f64) -> Vec<Vec<Quadratic<f64>>> {
    let pens = pen_positions(&segs.to_vec(), 0.0, 0.0);
    segs.iter()
        .zip(pens.iter())
        .map(|(s, (px, py))| match s {
            PathSegment::CurveTo { x1, y1, x2, y2, x, y } => {
                let c = CubicBezierSegment {
                    from: point(*px, *py),
                    ctrl1: point(*x1, *y1),
                    ctrl2: point(*x2, *y2),
                    to: point(*x, *y),
                };
                let mut out = vec![];
                cubic_to_quadratics(&c, tolerance, &mut |q| {
                    out.push(Quadratic { ctrl_x: q.ctrl.x, ctrl_y: q.ctrl.y, x: q.to.x, y: q.to.y })
                });
                out
            }
            _ => vec![],
        })
        .collect()
}

#[test]
fn pen_follows_segments_and_closes_to_start() {
    let pens = pen_positions(&sample(), 0.0, 0.0);
    assert_eq!(pens, vec![(0.0, 0.0), (10.0, 10.0), (100.0, 30.0), (50.0, 50.0), (10.0, 10.0)]);
}

#[test]
fn cubic_is_replaced_by_quadratics_ending_exactly() {
    let segs = sample();
    let pieces = vec![
        vec![],
        vec![
            Quadratic { ctrl_x: 10.0, ctrl_y: 40.0, x: 55.0, y: 12.0 },
            Quadratic { ctrl_x: 95.0, ctrl_y: -10.0, x: 99.999, y: 30.001 },
        ],
        vec![],
        vec![],
        vec![],
    ];
    let out = reduce_cubics_to_quadratics(&segs, &pieces);
    assert_eq!(
        out,
        vec![
            PathSegment::MoveTo { x: 10.0, y: 10.0 },
            PathSegment::CurveTo { x1: 10.0, y1: 40.0, x2: 10.0, y2: 40.0, x: 55.0, y: 12.0 },
            PathSegment::CurveTo { x1: 95.0, y1: -10.0, x2: 95.0, y2: -10.0, x: 100.0, y: 30.0 },
            PathSegment::LineTo { x: 50.0, y: 50.0 },
            PathSegment::ClosePath,
            PathSegment::CurveTo { x1: 0.0, y1: 0.0, x2: 5.0, y2: 5.0, x: 7.0, y: 3.0 },
        ]
    );
}

#[test]
fn path_without_cubics_is_unchanged() {
    let segs = vec![
        PathSegment::MoveTo { x: 1i64, y: 2 },
        PathSegment::LineTo { x: 3, y: 4 },
        PathSegment::ClosePath,
    ];
    let out = reduce_cubics_to_quadratics(&segs, &vec![vec![], vec![], vec![]]);
    assert_eq!(out, segs);
}

#[test]
fn finer_tolerance_never_gives_fewer_quadratics() {
    let segs = sample();
    let count = |tol: f64| -> usize {
        let out = reduce_cubics_to_quadratics(&segs, &pieces_for(&segs, tol));
        out.len()
    };
    let coarse = count(1.0);
    let fine = count(0.01);
    assert!(fine >= coarse);
    assert!(fine > segs.len());
}

#[test]
fn every_tolerance_ends_on_the_cubic_end() {
    let segs = sample();
    for tol in [2.0, 0.5, 0.1, 0.001] {
        let pieces = pieces_for(&segs, tol);
        let out = reduce_cubics_to_quadratics(&segs, &pieces);
        let first_run = &out[1..1 + pieces[1].len()];
        match first_run.last().unwrap() {
            PathSegment::CurveTo { x1, y1, x2, y2, x, y } => {
                assert_eq!((*x, *y), (100.0, 30.0));
                assert_eq!((x1, y1), (x2, y2));
            }
            other => panic!("unexpected segment {:?}", other),
        }
        match out.last().unwrap() {
            PathSegment::CurveTo { x, y, .. } => assert_eq!((*x, *y), (7.0, 3.0)),
            other => panic!("unexpected segment {:?}", other),
        }
    }
}
