//! Path segments and the bounds of the paths they make.
use vstd::prelude::*;

use crate::curve::{curve_hi, curve_lo, curve_span};
use crate::geom::{in_range, union_rects, union_opt, point_rect, Point, Rect, Transform};
use crate::reduce::pen_state;

verus! {

/// One command of a path. A quadratic curve is written as a cubic whose two
/// control points coincide.
#[derive(Clone, Copy, Debug, PartialEq)]
pub enum PathSegment<T> {
    MoveTo { x: T, y: T },
    LineTo { x: T, y: T },
    CurveTo { x1: T, y1: T, x2: T, y2: T, x: T, y: T },
    ClosePath,
}

pub open spec fn segment_wf(s: PathSegment<i64>) -> bool {
    match s {
        PathSegment::MoveTo { x, y } => in_range(x as int) && in_range(y as int),
        PathSegment::LineTo { x, y } => in_range(x as int) && in_range(y as int),
        PathSegment::CurveTo { x1, y1, x2, y2, x, y } => in_range(x1 as int) && in_range(
            y1 as int,
        ) && in_range(x2 as int) && in_range(y2 as int) && in_range(x as int) && in_range(y as int),
        PathSegment::ClosePath => true,
    }
}

pub open spec fn segments_wf(segs: Seq<PathSegment<i64>>) -> bool {
    forall|i: int| 0 <= i < segs.len() ==> segment_wf(#[trigger] segs[i])
}

/// Bounds of a cubic curve with control points `p0` to `p3`: on each axis its
/// end values and its values where the derivative vanishes inside the curve,
/// rounded outward.
pub open spec fn curve_box(p0: Point, p1: Point, p2: Point, p3: Point) -> Rect {
    Rect {
        min_x: curve_lo(p0.x as int, p1.x as int, p2.x as int, p3.x as int) as i64,
        min_y: curve_lo(p0.y as int, p1.y as int, p2.y as int, p3.y as int) as i64,
        max_x: curve_hi(p0.x as int, p1.x as int, p2.x as int, p3.x as int) as i64,
        max_y: curve_hi(p0.y as int, p1.y as int, p2.y as int, p3.y as int) as i64,
    }
}

/// The box of one segment mapped by `xf`, the pen standing at `pen` before it:
/// a move or a line contributes its end point; a curve, from the pen to its end
/// point, contributes the bounds of the mapped curve.
pub open spec fn segment_box(xf: Transform, s: PathSegment<i64>, pen: (i64, i64)) -> Option<Rect> {
    match s {
        PathSegment::MoveTo { x, y } => Some(Rect::point_rect(xf.map(Point { x, y }))),
        PathSegment::LineTo { x, y } => Some(Rect::point_rect(xf.map(Point { x, y }))),
        PathSegment::CurveTo { x1, y1, x2, y2, x, y } => Some(
            curve_box(
                xf.map(Point { x: pen.0, y: pen.1 }),
                xf.map(Point { x: x1, y: y1 }),
                xf.map(Point { x: x2, y: y2 }),
                xf.map(Point { x, y }),
            ),
        ),
        PathSegment::ClosePath => None,
    }
}

/// Union of the boxes of the first `k` segments, the pen starting at the
/// origin.
pub open spec fn points_box(xf: Transform, segs: Seq<PathSegment<i64>>, k: int) -> Option<Rect>
    decreases k,
{
    if k <= 0 || k > segs.len() {
        None
    } else {
        union_opt(
            points_box(xf, segs, k - 1),
            segment_box(xf, segs[k - 1], pen_state(segs, (0i64, 0i64), k - 1).0),
        )
    }
}

fn curve_bounds(p0: Point, p1: Point, p2: Point, p3: Point) -> (r: Rect)
    requires
        p0.wf(),
        p1.wf(),
        p2.wf(),
        p3.wf(),
    ensures
        r == curve_box(p0, p1, p2, p3),
        r.wf(),
        !r.empty(),
{
    let (lx, hx) = curve_span(p0.x, p1.x, p2.x, p3.x);
    let (ly, hy) = curve_span(p0.y, p1.y, p2.y, p3.y);
    Rect { min_x: lx, min_y: ly, max_x: hx, max_y: hy }
}

fn segment_bounds(xf: &Transform, s: &PathSegment<i64>, pen: (i64, i64)) -> (r: Option<Rect>)
    requires
        xf.wf(),
        segment_wf(*s),
        in_range(pen.0 as int),
        in_range(pen.1 as int),
    ensures
        r == segment_box(*xf, *s, pen),
        crate::geom::solid_opt(r),
{
    match s {
        PathSegment::MoveTo { x, y } => Some(point_rect(xf.apply(Point { x: *x, y: *y }))),
        PathSegment::LineTo { x, y } => Some(point_rect(xf.apply(Point { x: *x, y: *y }))),
        PathSegment::CurveTo { x1, y1, x2, y2, x, y } => {
            let p0 = xf.apply(Point { x: pen.0, y: pen.1 });
            let p1 = xf.apply(Point { x: *x1, y: *y1 });
            let p2 = xf.apply(Point { x: *x2, y: *y2 });
            let p3 = xf.apply(Point { x: *x, y: *y });
            Some(curve_bounds(p0, p1, p2, p3))
        },
        PathSegment::ClosePath => None,
    }
}

/// Bounds of the path `segs` mapped by `xf`: the end points of moves and lines
/// and the extents of curves; `None` when there are none.
pub fn path_points_bounds(xf: &Transform, segs: &Vec<PathSegment<i64>>) -> (r: Option<Rect>)
    requires
        xf.wf(),
        segments_wf(segs@),
    ensures
        r == points_box(*xf, segs@, segs@.len() as int),
        crate::geom::solid_opt(r),
{
    let mut acc: Option<Rect> = None;
    let mut pen: (i64, i64) = (0, 0);
    let mut start: (i64, i64) = (0, 0);
    let mut i: usize = 0;
    while i < segs.len()
        invariant
            i <= segs@.len(),
            xf.wf(),
            segments_wf(segs@),
            acc == points_box(*xf, segs@, i as int),
            crate::geom::solid_opt(acc),
            (pen, start) == pen_state(segs@, (0i64, 0i64), i as int),
            in_range(pen.0 as int),
            in_range(pen.1 as int),
            in_range(start.0 as int),
            in_range(start.1 as int),
        decreases segs@.len() - i,
    {
        assert(segment_wf(segs@[i as int]));
        let b = segment_bounds(xf, &segs[i], pen);
        proof {
            crate::geom::lemma_union_solid(acc, b);
        }
        acc = union_rects(acc, b);
        match &segs[i] {
            PathSegment::MoveTo { x, y } => {
                pen = (*x, *y);
                start = (*x, *y);
            },
            PathSegment::LineTo { x, y } => {
                pen = (*x, *y);
            },
            PathSegment::CurveTo { x, y, .. } => {
                pen = (*x, *y);
            },
            PathSegment::ClosePath => {
                pen = start;
            },
        }
        i = i + 1;
    }
    acc
}

} // verus!
