//! Contours of a path, as the stroke outliner takes them.
use vstd::prelude::*;

use crate::geom::UNIT;
use crate::path::{segments_wf, PathSegment};

verus! {

/// One step of a contour: a point reached by a line, or a cubic curve.
#[derive(Clone, Copy, Debug, PartialEq, Eq)]
pub enum ContourStep {
    Endpoint { x: i64, y: i64 },
    Cubic { x1: i64, y1: i64, x2: i64, y2: i64, x: i64, y: i64 },
}

/// A contour: its steps, and whether it closes back to its first point.
#[derive(Clone, Debug)]
pub struct Contour {
    pub steps: Vec<ContourStep>,
    pub closed: bool,
}

impl View for Contour {
    type V = (Seq<ContourStep>, bool);

    open spec fn view(&self) -> (Seq<ContourStep>, bool) {
        (self.steps@, self.closed)
    }
}

/// The first point that a contour lists.
pub open spec fn first_point(cur: Seq<ContourStep>) -> (int, int) {
    match cur[0] {
        ContourStep::Endpoint { x, y } => (x as int, y as int),
        ContourStep::Cubic { x1, y1, .. } => (x1 as int, y1 as int),
    }
}

/// Closer than one path unit.
pub open spec fn near(p: (int, int), x: int, y: int) -> bool {
    (p.0 - x) * (p.0 - x) + (p.1 - y) * (p.1 - y) < UNIT * UNIT
}

/// A line to `(x, y)` at position `i`, right before a close, that would end
/// near the contour's first point adds nothing but a vanishing edge.
pub open spec fn closing_line_dropped(
    segs: Seq<PathSegment<i64>>,
    i: int,
    cur: Seq<ContourStep>,
    x: int,
    y: int,
) -> bool {
    &&& i + 1 < segs.len()
    &&& segs[i + 1] is ClosePath
    &&& cur.len() > 0
    &&& near(first_point(cur), x, y)
}

/// The finished contours and the open one after the first `n` segments.
pub open spec fn contour_walk(segs: Seq<PathSegment<i64>>, n: int) -> (
    Seq<(Seq<ContourStep>, bool)>,
    Seq<ContourStep>,
)
    decreases n,
{
    if n <= 0 || n > segs.len() {
        (Seq::empty(), Seq::empty())
    } else {
        let prev = contour_walk(segs, n - 1);
        let done = prev.0;
        let cur = prev.1;
        match segs[n - 1] {
            PathSegment::MoveTo { x, y } => (
                if cur.len() > 0 {
                    done.push((cur, false))
                } else {
                    done
                },
                seq![ContourStep::Endpoint { x, y }],
            ),
            PathSegment::LineTo { x, y } => if closing_line_dropped(
                segs,
                n - 1,
                cur,
                x as int,
                y as int,
            ) {
                (done, cur)
            } else {
                (done, cur.push(ContourStep::Endpoint { x, y }))
            },
            PathSegment::CurveTo { x1, y1, x2, y2, x, y } => (
                done,
                cur.push(ContourStep::Cubic { x1, y1, x2, y2, x, y }),
            ),
            PathSegment::ClosePath => (
                if cur.len() > 0 {
                    done.push((cur, true))
                } else {
                    done
                },
                Seq::empty(),
            ),
        }
    }
}

/// The contours of a path: a move starts a new one, a close ends the current
/// one closed, and contours without steps are left out.
pub open spec fn contours_of(segs: Seq<PathSegment<i64>>) -> Seq<(Seq<ContourStep>, bool)> {
    let w = contour_walk(segs, segs.len() as int);
    if w.1.len() > 0 {
        w.0.push((w.1, false))
    } else {
        w.0
    }
}

pub open spec fn contour_views(cs: Seq<Contour>) -> Seq<(Seq<ContourStep>, bool)> {
    cs.map_values(|c: Contour| c@)
}

fn is_near(cur: &Vec<ContourStep>, x: i64, y: i64) -> (b: bool)
    requires
        cur@.len() > 0,
        crate::geom::in_range(x as int),
        crate::geom::in_range(y as int),
        crate::geom::in_range(first_point(cur@).0),
        crate::geom::in_range(first_point(cur@).1),
    ensures
        b == near(first_point(cur@), x as int, y as int),
{
    let (fx, fy) = match cur[0] {
        ContourStep::Endpoint { x, y } => (x, y),
        ContourStep::Cubic { x1, y1, .. } => (x1, y1),
    };
    let dx = fx as i128 - x as i128;
    let dy = fy as i128 - y as i128;
    proof {
        assert(dx * dx <= 0x10_0000_0000_0000_0000_0000) by (nonlinear_arith)
            requires
                -0x200_0000_0000 <= dx <= 0x200_0000_0000,
        ;
        assert(dy * dy <= 0x10_0000_0000_0000_0000_0000) by (nonlinear_arith)
            requires
                -0x200_0000_0000 <= dy <= 0x200_0000_0000,
        ;
        assert(dx * dx >= 0 && dy * dy >= 0) by (nonlinear_arith);
    }
    let unit: i128 = UNIT as i128;
    dx * dx + dy * dy < unit * unit
}

pub open spec fn steps_wf(cur: Seq<ContourStep>) -> bool {
    cur.len() > 0 ==> crate::geom::in_range(first_point(cur).0) && crate::geom::in_range(
        first_point(cur).1,
    )
}

proof fn lemma_walk_wf(segs: Seq<PathSegment<i64>>, n: int)
    requires
        segments_wf(segs),
    ensures
        steps_wf(contour_walk(segs, n).1),
    decreases n,
{
    if n > 0 && n <= segs.len() {
        lemma_walk_wf(segs, n - 1);
        assert(crate::path::segment_wf(segs[n - 1]));
        let cur = contour_walk(segs, n - 1).1;
        if cur.len() > 0 {
            assert(cur.push(ContourStep::Endpoint { x: 0, y: 0 })[0] == cur[0]);
        }
    }
}

/// Splits a path into the contours that a stroke is built around. A line right
/// before a close is left out when it ends within one path unit of the
/// contour's first point.
pub fn build_contours(segs: &Vec<PathSegment<i64>>) -> (r: Vec<Contour>)
    requires
        segments_wf(segs@),
    ensures
        contour_views(r@) == contours_of(segs@),
{
    let mut done: Vec<Contour> = Vec::new();
    let mut cur: Vec<ContourStep> = Vec::new();
    let mut i: usize = 0;
    while i < segs.len()
        invariant
            i <= segs@.len(),
            segments_wf(segs@),
            contour_views(done@) == contour_walk(segs@, i as int).0,
            cur@ == contour_walk(segs@, i as int).1,
        decreases segs@.len() - i,
    {
        proof {
            lemma_walk_wf(segs@, i as int);
            assert(crate::path::segment_wf(segs@[i as int]));
        }
        let ghost done0 = done@;
        match segs[i] {
            PathSegment::MoveTo { x, y } => {
                if cur.len() > 0 {
                    let c = Contour { steps: cur, closed: false };
                    done.push(c);
                    proof {
                        assert(contour_views(done@) =~= contour_views(done0).push(c@));
                    }
                }
                cur = Vec::new();
                cur.push(ContourStep::Endpoint { x, y });
                assert(cur@ =~= seq![ContourStep::Endpoint { x, y }]);
            },
            PathSegment::LineTo { x, y } => {
                let drop = i + 1 < segs.len() && matches!(segs[i + 1], PathSegment::ClosePath)
                    && cur.len() > 0 && is_near(&cur, x, y);
                if !drop {
                    cur.push(ContourStep::Endpoint { x, y });
                }
            },
            PathSegment::CurveTo { x1, y1, x2, y2, x, y } => {
                cur.push(ContourStep::Cubic { x1, y1, x2, y2, x, y });
            },
            PathSegment::ClosePath => {
                if cur.len() > 0 {
                    let c = Contour { steps: cur, closed: true };
                    done.push(c);
                    proof {
                        assert(contour_views(done@) =~= contour_views(done0).push(c@));
                    }
                }
                cur = Vec::new();
                assert(cur@ =~= Seq::<ContourStep>::empty());
            },
        }
        i = i + 1;
    }
    if cur.len() > 0 {
        let ghost done0 = done@;
        let c = Contour { steps: cur, closed: false };
        done.push(c);
        proof {
            assert(contour_views(done@) =~= contour_views(done0).push(c@));
        }
    }
    done
}

} // verus!
