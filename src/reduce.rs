//! Rewriting cubic curves of a path as runs of quadratic ones. The rewrite
//! moves coordinates without computing on them, so it works for any copyable
//! coordinate type; the quadratic pieces of each cubic are found elsewhere
//! and handed in.
use vstd::prelude::*;

use crate::path::PathSegment;

verus! {

/// A quadratic curve from the current pen position: its control point and
/// its end point.
#[derive(Clone, Copy, Debug, PartialEq)]
pub struct Quadratic<T> {
    pub ctrl_x: T,
    pub ctrl_y: T,
    pub x: T,
    pub y: T,
}

/// The pen position and the current subpath's start after the first `n`
/// segments, the pen starting at `origin`.
pub open spec fn pen_state<T>(segs: Seq<PathSegment<T>>, origin: (T, T), n: int) -> ((T, T), (T, T))
    decreases n,
{
    if n <= 0 || n > segs.len() {
        (origin, origin)
    } else {
        let prev = pen_state(segs, origin, n - 1);
        match segs[n - 1] {
            PathSegment::MoveTo { x, y } => ((x, y), (x, y)),
            PathSegment::LineTo { x, y } => ((x, y), prev.1),
            PathSegment::CurveTo { x, y, .. } => ((x, y), prev.1),
            PathSegment::ClosePath => (prev.1, prev.1),
        }
    }
}

/// Where the pen stands before each segment: a move or a line or a curve
/// leaves it at its end point, a close takes it back to the subpath's start.
pub fn pen_positions<T: Copy>(segs: &Vec<PathSegment<T>>, origin_x: T, origin_y: T) -> (r: Vec<
    (T, T),
>)
    ensures
        r@.len() == segs@.len(),
        forall|i: int|
            0 <= i < segs@.len() ==> r@[i] == #[trigger] pen_state(segs@, (origin_x, origin_y), i).0,
{
    let mut r: Vec<(T, T)> = Vec::new();
    let mut pen: (T, T) = (origin_x, origin_y);
    let mut start: (T, T) = (origin_x, origin_y);
    let mut i: usize = 0;
    while i < segs.len()
        invariant
            i <= segs@.len(),
            r@.len() == i,
            (pen, start) == pen_state(segs@, (origin_x, origin_y), i as int),
            forall|j: int|
                0 <= j < i ==> r@[j] == #[trigger] pen_state(segs@, (origin_x, origin_y), j).0,
        decreases segs@.len() - i,
    {
        r.push(pen);
        match &segs[i] {
            PathSegment::MoveTo { x, y } => {
                pen = (*x, *y);
                start = (*x, *y);
            },
            PathSegment::LineTo { x, y } => {
                pen = (*x, *y);
            },
            PathSegment::CurveTo { x, y, .. } => {
                pen = (*x, *y);
            },
            PathSegment::ClosePath => {
                pen = start;
            },
        }
        i = i + 1;
    }
    r
}

/// A quadratic written as a cubic whose two control points coincide, ending
/// at `(x, y)`.
pub open spec fn as_cubic<T>(q: Quadratic<T>, x: T, y: T) -> PathSegment<T> {
    PathSegment::CurveTo { x1: q.ctrl_x, y1: q.ctrl_y, x2: q.ctrl_x, y2: q.ctrl_y, x, y }
}

/// The quadratic pieces written as cubics; the last one ends exactly at
/// `(x, y)`, the end of the cubic they replace.
pub open spec fn pieces_as_cubics<T>(pieces: Seq<Quadratic<T>>, x: T, y: T) -> Seq<PathSegment<T>> {
    Seq::new(
        pieces.len(),
        |j: int|
            if j == pieces.len() - 1 {
                as_cubic(pieces[j], x, y)
            } else {
                as_cubic(pieces[j], pieces[j].x, pieces[j].y)
            },
    )
}

/// What one segment becomes: a cubic with pieces gives way to them, anything
/// else stays as it is.
pub open spec fn rewrite_segment<T>(s: PathSegment<T>, pieces: Seq<Quadratic<T>>) -> Seq<PathSegment<T>> {
    match s {
        PathSegment::CurveTo { x, y, .. } => if pieces.len() > 0 {
            pieces_as_cubics(pieces, x, y)
        } else {
            seq![s]
        },
        _ => seq![s],
    }
}

/// The rewrite of the first `n` segments.
pub open spec fn rewritten<T>(segs: Seq<PathSegment<T>>, pieces: Seq<Seq<Quadratic<T>>>, n: int) -> Seq<
    PathSegment<T>,
>
    decreases n,
{
    if n <= 0 || n > segs.len() {
        Seq::empty()
    } else {
        rewritten(segs, pieces, n - 1) + rewrite_segment(segs[n - 1], pieces[n - 1])
    }
}

pub open spec fn pieces_view<T>(pieces: Seq<Vec<Quadratic<T>>>) -> Seq<Seq<Quadratic<T>>> {
    pieces.map_values(|v: Vec<Quadratic<T>>| v@)
}

/// Replaces each cubic `segs[i]` by the quadratics `pieces[i]`, each written
/// as a cubic with a doubled control point; the last of them ends exactly
/// where the cubic did. Other segments, and a cubic without pieces, pass
/// through unchanged.
pub fn reduce_cubics_to_quadratics<T: Copy>(
    segs: &Vec<PathSegment<T>>,
    pieces: &Vec<Vec<Quadratic<T>>>,
) -> (r: Vec<PathSegment<T>>)
    requires
        pieces@.len() == segs@.len(),
    ensures
        r@ == rewritten(segs@, pieces_view(pieces@), segs@.len() as int),
{
    let ghost pv = pieces_view(pieces@);
    let mut r: Vec<PathSegment<T>> = Vec::new();
    let mut i: usize = 0;
    while i < segs.len()
        invariant
            i <= segs@.len(),
            pieces@.len() == segs@.len(),
            pv == pieces_view(pieces@),
            r@ == rewritten(segs@, pv, i as int),
        decreases segs@.len() - i,
    {
        let ghost before = r@;
        let ps = &pieces[i];
        assert(pv[i as int] == ps@);
        match &segs[i] {
            PathSegment::CurveTo { x, y, .. } if ps.len() > 0 => {
                let mut j: usize = 0;
                while j < ps.len()
                    invariant
                        j <= ps@.len(),
                        ps@.len() > 0,
                        r@ == before + pieces_as_cubics(ps@, *x, *y).subrange(0, j as int),
                    decreases ps@.len() - j,
                {
                    let q = ps[j];
                    let (ex, ey) = if j + 1 == ps.len() {
                        (*x, *y)
                    } else {
                        (q.x, q.y)
                    };
                    r.push(
                        PathSegment::CurveTo {
                            x1: q.ctrl_x,
                            y1: q.ctrl_y,
                            x2: q.ctrl_x,
                            y2: q.ctrl_y,
                            x: ex,
                            y: ey,
                        },
                    );
                    assert(pieces_as_cubics(ps@, *x, *y).subrange(0, j + 1) =~= pieces_as_cubics(
                        ps@,
                        *x,
                        *y,
                    ).subrange(0, j as int).push(pieces_as_cubics(ps@, *x, *y)[j as int]));
                    j = j + 1;
                }
                assert(pieces_as_cubics(ps@, *x, *y).subrange(0, ps@.len() as int)
                    =~= pieces_as_cubics(ps@, *x, *y));
            },
            _ => {
                r.push(segs[i]);
            },
        }
        assert(r@ =~= rewritten(segs@, pv, i + 1));
        i = i + 1;
    }
    r
}

/// A cubic with pieces is replaced by a run that ends exactly at the cubic's
/// end point, whatever the pieces.
pub proof fn lemma_rewrite_keeps_endpoint<T>(
    x1: T,
    y1: T,
    x2: T,
    y2: T,
    x: T,
    y: T,
    pieces: Seq<Quadratic<T>>,
)
    ensures
        ({
            let out = rewrite_segment(PathSegment::CurveTo { x1, y1, x2, y2, x, y }, pieces);
            &&& out.len() == if pieces.len() > 0 {
                pieces.len()
            } else {
                1
            }
            &&& out.last() matches PathSegment::CurveTo { x: ex, y: ey, .. } && ex == x && ey == y
        }),
{
}

/// A path without cubics is left as it is.
pub proof fn lemma_no_cubic_unchanged<T>(segs: Seq<PathSegment<T>>, pieces: Seq<Seq<Quadratic<T>>>)
    requires
        forall|i: int| 0 <= i < segs.len() ==> !(#[trigger] segs[i] is CurveTo),
    ensures
        rewritten(segs, pieces, segs.len() as int) == segs,
{
    lemma_no_cubic_prefix(segs, pieces, segs.len() as int);
    assert(segs.subrange(0, segs.len() as int) =~= segs);
}

proof fn lemma_no_cubic_prefix<T>(segs: Seq<PathSegment<T>>, pieces: Seq<Seq<Quadratic<T>>>, n: int)
    requires
        0 <= n <= segs.len(),
        forall|i: int| 0 <= i < segs.len() ==> !(#[trigger] segs[i] is CurveTo),
    ensures
        rewritten(segs, pieces, n) == segs.subrange(0, n),
    decreases n,
{
    if n > 0 {
        lemma_no_cubic_prefix(segs, pieces, n - 1);
        assert(!(segs[n - 1] is CurveTo));
        assert(segs.subrange(0, n) =~= segs.subrange(0, n - 1) + seq![segs[n - 1]]);
    } else {
        assert(segs.subrange(0, 0) =~= Seq::<PathSegment<T>>::empty());
    }
}

/// Handing in at least as many pieces for every segment never gives a
/// shorter path: a finer approximation of each cubic lengthens the result or
/// keeps its length.
pub proof fn lemma_more_pieces_never_shorter<T>(
    segs: Seq<PathSegment<T>>,
    coarse: Seq<Seq<Quadratic<T>>>,
    fine: Seq<Seq<Quadratic<T>>>,
    n: int,
)
    requires
        coarse.len() == segs.len(),
        fine.len() == segs.len(),
        forall|i: int| 0 <= i < segs.len() ==> #[trigger] fine[i].len() >= coarse[i].len(),
    ensures
        rewritten(segs, fine, n).len() >= rewritten(segs, coarse, n).len(),
    decreases n,
{
    if n > 0 && n <= segs.len() {
        lemma_more_pieces_never_shorter(segs, coarse, fine, n - 1);
        assert(fine[n - 1].len() >= coarse[n - 1].len());
    }
}

} // verus!
