//! A scene tree held in an arena, and its bounding boxes.
use vstd::prelude::*;

use crate::geom::{
    ceil_to_unit, ceil_unit, floor_to_unit, floor_unit, intersect_opt, intersect_rects, map_rect,
    solid_opt, union_opt, union_rects, Rect, Transform,
};
use crate::path::{path_points_bounds, points_box, segments_wf, PathSegment};

verus! {

#[derive(Clone, Copy, Debug, PartialEq, Eq, Structural)]
pub enum LineCap {
    Butt,
    Round,
    Square,
}

/// A fill, by its opacity out of 255.
#[derive(Clone, Copy, Debug, PartialEq, Eq, Structural)]
pub struct Fill {
    pub opacity: u8,
}

/// A stroke. `outline` holds the bounds, in the path's own coordinates, of the
/// region that painting the stroke covers, as the stroke outliner found them
/// from the path's contours; `None` when it covers nothing.
#[derive(Clone, Copy, Debug, PartialEq, Eq, Structural)]
pub struct Stroke {
    pub width: i64,
    pub line_cap: LineCap,
    pub opacity: u8,
    pub outline: Option<Rect>,
}

/// What a node is. A reference to a clip path or a mask is the handle of that
/// node in the arena.
#[derive(Clone, Debug)]
pub enum NodeKind {
    Root,
    Group { clip_path: Option<usize>, mask: Option<usize> },
    Path { segments: Vec<PathSegment<i64>>, fill: Option<Fill>, stroke: Option<Stroke> },
    Image { view: Rect },
    ClipPath,
    Mask,
}

#[derive(Clone, Debug)]
pub struct Node {
    pub kind: NodeKind,
    pub transform: Transform,
    pub children: Vec<usize>,
}

/// A scene: node 0 is the root; a node's children are handles into `nodes`,
/// each greater than the handle of its parent, so nodes are numbered with
/// every parent before its children.
/// Nodes that no child list names (clip paths, masks) are reached only
/// through references.
#[derive(Clone, Debug)]
pub struct SceneTree {
    pub nodes: Vec<Node>,
    pub view_box: Rect,
}

pub open spec fn fill_visible(f: Option<Fill>) -> bool {
    match f {
        Some(x) => x.opacity > 0,
        None => false,
    }
}

pub open spec fn stroke_visible(s: Option<Stroke>) -> bool {
    match s {
        Some(x) => x.opacity > 0,
        None => false,
    }
}

/// The stroke's outline bounds carried to root space.
pub open spec fn stroke_box(xf: Transform, s: Option<Stroke>) -> Option<Rect> {
    match s {
        Some(x) => if x.opacity > 0 {
            match x.outline {
                Some(o) => if o.empty() {
                    None
                } else {
                    Some(map_rect(xf, o))
                },
                None => None,
            }
        } else {
            None
        },
        None => None,
    }
}

/// The box of a path: nothing when neither fill nor stroke shows; else the
/// bounds of its points, joined by the stroke's outline when that shows.
pub open spec fn path_box(
    xf: Transform,
    segs: Seq<PathSegment<i64>>,
    fill: Option<Fill>,
    stroke: Option<Stroke>,
) -> Option<Rect> {
    if !fill_visible(fill) && !stroke_visible(stroke) {
        None
    } else {
        union_opt(points_box(xf, segs, segs.len() as int), stroke_box(xf, stroke))
    }
}

pub open spec fn node_wf(n: Node) -> bool {
    &&& n.transform.wf()
    &&& match n.kind {
        NodeKind::Path { segments, stroke, .. } => segments_wf(segments@) && match stroke {
            Some(s) => match s.outline {
                Some(o) => o.wf(),
                None => true,
            },
            None => true,
        },
        NodeKind::Image { view } => view.wf(),
        _ => true,
    }
}

pub open spec fn fanout(t: SceneTree, h: int) -> int {
    if 0 <= h < t.nodes@.len() {
        t.nodes@[h].children@.len() as int
    } else {
        0
    }
}

/// `r` names a node of the wanted kind that the current chain of clip and
/// mask references has not passed through yet.
pub open spec fn ref_usable(t: SceneTree, r: Option<usize>, chain: Seq<usize>, mask: bool) -> bool {
    match r {
        Some(i) => {
            &&& i < t.nodes@.len()
            &&& !chain.contains(i)
            &&& chain.len() < t.nodes@.len()
            &&& if mask {
                t.nodes@[i as int].kind is Mask
            } else {
                t.nodes@[i as int].kind is ClipPath
            }
        },
        None => false,
    }
}

/// The box of node `h`, in root space, when its parent maps to root space by
/// `parent`; `None` when it contributes nothing. `chain` lists the clip paths
/// and masks whose references led here.
pub open spec fn node_box(t: SceneTree, h: int, parent: Transform, chain: Seq<usize>) -> Option<
    Rect,
>
    decreases t.nodes@.len() - chain.len(), t.nodes@.len() - h, fanout(t, h) + 1,
{
    if 0 <= h < t.nodes@.len() {
        let node = t.nodes@[h];
        let xf = parent.then_after(node.transform);
        let kids = children_box(t, h, xf, chain, node.children@.len() as int);
        match node.kind {
            NodeKind::Root => kids,
            NodeKind::Group { clip_path, mask } => {
                if ref_usable(t, clip_path, chain, false) {
                    let r = clip_path.unwrap();
                    intersect_opt(kids, node_box(t, r as int, xf, chain.push(r)))
                } else if ref_usable(t, mask, chain, true) {
                    let r = mask.unwrap();
                    intersect_opt(kids, node_box(t, r as int, xf, chain.push(r)))
                } else {
                    kids
                }
            },
            NodeKind::Path { segments, fill, stroke } => path_box(xf, segments@, fill, stroke),
            NodeKind::Image { view } => if view.empty() {
                None
            } else {
                Some(map_rect(xf, view))
            },
            _ => {
                if node.children@.len() > 0 && h < node.children@[0] < t.nodes@.len() {
                    node_box(t, node.children@[0] as int, xf, chain)
                } else {
                    None
                }
            },
        }
    } else {
        None
    }
}

/// Union of the boxes of the first `k` children of `h`, under `xf`.
pub open spec fn children_box(t: SceneTree, h: int, xf: Transform, chain: Seq<usize>, k: int) -> Option<
    Rect,
>
    decreases t.nodes@.len() - chain.len(), t.nodes@.len() - h, k,
{
    if k <= 0 || !(0 <= h < t.nodes@.len()) || k > t.nodes@[h].children@.len() {
        None
    } else {
        let c = t.nodes@[h].children@[k - 1];
        let prev = children_box(t, h, xf, chain, k - 1);
        if h < c < t.nodes@.len() {
            union_opt(prev, node_box(t, c as int, xf, chain))
        } else {
            prev
        }
    }
}

/// The union of everything visible, unclipped by the canvas.
pub open spec fn content_box(t: SceneTree) -> Option<Rect> {
    node_box(t, 0, Transform::id(), Seq::empty())
}

pub open spec fn zero_rect() -> Rect {
    Rect { min_x: 0, min_y: 0, max_x: 0, max_y: 0 }
}

pub open spec fn rect_or_zero(r: Option<Rect>) -> Rect {
    match r {
        Some(x) => x,
        None => zero_rect(),
    }
}

/// A rectangle widened outwards to whole path units.
pub open spec fn snap_out(r: Rect) -> Rect {
    Rect {
        min_x: floor_unit(r.min_x as int) as i64,
        min_y: floor_unit(r.min_y as int) as i64,
        max_x: ceil_unit(r.max_x as int) as i64,
        max_y: ceil_unit(r.max_y as int) as i64,
    }
}

/// The visible content clipped to the view box and widened to whole units;
/// the zero rectangle at the origin when nothing shows.
pub open spec fn visible_box(t: SceneTree) -> Rect {
    match intersect_opt(content_box(t), Some(t.view_box)) {
        Some(r) => snap_out(r),
        None => zero_rect(),
    }
}

fn chain_contains(chain: &Vec<usize>, r: usize) -> (b: bool)
    ensures
        b == chain@.contains(r),
{
    let mut i: usize = 0;
    while i < chain.len()
        invariant
            i <= chain@.len(),
            forall|j: int| 0 <= j < i ==> chain@[j] != r,
        decreases chain@.len() - i,
    {
        if chain[i] == r {
            return true;
        }
        i = i + 1;
    }
    false
}

impl SceneTree {
    pub open spec fn wf(self) -> bool {
        &&& self.nodes@.len() > 0
        &&& self.view_box.wf()
        &&& forall|i: int| 0 <= i < self.nodes@.len() ==> node_wf(#[trigger] self.nodes@[i])
        &&& forall|i: int, j: int|
            0 <= i < self.nodes@.len() && 0 <= j < self.nodes@[i].children@.len() ==> i
                < #[trigger] self.nodes@[i].children@[j] < self.nodes@.len()
    }

    fn ref_check(&self, r: Option<usize>, chain: &Vec<usize>, mask: bool) -> (b: bool)
        ensures
            b == ref_usable(*self, r, chain@, mask),
    {
        match r {
            Some(i) => {
                if i >= self.nodes.len() || chain.len() >= self.nodes.len() || chain_contains(
                    chain,
                    i,
                ) {
                    false
                } else if mask {
                    matches!(self.nodes[i].kind, NodeKind::Mask)
                } else {
                    matches!(self.nodes[i].kind, NodeKind::ClipPath)
                }
            },
            None => false,
        }
    }

    fn path_bounds(
        xf: &Transform,
        segs: &Vec<PathSegment<i64>>,
        fill: &Option<Fill>,
        stroke: &Option<Stroke>,
    ) -> (r: Option<Rect>)
        requires
            xf.wf(),
            segments_wf(segs@),
            match *stroke {
                Some(s) => match s.outline {
                    Some(o) => o.wf(),
                    None => true,
                },
                None => true,
            },
        ensures
            r == path_box(*xf, segs@, *fill, *stroke),
            solid_opt(r),
    {
        let fill_on = match fill {
            Some(f) => f.opacity > 0,
            None => false,
        };
        let stroke_on = match stroke {
            Some(s) => s.opacity > 0,
            None => false,
        };
        if !fill_on && !stroke_on {
            return None;
        }
        let pts = path_points_bounds(xf, segs);
        let outline: Option<Rect> = match stroke {
            Some(s) => if s.opacity > 0 {
                match s.outline {
                    Some(o) => if o.is_empty() {
                        None
                    } else {
                        Some(xf.apply_rect(&o))
                    },
                    None => None,
                }
            } else {
                None
            },
            None => None,
        };
        proof {
            crate::geom::lemma_union_solid(pts, outline);
        }
        union_rects(pts, outline)
    }

    fn node_bounds(&self, h: usize, parent: &Transform, chain: &Vec<usize>) -> (r: Option<Rect>)
        requires
            self.wf(),
            h < self.nodes@.len(),
            parent.wf(),
        ensures
            r == node_box(*self, h as int, *parent, chain@),
            solid_opt(r),
        decreases self.nodes@.len() - chain@.len(), self.nodes@.len() - h, fanout(*self, h as int)
            + 1,
    {
        let node = &self.nodes[h];
        proof {
            assert(node_wf(self.nodes@[h as int]));
        }
        let xf = parent.prepend(&node.transform);
        match &node.kind {
            NodeKind::Path { segments, fill, stroke } => {
                Self::path_bounds(&xf, segments, fill, stroke)
            },
            NodeKind::Image { view } => {
                if view.is_empty() {
                    None
                } else {
                    Some(xf.apply_rect(view))
                }
            },
            NodeKind::ClipPath | NodeKind::Mask => {
                if node.children.len() > 0 && h < node.children[0] && node.children[0]
                    < self.nodes.len() {
                    self.node_bounds(node.children[0], &xf, chain)
                } else {
                    None
                }
            },
            NodeKind::Root => self.children_bounds(h, &xf, chain),
            NodeKind::Group { clip_path, mask } => {
                let kids = self.children_bounds(h, &xf, chain);
                if self.ref_check(*clip_path, chain, false) {
                    let r = clip_path.unwrap();
                    let mut next = chain.clone();
                    next.push(r);
                    assert(next@ == chain@.push(r));
                    let region = self.node_bounds(r, &xf, &next);
                    proof {
                        crate::geom::lemma_intersect_solid(kids, region);
                    }
                    intersect_rects(kids, region)
                } else if self.ref_check(*mask, chain, true) {
                    let r = mask.unwrap();
                    let mut next = chain.clone();
                    next.push(r);
                    assert(next@ == chain@.push(r));
                    let region = self.node_bounds(r, &xf, &next);
                    proof {
                        crate::geom::lemma_intersect_solid(kids, region);
                    }
                    intersect_rects(kids, region)
                } else {
                    kids
                }
            },
        }
    }

    fn children_bounds(&self, h: usize, xf: &Transform, chain: &Vec<usize>) -> (r: Option<Rect>)
        requires
            self.wf(),
            h < self.nodes@.len(),
            xf.wf(),
        ensures
            r == children_box(*self, h as int, *xf, chain@, fanout(*self, h as int)),
            solid_opt(r),
        decreases self.nodes@.len() - chain@.len(), self.nodes@.len() - h, fanout(*self, h as int),
    {
        let kids = &self.nodes[h].children;
        let mut acc: Option<Rect> = None;
        let mut k: usize = 0;
        while k < kids.len()
            invariant
                self.wf(),
                h < self.nodes@.len(),
                xf.wf(),
                kids == &self.nodes@[h as int].children,
                k <= kids@.len(),
                acc == children_box(*self, h as int, *xf, chain@, k as int),
                solid_opt(acc),
            decreases kids@.len() - k,
        {
            let c = kids[k];
            if h < c && c < self.nodes.len() {
                let b = self.node_bounds(c, xf, chain);
                proof {
                    crate::geom::lemma_union_solid(acc, b);
                }
                acc = union_rects(acc, b);
            }
            k = k + 1;
        }
        acc
    }

    /// The bounds of everything visible, not clipped to the canvas; the zero
    /// rectangle at the origin when nothing is visible.
    pub fn raw_content_bbox(&self) -> (r: Rect)
        requires
            self.wf(),
        ensures
            r == rect_or_zero(content_box(*self)),
    {
        let chain: Vec<usize> = Vec::new();
        let b = self.node_bounds(0, &Transform::identity(), &chain);
        assert(chain@ == Seq::<usize>::empty());
        match b {
            Some(x) => x,
            None => Rect { min_x: 0, min_y: 0, max_x: 0, max_y: 0 },
        }
    }

    /// The visible content within the view box, its corners moved out to whole
    /// path units; the zero rectangle at the origin when nothing shows there.
    pub fn document_visible_bbox(&self) -> (r: Rect)
        requires
            self.wf(),
        ensures
            r == visible_box(*self),
    {
        let chain: Vec<usize> = Vec::new();
        let b = self.node_bounds(0, &Transform::identity(), &chain);
        assert(chain@ == Seq::<usize>::empty());
        let v = intersect_rects(b, Some(self.view_box));
        proof {
            crate::geom::lemma_intersect_solid(b, Some(self.view_box));
        }
        match v {
            Some(x) => Rect {
                min_x: floor_to_unit(x.min_x),
                min_y: floor_to_unit(x.min_y),
                max_x: ceil_to_unit(x.max_x),
                max_y: ceil_to_unit(x.max_y),
            },
            None => Rect { min_x: 0, min_y: 0, max_x: 0, max_y: 0 },
        }
    }
}

} // verus!
