//! What holds of the scene boxes across trees and calls.
use vstd::prelude::*;

use crate::geom::{ceil_unit, floor_unit, intersect_opt, union_opt, within_opt, Rect, Transform, UNIT};
use crate::scene::{
    children_box, content_box, fanout, fill_visible, node_box, ref_usable, snap_out,
    stroke_visible, visible_box, zero_rect, NodeKind, SceneTree, Stroke,
};

verus! {

/// `t2` is `t` with a stroke given to the unstroked path `p`.
pub open spec fn stroke_added(t: SceneTree, t2: SceneTree, p: int, s: Stroke) -> bool {
    &&& 0 <= p < t.nodes@.len()
    &&& t2.nodes@.len() == t.nodes@.len()
    &&& t2.view_box == t.view_box
    &&& forall|i: int| 0 <= i < t.nodes@.len() && i != p ==> t2.nodes@[i] == t.nodes@[i]
    &&& t2.nodes@[p].transform == t.nodes@[p].transform
    &&& t2.nodes@[p].children@ == t.nodes@[p].children@
    &&& match (t.nodes@[p].kind, t2.nodes@[p].kind) {
        (
            NodeKind::Path { segments, fill, stroke },
            NodeKind::Path { segments: segments2, fill: fill2, stroke: stroke2 },
        ) => segments2@ == segments@ && fill2 == fill && stroke is None && stroke2 == Some(s),
        _ => false,
    }
}

/// `t2` is `t` with the child at position `i` taken out of the child list of
/// `p`, that child being a path that shows neither fill nor stroke.
pub open spec fn hidden_path_removed(t: SceneTree, t2: SceneTree, p: int, i: int) -> bool {
    &&& 0 <= p < t.nodes@.len()
    &&& 0 <= i < t.nodes@[p].children@.len()
    &&& t2.nodes@.len() == t.nodes@.len()
    &&& t2.view_box == t.view_box
    &&& forall|j: int| 0 <= j < t.nodes@.len() && j != p ==> t2.nodes@[j] == t.nodes@[j]
    &&& t2.nodes@[p].transform == t.nodes@[p].transform
    &&& t2.nodes@[p].kind == t.nodes@[p].kind
    &&& t2.nodes@[p].children@ == t.nodes@[p].children@.remove(i)
    &&& !(t.nodes@[p].kind is ClipPath)
    &&& !(t.nodes@[p].kind is Mask)
    &&& hidden_path(t, t.nodes@[p].children@[i] as int)
}

pub open spec fn hidden_path(t: SceneTree, c: int) -> bool {
    0 <= c < t.nodes@.len() && match t.nodes@[c].kind {
        NodeKind::Path { fill, stroke, .. } => !fill_visible(fill) && !stroke_visible(stroke),
        _ => false,
    }
}

proof fn lemma_stroke_node(
    t: SceneTree,
    t2: SceneTree,
    p: int,
    s: Stroke,
    h: int,
    parent: Transform,
    chain: Seq<usize>,
)
    requires
        stroke_added(t, t2, p, s),
    ensures
        within_opt(node_box(t, h, parent, chain), node_box(t2, h, parent, chain)),
    decreases t.nodes@.len() - chain.len(), t.nodes@.len() - h, fanout(t, h) + 1,
{
    if 0 <= h < t.nodes@.len() {
        let node = t.nodes@[h];
        let xf = parent.then_after(node.transform);
        let len = node.children@.len() as int;
        lemma_stroke_children(t, t2, p, s, h, xf, chain, len);
        if h != p {
            assert(t2.nodes@[h] == node);
            match node.kind {
                NodeKind::Group { clip_path, mask } => {
                    assert(ref_usable(t, clip_path, chain, false) == ref_usable(
                        t2,
                        clip_path,
                        chain,
                        false,
                    ));
                    assert(ref_usable(t, mask, chain, true) == ref_usable(t2, mask, chain, true));
                    if ref_usable(t, clip_path, chain, false) {
                        let r = clip_path.unwrap();
                        lemma_stroke_node(t, t2, p, s, r as int, xf, chain.push(r));
                        crate::geom::lemma_intersect_monotone(
                            children_box(t, h, xf, chain, len),
                            node_box(t, r as int, xf, chain.push(r)),
                            children_box(t2, h, xf, chain, len),
                            node_box(t2, r as int, xf, chain.push(r)),
                        );
                    } else if ref_usable(t, mask, chain, true) {
                        let r = mask.unwrap();
                        lemma_stroke_node(t, t2, p, s, r as int, xf, chain.push(r));
                        crate::geom::lemma_intersect_monotone(
                            children_box(t, h, xf, chain, len),
                            node_box(t, r as int, xf, chain.push(r)),
                            children_box(t2, h, xf, chain, len),
                            node_box(t2, r as int, xf, chain.push(r)),
                        );
                    }
                },
                NodeKind::Root => {},
                NodeKind::Path { .. } => {},
                NodeKind::Image { .. } => {},
                _ => {
                    if len > 0 && h < node.children@[0] < t.nodes@.len() {
                        lemma_stroke_node(t, t2, p, s, node.children@[0] as int, xf, chain);
                    }
                },
            }
        }
    }
}

proof fn lemma_stroke_children(
    t: SceneTree,
    t2: SceneTree,
    p: int,
    s: Stroke,
    h: int,
    xf: Transform,
    chain: Seq<usize>,
    k: int,
)
    requires
        stroke_added(t, t2, p, s),
    ensures
        within_opt(children_box(t, h, xf, chain, k), children_box(t2, h, xf, chain, k)),
    decreases t.nodes@.len() - chain.len(), t.nodes@.len() - h, k,
{
    if k <= 0 || !(0 <= h < t.nodes@.len()) || k > t.nodes@[h].children@.len() {
    } else {
        assert(t2.nodes@[h].children@ == t.nodes@[h].children@);
        let c = t.nodes@[h].children@[k - 1];
        lemma_stroke_children(t, t2, p, s, h, xf, chain, k - 1);
        if h < c < t.nodes@.len() {
            lemma_stroke_node(t, t2, p, s, c as int, xf, chain);
            crate::geom::lemma_union_monotone(
                children_box(t, h, xf, chain, k - 1),
                node_box(t, c as int, xf, chain),
                children_box(t2, h, xf, chain, k - 1),
                node_box(t2, c as int, xf, chain),
            );
        }
    }
}

proof fn lemma_floor_unit_monotone(u: int, v: int)
    requires
        u <= v,
    ensures
        floor_unit(u) <= floor_unit(v),
{
    vstd::arithmetic::div_mod::lemma_div_is_ordered(u, v, UNIT as int);
    vstd::arithmetic::mul::lemma_mul_inequality(u / (UNIT as int), v / (UNIT as int), UNIT as int);
}

proof fn lemma_floor_unit_bounds(v: int)
    ensures
        v - UNIT < floor_unit(v) <= v,
{
    vstd::arithmetic::div_mod::lemma_fundamental_div_mod(v, UNIT as int);
}

proof fn lemma_snap_monotone(r: Rect, r2: Rect)
    requires
        r.wf(),
        r2.wf(),
        r2.encloses(r),
    ensures
        snap_out(r2).encloses(snap_out(r)),
{
    lemma_floor_unit_monotone(r2.min_x as int, r.min_x as int);
    lemma_floor_unit_monotone(r2.min_y as int, r.min_y as int);
    lemma_floor_unit_monotone(-r2.max_x, -r.max_x);
    lemma_floor_unit_monotone(-r2.max_y, -r.max_y);
    lemma_floor_unit_bounds(r.min_x as int);
    lemma_floor_unit_bounds(r.min_y as int);
    lemma_floor_unit_bounds(-r.max_x);
    lemma_floor_unit_bounds(-r.max_y);
    lemma_floor_unit_bounds(r2.min_x as int);
    lemma_floor_unit_bounds(r2.min_y as int);
    lemma_floor_unit_bounds(-r2.max_x);
    lemma_floor_unit_bounds(-r2.max_y);
}

/// Giving an unstroked path a stroke never shrinks the content box, nor the
/// visible box where something showed before.
pub proof fn lemma_stroke_never_shrinks(t: SceneTree, t2: SceneTree, p: int, s: Stroke)
    requires
        t.view_box.wf(),
        stroke_added(t, t2, p, s),
    ensures
        within_opt(content_box(t), content_box(t2)),
        within_opt(
            intersect_opt(content_box(t), Some(t.view_box)),
            intersect_opt(content_box(t2), Some(t2.view_box)),
        ),
        intersect_opt(content_box(t), Some(t.view_box)) is Some ==> visible_box(t2).encloses(
            visible_box(t),
        ),
{
    lemma_stroke_node(t, t2, p, s, 0, Transform::id(), Seq::empty());
    crate::geom::lemma_intersect_monotone(
        content_box(t),
        Some(t.view_box),
        content_box(t2),
        Some(t.view_box),
    );
    let a = intersect_opt(content_box(t), Some(t.view_box));
    let b = intersect_opt(content_box(t2), Some(t2.view_box));
    if a is Some {
        lemma_snap_monotone(a.unwrap(), b.unwrap());
    }
}

/// The child count of `h` in `t2` that matches `k` children of `h` in `t`.
pub open spec fn removed_count(p: int, i: int, h: int, k: int) -> int {
    if h == p && k > i {
        k - 1
    } else {
        k
    }
}

proof fn lemma_removed_node(
    t: SceneTree,
    t2: SceneTree,
    p: int,
    i: int,
    h: int,
    parent: Transform,
    chain: Seq<usize>,
)
    requires
        hidden_path_removed(t, t2, p, i),
    ensures
        node_box(t, h, parent, chain) == node_box(t2, h, parent, chain),
    decreases t.nodes@.len() - chain.len(), t.nodes@.len() - h, fanout(t, h) + 1,
{
    if 0 <= h < t.nodes@.len() {
        let node = t.nodes@[h];
        let xf = parent.then_after(node.transform);
        let len = node.children@.len() as int;
        lemma_removed_children(t, t2, p, i, h, xf, chain, len);
        assert(t2.nodes@[h].kind == node.kind);
        assert(t2.nodes@[h].transform == node.transform);
        if h != p {
            assert(t2.nodes@[h] == node);
        } else {
            assert(t2.nodes@[h].children@.len() == len - 1);
        }
        match node.kind {
            NodeKind::Group { clip_path, mask } => {
                assert(ref_usable(t, clip_path, chain, false) == ref_usable(
                    t2,
                    clip_path,
                    chain,
                    false,
                ));
                assert(ref_usable(t, mask, chain, true) == ref_usable(t2, mask, chain, true));
                if ref_usable(t, clip_path, chain, false) {
                    let r = clip_path.unwrap();
                    lemma_removed_node(t, t2, p, i, r as int, xf, chain.push(r));
                } else if ref_usable(t, mask, chain, true) {
                    let r = mask.unwrap();
                    lemma_removed_node(t, t2, p, i, r as int, xf, chain.push(r));
                }
            },
            NodeKind::Root => {},
            NodeKind::Path { .. } => {},
            NodeKind::Image { .. } => {},
            _ => {
                if len > 0 && h < node.children@[0] < t.nodes@.len() {
                    lemma_removed_node(t, t2, p, i, node.children@[0] as int, xf, chain);
                }
            },
        }
    }
}

proof fn lemma_removed_children(
    t: SceneTree,
    t2: SceneTree,
    p: int,
    i: int,
    h: int,
    xf: Transform,
    chain: Seq<usize>,
    k: int,
)
    requires
        hidden_path_removed(t, t2, p, i),
    ensures
        children_box(t, h, xf, chain, k) == children_box(t2, h, xf, chain, removed_count(p, i, h, k)),
    decreases t.nodes@.len() - chain.len(), t.nodes@.len() - h, k,
{
    if k <= 0 || !(0 <= h < t.nodes@.len()) || k > t.nodes@[h].children@.len() {
        if 0 <= h < t.nodes@.len() && h == p && k > t.nodes@[h].children@.len() {
            assert(removed_count(p, i, h, k) > t2.nodes@[h].children@.len());
        }
    } else {
        let kids = t.nodes@[h].children@;
        let c = kids[k - 1];
        lemma_removed_children(t, t2, p, i, h, xf, chain, k - 1);
        if h < c < t.nodes@.len() {
            lemma_removed_node(t, t2, p, i, c as int, xf, chain);
        }
        if h == p && k - 1 == i {
            assert(hidden_path(t, c as int));
            assert(node_box(t, c as int, xf, chain) is None);
        } else if h == p && k - 1 > i {
            assert(t2.nodes@[h].children@[k - 2] == c);
        } else if h != p {
            assert(t2.nodes@[h] == t.nodes@[h]);
        } else {
            assert(t2.nodes@[h].children@[k - 1] == c);
        }
    }
}

/// Taking a path that shows neither fill nor stroke out of the child list of
/// a root or group changes neither the content box nor the visible box.
pub proof fn lemma_hidden_path_removal(t: SceneTree, t2: SceneTree, p: int, i: int)
    requires
        hidden_path_removed(t, t2, p, i),
    ensures
        content_box(t2) == content_box(t),
        visible_box(t2) == visible_box(t),
{
    lemma_removed_node(t, t2, p, i, 0, Transform::id(), Seq::empty());
}

/// The box of a group with two children and neither clip path nor mask is the
/// union of its children's boxes, in either order.
pub proof fn lemma_group_is_union(t: SceneTree, h: int, parent: Transform, chain: Seq<usize>)
    requires
        0 <= h < t.nodes@.len(),
        t.nodes@[h].kind == (NodeKind::Group { clip_path: None, mask: None }),
        t.nodes@[h].children@.len() == 2,
        h < t.nodes@[h].children@[0] < t.nodes@.len(),
        h < t.nodes@[h].children@[1] < t.nodes@.len(),
    ensures
        ({
            let xf = parent.then_after(t.nodes@[h].transform);
            let a = node_box(t, t.nodes@[h].children@[0] as int, xf, chain);
            let b = node_box(t, t.nodes@[h].children@[1] as int, xf, chain);
            node_box(t, h, parent, chain) == union_opt(a, b) && node_box(t, h, parent, chain)
                == union_opt(b, a)
        }),
{
    let xf = parent.then_after(t.nodes@[h].transform);
    assert(children_box(t, h, xf, chain, 0) is None);
    let a = node_box(t, t.nodes@[h].children@[0] as int, xf, chain);
    let b = node_box(t, t.nodes@[h].children@[1] as int, xf, chain);
    assert(children_box(t, h, xf, chain, 1) == a);
    assert(children_box(t, h, xf, chain, 2) == union_opt(a, b));
    assert(!ref_usable(t, None, chain, false));
    assert(node_box(t, h, parent, chain) == children_box(t, h, xf, chain, 2));
    crate::geom::lemma_union_commutative(a, b);
}

proof fn lemma_unit_multiple_below(m: int, v: int)
    requires
        m % (UNIT as int) == 0,
        m <= v,
    ensures
        m <= floor_unit(v),
{
    vstd::arithmetic::div_mod::lemma_fundamental_div_mod(m, UNIT as int);
    lemma_floor_unit_monotone(m, v);
    assert(floor_unit(m) == m) by (nonlinear_arith)
        requires
            m == UNIT * (m / (UNIT as int)) + m % (UNIT as int),
            m % (UNIT as int) == 0,
            floor_unit(m) == (m / (UNIT as int)) * UNIT,
    ;
}

proof fn lemma_unit_multiple_above(m: int, v: int)
    requires
        m % (UNIT as int) == 0,
        v <= m,
    ensures
        ceil_unit(v) <= m,
{
    vstd::arithmetic::div_mod::lemma_fundamental_div_mod(m, UNIT as int);
    let q = m / (UNIT as int);
    assert(-m == (-q) * UNIT) by (nonlinear_arith)
        requires
            m == UNIT * q + m % (UNIT as int),
            m % (UNIT as int) == 0,
    ;
    vstd::arithmetic::div_mod::lemma_mod_multiples_basic(-q, UNIT as int);
    lemma_unit_multiple_below(-m, -v);
}

/// Where the view box's corners are whole path units, the visible box lies
/// within the view box, unless nothing shows there and the view box misses
/// the origin.
pub proof fn lemma_visible_within_view_box(t: SceneTree)
    requires
        t.view_box.wf(),
        t.view_box.min_x % UNIT == 0,
        t.view_box.min_y % UNIT == 0,
        t.view_box.max_x % UNIT == 0,
        t.view_box.max_y % UNIT == 0,
        intersect_opt(content_box(t), Some(t.view_box)) is Some || t.view_box.encloses(
            zero_rect(),
        ),
    ensures
        t.view_box.encloses(visible_box(t)),
{
    let v = t.view_box;
    match intersect_opt(content_box(t), Some(v)) {
        Some(r) => {
            lemma_unit_multiple_below(v.min_x as int, r.min_x as int);
            lemma_unit_multiple_below(v.min_y as int, r.min_y as int);
            lemma_unit_multiple_above(v.max_x as int, r.max_x as int);
            lemma_unit_multiple_above(v.max_y as int, r.max_y as int);
            lemma_floor_unit_bounds(r.min_x as int);
            lemma_floor_unit_bounds(r.min_y as int);
            lemma_floor_unit_bounds(-r.max_x);
            lemma_floor_unit_bounds(-r.max_y);
        },
        None => {},
    }
}

proof fn lemma_descale_scaled(v: int)
    ensures
        crate::geom::descale(v * crate::geom::COEF_ONE) == v,
{
    let k = crate::geom::COEF_ONE as int;
    vstd::arithmetic::div_mod::lemma_fundamental_div_mod(v * k, k);
    assert((v * k) / k == v) by (nonlinear_arith)
        requires
            v * k == k * ((v * k) / k) + (v * k) % k,
            0 <= (v * k) % k < k,
            k > 0,
    ;
}

/// Composing with the identity changes no well-formed transform.
pub proof fn lemma_then_after_identity(xf: Transform)
    requires
        xf.wf(),
    ensures
        xf.then_after(Transform::id()) == xf,
{
    lemma_descale_scaled(xf.a as int);
    lemma_descale_scaled(xf.b as int);
    lemma_descale_scaled(xf.c as int);
    lemma_descale_scaled(xf.d as int);
    assert(crate::geom::descale(0) == 0);
}

/// A group without clip path or mask, whose children are `a` and a plain
/// group (identity transform, no clip path or mask) of `b` and `c`, has the
/// union of the boxes of `a`, `b` and `c`, however the union is grouped.
pub proof fn lemma_nested_group_is_union(
    t: SceneTree,
    h: int,
    g: int,
    parent: Transform,
    chain: Seq<usize>,
)
    requires
        parent.wf(),
        t.nodes@[h].transform.wf(),
        0 <= h < g < t.nodes@.len(),
        t.nodes@[h].kind == (NodeKind::Group { clip_path: None, mask: None }),
        t.nodes@[g].kind == (NodeKind::Group { clip_path: None, mask: None }),
        t.nodes@[g].transform == Transform::id(),
        t.nodes@[h].children@.len() == 2,
        h < t.nodes@[h].children@[0] < t.nodes@.len(),
        t.nodes@[h].children@[1] == g,
        t.nodes@[g].children@.len() == 2,
        g < t.nodes@[g].children@[0] < t.nodes@.len(),
        g < t.nodes@[g].children@[1] < t.nodes@.len(),
    ensures
        ({
            let xf = parent.then_after(t.nodes@[h].transform);
            let a = node_box(t, t.nodes@[h].children@[0] as int, xf, chain);
            let b = node_box(t, t.nodes@[g].children@[0] as int, xf, chain);
            let c = node_box(t, t.nodes@[g].children@[1] as int, xf, chain);
            &&& node_box(t, h, parent, chain) == union_opt(a, union_opt(b, c))
            &&& node_box(t, h, parent, chain) == union_opt(union_opt(a, b), c)
        }),
{
    let xf = parent.then_after(t.nodes@[h].transform);
    assert(xf.wf());
    lemma_then_after_identity(xf);
    lemma_group_is_union(t, h, parent, chain);
    lemma_group_is_union(t, g, xf, chain);
    let a = node_box(t, t.nodes@[h].children@[0] as int, xf, chain);
    let b = node_box(t, t.nodes@[g].children@[0] as int, xf, chain);
    let c = node_box(t, t.nodes@[g].children@[1] as int, xf, chain);
    crate::geom::lemma_union_associative(a, b, c);
}

} // verus!
