//! Points, rectangles and affine transforms on fixed-point integer coordinates.
use vstd::prelude::*;

verus! {

/// Fixed-point steps per path unit: a coordinate counts thousandths of a unit.
pub const UNIT: i64 = 1000;

/// Largest magnitude of a coordinate; results of mapping are clamped to it.
pub const COORD_MAX: i64 = 0x100_0000_0000;

/// The fixed-point value of a linear transform coefficient that stands for one.
pub const COEF_ONE: i64 = 0x1_0000;

/// Largest magnitude of a linear transform coefficient.
pub const COEF_MAX: i64 = 0x8000_0000;

#[derive(Clone, Copy, Debug, PartialEq, Eq, Structural)]
pub struct Point {
    pub x: i64,
    pub y: i64,
}

/// An axis-aligned rectangle by its two corners. It is empty when a minimum
/// exceeds the matching maximum.
#[derive(Clone, Copy, Debug, PartialEq, Eq, Structural)]
pub struct Rect {
    pub min_x: i64,
    pub min_y: i64,
    pub max_x: i64,
    pub max_y: i64,
}

pub open spec fn in_range(v: int) -> bool {
    -COORD_MAX <= v <= COORD_MAX
}

pub open spec fn clamp(v: int) -> int {
    if v < -COORD_MAX {
        -COORD_MAX as int
    } else if v > COORD_MAX {
        COORD_MAX as int
    } else {
        v
    }
}

impl Point {
    pub open spec fn wf(self) -> bool {
        in_range(self.x as int) && in_range(self.y as int)
    }
}

impl Rect {
    pub open spec fn wf(self) -> bool {
        in_range(self.min_x as int) && in_range(self.min_y as int) && in_range(self.max_x as int)
            && in_range(self.max_y as int)
    }

    pub open spec fn empty(self) -> bool {
        self.min_x > self.max_x || self.min_y > self.max_y
    }

    /// Every point of `inner` lies in `self`.
    pub open spec fn encloses(self, inner: Rect) -> bool {
        self.min_x <= inner.min_x && self.min_y <= inner.min_y && inner.max_x <= self.max_x
            && inner.max_y <= self.max_y
    }

    pub open spec fn point_rect(p: Point) -> Rect {
        Rect { min_x: p.x, min_y: p.y, max_x: p.x, max_y: p.y }
    }

    pub open spec fn hull(self, o: Rect) -> Rect {
        Rect {
            min_x: if self.min_x <= o.min_x { self.min_x } else { o.min_x },
            min_y: if self.min_y <= o.min_y { self.min_y } else { o.min_y },
            max_x: if self.max_x >= o.max_x { self.max_x } else { o.max_x },
            max_y: if self.max_y >= o.max_y { self.max_y } else { o.max_y },
        }
    }

    pub open spec fn meet(self, o: Rect) -> Rect {
        Rect {
            min_x: if self.min_x >= o.min_x { self.min_x } else { o.min_x },
            min_y: if self.min_y >= o.min_y { self.min_y } else { o.min_y },
            max_x: if self.max_x <= o.max_x { self.max_x } else { o.max_x },
            max_y: if self.max_y <= o.max_y { self.max_y } else { o.max_y },
        }
    }

    /// The rectangle with corner `(x, y)` and the given size.
    pub fn from_origin_size(x: i64, y: i64, width: i64, height: i64) -> (r: Rect)
        requires
            i64::MIN <= x + width <= i64::MAX,
            i64::MIN <= y + height <= i64::MAX,
        ensures
            r == (Rect { min_x: x, min_y: y, max_x: (x + width) as i64, max_y: (y + height) as i64 }),
    {
        Rect { min_x: x, min_y: y, max_x: x + width, max_y: y + height }
    }

    pub fn x(&self) -> (r: i64)
        ensures
            r == self.min_x,
    {
        self.min_x
    }

    pub fn y(&self) -> (r: i64)
        ensures
            r == self.min_y,
    {
        self.min_y
    }

    pub fn width(&self) -> (r: i64)
        requires
            i64::MIN <= self.max_x - self.min_x <= i64::MAX,
        ensures
            r == self.max_x - self.min_x,
    {
        self.max_x - self.min_x
    }

    pub fn height(&self) -> (r: i64)
        requires
            i64::MIN <= self.max_y - self.min_y <= i64::MAX,
        ensures
            r == self.max_y - self.min_y,
    {
        self.max_y - self.min_y
    }

    pub fn is_empty(&self) -> (r: bool)
        ensures
            r == self.empty(),
    {
        self.min_x > self.max_x || self.min_y > self.max_y
    }

    /// The smallest rectangle holding both.
    pub fn union(&self, o: &Rect) -> (r: Rect)
        ensures
            r == self.hull(*o),
    {
        Rect {
            min_x: if self.min_x <= o.min_x { self.min_x } else { o.min_x },
            min_y: if self.min_y <= o.min_y { self.min_y } else { o.min_y },
            max_x: if self.max_x >= o.max_x { self.max_x } else { o.max_x },
            max_y: if self.max_y >= o.max_y { self.max_y } else { o.max_y },
        }
    }

    /// The common part of both; empty when they are disjoint.
    pub fn intersect(&self, o: &Rect) -> (r: Rect)
        ensures
            r == self.meet(*o),
    {
        Rect {
            min_x: if self.min_x >= o.min_x { self.min_x } else { o.min_x },
            min_y: if self.min_y >= o.min_y { self.min_y } else { o.min_y },
            max_x: if self.max_x <= o.max_x { self.max_x } else { o.max_x },
            max_y: if self.max_y <= o.max_y { self.max_y } else { o.max_y },
        }
    }
}

/// An affine map `(x, y) -> (a*x + c*y + e, b*x + d*y + f)`, with `a` to `d` in
/// fixed point (`COEF_ONE` stands for one) and `e`, `f` in coordinates.
#[derive(Clone, Copy, Debug, PartialEq, Eq, Structural)]
pub struct Transform {
    pub a: i64,
    pub b: i64,
    pub c: i64,
    pub d: i64,
    pub e: i64,
    pub f: i64,
}

pub open spec fn coef_in_range(v: int) -> bool {
    -COEF_MAX <= v <= COEF_MAX
}

pub open spec fn clamp_coef(v: int) -> int {
    if v < -COEF_MAX {
        -COEF_MAX as int
    } else if v > COEF_MAX {
        COEF_MAX as int
    } else {
        v
    }
}

/// A fixed-point product brought back to scale, rounded down.
pub open spec fn descale(v: int) -> int {
    v / (COEF_ONE as int)
}

fn descale_exec(v: i128) -> (r: i128)
    requires
        -0x2000_0000_0000_0000_0000 <= v <= 0x2000_0000_0000_0000_0000,
    ensures
        r == descale(v as int),
{
    let one: i128 = COEF_ONE as i128;
    if v >= 0 {
        proof {
            vstd::arithmetic::div_mod::lemma_div_pos_is_pos(v as int, one as int);
            vstd::arithmetic::div_mod::lemma_div_is_ordered_by_denominator(v as int, 1, one as int);
        }
        (v as u128 / one as u128) as i128
    } else {
        let m: u128 = (0 - v) as u128;
        let q: u128 = (m + (one as u128) - 1) / (one as u128);
        proof {
            vstd::arithmetic::div_mod::lemma_fundamental_div_mod(
                (m + one - 1) as int,
                one as int,
            );
            vstd::arithmetic::div_mod::lemma_fundamental_div_mod(v as int, one as int);
            vstd::arithmetic::div_mod::lemma_div_is_ordered_by_denominator(
                (m + one - 1) as int,
                1,
                one as int,
            );
            assert(q as int == -(v as int / one as int)) by (nonlinear_arith)
                requires
                    (m + one - 1) as int == one * (q as int) + (m + one - 1) as int % (one as int),
                    0 <= (m + one - 1) as int % (one as int) < one,
                    v == one * (v as int / one as int) + v as int % (one as int),
                    0 <= v as int % (one as int) < one,
                    m == -v,
                    one > 0,
            ;
        }
        0 - (q as i128)
    }
}

fn clamp_exec(v: i128) -> (r: i64)
    ensures
        r == clamp(v as int),
{
    if v < -(COORD_MAX as i128) {
        -COORD_MAX
    } else if v > COORD_MAX as i128 {
        COORD_MAX
    } else {
        v as i64
    }
}

fn clamp_coef_exec(v: i128) -> (r: i64)
    ensures
        r == clamp_coef(v as int),
{
    if v < -(COEF_MAX as i128) {
        -COEF_MAX
    } else if v > COEF_MAX as i128 {
        COEF_MAX
    } else {
        v as i64
    }
}

impl Transform {
    pub open spec fn wf(self) -> bool {
        coef_in_range(self.a as int) && coef_in_range(self.b as int) && coef_in_range(self.c as int)
            && coef_in_range(self.d as int) && in_range(self.e as int) && in_range(self.f as int)
    }

    pub open spec fn id() -> Transform {
        Transform { a: COEF_ONE, b: 0, c: 0, d: COEF_ONE, e: 0, f: 0 }
    }

    pub open spec fn map_x(self, x: int, y: int) -> int {
        clamp(descale(self.a * x + self.c * y) + self.e)
    }

    pub open spec fn map_y(self, x: int, y: int) -> int {
        clamp(descale(self.b * x + self.d * y) + self.f)
    }

    pub open spec fn map(self, p: Point) -> Point {
        Point { x: self.map_x(p.x as int, p.y as int) as i64, y: self.map_y(p.x as int, p.y as int) as i64 }
    }

    /// The map that applies `local` first and then `self`, with every
    /// coefficient rounded down to fixed point and clamped to its range.
    pub open spec fn then_after(self, local: Transform) -> Transform {
        Transform {
            a: clamp_coef(descale(self.a * local.a + self.c * local.b)) as i64,
            b: clamp_coef(descale(self.b * local.a + self.d * local.b)) as i64,
            c: clamp_coef(descale(self.a * local.c + self.c * local.d)) as i64,
            d: clamp_coef(descale(self.b * local.c + self.d * local.d)) as i64,
            e: clamp(descale(self.a * local.e + self.c * local.f) + self.e) as i64,
            f: clamp(descale(self.b * local.e + self.d * local.f) + self.f) as i64,
        }
    }

    pub fn identity() -> (r: Transform)
        ensures
            r == Transform::id(),
            r.wf(),
    {
        Transform { a: COEF_ONE, b: 0, c: 0, d: COEF_ONE, e: 0, f: 0 }
    }

    /// This transform composed with `local`: the result maps a point by
    /// `local` first, then by `self`.
    pub fn prepend(&self, local: &Transform) -> (r: Transform)
        requires
            self.wf(),
            local.wf(),
        ensures
            r == self.then_after(*local),
            r.wf(),
    {
        let (pa, pb, pc, pd, pe, pf) = (
            self.a as i128,
            self.b as i128,
            self.c as i128,
            self.d as i128,
            self.e as i128,
            self.f as i128,
        );
        let (la, lb, lc, ld, le, lf) = (
            local.a as i128,
            local.b as i128,
            local.c as i128,
            local.d as i128,
            local.e as i128,
            local.f as i128,
        );
        proof {
            lemma_products(pa as int, pb as int, pc as int, pd as int, la as int, lb as int, lc as int, ld as int, le as int, lf as int);
        }
        let a = clamp_coef_exec(descale_exec(pa * la + pc * lb));
        let b = clamp_coef_exec(descale_exec(pb * la + pd * lb));
        let c = clamp_coef_exec(descale_exec(pa * lc + pc * ld));
        let d = clamp_coef_exec(descale_exec(pb * lc + pd * ld));
        let se = descale_exec(pa * le + pc * lf);
        let sf = descale_exec(pb * le + pd * lf);
        proof {
            lemma_descale_bound(pa * le + pc * lf);
            lemma_descale_bound(pb * le + pd * lf);
        }
        let e = clamp_exec(se + pe);
        let f = clamp_exec(sf + pf);
        Transform { a, b, c, d, e, f }
    }

    /// The image of `p`, clamped to the coordinate range.
    pub fn apply(&self, p: Point) -> (r: Point)
        requires
            self.wf(),
            p.wf(),
        ensures
            r == self.map(p),
            r.wf(),
    {
        let (a, b, c, d) = (self.a as i128, self.b as i128, self.c as i128, self.d as i128);
        let (x, y) = (p.x as i128, p.y as i128);
        proof {
            lemma_product_bound(a as int, x as int);
            lemma_product_bound(b as int, x as int);
            lemma_product_bound(c as int, y as int);
            lemma_product_bound(d as int, y as int);
        }
        let sx = descale_exec(a * x + c * y);
        let sy = descale_exec(b * x + d * y);
        proof {
            lemma_descale_bound(a * x + c * y);
            lemma_descale_bound(b * x + d * y);
        }
        let rx = clamp_exec(sx + self.e as i128);
        let ry = clamp_exec(sy + self.f as i128);
        Point { x: rx, y: ry }
    }
}

proof fn lemma_product_bound(u: int, v: int)
    requires
        coef_in_range(u),
        -COORD_MAX * 2 <= v <= COORD_MAX * 2,
    ensures
        -0x1000_0000_0000_0000_0000 <= u * v <= 0x1000_0000_0000_0000_0000,
{
    assert(-0x1000_0000_0000_0000_0000 <= u * v <= 0x1000_0000_0000_0000_0000) by (nonlinear_arith)
        requires
            -0x8000_0000 <= u <= 0x8000_0000,
            -0x200_0000_0000 <= v <= 0x200_0000_0000,
    ;
}

proof fn lemma_products(
    pa: int,
    pb: int,
    pc: int,
    pd: int,
    la: int,
    lb: int,
    lc: int,
    ld: int,
    le: int,
    lf: int,
)
    requires
        coef_in_range(pa),
        coef_in_range(pb),
        coef_in_range(pc),
        coef_in_range(pd),
        -COORD_MAX * 2 <= la <= COORD_MAX * 2,
        -COORD_MAX * 2 <= lb <= COORD_MAX * 2,
        -COORD_MAX * 2 <= lc <= COORD_MAX * 2,
        -COORD_MAX * 2 <= ld <= COORD_MAX * 2,
        -COORD_MAX * 2 <= le <= COORD_MAX * 2,
        -COORD_MAX * 2 <= lf <= COORD_MAX * 2,
    ensures
        -0x1000_0000_0000_0000_0000 <= pa * la <= 0x1000_0000_0000_0000_0000,
        -0x1000_0000_0000_0000_0000 <= pc * lb <= 0x1000_0000_0000_0000_0000,
        -0x1000_0000_0000_0000_0000 <= pb * la <= 0x1000_0000_0000_0000_0000,
        -0x1000_0000_0000_0000_0000 <= pd * lb <= 0x1000_0000_0000_0000_0000,
        -0x1000_0000_0000_0000_0000 <= pa * lc <= 0x1000_0000_0000_0000_0000,
        -0x1000_0000_0000_0000_0000 <= pc * ld <= 0x1000_0000_0000_0000_0000,
        -0x1000_0000_0000_0000_0000 <= pb * lc <= 0x1000_0000_0000_0000_0000,
        -0x1000_0000_0000_0000_0000 <= pd * ld <= 0x1000_0000_0000_0000_0000,
        -0x1000_0000_0000_0000_0000 <= pa * le <= 0x1000_0000_0000_0000_0000,
        -0x1000_0000_0000_0000_0000 <= pc * lf <= 0x1000_0000_0000_0000_0000,
        -0x1000_0000_0000_0000_0000 <= pb * le <= 0x1000_0000_0000_0000_0000,
        -0x1000_0000_0000_0000_0000 <= pd * lf <= 0x1000_0000_0000_0000_0000,
{
    lemma_product_bound(pa, la);
    lemma_product_bound(pc, lb);
    lemma_product_bound(pb, la);
    lemma_product_bound(pd, lb);
    lemma_product_bound(pa, lc);
    lemma_product_bound(pc, ld);
    lemma_product_bound(pb, lc);
    lemma_product_bound(pd, ld);
    lemma_product_bound(pa, le);
    lemma_product_bound(pc, lf);
    lemma_product_bound(pb, le);
    lemma_product_bound(pd, lf);
}

proof fn lemma_descale_bound(v: int)
    requires
        -0x2000_0000_0000_0000_0000 <= v <= 0x2000_0000_0000_0000_0000,
    ensures
        -0x2000_0000_0000_0000_0000 <= descale(v) <= 0x2000_0000_0000_0000_0000,
{
    vstd::arithmetic::div_mod::lemma_fundamental_div_mod(v, COEF_ONE as int);
}

/// The axis-aligned bounds of the four mapped corners of `r`.
pub open spec fn map_rect(xf: Transform, r: Rect) -> Rect {
    let p1 = xf.map(Point { x: r.min_x, y: r.min_y });
    let p2 = xf.map(Point { x: r.max_x, y: r.min_y });
    let p3 = xf.map(Point { x: r.min_x, y: r.max_y });
    let p4 = xf.map(Point { x: r.max_x, y: r.max_y });
    Rect::point_rect(p1).hull(Rect::point_rect(p2)).hull(Rect::point_rect(p3)).hull(
        Rect::point_rect(p4),
    )
}

impl Transform {
    /// Bounds of `r` carried through this transform: all four corners are
    /// mapped, so rotation and skew are accounted for.
    pub fn apply_rect(&self, r: &Rect) -> (m: Rect)
        requires
            self.wf(),
            r.wf(),
        ensures
            m == map_rect(*self, *r),
            m.wf(),
            !m.empty(),
    {
        let p1 = self.apply(Point { x: r.min_x, y: r.min_y });
        let p2 = self.apply(Point { x: r.max_x, y: r.min_y });
        let p3 = self.apply(Point { x: r.min_x, y: r.max_y });
        let p4 = self.apply(Point { x: r.max_x, y: r.max_y });
        point_rect(p1).union(&point_rect(p2)).union(&point_rect(p3)).union(&point_rect(p4))
    }
}

pub fn point_rect(p: Point) -> (r: Rect)
    ensures
        r == Rect::point_rect(p),
{
    Rect { min_x: p.x, min_y: p.y, max_x: p.x, max_y: p.y }
}

/// Rounds down to a whole path unit.
pub open spec fn floor_unit(v: int) -> int {
    (v / (UNIT as int)) * UNIT
}

/// Rounds up to a whole path unit.
pub open spec fn ceil_unit(v: int) -> int {
    -floor_unit(-v)
}

pub fn floor_to_unit(v: i64) -> (r: i64)
    requires
        in_range(v as int),
    ensures
        r == floor_unit(v as int),
        v - UNIT < r <= v,
{
    proof {
        vstd::arithmetic::div_mod::lemma_fundamental_div_mod(v as int, UNIT as int);
    }
    if v >= 0 {
        (v / UNIT) * UNIT
    } else {
        let m: i64 = -v;
        let q: i64 = (m + UNIT - 1) / UNIT;
        proof {
            vstd::arithmetic::div_mod::lemma_fundamental_div_mod((m + UNIT - 1) as int, UNIT as int);
            assert(q as int == -(v as int / UNIT as int)) by (nonlinear_arith)
                requires
                    (m + UNIT - 1) as int == UNIT * (q as int) + (m + UNIT - 1) as int % (UNIT as int),
                    0 <= (m + UNIT - 1) as int % (UNIT as int) < UNIT,
                    v == UNIT * (v as int / UNIT as int) + v as int % (UNIT as int),
                    0 <= v as int % (UNIT as int) < UNIT,
                    m == -v,
            ;
        }
        -(q * UNIT)
    }
}

pub fn ceil_to_unit(v: i64) -> (r: i64)
    requires
        in_range(v as int),
    ensures
        r == ceil_unit(v as int),
        v <= r < v + UNIT,
{
    -floor_to_unit(-v)
}

/// Union where `None` contributes nothing.
pub open spec fn union_opt(a: Option<Rect>, b: Option<Rect>) -> Option<Rect> {
    match (a, b) {
        (Some(x), Some(y)) => Some(x.hull(y)),
        (Some(x), None) => Some(x),
        (None, _) => b,
    }
}

/// Intersection where `None` is nothing and an empty result is `None`.
pub open spec fn intersect_opt(a: Option<Rect>, b: Option<Rect>) -> Option<Rect> {
    match (a, b) {
        (Some(x), Some(y)) => if x.meet(y).empty() {
            None
        } else {
            Some(x.meet(y))
        },
        _ => None,
    }
}

/// `a` lies within `b`, where `None` lies within everything.
pub open spec fn within_opt(a: Option<Rect>, b: Option<Rect>) -> bool {
    match (a, b) {
        (None, _) => true,
        (Some(x), Some(y)) => y.encloses(x),
        (Some(_), None) => false,
    }
}

/// A present rectangle is well formed and not empty.
pub open spec fn solid_opt(a: Option<Rect>) -> bool {
    match a {
        Some(r) => r.wf() && !r.empty(),
        None => true,
    }
}

pub fn union_rects(a: Option<Rect>, b: Option<Rect>) -> (r: Option<Rect>)
    ensures
        r == union_opt(a, b),
{
    match (a, b) {
        (Some(x), Some(y)) => Some(x.union(&y)),
        (Some(x), None) => Some(x),
        (None, _) => b,
    }
}

pub fn intersect_rects(a: Option<Rect>, b: Option<Rect>) -> (r: Option<Rect>)
    ensures
        r == intersect_opt(a, b),
{
    match (a, b) {
        (Some(x), Some(y)) => {
            let m = x.intersect(&y);
            if m.is_empty() {
                None
            } else {
                Some(m)
            }
        },
        _ => None,
    }
}

/// Union of optional rectangles is commutative.
pub proof fn lemma_union_commutative(a: Option<Rect>, b: Option<Rect>)
    ensures
        union_opt(a, b) == union_opt(b, a),
{
}

/// Union of optional rectangles is associative.
pub proof fn lemma_union_associative(a: Option<Rect>, b: Option<Rect>, c: Option<Rect>)
    ensures
        union_opt(union_opt(a, b), c) == union_opt(a, union_opt(b, c)),
{
}

pub proof fn lemma_union_solid(a: Option<Rect>, b: Option<Rect>)
    requires
        solid_opt(a),
        solid_opt(b),
    ensures
        solid_opt(union_opt(a, b)),
        within_opt(a, union_opt(a, b)),
        within_opt(b, union_opt(a, b)),
{
}

pub proof fn lemma_intersect_solid(a: Option<Rect>, b: Option<Rect>)
    requires
        solid_opt(a),
        b is Some ==> b.unwrap().wf(),
    ensures
        solid_opt(intersect_opt(a, b)),
        within_opt(intersect_opt(a, b), a),
        within_opt(intersect_opt(a, b), b),
{
}

/// Union is monotone in both arguments.
pub proof fn lemma_union_monotone(a: Option<Rect>, b: Option<Rect>, a2: Option<Rect>, b2: Option<Rect>)
    requires
        within_opt(a, a2),
        within_opt(b, b2),
    ensures
        within_opt(union_opt(a, b), union_opt(a2, b2)),
{
}

/// Intersection is monotone in both arguments.
pub proof fn lemma_intersect_monotone(
    a: Option<Rect>,
    b: Option<Rect>,
    a2: Option<Rect>,
    b2: Option<Rect>,
)
    requires
        within_opt(a, a2),
        within_opt(b, b2),
    ensures
        within_opt(intersect_opt(a, b), intersect_opt(a2, b2)),
{
}

} // verus!
