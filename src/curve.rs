//! The extent of a cubic Bézier curve along one axis: its end values and its
//! values at the turning points inside the curve, rounded outward to whole
//! coordinates.
//!
//! With control values `p0..p3`, `a = p1 - p0`, `b = p2 - p1`, `c = p3 - p2`,
//! the curve is `p0 + A t³ + 3B t² + 3C t` with `A = a - 2b + c`, `B = b - a`,
//! `C = a`. Its derivative vanishes at `t = (-B ± √D) / A`, `D = B² - AC`,
//! where the curve's value is `p0 + (N ∓ √Q) / A²` with `N = 2DB - ABC` and
//! `Q = 4D³`. Where `A = 0` the one turning point is `t = -C / 2B`, of value
//! `p0 - 3C² / 4B`. All of this is decided on integers.
use vstd::prelude::*;

use crate::geom::{clamp, in_range, COORD_MAX};

verus! {

/// Largest difference between successive control values along an axis for
/// which turning points are computed; a curve that spreads wider on an axis is
/// bounded there by its control values.
pub const TURN_SPREAD: i64 = 0x8_0000;

/// `n / d` rounded down, for `d != 0`.
pub open spec fn fdiv(n: int, d: int) -> int {
    if d > 0 {
        n / d
    } else {
        (-n) / (-d)
    }
}

/// `n / d` rounded up, for `d != 0`.
pub open spec fn cdiv(n: int, d: int) -> int {
    -fdiv(-n, d)
}

pub open spec fn is_floor_sqrt(q: int, r: int) -> bool {
    0 <= r && r * r <= q && q < (r + 1) * (r + 1)
}

/// `√q` rounded down, for `q >= 0`.
pub open spec fn floor_sqrt(q: int) -> int {
    choose|r: int| is_floor_sqrt(q, r)
}

/// `√q` rounded up, for `q >= 0`.
pub open spec fn ceil_sqrt(q: int) -> int {
    if floor_sqrt(q) * floor_sqrt(q) == q {
        floor_sqrt(q)
    } else {
        floor_sqrt(q) + 1
    }
}

/// `√d > k`, for `d >= 0`.
pub open spec fn sqrt_gt(d: int, k: int) -> bool {
    k < 0 || d > k * k
}

/// `√d < k`, for `d >= 0`.
pub open spec fn sqrt_lt(d: int, k: int) -> bool {
    k > 0 && d < k * k
}

/// The root `(-B + s√D) / A` of the derivative lies strictly between 0 and 1.
pub open spec fn root_inside(a: int, b: int, d: int, s: int) -> bool {
    let u = -b;
    if a > 0 {
        if s > 0 {
            sqrt_gt(d, -u) && sqrt_lt(d, a - u)
        } else {
            sqrt_lt(d, u) && sqrt_gt(d, u - a)
        }
    } else if s > 0 {
        sqrt_gt(d, a - u) && sqrt_lt(d, -u)
    } else {
        sqrt_lt(d, u - a) && sqrt_gt(d, u)
    }
}

/// The root `-C / 2B` lies strictly between 0 and 1.
pub open spec fn linear_root_inside(b: int, c: int) -> bool {
    if b > 0 {
        0 < -c < 2 * b
    } else {
        2 * b < -c < 0
    }
}

pub open spec fn spread_ok(a: int, b: int, c: int) -> bool {
    -TURN_SPREAD <= a <= TURN_SPREAD && -TURN_SPREAD <= b <= TURN_SPREAD && -TURN_SPREAD <= c
        <= TURN_SPREAD
}

/// The curve's value at turning point `s` inside (0, 1), relative to `p0`,
/// rounded up (`up`) or down; `None` where there is no such turning point.
pub open spec fn turn_value(a: int, b: int, c: int, s: int, up: bool) -> Option<int> {
    let ca = a - 2 * b + c;
    let cb = b - a;
    let cc = a;
    let d = cb * cb - ca * cc;
    if ca != 0 {
        if d >= 0 && root_inside(ca, cb, d, s) {
            let n = 2 * d * cb - ca * cb * cc;
            let q = 4 * d * d * d;
            let den = ca * ca;
            Some(
                if s > 0 {
                    if up {
                        cdiv(n - floor_sqrt(q), den)
                    } else {
                        fdiv(n - ceil_sqrt(q), den)
                    }
                } else {
                    if up {
                        cdiv(n + ceil_sqrt(q), den)
                    } else {
                        fdiv(n + floor_sqrt(q), den)
                    }
                },
            )
        } else {
            None
        }
    } else if cb != 0 && s > 0 && linear_root_inside(cb, cc) {
        Some(
            if up {
                cdiv(-(3 * cc * cc), 4 * cb)
            } else {
                fdiv(-(3 * cc * cc), 4 * cb)
            },
        )
    } else {
        None
    }
}

pub open spec fn max_with(m: int, base: int, v: Option<int>) -> int {
    match v {
        Some(x) => if base + x > m {
            base + x
        } else {
            m
        },
        None => m,
    }
}

pub open spec fn min_with(m: int, base: int, v: Option<int>) -> int {
    match v {
        Some(x) => if base + x < m {
            base + x
        } else {
            m
        },
        None => m,
    }
}

pub open spec fn max2(x: int, y: int) -> int {
    if x >= y {
        x
    } else {
        y
    }
}

pub open spec fn min2(x: int, y: int) -> int {
    if x <= y {
        x
    } else {
        y
    }
}

/// The curve's largest value over `[0, 1]`, rounded up and clamped to the
/// coordinate range; the largest control value where the curve spreads too
/// wide.
pub open spec fn curve_hi(p0: int, p1: int, p2: int, p3: int) -> int {
    let (a, b, c) = (p1 - p0, p2 - p1, p3 - p2);
    if spread_ok(a, b, c) {
        clamp(
            max_with(
                max_with(max2(p0, p3), p0, turn_value(a, b, c, 1, true)),
                p0,
                turn_value(a, b, c, -1, true),
            ),
        )
    } else {
        max2(max2(p0, p1), max2(p2, p3))
    }
}

/// The curve's smallest value over `[0, 1]`, rounded down and clamped to the
/// coordinate range; the smallest control value where the curve spreads too
/// wide.
pub open spec fn curve_lo(p0: int, p1: int, p2: int, p3: int) -> int {
    let (a, b, c) = (p1 - p0, p2 - p1, p3 - p2);
    if spread_ok(a, b, c) {
        clamp(
            min_with(
                min_with(min2(p0, p3), p0, turn_value(a, b, c, 1, false)),
                p0,
                turn_value(a, b, c, -1, false),
            ),
        )
    } else {
        min2(min2(p0, p1), min2(p2, p3))
    }
}

proof fn lemma_floor_sqrt_unique(q: int, r: int)
    requires
        is_floor_sqrt(q, r),
    ensures
        floor_sqrt(q) == r,
{
    assert(exists|x: int| is_floor_sqrt(q, x));
    let f = floor_sqrt(q);
    assert(is_floor_sqrt(q, f));
    if f < r {
        assert((f + 1) * (f + 1) <= r * r) by (nonlinear_arith)
            requires
                0 <= f + 1 <= r,
        ;
    } else if r < f {
        assert((r + 1) * (r + 1) <= f * f) by (nonlinear_arith)
            requires
                0 <= r + 1 <= f,
        ;
    }
}

/// `√q` rounded down.
fn isqrt(q: i128) -> (r: i128)
    requires
        0 <= q < 0x4000_0000_0000_0000_0000_0000_0000_0000,
    ensures
        r == floor_sqrt(q as int),
        is_floor_sqrt(q as int, r as int),
        0 <= r < 0x8000_0000_0000_0000,
{
    let mut lo: i128 = 0;
    let mut hi: i128 = 0x8000_0000_0000_0000;
    assert(hi * hi == 0x4000_0000_0000_0000_0000_0000_0000_0000) by (nonlinear_arith)
        requires
            hi == 0x8000_0000_0000_0000,
    ;
    while hi - lo > 1
        invariant
            0 <= lo < hi <= 0x8000_0000_0000_0000,
            lo * lo <= q,
            q < hi * hi,
        decreases hi - lo,
    {
        let mid = lo + (hi - lo) / 2;
        assert(0 <= mid * mid <= 0x4000_0000_0000_0000_0000_0000_0000_0000) by (nonlinear_arith)
            requires
                0 <= mid <= 0x8000_0000_0000_0000,
        ;
        if mid * mid <= q {
            lo = mid;
        } else {
            hi = mid;
        }
    }
    proof {
        lemma_floor_sqrt_unique(q as int, lo as int);
    }
    lo
}

/// `n / d` rounded down.
fn floor_div(n: i128, d: i128) -> (r: i128)
    requires
        d != 0,
        -0x1_0000_0000_0000_0000_0000 <= n <= 0x1_0000_0000_0000_0000_0000,
        -0x1_0000_0000_0000_0000_0000 <= d <= 0x1_0000_0000_0000_0000_0000,
    ensures
        r == fdiv(n as int, d as int),
        -0x1_0000_0000_0000_0000_0000 <= r <= 0x1_0000_0000_0000_0000_0000,
{
    let (nn, dd) = if d > 0 {
        (n, d)
    } else {
        (-n, -d)
    };
    proof {
        vstd::arithmetic::div_mod::lemma_fundamental_div_mod(nn as int, dd as int);
    }
    if nn >= 0 {
        proof {
            vstd::arithmetic::div_mod::lemma_div_pos_is_pos(nn as int, dd as int);
            vstd::arithmetic::div_mod::lemma_div_is_ordered_by_denominator(nn as int, 1, dd as int);
        }
        ((nn as u128) / (dd as u128)) as i128
    } else {
        let m: u128 = (0 - nn) as u128;
        let q: u128 = (m + (dd as u128) - 1) / (dd as u128);
        proof {
            vstd::arithmetic::div_mod::lemma_fundamental_div_mod((m + dd - 1) as int, dd as int);
            vstd::arithmetic::div_mod::lemma_div_is_ordered_by_denominator(
                (m + dd - 1) as int,
                1,
                dd as int,
            );
            assert(q <= m) by (nonlinear_arith)
                requires
                    (m + dd - 1) as int == dd * (q as int) + (m + dd - 1) as int % (dd as int),
                    0 <= (m + dd - 1) as int % (dd as int),
                    dd >= 1,
                    m >= 1,
            ;
            assert(q as int == -(nn as int / dd as int)) by (nonlinear_arith)
                requires
                    (m + dd - 1) as int == dd * (q as int) + (m + dd - 1) as int % (dd as int),
                    0 <= (m + dd - 1) as int % (dd as int) < dd,
                    nn == dd * (nn as int / dd as int) + nn as int % (dd as int),
                    0 <= nn as int % (dd as int) < dd,
                    m == -nn,
                    dd > 0,
            ;
        }
        0 - (q as i128)
    }
}

/// `n / d` rounded up.
fn ceil_div(n: i128, d: i128) -> (r: i128)
    requires
        d != 0,
        -0x1_0000_0000_0000_0000_0000 <= n <= 0x1_0000_0000_0000_0000_0000,
        -0x1_0000_0000_0000_0000_0000 <= d <= 0x1_0000_0000_0000_0000_0000,
    ensures
        r == cdiv(n as int, d as int),
        -0x1_0000_0000_0000_0000_0000 <= r <= 0x1_0000_0000_0000_0000_0000,
{
    0 - floor_div(0 - n, d)
}

proof fn lemma_coefficient_bounds(a: int, b: int, c: int)
    requires
        spread_ok(a, b, c),
    ensures
        ({
            let ca = a - 2 * b + c;
            let cb = b - a;
            let d = cb * cb - ca * a;
            &&& -0x20_0000 <= ca <= 0x20_0000
            &&& -0x10_0000 <= cb <= 0x10_0000
            &&& 0 <= cb * cb <= 0x100_0000_0000
            &&& -0x100_0000_0000 <= ca * a <= 0x100_0000_0000
            &&& -0x200_0000_0000 <= d <= 0x200_0000_0000
            &&& -0x4000_0000_0000_0000 <= 2 * d * cb <= 0x4000_0000_0000_0000
            &&& -0x200_0000_0000 <= ca * cb <= 0x200_0000_0000
            &&& -0x1000_0000_0000_0000 <= ca * cb * a <= 0x1000_0000_0000_0000
            &&& 0 <= ca * ca <= 0x400_0000_0000
            &&& 0 <= 3 * a * a <= 0x100_0000_0000
            &&& (d >= 0 ==> 0 <= 4 * d * d <= 0x40_0000_0000_0000_0000_0000)
            &&& (d >= 0 ==> 0 <= 4 * d * d * d <= 0x2000_0000_0000_0000_0000_0000_0000_0000)
        }),
{
    let ca = a - 2 * b + c;
    let cb = b - a;
    let d = cb * cb - ca * a;
    assert(0 <= cb * cb <= 0x100_0000_0000) by (nonlinear_arith)
        requires
            -0x10_0000 <= cb <= 0x10_0000,
    ;
    assert(-0x100_0000_0000 <= ca * a <= 0x100_0000_0000) by (nonlinear_arith)
        requires
            -0x20_0000 <= ca <= 0x20_0000,
            -0x8_0000 <= a <= 0x8_0000,
    ;
    assert(-0x4000_0000_0000_0000 <= 2 * d * cb <= 0x4000_0000_0000_0000) by (nonlinear_arith)
        requires
            -0x200_0000_0000 <= d <= 0x200_0000_0000,
            -0x10_0000 <= cb <= 0x10_0000,
    ;
    assert(-0x200_0000_0000 <= ca * cb <= 0x200_0000_0000) by (nonlinear_arith)
        requires
            -0x20_0000 <= ca <= 0x20_0000,
            -0x10_0000 <= cb <= 0x10_0000,
    ;
    assert(-0x1000_0000_0000_0000 <= (ca * cb) * a <= 0x1000_0000_0000_0000) by (nonlinear_arith)
        requires
            -0x200_0000_0000 <= ca * cb <= 0x200_0000_0000,
            -0x8_0000 <= a <= 0x8_0000,
    ;
    assert(0 <= ca * ca <= 0x400_0000_0000) by (nonlinear_arith)
        requires
            -0x20_0000 <= ca <= 0x20_0000,
    ;
    assert(0 <= 3 * a * a <= 0x100_0000_0000) by (nonlinear_arith)
        requires
            -0x8_0000 <= a <= 0x8_0000,
    ;
    if d >= 0 {
        assert(0 <= 4 * d * d <= 0x40_0000_0000_0000_0000_0000) by (nonlinear_arith)
            requires
                0 <= d <= 0x200_0000_0000,
        ;
        assert(0 <= (4 * d * d) * d <= 0x2000_0000_0000_0000_0000_0000_0000_0000) by (nonlinear_arith)
            requires
                0 <= 4 * d * d <= 0x40_0000_0000_0000_0000_0000,
                0 <= d <= 0x200_0000_0000,
        ;
    }
}

fn sqrt_gt_exec(d: i128, k: i128) -> (r: bool)
    requires
        -0x100_0000 <= k <= 0x100_0000,
    ensures
        r == sqrt_gt(d as int, k as int),
{
    assert(0 <= k * k <= 0x1_0000_0000_0000) by (nonlinear_arith)
        requires
            -0x100_0000 <= k <= 0x100_0000,
    ;
    k < 0 || d > k * k
}

fn sqrt_lt_exec(d: i128, k: i128) -> (r: bool)
    requires
        -0x100_0000 <= k <= 0x100_0000,
    ensures
        r == sqrt_lt(d as int, k as int),
{
    assert(0 <= k * k <= 0x1_0000_0000_0000) by (nonlinear_arith)
        requires
            -0x100_0000 <= k <= 0x100_0000,
    ;
    k > 0 && d < k * k
}

/// The value at turning point `s`, as `turn_value` states it.
fn turn_value_exec(a: i128, b: i128, c: i128, s: i128, up: bool) -> (r: Option<i128>)
    requires
        spread_ok(a as int, b as int, c as int),
        s == 1 || s == -1,
    ensures
        match r {
            Some(v) => turn_value(a as int, b as int, c as int, s as int, up) == Some(v as int)
                && -0x1_0000_0000_0000_0000_0000 <= v <= 0x1_0000_0000_0000_0000_0000,
            None => turn_value(a as int, b as int, c as int, s as int, up) is None,
        },
{
    proof {
        lemma_coefficient_bounds(a as int, b as int, c as int);
    }
    let ca = a - 2 * b + c;
    let cb = b - a;
    let cc = a;
    let d = cb * cb - ca * cc;
    if ca != 0 {
        let inside = if ca > 0 {
            if s > 0 {
                sqrt_gt_exec(d, cb) && sqrt_lt_exec(d, ca + cb)
            } else {
                sqrt_lt_exec(d, -cb) && sqrt_gt_exec(d, -cb - ca)
            }
        } else if s > 0 {
            sqrt_gt_exec(d, ca + cb) && sqrt_lt_exec(d, cb)
        } else {
            sqrt_lt_exec(d, -cb - ca) && sqrt_gt_exec(d, -cb)
        };
        if d >= 0 && inside {
            let n = 2 * d * cb - ca * cb * cc;
            let q = 4 * d * d * d;
            let den = ca * ca;
            assert(den > 0) by (nonlinear_arith)
                requires
                    ca != 0,
                    den == ca * ca,
            ;
            let w = isqrt(q);
            let w_up = if w * w == q {
                w
            } else {
                w + 1
            };
            let v = if s > 0 {
                if up {
                    ceil_div(n - w, den)
                } else {
                    floor_div(n - w_up, den)
                }
            } else {
                if up {
                    ceil_div(n + w_up, den)
                } else {
                    floor_div(n + w, den)
                }
            };
            Some(v)
        } else {
            None
        }
    } else if cb != 0 && s > 0 && (if cb > 0 {
        0 < -cc && -cc < 2 * cb
    } else {
        2 * cb < -cc && -cc < 0
    }) {
        let num = 0 - 3 * cc * cc;
        let v = if up {
            ceil_div(num, 4 * cb)
        } else {
            floor_div(num, 4 * cb)
        };
        Some(v)
    } else {
        None
    }
}

fn clamp_wide(v: i128) -> (r: i64)
    ensures
        r == clamp(v as int),
{
    if v < -(COORD_MAX as i128) {
        -COORD_MAX
    } else if v > COORD_MAX as i128 {
        COORD_MAX
    } else {
        v as i64
    }
}

/// The curve's lowest and highest values along one axis, as `curve_lo` and
/// `curve_hi` state them.
pub fn curve_span(p0: i64, p1: i64, p2: i64, p3: i64) -> (r: (i64, i64))
    requires
        in_range(p0 as int),
        in_range(p1 as int),
        in_range(p2 as int),
        in_range(p3 as int),
    ensures
        r.0 == curve_lo(p0 as int, p1 as int, p2 as int, p3 as int),
        r.1 == curve_hi(p0 as int, p1 as int, p2 as int, p3 as int),
        in_range(r.0 as int),
        in_range(r.1 as int),
        r.0 <= p0 <= r.1,
        r.0 <= p3 <= r.1,
{
    let (a, b, c) = (p1 as i128 - p0 as i128, p2 as i128 - p1 as i128, p3 as i128 - p2 as i128);
    let s = TURN_SPREAD as i128;
    if -s <= a && a <= s && -s <= b && b <= s && -s <= c && c <= s {
        let mut hi: i128 = if p0 >= p3 {
            p0 as i128
        } else {
            p3 as i128
        };
        let mut lo: i128 = if p0 <= p3 {
            p0 as i128
        } else {
            p3 as i128
        };
        let h1 = turn_value_exec(a, b, c, 1, true);
        let h2 = turn_value_exec(a, b, c, -1, true);
        let l1 = turn_value_exec(a, b, c, 1, false);
        let l2 = turn_value_exec(a, b, c, -1, false);
        if let Some(v) = h1 {
            if p0 as i128 + v > hi {
                hi = p0 as i128 + v;
            }
        }
        if let Some(v) = h2 {
            if p0 as i128 + v > hi {
                hi = p0 as i128 + v;
            }
        }
        if let Some(v) = l1 {
            if p0 as i128 + v < lo {
                lo = p0 as i128 + v;
            }
        }
        if let Some(v) = l2 {
            if p0 as i128 + v < lo {
                lo = p0 as i128 + v;
            }
        }
        (clamp_wide(lo), clamp_wide(hi))
    } else {
        let hi = if p0 >= p1 {
            p0
        } else {
            p1
        };
        let hi2 = if p2 >= p3 {
            p2
        } else {
            p3
        };
        let lo = if p0 <= p1 {
            p0
        } else {
            p1
        };
        let lo2 = if p2 <= p3 {
            p2
        } else {
            p3
        };
        (
            if lo <= lo2 {
                lo
            } else {
                lo2
            },
            if hi >= hi2 {
                hi
            } else {
                hi2
            },
        )
    }
}

} // verus!
