//! Points, segments, exact rounded division, integer square roots, and the
//! DDA line rasterizer.
//!
//! The rasterizer turns a segment with integer endpoints into the ordered
//! sequence of pixels it covers: it steps along the dominant axis, and each
//! emitted pixel is the exact rational position after `k` of `n` equal
//! steps, rounded to the nearest integer (halves away from zero).

use vstd::arithmetic::div_mod::lemma_div_is_ordered;
use vstd::arithmetic::div_mod::lemma_div_is_ordered_by_denominator;
use vstd::arithmetic::div_mod::lemma_fundamental_div_mod_converse_div;
use vstd::prelude::*;

verus! {

/// An integer pixel coordinate. The rasterizer may produce coordinates
/// outside the canvas; consumers discard those before writing.
#[derive(Clone, Copy, PartialEq, Eq, Structural, Debug)]
pub struct Point {
    pub x: i32,
    pub y: i32,
}

/// A line segment between two integer-coordinate endpoints.
#[derive(Clone, Copy, PartialEq, Eq, Structural, Debug)]
pub struct Segment {
    pub start: Point,
    pub end: Point,
}

/// Coordinates the rasterizer accepts; wide enough for every segment the
/// grid generator produces, narrow enough that all intermediate products
/// fit in 64 bits.
pub open spec fn coord_ok(p: Point) -> bool {
    &&& -100000 <= p.x <= 100000
    &&& -100000 <= p.y <= 100000
}

/// Floor of the real square root of a non-negative integer.
pub open spec fn sqrt_floor(n: int) -> int
    decreases n,
{
    if n <= 0 {
        0
    } else {
        let p = sqrt_floor(n - 1);
        if (p + 1) * (p + 1) <= n {
            p + 1
        } else {
            p
        }
    }
}

/// `sqrt_floor(n)` is the unique `r >= 0` with `r^2 <= n < (r+1)^2`.
pub proof fn lemma_sqrt_floor_bounds(n: int)
    requires
        n >= 0,
    ensures
        0 <= sqrt_floor(n),
        sqrt_floor(n) * sqrt_floor(n) <= n,
        n < (sqrt_floor(n) + 1) * (sqrt_floor(n) + 1),
    decreases n,
{
    if n > 0 {
        lemma_sqrt_floor_bounds(n - 1);
        let p = sqrt_floor(n - 1);
        if (p + 1) * (p + 1) <= n {
            assert(n < ((p + 1) + 1) * ((p + 1) + 1)) by (nonlinear_arith)
                requires
                    0 <= p,
                    n - 1 < (p + 1) * (p + 1),
            ;
        }
    }
}

/// Any `r >= 0` with `r^2 <= n < (r+1)^2` equals `sqrt_floor(n)`.
pub proof fn lemma_sqrt_floor_is(n: int, r: int)
    requires
        n >= 0,
        r >= 0,
        r * r <= n,
        n < (r + 1) * (r + 1),
    ensures
        r == sqrt_floor(n),
{
    lemma_sqrt_floor_bounds(n);
    let s = sqrt_floor(n);
    if r < s {
        assert(false) by (nonlinear_arith)
            requires
                0 <= r < s,
                s * s <= n,
                n < (r + 1) * (r + 1),
        ;
    }
    if s < r {
        assert(false) by (nonlinear_arith)
            requires
                0 <= s < r,
                r * r <= n,
                n < (s + 1) * (s + 1),
        ;
    }
}

/// Integer square root by binary search.
pub fn isqrt(n: u64) -> (r: u64)
    requires
        n < 0x1_0000_0000u64,
    ensures
        r as int == sqrt_floor(n as int),
{
    let mut lo: u64 = 0;
    let mut hi: u64 = 0x1_0000;
    while lo + 1 < hi
        invariant
            lo < hi <= 0x1_0000,
            (lo as int) * (lo as int) <= n as int,
            (n as int) < (hi as int) * (hi as int),
        decreases hi - lo,
    {
        let mid = lo + (hi - lo) / 2;
        proof {
            assert(mid * mid < 0x1_0000_0000_0000_0000) by (nonlinear_arith)
                requires
                    mid < 0x1_0000u64,
            ;
        }
        if mid * mid <= n {
            lo = mid;
        } else {
            hi = mid;
        }
    }
    proof {
        lemma_sqrt_floor_is(n as int, lo as int);
    }
    lo
}

/// A ratio rounded to the nearest integer, halves away from zero; this is
/// how each accumulated rasterizer position becomes a pixel coordinate.
pub open spec fn round_div(num: int, den: int) -> int {
    if num >= 0 {
        (2 * num + den) / (2 * den)
    } else {
        -((2 * (-num) + den) / (2 * den))
    }
}

proof fn lemma_round_div_upper_nonneg(num: int, den: int, hi: int)
    requires
        0 < den,
        0 <= num,
        num <= hi * den,
    ensures
        (2 * num + den) / (2 * den) <= hi,
{
    assert(0 <= hi * den) by (nonlinear_arith)
        requires
            0 <= num,
            num <= hi * den,
    ;
    assert(0 <= hi) by (nonlinear_arith)
        requires
            0 <= hi * den,
            0 < den,
    ;
    assert(2 * num + den <= hi * (2 * den) + den) by (nonlinear_arith)
        requires
            num <= hi * den,
    ;
    lemma_div_is_ordered(2 * num + den, hi * (2 * den) + den, 2 * den);
    lemma_fundamental_div_mod_converse_div(hi * (2 * den) + den, 2 * den, hi, den);
}

proof fn lemma_round_div_lower_nonneg(num: int, den: int, lo: int)
    requires
        0 < den,
        0 <= num,
        lo * den <= num,
    ensures
        lo <= (2 * num + den) / (2 * den),
{
    if lo >= 0 {
        assert(lo * (2 * den) + den <= 2 * num + den) by (nonlinear_arith)
            requires
                lo * den <= num,
        ;
        lemma_fundamental_div_mod_converse_div(lo * (2 * den) + den, 2 * den, lo, den);
        lemma_div_is_ordered(lo * (2 * den) + den, 2 * num + den, 2 * den);
    } else {
        lemma_div_is_ordered(0, 2 * num + den, 2 * den);
    }
}

/// Rounding a ratio stays within any integer interval that brackets it.
pub proof fn lemma_round_div_bounds(num: int, den: int, lo: int, hi: int)
    requires
        0 < den,
        lo * den <= num,
        num <= hi * den,
    ensures
        lo <= round_div(num, den) <= hi,
{
    if num >= 0 {
        lemma_round_div_upper_nonneg(num, den, hi);
        lemma_round_div_lower_nonneg(num, den, lo);
    } else {
        assert((-hi) * den <= -num && -num <= (-lo) * den) by (nonlinear_arith)
            requires
                lo * den <= num,
                num <= hi * den,
        ;
        lemma_round_div_upper_nonneg(-num, den, -lo);
        lemma_round_div_lower_nonneg(-num, den, -hi);
    }
}

/// Rounded division on machine integers.
pub fn round_div_i64(num: i64, den: i64) -> (r: i64)
    requires
        0 < den <= 0x1_0000_0000i64,
        -0x1_0000_0000_0000i64 <= num <= 0x1_0000_0000_0000i64,
    ensures
        r as int == round_div(num as int, den as int),
{
    if num >= 0 {
        let q: u64 = (2 * (num as u64) + (den as u64)) / (2 * (den as u64));
        proof {
            lemma_fundamental_div_mod_converse_div(2 * (num as int) + den as int, 1, 2 * (
            num as int) + den as int, 0);
            lemma_div_is_ordered_by_denominator(2 * (num as int) + den as int, 1, 2 * (den as int));
        }
        q as i64
    } else {
        let m: u64 = (-num) as u64;
        let q: u64 = (2 * m + (den as u64)) / (2 * (den as u64));
        proof {
            lemma_fundamental_div_mod_converse_div(2 * (m as int) + den as int, 1, 2 * (m as int)
                + den as int, 0);
            lemma_div_is_ordered_by_denominator(2 * (m as int) + den as int, 1, 2 * (den as int));
        }
        -(q as i64)
    }
}

/// Steps the rasterizer takes for a segment: the larger coordinate span.
pub open spec fn seg_steps(s: Segment) -> int {
    let dx = if s.end.x >= s.start.x {
        s.end.x - s.start.x
    } else {
        s.start.x - s.end.x
    };
    let dy = if s.end.y >= s.start.y {
        s.end.y - s.start.y
    } else {
        s.start.y - s.end.y
    };
    if dx >= dy {
        dx
    } else {
        dy
    }
}

/// The rasterizer's direction normalization: a segment whose slope is
/// negative and whose start is left of its end is traced from the other
/// endpoint. This only reorders the trace; the segment itself is the same.
pub open spec fn dda_oriented(s: Segment) -> Segment {
    if s.end.x - s.start.x > 0 && s.end.y - s.start.y < 0 {
        Segment { start: s.end, end: s.start }
    } else {
        s
    }
}

/// The pixel after `k` of `n` equal steps from start toward end: the exact
/// rational position, each coordinate rounded to the nearest integer.
pub open spec fn dda_point(s: Segment, n: int, k: int) -> Point {
    Point {
        x: round_div(s.start.x * n + k * (s.end.x - s.start.x), n) as i32,
        y: round_div(s.start.y * n + k * (s.end.y - s.start.y), n) as i32,
    }
}

/// Every pixel a segment covers, in trace order. The starting pixel itself
/// is not emitted; a zero-length segment covers exactly its single point.
pub open spec fn dda_points(s: Segment) -> Seq<Point> {
    let t = dda_oriented(s);
    let n = seg_steps(t);
    if n == 0 {
        seq![t.start]
    } else {
        Seq::new(n as nat, |k: int| dda_point(t, n, k + 1))
    }
}

/// Rasterize a segment into the ordered pixels it covers.
#[verifier::loop_isolation(false)]
pub fn rasterize(s: Segment) -> (pts: Vec<Point>)
    requires
        coord_ok(s.start),
        coord_ok(s.end),
    ensures
        pts@ == dda_points(s),
{
    let t = if s.end.x - s.start.x > 0 && s.end.y - s.start.y < 0 {
        Segment { start: s.end, end: s.start }
    } else {
        s
    };
    let dx = t.end.x - t.start.x;
    let dy = t.end.y - t.start.y;
    let adx = if dx >= 0 {
        dx
    } else {
        -dx
    };
    let ady = if dy >= 0 {
        dy
    } else {
        -dy
    };
    let n = if adx >= ady {
        adx
    } else {
        ady
    };
    let mut pts: Vec<Point> = Vec::new();
    if n == 0 {
        pts.push(t.start);
        assert(pts@ =~= dda_points(s));
        return pts;
    }
    let mut k: i32 = 1;
    while k <= n
        invariant
            1 <= k <= n + 1,
            pts@.len() == k - 1,
            forall|j: int| 0 <= j < pts@.len() ==> pts@[j] == dda_point(t, n as int, j + 1),
        decreases n + 1 - k,
    {
        proof {
            lemma_dda_num_bounds(t.start.x as int, t.end.x as int, n as int, k as int);
            lemma_dda_num_bounds(t.start.y as int, t.end.y as int, n as int, k as int);
        }
        let numx: i64 = (t.start.x as i64) * (n as i64) + (k as i64) * (dx as i64);
        let numy: i64 = (t.start.y as i64) * (n as i64) + (k as i64) * (dy as i64);
        proof {
            lemma_round_div_bounds(numx as int, n as int, -100000, 100000);
            lemma_round_div_bounds(numy as int, n as int, -100000, 100000);
        }
        let px = round_div_i64(numx, n as i64);
        let py = round_div_i64(numy, n as i64);
        pts.push(Point { x: px as i32, y: py as i32 });
        k = k + 1;
    }
    assert(pts@ =~= dda_points(s));
    pts
}

proof fn lemma_dda_num_bounds(a: int, b: int, n: int, k: int)
    requires
        -100000 <= a <= 100000,
        -100000 <= b <= 100000,
        0 < n <= 200001,
        0 <= k <= n,
    ensures
        -100000 * n <= a * n + k * (b - a),
        a * n + k * (b - a) <= 100000 * n,
        -0x1_0000_0000_0000 <= a * n + k * (b - a) <= 0x1_0000_0000_0000,
        -0x1_0000_0000_0000 <= a * n <= 0x1_0000_0000_0000,
        -0x1_0000_0000_0000 <= k * (b - a) <= 0x1_0000_0000_0000,
{
    assert(-0x1_0000_0000_0000 <= a * n <= 0x1_0000_0000_0000) by (nonlinear_arith)
        requires
            -100000 <= a <= 100000,
            0 < n <= 200001,
    ;
    assert(-0x1_0000_0000_0000 <= k * (b - a) <= 0x1_0000_0000_0000) by (nonlinear_arith)
        requires
            -200000 <= b - a <= 200000,
            0 <= k <= 200001,
    ;
    assert(a * n + k * (b - a) == a * (n - k) + b * k) by (nonlinear_arith);
    assert(-100000 * n <= a * (n - k) + b * k && a * (n - k) + b * k <= 100000 * n)
        by (nonlinear_arith)
        requires
            -100000 <= a <= 100000,
            -100000 <= b <= 100000,
            0 <= k <= n,
    ;
    assert(100000 * n <= 0x1_0000_0000_0000) by (nonlinear_arith)
        requires
            0 < n <= 200001,
    ;
}

} // verus!
