use vstd::prelude::*;
use crate::fixed::max3;
use crate::fixed::min3;
use crate::fixed::lemma_weighted_sum_bounds;
use crate::fixed::lemma_quotient_bounds;
use crate::fixed::floor_div;

verus! {

/// A point on the half-pixel grid.
pub type GridPoint = (int, int);

/// The edge function: the signed area of the parallelogram spanned by the
/// edge `a -> b` and the point `c`. Its sign tells on which side of the edge
/// `c` lies.
pub open spec fn edge(a: GridPoint, b: GridPoint, c: GridPoint) -> int {
    (c.0 - a.0) * (b.1 - a.1) - (c.1 - a.1) * (b.0 - a.0)
}

/// The coordinates an edge function is evaluated on by the rasterizer lie
/// within `2^33` of the origin; screen points and pixel centres on the
/// half-pixel grid do.
pub open spec fn on_grid(p: GridPoint) -> bool {
    &&& -0x2_0000_0000 <= p.0 <= 0x2_0000_0000
    &&& -0x2_0000_0000 <= p.1 <= 0x2_0000_0000
}

/// The grid point with the given coordinates.
pub open spec fn grid(p: (i64, i64)) -> GridPoint {
    (p.0 as int, p.1 as int)
}

/// The edge function of three grid points. Its value lies within `2^69` of
/// zero.
pub fn edge_function(a: (i64, i64), b: (i64, i64), c: (i64, i64)) -> (e: i128)
    requires
        on_grid(grid(a)),
        on_grid(grid(b)),
        on_grid(grid(c)),
    ensures
        e == edge(grid(a), grid(b), grid(c)),
        -0x20_0000_0000_0000_0000 <= e <= 0x20_0000_0000_0000_0000,
{
    let ux: i128 = (c.0 - a.0) as i128;
    let uy: i128 = (c.1 - a.1) as i128;
    let vx: i128 = (b.0 - a.0) as i128;
    let vy: i128 = (b.1 - a.1) as i128;
    assert(-0x10_0000_0000_0000_0000 <= ux * vy <= 0x10_0000_0000_0000_0000) by (nonlinear_arith)
        requires
            -0x4_0000_0000 <= ux <= 0x4_0000_0000,
            -0x4_0000_0000 <= vy <= 0x4_0000_0000,
    ;
    assert(-0x10_0000_0000_0000_0000 <= uy * vx <= 0x10_0000_0000_0000_0000) by (nonlinear_arith)
        requires
            -0x4_0000_0000 <= uy <= 0x4_0000_0000,
            -0x4_0000_0000 <= vx <= 0x4_0000_0000,
    ;
    ux * vy - uy * vx
}

/// Three per-vertex quantities interpolated with barycentric weights
/// `w / area`: the weighted sum over the area, rounded down. The result lies
/// between the least and the greatest of the three.
pub fn interpolate(q0: i32, q1: i32, q2: i32, w0: i128, w1: i128, w2: i128, area: i128) -> (r: i32)
    requires
        w0 >= 0,
        w1 >= 0,
        w2 >= 0,
        w0 + w1 + w2 == area,
        0 < area <= 0x20_0000_0000_0000_0000,
    ensures
        r == (q0 * w0 + q1 * w1 + q2 * w2) / (area as int),
        min3(q0 as int, q1 as int, q2 as int) <= r <= max3(q0 as int, q1 as int, q2 as int),
{
    assert(-0x1000_0000_0000_0000_0000_0000_0000 <= q0 * w0 <= 0x1000_0000_0000_0000_0000_0000_0000)
        by (nonlinear_arith)
        requires
            -0x8000_0000 <= q0 <= 0x8000_0000,
            0 <= w0 <= 0x20_0000_0000_0000_0000,
    ;
    assert(-0x1000_0000_0000_0000_0000_0000_0000 <= q1 * w1 <= 0x1000_0000_0000_0000_0000_0000_0000)
        by (nonlinear_arith)
        requires
            -0x8000_0000 <= q1 <= 0x8000_0000,
            0 <= w1 <= 0x20_0000_0000_0000_0000,
    ;
    assert(-0x1000_0000_0000_0000_0000_0000_0000 <= q2 * w2 <= 0x1000_0000_0000_0000_0000_0000_0000)
        by (nonlinear_arith)
        requires
            -0x8000_0000 <= q2 <= 0x8000_0000,
            0 <= w2 <= 0x20_0000_0000_0000_0000,
    ;
    let n: i128 = q0 as i128 * w0 + q1 as i128 * w1 + q2 as i128 * w2;
    let q: i128 = floor_div(n, area);
    proof {
        lemma_weighted_sum_bounds(
            q0 as int,
            q1 as int,
            q2 as int,
            w0 as int,
            w1 as int,
            w2 as int,
            min3(q0 as int, q1 as int, q2 as int),
            max3(q0 as int, q1 as int, q2 as int),
        );
        lemma_quotient_bounds(
            n as int,
            area as int,
            min3(q0 as int, q1 as int, q2 as int),
            max3(q0 as int, q1 as int, q2 as int),
        );
    }
    q as i32
}

/// The three edge values of a point against a triangle add up to the
/// triangle's own edge value.
pub proof fn lemma_edge_sum(a: GridPoint, b: GridPoint, c: GridPoint, p: GridPoint)
    ensures
        edge(b, c, p) + edge(c, a, p) + edge(a, b, p) == edge(a, b, c),
{
    let bx = b.0 - a.0;
    let by = b.1 - a.1;
    let cx = c.0 - a.0;
    let cy = c.1 - a.1;
    let px = p.0 - a.0;
    let py = p.1 - a.1;
    assert(edge(b, c, p) == (px - bx) * (cy - by) - (py - by) * (cx - bx));
    assert(edge(c, a, p) == (px - cx) * (0 - cy) - (py - cy) * (0 - cx));
    assert((px - bx) * (cy - by) == px * cy - px * by - bx * cy + bx * by) by (nonlinear_arith);
    assert((py - by) * (cx - bx) == py * cx - py * bx - by * cx + by * bx) by (nonlinear_arith);
    assert((px - cx) * (0 - cy) == cx * cy - px * cy) by (nonlinear_arith);
    assert((py - cy) * (0 - cx) == cy * cx - py * cx) by (nonlinear_arith);
    assert(bx * by == by * bx) by (nonlinear_arith);
    assert(bx * cy == cy * bx) by (nonlinear_arith);
    assert(by * cx == cx * by) by (nonlinear_arith);
    assert(cx * cy == cy * cx) by (nonlinear_arith);
}

/// A point, taken relative to corner `a`, is the combination of the other
/// two corners weighted by their edge values.
pub proof fn lemma_edge_combination(a: GridPoint, b: GridPoint, c: GridPoint, p: GridPoint)
    ensures
        edge(a, b, c) * (p.0 - a.0) == edge(c, a, p) * (b.0 - a.0) + edge(a, b, p) * (c.0 - a.0),
        edge(a, b, c) * (p.1 - a.1) == edge(c, a, p) * (b.1 - a.1) + edge(a, b, p) * (c.1 - a.1),
{
    let bx = b.0 - a.0;
    let by = b.1 - a.1;
    let cx = c.0 - a.0;
    let cy = c.1 - a.1;
    let px = p.0 - a.0;
    let py = p.1 - a.1;
    let area = cx * by - cy * bx;
    let wb = py * cx - px * cy;
    let wc = px * by - py * bx;
    assert(edge(a, b, c) == area);
    assert(edge(a, b, p) == wc);
    assert(edge(c, a, p) == wb) by {
        assert((p.0 - c.0) * (a.1 - c.1) == (px - cx) * (0 - cy));
        assert((p.1 - c.1) * (a.0 - c.0) == (py - cy) * (0 - cx));
        assert((px - cx) * (0 - cy) - (py - cy) * (0 - cx) == py * cx - px * cy)
            by (nonlinear_arith);
    }
    assert(area * px == wb * bx + wc * cx) by {
        assert(wb * bx == (py * cx) * bx - (px * cy) * bx) by (nonlinear_arith)
            requires
                wb == py * cx - px * cy,
        ;
        assert(wc * cx == (px * by) * cx - (py * bx) * cx) by (nonlinear_arith)
            requires
                wc == px * by - py * bx,
        ;
        assert(area * px == (cx * by) * px - (cy * bx) * px) by (nonlinear_arith)
            requires
                area == cx * by - cy * bx,
        ;
        assert((py * cx) * bx == (py * bx) * cx) by (nonlinear_arith);
        assert((px * cy) * bx == (cy * bx) * px) by (nonlinear_arith);
        assert((px * by) * cx == (cx * by) * px) by (nonlinear_arith);
    }
    assert(area * py == wb * by + wc * cy) by {
        assert(wb * by == (py * cx) * by - (px * cy) * by) by (nonlinear_arith)
            requires
                wb == py * cx - px * cy,
        ;
        assert(wc * cy == (px * by) * cy - (py * bx) * cy) by (nonlinear_arith)
            requires
                wc == px * by - py * bx,
        ;
        assert(area * py == (cx * by) * py - (cy * bx) * py) by (nonlinear_arith)
            requires
                area == cx * by - cy * bx,
        ;
        assert((py * cx) * by == (cx * by) * py) by (nonlinear_arith);
        assert((px * cy) * by == (px * by) * cy) by (nonlinear_arith);
        assert((py * bx) * cy == (cy * bx) * py) by (nonlinear_arith);
    }
}

} // verus!
