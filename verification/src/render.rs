use vstd::prelude::*;
use crate::fixed::max3;
use crate::fixed::min3;
use crate::framebuffer::Frame;
use crate::framebuffer::Framebuffer;
use crate::framebuffer::Pixel;
use crate::framebuffer::lemma_cell_is_pixel;
use crate::framebuffer::lemma_index_in_range;
use crate::shaders::PlanetShader;
use crate::shaders::ShaderColor;
use crate::shaders::ShaderUniforms;
use crate::shaders::channel_level;
use crate::shaders::level;
use crate::framebuffer::rgb_to_u32;
use crate::geometry::GridPoint;
use crate::geometry::edge;
use crate::geometry::edge_function;
use crate::geometry::grid;
use crate::geometry::interpolate;
use crate::geometry::lemma_edge_combination;
use crate::geometry::lemma_edge_sum;
use crate::fixed::lemma_quotient_bounds;
use crate::fixed::lemma_weighted_sum_bounds;
use crate::line::Line;
use crate::line::draw_line;
use crate::line::trace_line;
use crate::matrix::Matrix4;
use crate::matrix::transform_vertex;
use crate::matrix::transformed;
use crate::projection::project_vertex;
use crate::projection::screen_point;
use crate::vector::Vector3;

verus! {

/// Width of the display the scene is drawn for, in pixels.
pub const WIDTH: usize = 800;

/// Height of the display the scene is drawn for, in pixels.
pub const HEIGHT: usize = 600;

/// A screen point on the half-pixel grid, on which pixel corners have even
/// and pixel centres odd coordinates.
pub open spec fn corner(v: (i32, i32, i32)) -> GridPoint {
    (2 * v.0, 2 * v.1)
}

/// The centre of pixel `(x, y)` on the half-pixel grid.
pub open spec fn centre(x: int, y: int) -> GridPoint {
    (2 * x + 1, 2 * y + 1)
}

/// A triangle in screen space: per vertex a pixel position with a depth, and
/// a colour.
pub struct Triangle {
    pub v0: (i32, i32, i32),
    pub v1: (i32, i32, i32),
    pub v2: (i32, i32, i32),
    pub c0: ShaderColor,
    pub c1: ShaderColor,
    pub c2: ShaderColor,
}

impl Triangle {
    /// The signed area of the triangle, in units of an eighth of a pixel.
    pub open spec fn area(self) -> int {
        edge(corner(self.v0), corner(self.v1), corner(self.v2))
    }

    /// The edge value of the centre of pixel `(x, y)` against the edge
    /// opposite `v0`: the unnormalised barycentric weight of `v0`.
    pub open spec fn w0(self, x: int, y: int) -> int {
        edge(corner(self.v1), corner(self.v2), centre(x, y))
    }

    /// The unnormalised barycentric weight of `v1` at pixel `(x, y)`.
    pub open spec fn w1(self, x: int, y: int) -> int {
        edge(corner(self.v2), corner(self.v0), centre(x, y))
    }

    /// The unnormalised barycentric weight of `v2` at pixel `(x, y)`.
    pub open spec fn w2(self, x: int, y: int) -> int {
        edge(corner(self.v0), corner(self.v1), centre(x, y))
    }

    /// The triangle covers pixel `(x, y)`: it has an area, and the pixel's
    /// centre is on the inner side of all three edges.
    pub open spec fn covers(self, x: int, y: int) -> bool {
        &&& self.area() != 0
        &&& self.w0(x, y) >= 0
        &&& self.w1(x, y) >= 0
        &&& self.w2(x, y) >= 0
    }

    /// Three per-vertex quantities interpolated at pixel `(x, y)`: their sum
    /// weighted by the barycentric weights `w / area`, rounded down.
    pub open spec fn blend(self, q0: int, q1: int, q2: int, x: int, y: int) -> int {
        (q0 * self.w0(x, y) + q1 * self.w1(x, y) + q2 * self.w2(x, y)) / self.area()
    }

    /// The depth of the triangle at pixel `(x, y)`.
    pub open spec fn depth_at(self, x: int, y: int) -> int {
        self.blend(self.v0.2 as int, self.v1.2 as int, self.v2.2 as int, x, y)
    }

    /// The packed colour of the triangle at pixel `(x, y)`: each of red,
    /// green and blue interpolated, then turned into its 8-bit level.
    pub open spec fn color_at(self, x: int, y: int) -> int {
        level(self.blend(self.c0.r as int, self.c1.r as int, self.c2.r as int, x, y)) * 65536
            + level(self.blend(self.c0.g as int, self.c1.g as int, self.c2.g as int, x, y)) * 256
            + level(self.blend(self.c0.b as int, self.c1.b as int, self.c2.b as int, x, y))
    }

    /// What pixel `(x, y)` holds after the triangle is drawn over `p`: the
    /// triangle's colour and depth where it covers the pixel and is strictly
    /// nearer than `p`, and `p` otherwise.
    pub open spec fn shade(self, p: Pixel, x: int, y: int) -> Pixel {
        if self.covers(x, y) && self.depth_at(x, y) < p.depth {
            Pixel { color: self.color_at(x, y) as u32, depth: self.depth_at(x, y) as i32 }
        } else {
            p
        }
    }
}

/// What cell `i` of frame `f` holds after triangle `t` is drawn.
pub open spec fn shaded_cell(f: Frame, t: Triangle, i: int) -> Pixel {
    t.shade(f.cell(i), f.col(i), f.row(i))
}

/// The frame after a triangle is drawn into it: every pixel shaded on its
/// own.
pub open spec fn fill_triangle(f: Frame, t: Triangle) -> Frame {
    Frame {
        color: Seq::new(f.color.len(), |i: int| shaded_cell(f, t, i).color),
        depth: Seq::new(f.depth.len(), |i: int| shaded_cell(f, t, i).depth),
        ..f
    }
}

/// The barycentric weights of a covered pixel form a partition of unity:
/// each of `w0 / area`, `w1 / area`, `w2 / area` lies in `[0, 1]`, and the
/// three add up to one.
pub proof fn lemma_barycentric_partition(t: Triangle, x: int, y: int)
    requires
        t.covers(x, y),
    ensures
        t.area() > 0,
        0 <= t.w0(x, y) <= t.area(),
        0 <= t.w1(x, y) <= t.area(),
        0 <= t.w2(x, y) <= t.area(),
        t.w0(x, y) + t.w1(x, y) + t.w2(x, y) == t.area(),
{
    lemma_edge_sum(corner(t.v0), corner(t.v1), corner(t.v2), centre(x, y));
}

/// A triangle without area covers no pixel, and neither does one whose
/// vertices run against the winding the edge tests assume.
pub proof fn lemma_degenerate_covers_nothing(t: Triangle, x: int, y: int)
    requires
        t.area() <= 0,
    ensures
        !t.covers(x, y),
{
    lemma_edge_sum(corner(t.v0), corner(t.v1), corner(t.v2), centre(x, y));
}

/// A covered pixel lies inside the bounding box of the triangle's vertices.
pub proof fn lemma_covered_in_bounding_box(t: Triangle, x: int, y: int)
    requires
        t.covers(x, y),
    ensures
        min3(t.v0.0 as int, t.v1.0 as int, t.v2.0 as int) <= x < max3(
            t.v0.0 as int,
            t.v1.0 as int,
            t.v2.0 as int,
        ),
        min3(t.v0.1 as int, t.v1.1 as int, t.v2.1 as int) <= y < max3(
            t.v0.1 as int,
            t.v1.1 as int,
            t.v2.1 as int,
        ),
{
    let a = corner(t.v0);
    let b = corner(t.v1);
    let c = corner(t.v2);
    let p = centre(x, y);
    lemma_barycentric_partition(t, x, y);
    lemma_edge_combination(a, b, c, p);
    let area = t.area();
    let w0 = t.w0(x, y);
    let w1 = t.w1(x, y);
    let w2 = t.w2(x, y);
    let lox = min3(a.0, b.0, c.0);
    let hix = max3(a.0, b.0, c.0);
    lemma_weighted_sum_bounds(0, b.0 - a.0, c.0 - a.0, w0, w1, w2, lox - a.0, hix - a.0);
    assert(lox <= p.0 <= hix) by (nonlinear_arith)
        requires
            area > 0,
            (lox - a.0) * area <= area * (p.0 - a.0) <= (hix - a.0) * area,
    ;
    let loy = min3(a.1, b.1, c.1);
    let hiy = max3(a.1, b.1, c.1);
    lemma_weighted_sum_bounds(0, b.1 - a.1, c.1 - a.1, w0, w1, w2, loy - a.1, hiy - a.1);
    assert(loy <= p.1 <= hiy) by (nonlinear_arith)
        requires
            area > 0,
            (loy - a.1) * area <= area * (p.1 - a.1) <= (hiy - a.1) * area,
    ;
}

/// Cell `i` has been passed by a row-major sweep of the columns
/// `span.0..span.1` that began at row `span.2` and now stands at `(x, y)`.
pub open spec fn swept(f: Frame, i: int, span: (int, int, int), y: int, x: int) -> bool {
    &&& span.0 <= f.col(i) < span.1
    &&& (span.2 <= f.row(i) < y || (f.row(i) == y && f.col(i) < x))
}

/// What cell `i` holds while triangle `t` is being drawn into `f` by such
/// a sweep: shaded where the sweep has passed, and as in `f` elsewhere.
pub open spec fn sweep_cell(f: Frame, t: Triangle, i: int, span: (int, int, int), y: int, x: int) -> Pixel {
    if swept(f, i, span, y, x) {
        shaded_cell(f, t, i)
    } else {
        f.cell(i)
    }
}

/// `v` brought into `0..=limit`.
pub open spec fn clip(v: int, limit: int) -> int {
    if v <= 0 {
        0
    } else if v > limit {
        limit
    } else {
        v
    }
}

/// The half-open range of pixel coordinates that both a span `lo..=hi` of
/// vertex coordinates and a frame side of `side` pixels contain.
fn clip_span(a: i32, b: i32, c: i32, side: usize) -> (span: (usize, usize))
    ensures
        span.0 <= span.1 <= side,
        span.1 <= 0x7fff_ffff,
        span.1 == clip(max3(a as int, b as int, c as int), side as int),
        span.0 == clip(min3(a as int, b as int, c as int), span.1 as int),
{
    let lo: i32 = if a <= b && a <= c {
        a
    } else if b <= c {
        b
    } else {
        c
    };
    let hi: i32 = if a >= b && a >= c {
        a
    } else if b >= c {
        b
    } else {
        c
    };
    if hi <= 0 || side == 0 {
        return (0, 0);
    }
    let end: usize = if hi as usize > side {
        side
    } else {
        hi as usize
    };
    let start: usize = if lo <= 0 {
        0
    } else {
        lo as usize
    };
    if start > end {
        (end, end)
    } else {
        (start, end)
    }
}

/// Fills a triangle. A pixel is drawn where its centre lies on the inner
/// side of all three edges; its depth and colour are the vertices' depths
/// and colours interpolated with the barycentric weights of the centre; and
/// it replaces what the frame holds only where it is strictly nearer. A
/// triangle without area draws nothing.
pub fn draw_triangle(
    framebuffer: &mut Framebuffer,
    v0: (i32, i32, i32),
    v1: (i32, i32, i32),
    v2: (i32, i32, i32),
    c0: ShaderColor,
    c1: ShaderColor,
    c2: ShaderColor,
)
    requires
        old(framebuffer).wf(),
    ensures
        final(framebuffer).wf(),
        final(framebuffer)@ == fill_triangle(old(framebuffer)@, (Triangle { v0, v1, v2, c0, c1, c2 })),
{
    let ghost t = Triangle { v0, v1, v2, c0, c1, c2 };
    let ghost f0 = framebuffer@;
    let a: (i64, i64) = (2 * (v0.0 as i64), 2 * (v0.1 as i64));
    let b: (i64, i64) = (2 * (v1.0 as i64), 2 * (v1.1 as i64));
    let c: (i64, i64) = (2 * (v2.0 as i64), 2 * (v2.1 as i64));
    let area: i128 = edge_function(a, b, c);
    let n: usize = framebuffer.buffer.len();
    let width: usize = framebuffer.width;
    let (x_lo, x_hi) = clip_span(v0.0, v1.0, v2.0, width);
    let (y_lo, y_hi) = clip_span(v0.1, v1.1, v2.1, framebuffer.height);
    proof {
        assert forall|i: int| 0 <= i < n implies f0.in_bounds(#[trigger] f0.col(i), f0.row(i))
            && f0.index(f0.col(i), f0.row(i)) == i by {
            lemma_cell_is_pixel(f0, i);
        }
    }
    if area > 0 {
        let mut y: usize = y_lo;
        while y < y_hi
            invariant
                y_lo <= y <= y_hi <= framebuffer.height,
                x_lo <= x_hi <= width,
                x_hi <= 0x7fff_ffff,
                y_hi <= 0x7fff_ffff,
                width == framebuffer.width == f0.width,
                framebuffer.height == f0.height,
                f0.wf(),
                framebuffer.wf(),
                n == f0.color.len(),
                t == (Triangle { v0, v1, v2, c0, c1, c2 }),
                grid(a) == corner(v0),
                grid(b) == corner(v1),
                grid(c) == corner(v2),
                area == t.area(),
                0 < area <= 0x20_0000_0000_0000_0000,
                forall|i: int|
                    0 <= i < n ==> f0.in_bounds(#[trigger] f0.col(i), f0.row(i)) && f0.index(
                        f0.col(i),
                        f0.row(i),
                    ) == i,
                forall|i: int|
                    0 <= i < n ==> framebuffer@.cell(i) == #[trigger] sweep_cell(
                        f0,
                        t,
                        i,
                        (x_lo as int, x_hi as int, y_lo as int),
                        y as int,
                        x_lo as int,
                    ),
            decreases y_hi - y,
        {
            let mut x: usize = x_lo;
            while x < x_hi
                invariant
                    y_lo <= y < y_hi <= framebuffer.height,
                    x_lo <= x <= x_hi <= width,
                    x_hi <= 0x7fff_ffff,
                    y_hi <= 0x7fff_ffff,
                    width == framebuffer.width == f0.width,
                    framebuffer.height == f0.height,
                    f0.wf(),
                    framebuffer.wf(),
                    n == f0.color.len(),
                    t == (Triangle { v0, v1, v2, c0, c1, c2 }),
                    grid(a) == corner(v0),
                    grid(b) == corner(v1),
                    grid(c) == corner(v2),
                    area == t.area(),
                    0 < area <= 0x20_0000_0000_0000_0000,
                    forall|i: int|
                        0 <= i < n ==> f0.in_bounds(#[trigger] f0.col(i), f0.row(i)) && f0.index(
                            f0.col(i),
                            f0.row(i),
                        ) == i,
                    forall|i: int|
                        0 <= i < n ==> framebuffer@.cell(i) == #[trigger] sweep_cell(
                            f0,
                            t,
                            i,
                            (x_lo as int, x_hi as int, y_lo as int),
                            y as int,
                            x as int,
                        ),
                decreases x_hi - x,
            {
                let ghost before = framebuffer@;
                let p: (i64, i64) = (2 * (x as i64) + 1, 2 * (y as i64) + 1);
                let w0: i128 = edge_function(b, c, p);
                let w1: i128 = edge_function(c, a, p);
                let w2: i128 = edge_function(a, b, p);
                proof {
                    lemma_index_in_range(f0, x as int, y as int);
                    lemma_edge_sum(grid(a), grid(b), grid(c), grid(p));
                    assert(grid(p) == centre(x as int, y as int));
                    assert(0 <= y * width) by (nonlinear_arith);
                }
                let idx: usize = y * width + x;
                if w0 >= 0 && w1 >= 0 && w2 >= 0 {
                    let depth: i32 = interpolate(v0.2, v1.2, v2.2, w0, w1, w2, area);
                    if depth < framebuffer.depth_buffer[idx] {
                        let r: i32 = interpolate(c0.r, c1.r, c2.r, w0, w1, w2, area);
                        let g: i32 = interpolate(c0.g, c1.g, c2.g, w0, w1, w2, area);
                        let b8: i32 = interpolate(c0.b, c1.b, c2.b, w0, w1, w2, area);
                        framebuffer.depth_buffer[idx] = depth;
                        framebuffer.buffer[idx] = rgb_to_u32(
                            channel_level(r),
                            channel_level(g),
                            channel_level(b8),
                        );
                    }
                }
                proof {
                    let span = (x_lo as int, x_hi as int, y_lo as int);
                    assert(before.cell(idx as int) == sweep_cell(
                        f0,
                        t,
                        idx as int,
                        span,
                        y as int,
                        x as int,
                    ));
                    assert(framebuffer@.cell(idx as int) == shaded_cell(f0, t, idx as int));
                    assert forall|i: int| 0 <= i < n implies framebuffer@.cell(i)
                        == #[trigger] sweep_cell(f0, t, i, span, y as int, x + 1) by {
                        assert(before.cell(i) == sweep_cell(f0, t, i, span, y as int, x as int));
                        assert(f0.index(f0.col(i), f0.row(i)) == i);
                    }
                }
                x += 1;
            }
            proof {
                let span = (x_lo as int, x_hi as int, y_lo as int);
                assert forall|i: int| 0 <= i < n implies framebuffer@.cell(i)
                    == #[trigger] sweep_cell(f0, t, i, span, y + 1, x_lo as int) by {
                    assert(framebuffer@.cell(i) == sweep_cell(f0, t, i, span, y as int, x_hi as int));
                }
            }
            y += 1;
        }
        proof {
            let span = (x_lo as int, x_hi as int, y_lo as int);
            assert forall|i: int| 0 <= i < n implies framebuffer@.cell(i) == #[trigger] shaded_cell(
                f0,
                t,
                i,
            ) by {
                assert(framebuffer@.cell(i) == sweep_cell(f0, t, i, span, y_hi as int, x_lo as int));
                assert(f0.index(f0.col(i), f0.row(i)) == i);
                if t.covers(f0.col(i), f0.row(i)) {
                    lemma_covered_in_bounding_box(t, f0.col(i), f0.row(i));
                }
            }
        }
    }
    proof {
        let f1 = fill_triangle(f0, t);
        assert forall|i: int| 0 <= i < n implies framebuffer@.cell(i) == #[trigger] shaded_cell(
            f0,
            t,
            i,
        ) by {
            if t.covers(f0.col(i), f0.row(i)) {
                lemma_barycentric_partition(t, f0.col(i), f0.row(i));
            }
        }
        assert(framebuffer@.color =~= f1.color);
        assert(framebuffer@.depth =~= f1.depth);
    }
}

/// Drawing a triangle keeps the frame's shape and shades each pixel on its
/// own.
pub proof fn lemma_fill_triangle_pixel(f: Frame, t: Triangle, x: int, y: int)
    requires
        f.wf(),
        f.in_bounds(x, y),
    ensures
        fill_triangle(f, t).wf(),
        fill_triangle(f, t).in_bounds(x, y),
        fill_triangle(f, t).pixel(x, y) == t.shade(f.pixel(x, y), x, y),
{
    lemma_index_in_range(f, x, y);
}

/// Drawing a line keeps the frame's shape and every depth, and shades each
/// pixel on its own.
pub proof fn lemma_trace_line_pixel(f: Frame, l: Line, x: int, y: int)
    requires
        f.wf(),
        f.in_bounds(x, y),
    ensures
        trace_line(f, l).wf(),
        trace_line(f, l).in_bounds(x, y),
        trace_line(f, l).depth == f.depth,
        trace_line(f, l).pixel(x, y) == l.shade(f.pixel(x, y), x, y),
{
    lemma_index_in_range(f, x, y);
}

/// The depth of a triangle at a pixel it covers lies between the least and
/// the greatest of its vertex depths.
pub proof fn lemma_depth_between_vertices(t: Triangle, x: int, y: int)
    requires
        t.covers(x, y),
    ensures
        min3(t.v0.2 as int, t.v1.2 as int, t.v2.2 as int) <= t.depth_at(x, y) <= max3(
            t.v0.2 as int,
            t.v1.2 as int,
            t.v2.2 as int,
        ),
{
    lemma_barycentric_partition(t, x, y);
    let lo = min3(t.v0.2 as int, t.v1.2 as int, t.v2.2 as int);
    let hi = max3(t.v0.2 as int, t.v1.2 as int, t.v2.2 as int);
    let w0 = t.w0(x, y);
    let w1 = t.w1(x, y);
    let w2 = t.w2(x, y);
    lemma_weighted_sum_bounds(t.v0.2 as int, t.v1.2 as int, t.v2.2 as int, w0, w1, w2, lo, hi);
    lemma_quotient_bounds(t.v0.2 * w0 + t.v1.2 * w1 + t.v2.2 * w2, t.area(), lo, hi);
}

/// A triangle whose three screen points lie on one line draws nothing: the
/// frame keeps every colour and every depth.
pub proof fn lemma_degenerate_triangle_draws_nothing(f: Frame, t: Triangle)
    requires
        t.area() == 0,
    ensures
        fill_triangle(f, t) == f,
{
    assert(fill_triangle(f, t).color =~= f.color);
    assert(fill_triangle(f, t).depth =~= f.depth);
}

/// Where two triangles cover the same pixel at different depths, and the
/// nearer one is nearer than what the pixel holds, the pixel ends up with
/// the nearer triangle's colour and depth in whichever order the two are
/// drawn.
pub proof fn lemma_nearer_triangle_wins(f: Frame, near: Triangle, far: Triangle, x: int, y: int)
    requires
        f.wf(),
        f.in_bounds(x, y),
        near.covers(x, y),
        far.covers(x, y),
        near.depth_at(x, y) < far.depth_at(x, y),
        near.depth_at(x, y) < f.pixel(x, y).depth,
    ensures
        fill_triangle(fill_triangle(f, near), far).pixel(x, y) == (Pixel {
            color: near.color_at(x, y) as u32,
            depth: near.depth_at(x, y) as i32,
        }),
        fill_triangle(fill_triangle(f, far), near).pixel(x, y) == (Pixel {
            color: near.color_at(x, y) as u32,
            depth: near.depth_at(x, y) as i32,
        }),
        fill_triangle(fill_triangle(f, near), far).pixel(x, y).depth == near.depth_at(x, y),
{
    lemma_depth_between_vertices(near, x, y);
    lemma_depth_between_vertices(far, x, y);
    lemma_fill_triangle_pixel(f, near, x, y);
    lemma_fill_triangle_pixel(f, far, x, y);
    lemma_fill_triangle_pixel(fill_triangle(f, near), far, x, y);
    lemma_fill_triangle_pixel(fill_triangle(f, far), near, x, y);
}

/// Two triangles whose depths differ wherever both cover a pixel give the
/// same frame in whichever order they are drawn.
pub proof fn lemma_draw_order_is_irrelevant(f: Frame, a: Triangle, b: Triangle)
    requires
        f.wf(),
        forall|x: int, y: int|
            f.in_bounds(x, y) && a.covers(x, y) && b.covers(x, y) ==> #[trigger] a.depth_at(x, y)
                != #[trigger] b.depth_at(x, y),
    ensures
        fill_triangle(fill_triangle(f, a), b) == fill_triangle(fill_triangle(f, b), a),
{
    let ab = fill_triangle(fill_triangle(f, a), b);
    let ba = fill_triangle(fill_triangle(f, b), a);
    assert forall|i: int| 0 <= i < f.color.len() implies ab.cell(i) == ba.cell(i) by {
        let x = f.col(i);
        let y = f.row(i);
        lemma_cell_is_pixel(f, i);
        if a.covers(x, y) {
            lemma_depth_between_vertices(a, x, y);
        }
        if b.covers(x, y) {
            lemma_depth_between_vertices(b, x, y);
        }
        assert(fill_triangle(f, a).cell(i) == shaded_cell(f, a, i));
        assert(fill_triangle(f, b).cell(i) == shaded_cell(f, b, i));
        assert(ab.cell(i) == shaded_cell(fill_triangle(f, a), b, i));
        assert(ba.cell(i) == shaded_cell(fill_triangle(f, b), a, i));
    }
    assert(ab.color =~= ba.color) by {
        assert forall|i: int| 0 <= i < f.color.len() implies ab.color[i] == ba.color[i] by {
            assert(ab.cell(i) == ba.cell(i));
        }
    }
    assert(ab.depth =~= ba.depth) by {
        assert forall|i: int| 0 <= i < f.depth.len() implies ab.depth[i] == ba.depth[i] by {
            assert(ab.cell(i) == ba.cell(i));
        }
    }
}

/// Drawing a triangle a second time changes nothing: at equal depth the
/// pixel that is there stays.
pub proof fn lemma_redraw_changes_nothing(f: Frame, t: Triangle)
    requires
        f.wf(),
    ensures
        fill_triangle(fill_triangle(f, t), t) == fill_triangle(f, t),
{
    let once = fill_triangle(f, t);
    let twice = fill_triangle(once, t);
    assert forall|i: int| 0 <= i < f.color.len() implies twice.cell(i) == once.cell(i) by {
        let x = f.col(i);
        let y = f.row(i);
        if t.covers(x, y) {
            lemma_depth_between_vertices(t, x, y);
        }
        assert(once.cell(i) == shaded_cell(f, t, i));
        assert(twice.cell(i) == shaded_cell(once, t, i));
    }
    assert(twice.color =~= once.color) by {
        assert forall|i: int| 0 <= i < f.color.len() implies twice.color[i] == once.color[i] by {
            assert(twice.cell(i) == once.cell(i));
        }
    }
    assert(twice.depth =~= once.depth) by {
        assert forall|i: int| 0 <= i < f.depth.len() implies twice.depth[i] == once.depth[i] by {
            assert(twice.cell(i) == once.cell(i));
        }
    }
}

/// A line never hides a triangle drawn after it: lines write no depth, so a
/// triangle that is nearer than what the pixel held before the line is
/// drawn there whatever the line's own depth was.
pub proof fn lemma_line_never_blocks_triangle(f: Frame, l: Line, t: Triangle, x: int, y: int)
    requires
        f.wf(),
        f.in_bounds(x, y),
        t.covers(x, y),
        t.depth_at(x, y) < f.pixel(x, y).depth,
    ensures
        fill_triangle(trace_line(f, l), t).pixel(x, y) == (Pixel {
            color: t.color_at(x, y) as u32,
            depth: t.depth_at(x, y) as i32,
        }),
{
    lemma_trace_line_pixel(f, l, x, y);
    lemma_fill_triangle_pixel(trace_line(f, l), t, x, y);
}

/// A triangle hides a line drawn after it wherever the line is not strictly
/// nearer: the pixel keeps the triangle's colour and depth.
pub proof fn lemma_triangle_blocks_deeper_line(f: Frame, l: Line, t: Triangle, x: int, y: int)
    requires
        f.wf(),
        f.in_bounds(x, y),
        t.covers(x, y),
        t.depth_at(x, y) < f.pixel(x, y).depth,
        l.visits(x, y),
        l.depth_at(l.step_of(x, y)) >= t.depth_at(x, y),
    ensures
        trace_line(fill_triangle(f, t), l).pixel(x, y) == (Pixel {
            color: t.color_at(x, y) as u32,
            depth: t.depth_at(x, y) as i32,
        }),
{
    lemma_depth_between_vertices(t, x, y);
    lemma_fill_triangle_pixel(f, t, x, y);
    lemma_trace_line_pixel(fill_triangle(f, t), l, x, y);
}

/// The frame after the line between two projected points is drawn; a point
/// that failed projection leaves the frame as it is.
pub open spec fn line_frame(
    f: Frame,
    start: Option<(i32, i32, i32)>,
    end: Option<(i32, i32, i32)>,
    color: u32,
) -> Frame {
    match (start, end) {
        (Some(first), Some(second)) => trace_line(f, Line { start: first, end: second, color }),
        _ => f,
    }
}

/// The frame after the line between two points in space is drawn under the
/// matrix `view_proj`.
pub open spec fn segment_frame(
    f: Frame,
    start: Vector3,
    end: Vector3,
    view_proj: Matrix4,
    color: u32,
) -> Frame {
    line_frame(f, screen_point(start, view_proj), screen_point(end, view_proj), color)
}

/// Draws the line between two points in space: both ends are projected, and
/// the line between their screen points is drawn. Where either end fails
/// projection nothing is drawn.
pub fn draw_line_3d(
    framebuffer: &mut Framebuffer,
    start: &Vector3,
    end: &Vector3,
    view_proj: &Matrix4,
    color: u32,
)
    requires
        old(framebuffer).wf(),
    ensures
        final(framebuffer).wf(),
        final(framebuffer)@ == segment_frame(old(framebuffer)@, *start, *end, *view_proj, color),
{
    if let Some(first) = project_vertex(start, view_proj) {
        if let Some(second) = project_vertex(end, view_proj) {
            draw_line(framebuffer, first, second, color);
        }
    }
}

/// The colour of the orbit rings, `rgb(100, 140, 200)`.
pub const ORBIT_COLOR: u32 = 0x648CC8;

/// A segment of a guide line: its two ends in space.
pub type Segment = (Vector3, Vector3);

/// The frame after the segments are drawn one after the other in `color`.
pub open spec fn draw_segments(f: Frame, segments: Seq<Segment>, view_proj: Matrix4, color: u32) -> Frame
    decreases segments.len(),
{
    if segments.len() == 0 {
        f
    } else {
        segment_frame(
            draw_segments(f, segments.drop_last(), view_proj, color),
            segments.last().0,
            segments.last().1,
            view_proj,
            color,
        )
    }
}

/// Draws the orbit rings of the ecliptic plane: every segment in the orbit
/// colour, in the order given, each as a depth-tested line that writes no
/// depth.
pub fn render_ecliptic_plane(
    framebuffer: &mut Framebuffer,
    view_proj: &Matrix4,
    segments: &Vec<Segment>,
)
    requires
        old(framebuffer).wf(),
    ensures
        final(framebuffer).wf(),
        final(framebuffer)@ == draw_segments(old(framebuffer)@, segments@, *view_proj, ORBIT_COLOR),
{
    let ghost f0 = framebuffer@;
    let mut k: usize = 0;
    while k < segments.len()
        invariant
            k <= segments.len(),
            framebuffer.wf(),
            framebuffer@ == draw_segments(f0, segments@.take(k as int), *view_proj, ORBIT_COLOR),
        decreases segments.len() - k,
    {
        proof {
            assert(segments@.take(k + 1).drop_last() =~= segments@.take(k as int));
            assert(segments@.take(k + 1).last() == segments@[k as int]);
        }
        let segment: Segment = segments[k];
        draw_line_3d(framebuffer, &segment.0, &segment.1, view_proj, ORBIT_COLOR);
        k += 1;
    }
    proof {
        assert(segments@.take(segments.len() as int) =~= segments@);
    }
}

/// A face of a mesh: the indices of its three vertices.
pub type Face = (usize, usize, usize);

/// Every face of the mesh names three of its `count` vertices.
pub open spec fn faces_in_range(faces: Seq<Face>, count: int) -> bool {
    forall|k: int|
        0 <= k < faces.len() ==> (#[trigger] faces[k]).0 < count && faces[k].1 < count
            && faces[k].2 < count
}

/// Whether every face of the mesh names three of its `count` vertices.
pub fn mesh_is_valid(indices: &Vec<Face>, count: usize) -> (valid: bool)
    ensures
        valid == faces_in_range(indices@, count as int),
{
    let mut k: usize = 0;
    while k < indices.len()
        invariant
            k <= indices.len(),
            faces_in_range(indices@.take(k as int), count as int),
        decreases indices.len() - k,
    {
        let face: Face = indices[k];
        if face.0 >= count || face.1 >= count || face.2 >= count {
            return false;
        }
        proof {
            let next = indices@.take(k + 1);
            assert forall|j: int| 0 <= j < next.len() implies (#[trigger] next[j]).0 < count
                && next[j].1 < count && next[j].2 < count by {
                if j < k {
                    assert(next[j] == indices@.take(k as int)[j]);
                }
            }
        }
        k += 1;
    }
    proof {
        assert(indices@.take(indices.len() as int) =~= indices@);
    }
    true
}

/// The screen point of a vertex of a body: the vertex is taken to world
/// space by the model matrix, once, and the world point is projected by
/// `view_proj`.
pub open spec fn planet_point(model: Matrix4, view_proj: Matrix4, v: Vector3) -> Option<
    (i32, i32, i32),
> {
    screen_point(transformed(v, model), view_proj)
}

/// The frame after one face is drawn. The face is dropped whole where any
/// of its vertices fails projection.
pub open spec fn draw_face(
    f: Frame,
    model: Matrix4,
    view_proj: Matrix4,
    positions: Seq<Vector3>,
    colors: Seq<ShaderColor>,
    face: Face,
) -> Frame {
    match (
        planet_point(model, view_proj, positions[face.0 as int]),
        planet_point(model, view_proj, positions[face.1 as int]),
        planet_point(model, view_proj, positions[face.2 as int]),
    ) {
        (Some(v0), Some(v1), Some(v2)) => fill_triangle(
            f,
            Triangle {
                v0,
                v1,
                v2,
                c0: colors[face.0 as int],
                c1: colors[face.1 as int],
                c2: colors[face.2 as int],
            },
        ),
        _ => f,
    }
}

/// The frame after the faces are drawn one after the other.
pub open spec fn draw_faces(
    f: Frame,
    model: Matrix4,
    view_proj: Matrix4,
    positions: Seq<Vector3>,
    colors: Seq<ShaderColor>,
    faces: Seq<Face>,
) -> Frame
    decreases faces.len(),
{
    if faces.len() == 0 {
        f
    } else {
        draw_face(
            draw_faces(f, model, view_proj, positions, colors, faces.drop_last()),
            model,
            view_proj,
            positions,
            colors,
            faces.last(),
        )
    }
}

/// Where the shader puts vertex `i` of a mesh, and the normal it gives it.
pub open spec fn moved_vertex<S: PlanetShader>(
    shader: S,
    vertices: Seq<Vector3>,
    normals: Seq<Vector3>,
    uvs: Seq<(i32, i32)>,
    uniforms: ShaderUniforms,
    i: int,
) -> (Vector3, Vector3) {
    shader.moved(vertices[i], normals[i], uvs[i], uniforms)
}

/// For each vertex of a mesh, where the vertex shader puts it.
pub open spec fn shaded_positions<S: PlanetShader>(
    shader: S,
    vertices: Seq<Vector3>,
    normals: Seq<Vector3>,
    uvs: Seq<(i32, i32)>,
    uniforms: ShaderUniforms,
) -> Seq<Vector3> {
    Seq::new(
        vertices.len(),
        |i: int| moved_vertex(shader, vertices, normals, uvs, uniforms, i).0,
    )
}

/// For each vertex of a mesh, the colour the fragment shader gives it: the
/// fragment shader is given the position and the normal that the vertex
/// shader returned for the vertex, and the vertex's own texture coordinates.
pub open spec fn shaded_colors<S: PlanetShader>(
    shader: S,
    vertices: Seq<Vector3>,
    normals: Seq<Vector3>,
    uvs: Seq<(i32, i32)>,
    uniforms: ShaderUniforms,
) -> Seq<ShaderColor> {
    Seq::new(
        vertices.len(),
        |i: int|
            shader.colored(
                moved_vertex(shader, vertices, normals, uvs, uniforms, i).0,
                moved_vertex(shader, vertices, normals, uvs, uniforms, i).1,
                uvs[i],
                uniforms,
            ),
    )
}

/// Shades a mesh: for each vertex the vertex shader is called once with the
/// vertex, its normal and its texture coordinates, and then the fragment
/// shader once with what the vertex shader returned. The result holds for
/// each vertex where the shader put it and the colour the shader gave it.
pub fn shade_mesh<S: PlanetShader>(
    shader: &S,
    vertices: &Vec<Vector3>,
    normals: &Vec<Vector3>,
    uvs: &Vec<(i32, i32)>,
    uniforms: &ShaderUniforms,
) -> (shaded: (Vec<Vector3>, Vec<ShaderColor>))
    requires
        normals.len() == vertices.len(),
        uvs.len() == vertices.len(),
    ensures
        shaded.0@ == shaded_positions(*shader, vertices@, normals@, uvs@, *uniforms),
        shaded.1@ == shaded_colors(*shader, vertices@, normals@, uvs@, *uniforms),
{
    let mut positions: Vec<Vector3> = Vec::new();
    let mut colors: Vec<ShaderColor> = Vec::new();
    let mut i: usize = 0;
    while i < vertices.len()
        invariant
            i <= vertices.len(),
            normals.len() == vertices.len(),
            uvs.len() == vertices.len(),
            positions.len() == i,
            colors.len() == i,
            forall|j: int|
                0 <= j < i ==> #[trigger] positions[j] == moved_vertex(
                    *shader,
                    vertices@,
                    normals@,
                    uvs@,
                    *uniforms,
                    j,
                ).0,
            forall|j: int|
                0 <= j < i ==> #[trigger] colors[j] == shader.colored(
                    moved_vertex(*shader, vertices@, normals@, uvs@, *uniforms, j).0,
                    moved_vertex(*shader, vertices@, normals@, uvs@, *uniforms, j).1,
                    uvs[j],
                    *uniforms,
                ),
        decreases vertices.len() - i,
    {
        let (position, normal) = shader.vertex_shader(vertices[i], normals[i], uvs[i], uniforms);
        let color = shader.fragment_shader(position, normal, uvs[i], uniforms);
        positions.push(position);
        colors.push(color);
        i += 1;
    }
    proof {
        assert(positions@ =~= shaded_positions(*shader, vertices@, normals@, uvs@, *uniforms));
        assert(colors@ =~= shaded_colors(*shader, vertices@, normals@, uvs@, *uniforms));
    }
    (positions, colors)
}

/// Draws a body: its mesh is shaded, one call of each shader per vertex, and
/// the shaded mesh is drawn as `draw_mesh` draws it, with the positions and
/// the colours the shader returned.
pub fn render_planet<S: PlanetShader>(
    framebuffer: &mut Framebuffer,
    shader: &S,
    model: &Matrix4,
    vertices: &Vec<Vector3>,
    normals: &Vec<Vector3>,
    uvs: &Vec<(i32, i32)>,
    indices: &Vec<Face>,
    view_proj: &Matrix4,
    uniforms: &ShaderUniforms,
)
    requires
        old(framebuffer).wf(),
        normals.len() == vertices.len(),
        uvs.len() == vertices.len(),
        faces_in_range(indices@, vertices.len() as int),
    ensures
        final(framebuffer).wf(),
        final(framebuffer)@ == draw_faces(
            old(framebuffer)@,
            *model,
            *view_proj,
            shaded_positions(*shader, vertices@, normals@, uvs@, *uniforms),
            shaded_colors(*shader, vertices@, normals@, uvs@, *uniforms),
            indices@,
        ),
{
    let (positions, colors) = shade_mesh(shader, vertices, normals, uvs, uniforms);
    draw_mesh(framebuffer, model, &positions, &colors, indices, view_proj);
}

/// Draws a shaded mesh. `positions` holds for each vertex of the mesh where
/// the vertex shader put it, and `colors` the colour the fragment shader gave
/// it: one colour per vertex, not per pixel. Face by face, the three
/// vertices are taken to world space and projected, and the triangle is
/// filled with the three vertex colours interpolated across it. A face with
/// a vertex that fails projection is dropped whole.
pub fn draw_mesh(
    framebuffer: &mut Framebuffer,
    model: &Matrix4,
    positions: &Vec<Vector3>,
    colors: &Vec<ShaderColor>,
    indices: &Vec<Face>,
    view_proj: &Matrix4,
)
    requires
        old(framebuffer).wf(),
        positions.len() == colors.len(),
        faces_in_range(indices@, positions.len() as int),
    ensures
        final(framebuffer).wf(),
        final(framebuffer)@ == draw_faces(
            old(framebuffer)@,
            *model,
            *view_proj,
            positions@,
            colors@,
            indices@,
        ),
{
    let ghost f0 = framebuffer@;
    let mut k: usize = 0;
    while k < indices.len()
        invariant
            k <= indices.len(),
            framebuffer.wf(),
            positions.len() == colors.len(),
            faces_in_range(indices@, positions.len() as int),
            framebuffer@ == draw_faces(
                f0,
                *model,
                *view_proj,
                positions@,
                colors@,
                indices@.take(k as int),
            ),
        decreases indices.len() - k,
    {
        let face: Face = indices[k];
        proof {
            assert(indices@.take(k + 1).drop_last() =~= indices@.take(k as int));
            assert(indices@.take(k + 1).last() == indices@[k as int]);
        }
        let world_v0 = transform_vertex(&positions[face.0], model);
        let world_v1 = transform_vertex(&positions[face.1], model);
        let world_v2 = transform_vertex(&positions[face.2], model);
        if let Some(v0) = project_vertex(&world_v0, view_proj) {
            if let Some(v1) = project_vertex(&world_v1, view_proj) {
                if let Some(v2) = project_vertex(&world_v2, view_proj) {
                    draw_triangle(
                        framebuffer,
                        v0,
                        v1,
                        v2,
                        colors[face.0],
                        colors[face.1],
                        colors[face.2],
                    );
                }
            }
        }
        k += 1;
    }
    proof {
        assert(indices@.take(indices.len() as int) =~= indices@);
    }
}

} // verus!
