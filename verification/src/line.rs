use vstd::prelude::*;
use crate::framebuffer::Frame;
use crate::framebuffer::Framebuffer;
use crate::framebuffer::Pixel;
use crate::framebuffer::lemma_cell_is_pixel;
use crate::framebuffer::lemma_index_in_range;
use crate::fixed::floor_div;
use crate::fixed::lemma_quotient_bounds;

verus! {

/// The distance between two coordinates.
pub open spec fn span(a: int, b: int) -> int {
    if a <= b {
        b - a
    } else {
        a - b
    }
}

/// `a / b` rounded to the nearest whole number, a half rounded up; `0` where
/// `b` is not positive.
pub open spec fn round_div(a: int, b: int) -> int {
    if b > 0 {
        (2 * a + b) / (2 * b)
    } else {
        0
    }
}

/// A line in screen space between two pixel positions with depths, in one
/// colour.
pub struct Line {
    pub start: (i32, i32, i32),
    pub end: (i32, i32, i32),
    pub color: u32,
}

impl Line {
    /// The horizontal extent of the line.
    pub open spec fn dx(self) -> int {
        span(self.start.0 as int, self.end.0 as int)
    }

    /// The vertical extent of the line.
    pub open spec fn dy(self) -> int {
        span(self.start.1 as int, self.end.1 as int)
    }

    /// The number of steps from the first pixel to the last: the greater of
    /// the two extents.
    pub open spec fn len(self) -> int {
        if self.dx() >= self.dy() {
            self.dx()
        } else {
            self.dy()
        }
    }

    /// The column `i` steps from the start towards the end.
    pub open spec fn column(self, i: int) -> int {
        if self.start.0 < self.end.0 {
            self.start.0 + i
        } else {
            self.start.0 - i
        }
    }

    /// The row `j` steps from the start towards the end.
    pub open spec fn line_row(self, j: int) -> int {
        if self.start.1 < self.end.1 {
            self.start.1 + j
        } else {
            self.start.1 - j
        }
    }

    /// The number of pixels the line has advanced along `x` after `k` steps.
    /// Along the axis of the greater extent the line advances one pixel per
    /// step; along the other it follows the ideal line, rounded to the
    /// nearest pixel.
    pub open spec fn steps_x(self, k: int) -> int {
        if self.dx() >= self.dy() {
            k
        } else {
            round_div(self.dx() * k, self.dy())
        }
    }

    /// The number of pixels the line has advanced along `y` after `k` steps.
    pub open spec fn steps_y(self, k: int) -> int {
        if self.dx() >= self.dy() {
            round_div(self.dy() * k, self.dx())
        } else {
            k
        }
    }

    /// The pixel the line passes at step `k`.
    pub open spec fn point(self, k: int) -> (int, int) {
        (self.column(self.steps_x(k)), self.line_row(self.steps_y(k)))
    }

    /// The error term of integer line stepping after `i` pixels along `x`
    /// and `j` along `y`. It starts at `dx - dy`, loses `dy` with every pixel
    /// along `x` and gains `dx` with every pixel along `y`.
    pub open spec fn step_error(self, i: int, j: int) -> int {
        self.dx() * (j + 1) - self.dy() * (i + 1)
    }

    /// The step at which the line would pass pixel `(x, y)`: the pixel's
    /// distance from the start along the axis of the greater extent.
    pub open spec fn step_of(self, x: int, y: int) -> int {
        if self.dx() >= self.dy() {
            span(self.start.0 as int, x)
        } else {
            span(self.start.1 as int, y)
        }
    }

    /// The depth of the line at step `k`: the end depths interpolated by the
    /// fraction `k / len`, rounded down.
    pub open spec fn depth_at(self, k: int) -> int {
        self.start.2 + ((self.end.2 - self.start.2) * k) / self.len()
    }

    /// The line passes pixel `(x, y)`. A line whose two ends share a pixel
    /// has no direction and passes none.
    pub open spec fn visits(self, x: int, y: int) -> bool {
        &&& self.len() > 0
        &&& 0 <= self.step_of(x, y) <= self.len()
        &&& self.point(self.step_of(x, y)) == (x, y)
    }

    /// What pixel `(x, y)` holds after the line is drawn over `p`: the
    /// line's colour where the line passes and is strictly nearer than `p`.
    /// The depth of the pixel stays what it was.
    pub open spec fn shade(self, p: Pixel, x: int, y: int) -> Pixel {
        if self.visits(x, y) && self.depth_at(self.step_of(x, y)) < p.depth {
            Pixel { color: self.color, depth: p.depth }
        } else {
            p
        }
    }
}

/// The frame after a line is drawn into it: the colour of every pixel
/// shaded on its own, the depths untouched.
pub open spec fn trace_line(f: Frame, l: Line) -> Frame {
    Frame {
        color: Seq::new(f.color.len(), |i: int| l.shade(f.cell(i), f.col(i), f.row(i)).color),
        ..f
    }
}

/// What cell `i` holds once the steps before `k` of line `l` are drawn.
pub open spec fn traced_color(f: Frame, l: Line, i: int, k: int) -> u32 {
    if l.step_of(f.col(i), f.row(i)) < k {
        l.shade(f.cell(i), f.col(i), f.row(i)).color
    } else {
        f.color[i]
    }
}

/// Whether the quotient `j` is `round_div(a, b)`, stated without division.
pub open spec fn rounds_to(a: int, b: int, j: int) -> bool {
    2 * b * j <= 2 * a + b < 2 * b * j + 2 * b
}

/// A quotient that satisfies the bounds of rounding is the rounded quotient.
pub proof fn lemma_round_div(a: int, b: int, j: int)
    requires
        b > 0,
        rounds_to(a, b, j),
    ensures
        round_div(a, b) == j,
{
    assert(2 * a + b == j * (2 * b) + (2 * a + b - 2 * b * j)) by (nonlinear_arith);
    vstd::arithmetic::div_mod::lemma_fundamental_div_mod_converse(
        2 * a + b,
        2 * b,
        j,
        2 * a + b - 2 * b * j,
    );
}

/// A line starts at its first point and, where it has a direction, ends at
/// its second, with the depths of the two points.
pub proof fn lemma_line_ends(l: Line)
    ensures
        l.point(0) == (l.start.0 as int, l.start.1 as int),
        l.len() > 0 ==> l.point(l.len()) == (l.end.0 as int, l.end.1 as int),
        l.len() > 0 ==> l.depth_at(0) == l.start.2 && l.depth_at(l.len()) == l.end.2,
        l.len() > 0 ==> l.visits(l.start.0 as int, l.start.1 as int) && l.visits(
            l.end.0 as int,
            l.end.1 as int,
        ),
{
    let dx = l.dx();
    let dy = l.dy();
    let n = l.len();
    assert(dx * 0 == 0 && dy * 0 == 0) by (nonlinear_arith);
    if dx >= dy {
        if dx > 0 {
            lemma_round_div(0, dx, 0);
            assert(rounds_to(dy * dx, dx, dy)) by (nonlinear_arith)
                requires
                    dx > 0,
            ;
            lemma_round_div(dy * dx, dx, dy);
        }
    } else {
        lemma_round_div(0, dy, 0);
        assert(rounds_to(dx * dy, dy, dx)) by (nonlinear_arith)
            requires
                dy > 0,
        ;
        lemma_round_div(dx * dy, dy, dx);
    }
    if n > 0 {
        let d = l.end.2 - l.start.2;
        assert(d * 0 == 0) by (nonlinear_arith);
        assert(d * n == n * d) by (nonlinear_arith);
        vstd::arithmetic::div_mod::lemma_div_multiples_vanish(d, n);
    }
}

/// A line is connected: from one step to the next it moves by one pixel
/// along the axis of its greater extent, and by at most one pixel, and never
/// backwards, along the other.
pub proof fn lemma_line_is_connected(l: Line, k: int)
    requires
        0 <= k < l.len(),
    ensures
        0 <= l.steps_x(k + 1) - l.steps_x(k) <= 1,
        0 <= l.steps_y(k + 1) - l.steps_y(k) <= 1,
        l.dx() >= l.dy() ==> l.steps_x(k + 1) == l.steps_x(k) + 1,
        l.dx() < l.dy() ==> l.steps_y(k + 1) == l.steps_y(k) + 1,
{
    if l.dx() >= l.dy() {
        lemma_round_div_step(l.dy(), l.dx(), k);
    } else {
        lemma_round_div_step(l.dx(), l.dy(), k);
    }
}

/// The line is the walk of integer error stepping. With the error term `e`
/// of the pixels advanced so far, the next step advances along `x` exactly
/// when `2 e >= -dy`, and along `y` exactly when `2 e <= dx`.
pub proof fn lemma_line_steps_by_error(l: Line, k: int)
    requires
        0 <= k < l.len(),
    ensures
        l.step_error(0, 0) == l.dx() - l.dy(),
        l.steps_x(k + 1) == l.steps_x(k) + 1 <==> 2 * l.step_error(l.steps_x(k), l.steps_y(k))
            >= -l.dy(),
        l.steps_y(k + 1) == l.steps_y(k) + 1 <==> 2 * l.step_error(l.steps_x(k), l.steps_y(k))
            <= l.dx(),
{
    let dx = l.dx();
    let dy = l.dy();
    lemma_line_is_connected(l, k);
    assert(dx * 1 == dx && dy * 1 == dy) by (nonlinear_arith);
    if dx >= dy {
        lemma_minor_step(dy, dx, k);
        let j = round_div(dy * k, dx);
        assert(l.step_error(k, j) == dx * (j + 1) - dy * (k + 1));
    } else {
        lemma_minor_step(dx, dy, k);
        let i = round_div(dx * k, dy);
        assert(l.step_error(i, k) == dx * (k + 1) - dy * (i + 1));
    }
}

/// Along the axis of the lesser extent `a` of a line with greater extent
/// `b`, let `j` be the rounded position after `k` steps and
/// `e = b (j + 1) - a (k + 1)` the error term there. The position grows with
/// the next step exactly when `2 e <= b`, and `2 e >= -a` at every step.
pub proof fn lemma_minor_step(a: int, b: int, k: int)
    requires
        0 <= a <= b,
        b > 0,
        k >= 0,
    ensures
        round_div(a * (k + 1), b) == round_div(a * k, b) + 1 <==> 2 * (b * (round_div(a * k, b)
            + 1) - a * (k + 1)) <= b,
        2 * (b * (round_div(a * k, b) + 1) - a * (k + 1)) >= -a,
        a < b ==> 2 * (b * (round_div(a * k, b) + 1) - a * (k + 1)) > -a,
{
    let j = round_div(a * k, b);
    lemma_round_div_bounds(a * k, b);
    assert(a * (k + 1) == a * k + a) by (nonlinear_arith);
    assert(b * (j + 1) == b * j + b) by (nonlinear_arith);
    assert(2 * b * j == 2 * (b * j)) by (nonlinear_arith);
    assert(2 * b * (j + 1) == 2 * (b * j) + 2 * b) by (nonlinear_arith);
    if 2 * (b * (j + 1) - a * (k + 1)) <= b {
        assert(rounds_to(a * (k + 1), b, j + 1));
        lemma_round_div(a * (k + 1), b, j + 1);
    } else {
        assert(rounds_to(a * (k + 1), b, j));
        lemma_round_div(a * (k + 1), b, j);
    }
}

/// The rounded quotient satisfies the bounds of rounding.
pub proof fn lemma_round_div_bounds(a: int, b: int)
    requires
        b > 0,
    ensures
        rounds_to(a, b, round_div(a, b)),
{
    let n = 2 * a + b;
    let d = 2 * b;
    vstd::arithmetic::div_mod::lemma_fundamental_div_mod(n, d);
    vstd::arithmetic::div_mod::lemma_mod_bound(n, d);
    assert(d * (n / d) == 2 * b * (n / d)) by (nonlinear_arith)
        requires
            d == 2 * b,
    ;
}

/// Rounded multiples of a fraction `a / b` of at most one grow by zero or
/// one from one multiple to the next.
pub proof fn lemma_round_div_step(a: int, b: int, k: int)
    requires
        0 <= a <= b,
        b > 0,
    ensures
        0 <= round_div(a * (k + 1), b) - round_div(a * k, b) <= 1,
{
    let n0 = 2 * (a * k) + b;
    let n1 = 2 * (a * (k + 1)) + b;
    let d = 2 * b;
    assert(a * (k + 1) == a * k + a) by (nonlinear_arith);
    vstd::arithmetic::div_mod::lemma_fundamental_div_mod(n0, d);
    vstd::arithmetic::div_mod::lemma_fundamental_div_mod(n1, d);
    vstd::arithmetic::div_mod::lemma_mod_bound(n0, d);
    vstd::arithmetic::div_mod::lemma_mod_bound(n1, d);
    let q0 = n0 / d;
    let q1 = n1 / d;
    assert(0 <= q1 - q0 <= 1) by (nonlinear_arith)
        requires
            n0 == d * q0 + n0 % d,
            n1 == d * q1 + n1 % d,
            0 <= n0 % d < d,
            0 <= n1 % d < d,
            n1 == n0 + 2 * a,
            0 <= 2 * a <= d,
            d > 0,
    ;
}

/// The depth of a line at each of its steps lies between its end depths.
pub proof fn lemma_line_depth_bounds(l: Line, k: int)
    requires
        0 <= k <= l.len(),
        l.len() > 0,
    ensures
        l.start.2 <= l.depth_at(k) <= l.end.2 || l.end.2 <= l.depth_at(k) <= l.start.2,
{
    let d = l.end.2 - l.start.2;
    let n = l.len();
    if d >= 0 {
        assert(0 * n <= d * k <= d * n) by (nonlinear_arith)
            requires
                0 <= k <= n,
                d >= 0,
        ;
        lemma_quotient_bounds(d * k, n, 0, d);
    } else {
        assert(d * n <= d * k <= 0 * n) by (nonlinear_arith)
            requires
                0 <= k <= n,
                d < 0,
        ;
        lemma_quotient_bounds(d * k, n, d, 0);
    }
}

/// Draws a line between two screen points by integer stepping. At each
/// pixel passed the depth is interpolated along the axis of the greater
/// extent, and the colour is written where that depth is strictly less than
/// the depth stored; the depth buffer itself is never written. Pixels
/// outside the frame are skipped.
pub fn draw_line(framebuffer: &mut Framebuffer, start: (i32, i32, i32), end: (i32, i32, i32), color: u32)
    requires
        old(framebuffer).wf(),
    ensures
        final(framebuffer).wf(),
        final(framebuffer)@ == trace_line(old(framebuffer)@, (Line { start, end, color })),
{
    let ghost l = Line { start, end, color };
    let ghost f0 = framebuffer@;
    let n: usize = framebuffer.buffer.len();
    let width: usize = framebuffer.width;
    let height: usize = framebuffer.height;
    let x1: i64 = end.0 as i64;
    let y1: i64 = end.1 as i64;
    let mut x: i64 = start.0 as i64;
    let mut y: i64 = start.1 as i64;
    let right: bool = start.0 < end.0;
    let down: bool = start.1 < end.1;
    let dx: i64 = if right {
        x1 - x
    } else {
        x - x1
    };
    let dy: i64 = if down {
        y1 - y
    } else {
        y - y1
    };
    let len: i64 = if dx >= dy {
        dx
    } else {
        dy
    };
    let mut err: i64 = dx - dy;
    let mut k: i64 = 0;
    let ghost mut i: int = 0;
    let ghost mut j: int = 0;
    let ghost mut a: int = 0;
    let ghost mut b: int = 0;
    proof {
        assert forall|c: int| 0 <= c < n implies f0.in_bounds(#[trigger] f0.col(c), f0.row(c))
            && f0.index(f0.col(c), f0.row(c)) == c by {
            lemma_cell_is_pixel(f0, c);
        }
        assert(dx * 0 == 0 && dy * 0 == 0) by (nonlinear_arith);
    }
    loop
        invariant_except_break
            0 <= k <= len,
            x == l.column(i),
            y == l.line_row(j),
            a == dx * j,
            b == dy * i,
            err == a + dx - b - dy,
            dx >= dy ==> i == k && 0 <= j <= i && (len > 0 ==> 2 * a <= 2 * b + dx < 2 * a + 2 * dx),
            dx < dy ==> j == k && 0 <= i <= j && 2 * b <= 2 * a + dy < 2 * b + 2 * dy,
            forall|c: int| 0 <= c < n ==> framebuffer.buffer@[c] == #[trigger] traced_color(f0, l, c, k as int),
        invariant
            framebuffer.wf(),
            f0.wf(),
            width == framebuffer.width == f0.width,
            height == framebuffer.height == f0.height,
            n == f0.color.len(),
            framebuffer@.depth == f0.depth,
            l == (Line { start, end, color }),
            dx == l.dx(),
            dy == l.dy(),
            len == l.len(),
            0 <= dx <= 0xffff_ffff,
            0 <= dy <= 0xffff_ffff,
            x1 == end.0,
            y1 == end.1,
            right == (start.0 < end.0),
            down == (start.1 < end.1),
            forall|c: int|
                0 <= c < n ==> f0.in_bounds(#[trigger] f0.col(c), f0.row(c)) && f0.index(
                    f0.col(c),
                    f0.row(c),
                ) == c,
        ensures
            forall|c: int|
                0 <= c < n ==> framebuffer.buffer@[c] == #[trigger] traced_color(f0, l, c, len + 1),
        decreases len - k,
    {
        let ghost before = framebuffer@;
        proof {
            if len > 0 {
                if dx >= dy {
                    assert(2 * dx * j == 2 * a) by (nonlinear_arith)
                        requires
                            a == dx * j,
                    ;
                    lemma_round_div(dy * k, dx as int, j);
                } else {
                    assert(2 * dy * i == 2 * b) by (nonlinear_arith)
                        requires
                            b == dy * i,
                    ;
                    lemma_round_div(dx * k, dy as int, i);
                }
                assert(l.point(k as int) == (x as int, y as int));
                lemma_line_depth_bounds(l, k as int);
            }
        }
        if len > 0 && x >= 0 && y >= 0 && (x as u64) < (width as u64) && (y as u64) < (
        height as u64) {
            proof {
                lemma_index_in_range(f0, x as int, y as int);
                assert(0 <= y * width) by (nonlinear_arith)
                    requires
                        y >= 0,
                        width >= 0,
                ;
                assert(-0x1_0000_0000_0000_0000 <= (end.2 - start.2) * k <= 0x1_0000_0000_0000_0000)
                    by (nonlinear_arith)
                    requires
                        -0x1_0000_0000 <= end.2 - start.2 <= 0x1_0000_0000,
                        0 <= k <= 0x1_0000_0000,
                ;
            }
            let idx: usize = (y as usize) * width + (x as usize);
            let slope: i128 = (end.2 as i128 - start.2 as i128) * (k as i128);
            let depth: i128 = start.2 as i128 + floor_div(slope, len as i128);
            if depth < framebuffer.depth_buffer[idx] as i128 {
                framebuffer.buffer[idx] = color;
            }
            proof {
                assert(l.step_of(x as int, y as int) == k);
                assert(l.visits(x as int, y as int));
                assert(depth == l.depth_at(k as int));
                assert(framebuffer.buffer@[idx as int] == l.shade(
                    f0.cell(idx as int),
                    x as int,
                    y as int,
                ).color) by {
                    assert(before.color[idx as int] == traced_color(f0, l, idx as int, k as int));
                }
            }
        }
        proof {
            assert forall|c: int| 0 <= c < n implies framebuffer.buffer@[c] == #[trigger] traced_color(
                f0,
                l,
                c,
                k + 1,
            ) by {
                assert(before.color[c] == traced_color(f0, l, c, k as int));
                assert(f0.index(f0.col(c), f0.row(c)) == c);
            }
        }
        if x == x1 && y == y1 {
            break ;
        }
        proof {
            if dx >= dy {
                if k == len {
                    assert(j == dy) by (nonlinear_arith)
                        requires
                            a == dx * j,
                            b == dy * dx,
                            dx > 0,
                            2 * a <= 2 * b + dx < 2 * a + 2 * dx,
                    ;
                }
            } else {
                if k == len {
                    assert(i == dx) by (nonlinear_arith)
                        requires
                            a == dx * dy,
                            b == dy * i,
                            dy > 0,
                            2 * b <= 2 * a + dy < 2 * b + 2 * dy,
                    ;
                }
            }
            assert(k < len);
        }
        let e2: i64 = 2 * err;
        if e2 >= -dy {
            err = err - dy;
            x = if right {
                x + 1
            } else {
                x - 1
            };
            proof {
                assert(dy * (i + 1) == b + dy) by (nonlinear_arith)
                    requires
                        b == dy * i,
                ;
                i = i + 1;
                b = b + dy;
            }
        }
        if e2 <= dx {
            err = err + dx;
            y = if down {
                y + 1
            } else {
                y - 1
            };
            proof {
                assert(dx * (j + 1) == a + dx) by (nonlinear_arith)
                    requires
                        a == dx * j,
                ;
                j = j + 1;
                a = a + dx;
            }
        }
        k = k + 1;
    }
    proof {
        let f1 = trace_line(f0, l);
        assert forall|c: int| 0 <= c < n implies framebuffer.buffer@[c] == f1.color[c] by {
            assert(framebuffer.buffer@[c] == traced_color(f0, l, c, len + 1));
        }
        assert(framebuffer@.color =~= f1.color);
    }
}

} // verus!
