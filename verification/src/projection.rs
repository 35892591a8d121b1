use vstd::prelude::*;
use crate::fixed::floor_div;
use crate::fixed::lemma_quotient_bounds;
use crate::fixed::saturate;
use crate::fixed::saturate_to_i32;
use crate::matrix::Matrix4;
use crate::vector::Vector3;
use crate::matrix::Vector4;
use crate::matrix::homogeneous;
use crate::matrix::lemma_projection_w_is_depth;
use crate::matrix::matrix_times;
use crate::matrix::projection_matrix;
use crate::matrix::multiply_matrix_vector4;
use crate::render::HEIGHT;
use crate::render::WIDTH;
use crate::fixed::ONE;

verus! {

/// The depth of the far plane in normalized device coordinates, `1.0`, as a
/// fixed-point depth. Depths are held with twenty fractional bits.
pub const DEPTH_ONE: i32 = 0x10_0000;

/// `n / d` rounded towards zero, for a positive `d`.
pub open spec fn trunc_div(n: int, d: int) -> int {
    if n >= 0 {
        n / d
    } else {
        -((-n) / d)
    }
}

/// The pixel column of a clip-space point with positive `w` on a screen
/// `width` pixels wide: `(x / w + 1) / 2 * width`, rounded towards zero.
pub open spec fn screen_x(clip: Vector4, width: int) -> int {
    saturate(trunc_div((clip.x + clip.w) * width, 2 * clip.w))
}

/// The pixel row of a clip-space point with positive `w` on a screen
/// `height` pixels high: `(1 - y / w) / 2 * height`, rounded towards zero.
/// Rows grow downwards while `y` grows upwards.
pub open spec fn screen_y(clip: Vector4, height: int) -> int {
    saturate(trunc_div((clip.w - clip.y) * height, 2 * clip.w))
}

/// The depth of a clip-space point with positive `w` after the perspective
/// divide, `z / w`, as a fixed-point depth, rounded down.
pub open spec fn screen_depth(clip: Vector4) -> int {
    saturate((clip.z * DEPTH_ONE) / (clip.w as int))
}

/// The screen point of a clip-space point: none for a point on or behind the
/// plane of the eye, `w <= 0`; else its pixel and its depth.
pub open spec fn projected(clip: Vector4, width: int, height: int) -> Option<(i32, i32, i32)> {
    if clip.w <= 0 {
        None
    } else {
        Some(
            (
                screen_x(clip, width) as i32,
                screen_y(clip, height) as i32,
                screen_depth(clip) as i32,
            ),
        )
    }
}

/// `n / d` rounded towards zero and brought into 32 bits.
fn trunc_div_saturated(n: i128, d: i128) -> (q: i32)
    requires
        d > 0,
        n > i128::MIN,
    ensures
        q == saturate(trunc_div(n as int, d as int)),
{
    let q: i128 = if n >= 0 {
        n / d
    } else {
        let m: i128 = -n;
        let p: i128 = m / d;
        proof {
            vstd::arithmetic::div_mod::lemma_fundamental_div_mod(m as int, d as int);
            vstd::arithmetic::div_mod::lemma_mod_bound(m as int, d as int);
            assert(0 <= p <= m) by (nonlinear_arith)
                requires
                    m == d * p + (m as int) % (d as int),
                    0 <= (m as int) % (d as int) < d,
                    m >= 0,
                    d > 0,
            ;
        }
        -p
    };
    saturate_to_i32(q)
}

/// The screen point of a point in space under the matrix `m`, on the
/// display: the point is taken to clip space by `m`, and from there to its
/// pixel and depth.
pub open spec fn screen_point(v: Vector3, m: Matrix4) -> Option<(i32, i32, i32)> {
    projected(matrix_times(m, homogeneous(v)), WIDTH as int, HEIGHT as int)
}

/// Projects a point onto the display: the point is taken to clip space by
/// `projection`, and from there to its pixel and depth. A point that comes
/// to lie on or behind the plane of the eye has no screen point.
pub fn project_vertex(v: &Vector3, projection: &Matrix4) -> (p: Option<(i32, i32, i32)>)
    ensures
        p == screen_point(*v, *projection),
{
    let v4 = Vector4 { x: v.x, y: v.y, z: v.z, w: ONE };
    project_clip(multiply_matrix_vector4(projection, &v4), WIDTH, HEIGHT)
}

/// Projects a clip-space point onto a screen of `width` by `height` pixels.
/// A point with `w <= 0` lies on or behind the plane of the eye and has no
/// screen point. For the others `x` and `y` are divided by `w` and mapped from
/// `[-1, 1]` to pixels, `y` flipped; the depth is `z / w`, not linearized.
pub fn project_clip(clip: Vector4, width: usize, height: usize) -> (p: Option<(i32, i32, i32)>)
    ensures
        p == projected(clip, width as int, height as int),
{
    let x: i32 = clip.x;
    let y: i32 = clip.y;
    let z: i32 = clip.z;
    let w: i32 = clip.w;
    if w <= 0 {
        return None;
    }
    let d: i128 = 2 * (w as i128);
    let across: i128 = x as i128 + w as i128;
    let down: i128 = w as i128 - y as i128;
    assert(-0x1_0000_0000_0000_0000_0000_0000 <= across * width <= 0x1_0000_0000_0000_0000_0000_0000)
        by (nonlinear_arith)
        requires
            -0x1_0000_0000 <= across <= 0x1_0000_0000,
            0 <= width <= 0xffff_ffff_ffff_ffff,
    ;
    assert(-0x1_0000_0000_0000_0000_0000_0000 <= down * height <= 0x1_0000_0000_0000_0000_0000_0000)
        by (nonlinear_arith)
        requires
            -0x1_0000_0000 <= down <= 0x1_0000_0000,
            0 <= height <= 0xffff_ffff_ffff_ffff,
    ;
    let sx: i32 = trunc_div_saturated(across * (width as i128), d);
    let sy: i32 = trunc_div_saturated(down * (height as i128), d);
    let depth: i32 = saturate_to_i32(floor_div((z as i128) * (DEPTH_ONE as i128), w as i128));
    Some((sx, sy, depth))
}

/// A perspective projection rejects what lies in the plane of the eye or
/// behind it, `z >= 0` in the space of the camera, and nothing else.
pub proof fn lemma_behind_the_eye_is_rejected(
    tan: i32,
    aspect: i32,
    near: i32,
    far: i32,
    v: Vector3,
)
    ensures
        screen_point(v, projection_matrix(tan, aspect, near, far)).is_none() <==> v.z >= 0,
{
    lemma_projection_w_is_depth(tan, aspect, near, far, v);
}

/// The depth row of a perspective projection applied to a point at the
/// distance `d` in front of the eye: with the two depth entries `a` and `b`
/// of the matrix, rounded down from `p / spread` and `q / spread`, and `t`
/// the exact depth in clip space, `t * spread * ONE == ONE * q - d * p`, the
/// row gives `t` to within one below and `d / ONE` above.
proof fn lemma_depth_row(p: int, q: int, spread: int, d: int, t: int)
    requires
        spread > 0,
        d > 0,
        ONE * q - d * p == t * spread * ONE,
    ensures
        t - 1 <= ((p / spread) * (-d) + (q / spread) * ONE) / (ONE as int) <= t + d / (ONE as int),
{
    let a = p / spread;
    let b = q / spread;
    vstd::arithmetic::div_mod::lemma_fundamental_div_mod(p, spread);
    vstd::arithmetic::div_mod::lemma_mod_bound(p, spread);
    vstd::arithmetic::div_mod::lemma_fundamental_div_mod(q, spread);
    vstd::arithmetic::div_mod::lemma_mod_bound(q, spread);
    let da = spread * a;
    let db = spread * b;
    assert(p - spread < da <= p);
    assert(q - spread < db <= q);
    let n = a * (-d) + b * ONE;
    assert(d * (p - spread) < d * da <= d * p) by (nonlinear_arith)
        requires
            d > 0,
            p - spread < da <= p,
    ;
    assert(d * (p - spread) == d * p - d * spread) by (nonlinear_arith);
    assert(spread * n == ONE * db - d * da) by (nonlinear_arith)
        requires
            n == a * (-d) + b * ONE,
            da == spread * a,
            db == spread * b,
    ;
    // spread * n lies strictly between spread * (t - 1) * ONE and
    // spread * (t * ONE + d).
    assert(spread * ((t - 1) * ONE) == t * spread * ONE - ONE * spread) by (nonlinear_arith);
    assert(spread * (t * ONE + d) == t * spread * ONE + d * spread) by (nonlinear_arith);
    assert(spread * ((t - 1) * ONE) < spread * n < spread * (t * ONE + d));
    assert((t - 1) * ONE < n < t * ONE + d) by (nonlinear_arith)
        requires
            spread > 0,
            spread * ((t - 1) * ONE) < spread * n < spread * (t * ONE + d),
    ;
    assert((t - 1) * ONE == 65536 * (t - 1) && t * ONE == 65536 * t) by (nonlinear_arith)
        requires
            ONE == 65536,
    ;
    assert(t - 1 <= n / 65536 <= t + d / 65536);
}

/// A perspective projection maps the near plane to the depth `-1`, up to
/// rounding. For a point at the distance `near` in front of the eye, `w` is
/// `near`, and the depth after the divide lies within `DEPTH_ONE / near + 1`
/// below and within sixteen above `-DEPTH_ONE`.
pub proof fn lemma_near_plane_depth(tan: i32, aspect: i32, near: i32, far: i32, x: i32, y: i32)
    requires
        0 < near <= 0x1000_0000,
        2 * near <= far,
    ensures
        ({
            let v = Vector3 { x, y, z: (-near) as i32 };
            let clip = matrix_times(projection_matrix(tan, aspect, near, far), homogeneous(v));
            &&& clip.w == near
            &&& -DEPTH_ONE - DEPTH_ONE / near - 1 <= screen_depth(clip) <= -DEPTH_ONE + 16
        }),
{
    let n = near as int;
    let f = far as int;
    let v = Vector3 { x, y, z: (-near) as i32 };
    lemma_projection_w_is_depth(tan, aspect, near, far, v);
    let p = -(f + n) * ONE;
    let q = -(2 * f * n);
    assert(ONE * q - n * p == (-n) * (f - n) * ONE) by (nonlinear_arith)
        requires
            p == -(f + n) * ONE,
            q == -(2 * f * n),
    ;
    lemma_depth_row(p, q, f - n, n, -n);
    assert((-1) * n == -n) by (nonlinear_arith);
    lemma_plane_depth(tan, aspect, near, far, v, n, -1);
}

/// A perspective projection maps the far plane to the depth `1`, up to
/// rounding. For a point at the distance `far` in front of the eye, `w` is
/// `far`, and the depth after the divide lies within `DEPTH_ONE / far + 1`
/// below and within sixteen above `DEPTH_ONE`.
pub proof fn lemma_far_plane_depth(tan: i32, aspect: i32, near: i32, far: i32, x: i32, y: i32)
    requires
        0 < near <= 0x1000_0000,
        2 * near <= far <= 0x7fff_0000,
    ensures
        ({
            let v = Vector3 { x, y, z: (-far) as i32 };
            let clip = matrix_times(projection_matrix(tan, aspect, near, far), homogeneous(v));
            &&& clip.w == far
            &&& DEPTH_ONE - DEPTH_ONE / far - 1 <= screen_depth(clip) <= DEPTH_ONE + 16
        }),
{
    let n = near as int;
    let f = far as int;
    let v = Vector3 { x, y, z: (-far) as i32 };
    lemma_projection_w_is_depth(tan, aspect, near, far, v);
    let p = -(f + n) * ONE;
    let q = -(2 * f * n);
    assert(ONE * q - f * p == f * (f - n) * ONE) by (nonlinear_arith)
        requires
            p == -(f + n) * ONE,
            q == -(2 * f * n),
    ;
    lemma_depth_row(p, q, f - n, f, f);
    assert(1 * f == f) by (nonlinear_arith);
    lemma_plane_depth(tan, aspect, near, far, v, f, 1);
}

/// From the depth row to the depth after the divide, for a point at the
/// distance `d` in front of the eye whose exact depth in clip space is
/// `sign * d`.
proof fn lemma_plane_depth(
    tan: i32,
    aspect: i32,
    near: i32,
    far: i32,
    v: Vector3,
    d: int,
    sign: int,
)
    requires
        0 < near <= 0x1000_0000,
        2 * near <= far,
        v.z == -d,
        0 < d <= 0x7fff_0000,
        sign == 1 || sign == -1,
        sign * d - 1 <= (((-(far + near) * ONE) / (far - near)) * (-d) + ((-(2 * far * near)) / (
        far - near)) * ONE) / (ONE as int) <= sign * d + d / (ONE as int),
    ensures
        ({
            let clip = matrix_times(projection_matrix(tan, aspect, near, far), homogeneous(v));
            &&& clip.w == d
            &&& sign * DEPTH_ONE - (DEPTH_ONE as int) / d - 1 <= screen_depth(clip) <= sign
                * DEPTH_ONE + 16
        }),
{
    let n = near as int;
    let f = far as int;
    let spread = f - n;
    let p = -(f + n) * ONE;
    let q = -(2 * f * n);
    let t = sign * d;
    let m = projection_matrix(tan, aspect, near, far);
    lemma_projection_w_is_depth(tan, aspect, near, far, v);
    assert(-d <= t <= d) by (nonlinear_arith)
        requires
            t == sign * d,
            sign == 1 || sign == -1,
            d > 0,
    ;
    // Neither depth entry of the matrix saturates.
    assert(-3 * ONE * spread <= p <= 0) by (nonlinear_arith)
        requires
            p == -(f + n) * ONE,
            spread == f - n,
            0 < n,
            2 * n <= f,
            ONE == 65536,
    ;
    lemma_quotient_bounds(p, spread, -3 * ONE, 0);
    assert(-4 * n * spread <= q <= 0) by (nonlinear_arith)
        requires
            q == -(2 * f * n),
            spread == f - n,
            0 < n,
            2 * n <= f,
    ;
    lemma_quotient_bounds(q, spread, -4 * n, 0);
    assert(m.m33 == p / spread);
    assert(m.m34 == q / spread);
    assert(0 * v.x == 0 && 0 * v.y == 0) by (nonlinear_arith);
    let sum = 0 * v.x + 0 * v.y + m.m33 * v.z + m.m34 * ONE;
    let row = sum / (ONE as int);
    assert(m.m33 * v.z == (p / spread) * (-d));
    assert(sum == (p / spread) * (-d) + (q / spread) * ONE);
    assert(t - 1 <= row <= t + d / (ONE as int));
    assert(d / (ONE as int) <= 0x7fff);
    let clip = matrix_times(m, homogeneous(v));
    assert(clip.z == row);
    let scaled = row * DEPTH_ONE;
    let lo = sign * DEPTH_ONE - (DEPTH_ONE as int) / d - 1;
    let hi = sign * DEPTH_ONE + 16;
    vstd::arithmetic::div_mod::lemma_fundamental_div_mod(DEPTH_ONE as int, d);
    vstd::arithmetic::div_mod::lemma_mod_bound(DEPTH_ONE as int, d);
    vstd::arithmetic::div_mod::lemma_fundamental_div_mod(d, ONE as int);
    vstd::arithmetic::div_mod::lemma_mod_bound(d, ONE as int);
    assert(lo * d <= scaled <= hi * d) by (nonlinear_arith)
        requires
            scaled == row * DEPTH_ONE,
            DEPTH_ONE == 0x10_0000,
            ONE == 0x1_0000,
            t - 1 <= row <= t + d / (ONE as int),
            t == sign * d,
            sign == 1 || sign == -1,
            lo == sign * DEPTH_ONE - (DEPTH_ONE as int) / d - 1,
            hi == sign * DEPTH_ONE + 16,
            d > 0,
            DEPTH_ONE == d * ((DEPTH_ONE as int) / d) + (DEPTH_ONE as int) % d,
            0 <= (DEPTH_ONE as int) % d < d,
            d == ONE * (d / (ONE as int)) + d % (ONE as int),
            0 <= d % (ONE as int) < ONE,
    ;
    lemma_quotient_bounds(scaled, d, lo, hi);
    assert(0 <= (DEPTH_ONE as int) / d <= DEPTH_ONE) by (nonlinear_arith)
        requires
            DEPTH_ONE == d * ((DEPTH_ONE as int) / d) + (DEPTH_ONE as int) % d,
            0 <= (DEPTH_ONE as int) % d < d,
            d >= 1,
            DEPTH_ONE == 0x10_0000,
    ;
}

/// A point inside the view volume lands on the screen, in the pixel that
/// holds its exact image: mapping the pixel's extent back to normalized
/// device coordinates gives an interval that contains `x / w`, and likewise
/// for `y`.
pub proof fn lemma_visible_point_lands_on_screen(clip: Vector4, width: int, height: int)
    requires
        clip.w > 0,
        -clip.w <= clip.x < clip.w,
        -clip.w < clip.y <= clip.w,
        0 < width <= 0x7fff_ffff,
        0 < height <= 0x7fff_ffff,
    ensures
        projected(clip, width, height).is_some(),
        0 <= screen_x(clip, width) < width,
        0 <= screen_y(clip, height) < height,
        screen_x(clip, width) * (2 * clip.w) <= (clip.x + clip.w) * width < (screen_x(clip, width)
            + 1) * (2 * clip.w),
        screen_y(clip, height) * (2 * clip.w) <= (clip.w - clip.y) * height < (screen_y(
            clip,
            height,
        ) + 1) * (2 * clip.w),
{
    lemma_cell_of_fraction(clip.x + clip.w, 2 * clip.w, width);
    lemma_cell_of_fraction(clip.w - clip.y, 2 * clip.w, height);
}

/// Projection can be taken back, up to the extent of a pixel and one step of
/// depth. A point inside the view volume has a screen point, and the box of
/// normalized device coordinates that the screen point stands for, the
/// extent of its pixel by one step of depth, holds the exact image
/// `(x / w, y / w, z / w)` of the point. So whatever is taken back from the
/// screen point through the inverse of the matrix lies on the ray from the
/// eye to the point, up to that extent.
pub proof fn lemma_screen_point_round_trip(clip: Vector4, width: int, height: int)
    requires
        clip.w > 0,
        -clip.w <= clip.x < clip.w,
        -clip.w < clip.y <= clip.w,
        -clip.w <= clip.z <= clip.w,
        0 < width <= 0x7fff_ffff,
        0 < height <= 0x7fff_ffff,
    ensures
        projected(clip, width, height) == Some(
            (
                screen_x(clip, width) as i32,
                screen_y(clip, height) as i32,
                screen_depth(clip) as i32,
            ),
        ),
        0 <= screen_x(clip, width) < width,
        0 <= screen_y(clip, height) < height,
        -DEPTH_ONE <= screen_depth(clip) <= DEPTH_ONE,
        screen_x(clip, width) * (2 * clip.w) <= (clip.x + clip.w) * width < (screen_x(clip, width)
            + 1) * (2 * clip.w),
        screen_y(clip, height) * (2 * clip.w) <= (clip.w - clip.y) * height < (screen_y(
            clip,
            height,
        ) + 1) * (2 * clip.w),
        screen_depth(clip) * clip.w <= clip.z * DEPTH_ONE < (screen_depth(clip) + 1) * clip.w,
{
    lemma_visible_point_lands_on_screen(clip, width, height);
    let w = clip.w as int;
    let n = clip.z * DEPTH_ONE;
    assert((-DEPTH_ONE) * w <= n <= DEPTH_ONE * w) by (nonlinear_arith)
        requires
            n == clip.z * DEPTH_ONE,
            -w <= clip.z <= w,
            DEPTH_ONE == 0x10_0000,
    ;
    lemma_quotient_bounds(n, w, -DEPTH_ONE as int, DEPTH_ONE as int);
    vstd::arithmetic::div_mod::lemma_fundamental_div_mod(n, w);
    vstd::arithmetic::div_mod::lemma_mod_bound(n, w);
    let q = n / w;
    assert(q * w == w * q && (q + 1) * w == w * q + w) by (nonlinear_arith);
}

/// A fraction `a / d` of `[0, 1)` scaled to `side` cells falls into cell
/// `a * side / d`, which is one of the `side` cells.
pub proof fn lemma_cell_of_fraction(a: int, d: int, side: int)
    requires
        0 <= a < d,
        0 <= side,
    ensures
        0 <= (a * side) / d,
        side > 0 ==> (a * side) / d < side,
        ((a * side) / d) * d <= a * side < ((a * side) / d + 1) * d,
{
    let n = a * side;
    assert(0 <= n) by (nonlinear_arith)
        requires
            n == a * side,
            0 <= a,
            0 <= side,
    ;
    vstd::arithmetic::div_mod::lemma_fundamental_div_mod(n, d);
    vstd::arithmetic::div_mod::lemma_mod_bound(n, d);
    let q = n / d;
    let r = n % d;
    assert(q * d == d * q) by (nonlinear_arith);
    assert((q + 1) * d == d * q + d) by (nonlinear_arith);
    assert(0 <= q) by (nonlinear_arith)
        requires
            n == d * q + r,
            0 <= r < d,
            0 <= n,
    ;
    if side > 0 {
        assert(n < d * side) by (nonlinear_arith)
            requires
                n == a * side,
                0 <= a < d,
                side > 0,
        ;
        assert(q < side) by (nonlinear_arith)
            requires
                n == d * q + r,
                0 <= r < d,
                n < d * side,
        ;
    }
}

} // verus!
