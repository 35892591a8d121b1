use vstd::prelude::*;
use crate::vector::Vector3;
use crate::fixed::ONE;
use crate::framebuffer::packed_rgb;
use crate::framebuffer::rgb_to_u32;
use crate::fixed::floor_div;
use crate::fixed::lemma_quotient_bounds;
use crate::fixed::lemma_weighted_sum_bounds;
use crate::fixed::saturate;
use crate::fixed::saturate_to_i32;

verus! {

/// Full intensity of a colour channel. Channels are fixed-point numbers with
/// eight fractional bits below an 8-bit level, so full intensity is
/// `255 * 256`.
pub const CHANNEL_FULL: i32 = 65280;

/// A colour with four fixed-point channels. `0` is no intensity and
/// `CHANNEL_FULL` is full intensity; a channel may lie outside that range
/// until it is turned into an 8-bit level.
#[derive(Clone, Copy, Debug, PartialEq, Eq, Structural)]
pub struct ShaderColor {
    pub r: i32,
    pub g: i32,
    pub b: i32,
    pub a: i32,
}

/// What every shader call of one frame is given: the time since the start
/// in seconds, as a fixed-point number; the direction of the light, of
/// length one; and the position of the camera in the world. It is made once
/// per frame and does not change during the frame.
#[derive(Clone, Copy, Debug)]
pub struct ShaderUniforms {
    pub time: i32,
    pub light_direction: Vector3,
    pub camera_position: Vector3,
}

/// The look of a body: two operations, each called once per vertex of the
/// mesh and frame. A shader holds no state that a call could change: what
/// each operation returns is a function of what it is given, the time among
/// it. `moved` and `colored` are those two functions; an implementation
/// answers for its operations returning what they say.
pub trait PlanetShader {
    /// Where the vertex shader puts a vertex, and the normal it gives it.
    spec fn moved(
        &self,
        position: Vector3,
        normal: Vector3,
        uv: (i32, i32),
        uniforms: ShaderUniforms,
    ) -> (Vector3, Vector3);

    /// The colour the fragment shader gives a vertex.
    spec fn colored(
        &self,
        position: Vector3,
        normal: Vector3,
        uv: (i32, i32),
        uniforms: ShaderUniforms,
    ) -> ShaderColor;

    /// Where the vertex is put, and its normal there. A shader may move the
    /// vertex along its normal and turn the normal.
    fn vertex_shader(
        &self,
        position: Vector3,
        normal: Vector3,
        uv: (i32, i32),
        uniforms: &ShaderUniforms,
    ) -> (out: (Vector3, Vector3))
        ensures
            out == self.moved(position, normal, uv, *uniforms),
    ;

    /// The colour of the vertex, from where the vertex shader put it.
    fn fragment_shader(
        &self,
        position: Vector3,
        normal: Vector3,
        uv: (i32, i32),
        uniforms: &ShaderUniforms,
    ) -> (color: ShaderColor)
        ensures
            color == self.colored(position, normal, uv, *uniforms),
    ;
}

/// The 8-bit level of a channel value: the value clamped to
/// `0..=CHANNEL_FULL`, with its fractional bits dropped.
pub open spec fn level(v: int) -> int {
    if v <= 0 {
        0
    } else if v >= CHANNEL_FULL {
        255
    } else {
        v / 256
    }
}

/// The 8-bit level of a channel value.
pub fn channel_level(v: i32) -> (out: u8)
    ensures
        out as int == level(v as int),
{
    if v <= 0 {
        0
    } else if v >= CHANNEL_FULL {
        255
    } else {
        (v / 256) as u8
    }
}

impl ShaderColor {
    /// A colour from its four channel values.
    pub fn new(r: i32, g: i32, b: i32, a: i32) -> (c: ShaderColor)
        ensures
            c == (ShaderColor { r, g, b, a }),
    {
        ShaderColor { r, g, b, a }
    }

    /// The opaque colour whose 8-bit levels are `r`, `g` and `b`.
    pub fn from_rgb(r: u8, g: u8, b: u8) -> (c: ShaderColor)
        ensures
            c.r == r * 256,
            c.g == g * 256,
            c.b == b * 256,
            c.a == CHANNEL_FULL,
            c.packed() == packed_rgb(r, g, b),
    {
        ShaderColor { r: r as i32 * 256, g: g as i32 * 256, b: b as i32 * 256, a: CHANNEL_FULL }
    }

    /// The pixel value of the colour: its red, green and blue levels packed
    /// as `0x00RRGGBB`. Alpha takes no part.
    pub open spec fn packed(self) -> int {
        level(self.r as int) * 65536 + level(self.g as int) * 256 + level(self.b as int)
    }

    /// Opaque white.
    pub fn white() -> (c: ShaderColor)
        ensures
            c == (ShaderColor { r: CHANNEL_FULL, g: CHANNEL_FULL, b: CHANNEL_FULL, a: CHANNEL_FULL }),
    {
        ShaderColor { r: CHANNEL_FULL, g: CHANNEL_FULL, b: CHANNEL_FULL, a: CHANNEL_FULL }
    }

    /// Opaque black.
    pub fn black() -> (c: ShaderColor)
        ensures
            c == (ShaderColor { r: 0, g: 0, b: 0, a: CHANNEL_FULL }),
    {
        ShaderColor { r: 0, g: 0, b: 0, a: CHANNEL_FULL }
    }

    /// Opaque yellow.
    pub fn yellow() -> (c: ShaderColor)
        ensures
            c == (ShaderColor { r: CHANNEL_FULL, g: CHANNEL_FULL, b: 0, a: CHANNEL_FULL }),
    {
        ShaderColor { r: CHANNEL_FULL, g: CHANNEL_FULL, b: 0, a: CHANNEL_FULL }
    }

    /// The pixel value of the colour.
    pub fn to_u32(&self) -> (p: u32)
        ensures
            p as int == self.packed(),
    {
        rgb_to_u32(channel_level(self.r), channel_level(self.g), channel_level(self.b))
    }
}

/// The linear interpolation between `a` and `b` by the weight `t`, a
/// fixed-point number on which `ONE` stands for one: `a * (1 - t) + b * t`,
/// rounded down and brought into 32 bits. Weights outside `0..=ONE`
/// extrapolate.
pub open spec fn mixed(a: int, b: int, t: int) -> int {
    saturate((a * (ONE - t) + b * t) / (ONE as int))
}

/// With a weight between zero and one, the interpolation lies between the
/// lesser and the greater of the two numbers.
pub proof fn lemma_mixed_between(a: int, b: int, t: int, lo: int, hi: int)
    requires
        0 <= t <= ONE,
        -0x8000_0000 <= lo <= a <= hi <= 0x7fff_ffff,
        lo <= b <= hi,
    ensures
        lo <= mixed(a, b, t) <= hi,
{
    lemma_weighted_sum_bounds(a, b, a, ONE - t, t, 0, lo, hi);
    assert(a * 0 == 0) by (nonlinear_arith);
    lemma_quotient_bounds(a * (ONE - t) + b * t, ONE as int, lo, hi);
}

/// Interpolates linearly between two numbers. Weight `0` gives `a` and
/// weight `ONE` gives `b`.
pub fn mix(a: i32, b: i32, t: i32) -> (m: i32)
    ensures
        m == mixed(a as int, b as int, t as int),
        t == 0 ==> m == a,
        t == ONE ==> m == b,
{
    let rest: i128 = ONE as i128 - t as i128;
    assert(-0x1_0000_0000_0000_0000 <= a * rest <= 0x1_0000_0000_0000_0000) by (nonlinear_arith)
        requires
            -0x8000_0000 <= a <= 0x8000_0000,
            -0x1_0000_0000 <= rest <= 0x1_0000_0000,
    ;
    assert(-0x1_0000_0000_0000_0000 <= b * t <= 0x1_0000_0000_0000_0000) by (nonlinear_arith)
        requires
            -0x8000_0000 <= b <= 0x8000_0000,
            -0x1_0000_0000 <= t <= 0x1_0000_0000,
    ;
    let sum: i128 = (a as i128) * rest + (b as i128) * (t as i128);
    proof {
        if t == 0 {
            assert(b * t == 0) by (nonlinear_arith)
                requires
                    t == 0,
            ;
            vstd::arithmetic::div_mod::lemma_div_multiples_vanish(a as int, ONE as int);
            assert(a * rest == ONE * a) by (nonlinear_arith)
                requires
                    rest == ONE,
            ;
        }
        if t == ONE {
            assert(a * rest == 0) by (nonlinear_arith)
                requires
                    rest == 0,
            ;
            vstd::arithmetic::div_mod::lemma_div_multiples_vanish(b as int, ONE as int);
            assert(b * t == ONE * b) by (nonlinear_arith)
                requires
                    t == ONE,
            ;
        }
    }
    saturate_to_i32(floor_div(sum, ONE as i128))
}

/// The position of `x` between two edges as a weight: `0` at `edge0` and
/// before it, `ONE` at `edge1` and beyond it, and the fraction of the way,
/// rounded down, in between. The edges may come in either order. Where they
/// coincide the step is sharp: `0` before the edge and `ONE` from it on.
pub open spec fn edge_fraction(edge0: int, edge1: int, x: int) -> int {
    let t = if edge0 < edge1 {
        ((x - edge0) * ONE) / (edge1 - edge0)
    } else if edge0 > edge1 {
        ((edge0 - x) * ONE) / (edge0 - edge1)
    } else if x < edge0 {
        0
    } else {
        ONE as int
    };
    if t < 0 {
        0
    } else if t > ONE {
        ONE as int
    } else {
        t
    }
}

/// The smooth step `3 t^2 - 2 t^3` of a weight `t`, as a weight, rounded
/// down.
pub open spec fn eased(t: int) -> int {
    (t * t * (3 * ONE - 2 * t)) / (ONE * ONE)
}

/// The smooth step of a weight between zero and one is a weight between
/// zero and one.
pub proof fn lemma_eased_is_weight(t: int)
    requires
        0 <= t <= ONE,
    ensures
        0 <= t * t * (3 * ONE - 2 * t) <= ONE * ONE * ONE,
        0 <= eased(t) <= ONE,
{
    let u = 65536 - t;
    let cube = t * t * (3 * 65536 - 2 * t);
    assert(t * t >= 0) by (nonlinear_arith);
    assert(u * u >= 0) by (nonlinear_arith);
    assert(cube >= 0) by (nonlinear_arith)
        requires
            cube == (t * t) * (3 * 65536 - 2 * t),
            t * t >= 0,
            0 <= t <= 65536,
    ;
    assert((u * u) * (65536 + 2 * t) >= 0) by (nonlinear_arith)
        requires
            u * u >= 0,
            t >= 0,
    ;
    assert(u * u == 65536 * 65536 - 2 * 65536 * t + t * t) by (nonlinear_arith)
        requires
            u == 65536 - t,
    ;
    assert((u * u) * (65536 + 2 * t) == 65536 * 65536 * 65536 - 3 * 65536 * (t * t) + 2 * ((t
        * t) * t)) by (nonlinear_arith)
        requires
            u * u == 65536 * 65536 - 2 * 65536 * t + t * t,
    ;
    assert(cube == 3 * 65536 * (t * t) - 2 * ((t * t) * t)) by (nonlinear_arith)
        requires
            cube == (t * t) * (3 * 65536 - 2 * t),
    ;
    assert(cube <= 65536 * 65536 * 65536);
}

/// The smooth step `3 t^2 - 2 t^3` of a weight between zero and one.
pub fn ease(t: i32) -> (s: i32)
    requires
        0 <= t <= ONE,
    ensures
        s == eased(t as int),
        0 <= s <= ONE,
{
    proof {
        lemma_eased_is_weight(t as int);
        assert(0 <= t * t <= 65536 * 65536) by (nonlinear_arith)
            requires
                0 <= t <= 65536,
        ;
    }
    let square: i64 = (t as i64) * (t as i64);
    let slope: i64 = 3 * (ONE as i64) - 2 * (t as i64);
    let s: i64 = (square * slope) / ((ONE as i64) * (ONE as i64));
    s as i32
}

/// A smooth transition from `0` to `ONE` as `x` goes from `edge0` to
/// `edge1`: the fraction of the way, clamped, then eased by
/// `3 t^2 - 2 t^3`.
pub fn smoothstep(edge0: i32, edge1: i32, x: i32) -> (s: i32)
    ensures
        s == eased(edge_fraction(edge0 as int, edge1 as int, x as int)),
        0 <= s <= ONE,
{
    if edge0 == edge1 {
        return ease(
            if x < edge0 {
                0
            } else {
                ONE
            },
        );
    }
    let (num, den): (i128, i128) = if edge0 < edge1 {
        (x as i128 - edge0 as i128, edge1 as i128 - edge0 as i128)
    } else {
        (edge0 as i128 - x as i128, edge0 as i128 - edge1 as i128)
    };
    assert(-0x1_0000_0000_0000 <= num * ONE <= 0x1_0000_0000_0000) by (nonlinear_arith)
        requires
            -0x1_0000_0000 <= num <= 0x1_0000_0000,
            ONE == 65536,
    ;
    let raw: i128 = floor_div(num * (ONE as i128), den);
    let t: i32 = if raw < 0 {
        0
    } else if raw > ONE as i128 {
        ONE
    } else {
        raw as i32
    };
    ease(t)
}

/// Interpolates linearly between two colours, channel by channel, alpha
/// included.
pub fn mix_color(a: ShaderColor, b: ShaderColor, t: i32) -> (c: ShaderColor)
    ensures
        c.r == mixed(a.r as int, b.r as int, t as int),
        c.g == mixed(a.g as int, b.g as int, t as int),
        c.b == mixed(a.b as int, b.b as int, t as int),
        c.a == mixed(a.a as int, b.a as int, t as int),
        t == 0 ==> c == a,
        t == ONE ==> c == b,
{
    ShaderColor::new(mix(a.r, b.r, t), mix(a.g, b.g, t), mix(a.b, b.b, t), mix(a.a, b.a, t))
}

} // verus!
