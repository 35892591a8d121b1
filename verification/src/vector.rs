use vstd::prelude::*;
use crate::fixed::is_root;
use crate::fixed::lemma_quotient_bounds;
use crate::fixed::lemma_root_exists;
use crate::fixed::root;
use crate::fixed::isqrt;
use crate::fixed::ratio;
use crate::fixed::divide;
use crate::fixed::times;
use crate::fixed::multiply;
use crate::fixed::wide_product;
use crate::fixed::floor_div;
use crate::fixed::saturate;
use crate::fixed::saturate_to_i32;
use crate::fixed::ONE;

verus! {

/// A point or direction in space. Each component is a fixed-point number
/// with sixteen fractional bits.
#[derive(Clone, Copy, Debug, PartialEq, Eq, Structural)]
pub struct Vector3 {
    pub x: i32,
    pub y: i32,
    pub z: i32,
}

impl Vector3 {
    /// The sum of two vectors, each component brought into 32 bits.
    pub open spec fn plus(self, other: Vector3) -> Vector3 {
        Vector3 {
            x: saturate(self.x + other.x) as i32,
            y: saturate(self.y + other.y) as i32,
            z: saturate(self.z + other.z) as i32,
        }
    }

    /// The difference of two vectors, each component brought into 32 bits.
    pub open spec fn minus(self, other: Vector3) -> Vector3 {
        Vector3 {
            x: saturate(self.x - other.x) as i32,
            y: saturate(self.y - other.y) as i32,
            z: saturate(self.z - other.z) as i32,
        }
    }

    /// The vector with every component times the fixed-point factor.
    pub open spec fn scaled(self, factor: i32) -> Vector3 {
        Vector3 {
            x: times(self.x as int, factor as int) as i32,
            y: times(self.y as int, factor as int) as i32,
            z: times(self.z as int, factor as int) as i32,
        }
    }

    /// The dot product: the sum of the products of the components, rounded
    /// down to sixteen fractional bits and brought into 32 bits.
    pub open spec fn dot_product(self, other: Vector3) -> int {
        saturate((self.x * other.x + self.y * other.y + self.z * other.z) / (ONE as int))
    }

    /// The cross product, each component rounded down to sixteen fractional
    /// bits and brought into 32 bits.
    pub open spec fn cross_product(self, other: Vector3) -> Vector3 {
        Vector3 {
            x: saturate((self.y * other.z - self.z * other.y) / (ONE as int)) as i32,
            y: saturate((self.z * other.x - self.x * other.z) / (ONE as int)) as i32,
            z: saturate((self.x * other.y - self.y * other.x) / (ONE as int)) as i32,
        }
    }

    /// The sum of the squares of the components, on the scale of `ONE * ONE`.
    pub open spec fn square(self) -> int {
        self.x * self.x + self.y * self.y + self.z * self.z
    }

    /// The length of the vector: the whole part of the square root of the
    /// sum of the squares, a fixed-point number.
    pub open spec fn norm(self) -> int {
        root(self.square())
    }

    /// The vector scaled to length one. The zero vector has no direction and
    /// stays the zero vector.
    pub open spec fn normalized(self) -> Vector3 {
        if self.norm() == 0 {
            Vector3 { x: 0, y: 0, z: 0 }
        } else {
            Vector3 {
                x: ratio(self.x as int, self.norm()) as i32,
                y: ratio(self.y as int, self.norm()) as i32,
                z: ratio(self.z as int, self.norm()) as i32,
            }
        }
    }

    /// A vector from its components.
    pub fn new(x: i32, y: i32, z: i32) -> (v: Vector3)
        ensures
            v == (Vector3 { x, y, z }),
    {
        Vector3 { x, y, z }
    }

    /// The sum of two vectors.
    pub fn add(&self, other: &Vector3) -> (sum: Vector3)
        ensures
            sum == self.plus(*other),
    {
        Vector3 {
            x: saturate_to_i32(self.x as i128 + other.x as i128),
            y: saturate_to_i32(self.y as i128 + other.y as i128),
            z: saturate_to_i32(self.z as i128 + other.z as i128),
        }
    }

    /// The difference of two vectors.
    pub fn sub(&self, other: &Vector3) -> (difference: Vector3)
        ensures
            difference == self.minus(*other),
    {
        Vector3 {
            x: saturate_to_i32(self.x as i128 - other.x as i128),
            y: saturate_to_i32(self.y as i128 - other.y as i128),
            z: saturate_to_i32(self.z as i128 - other.z as i128),
        }
    }

    /// The vector times a fixed-point factor.
    pub fn scale(&self, factor: i32) -> (v: Vector3)
        ensures
            v == self.scaled(factor),
    {
        Vector3 {
            x: multiply(self.x, factor),
            y: multiply(self.y, factor),
            z: multiply(self.z, factor),
        }
    }

    /// The dot product of two vectors.
    pub fn dot(&self, other: &Vector3) -> (d: i32)
        ensures
            d == self.dot_product(*other),
    {
        saturate_to_i32(
            floor_div(
                wide_product(self.x, other.x) + wide_product(self.y, other.y) + wide_product(
                    self.z,
                    other.z,
                ),
                ONE as i128,
            ),
        )
    }

    /// The cross product of two vectors.
    pub fn cross(&self, other: &Vector3) -> (c: Vector3)
        ensures
            c == self.cross_product(*other),
    {
        Vector3 {
            x: saturate_to_i32(
                floor_div(
                    wide_product(self.y, other.z) - wide_product(self.z, other.y),
                    ONE as i128,
                ),
            ),
            y: saturate_to_i32(
                floor_div(
                    wide_product(self.z, other.x) - wide_product(self.x, other.z),
                    ONE as i128,
                ),
            ),
            z: saturate_to_i32(
                floor_div(
                    wide_product(self.x, other.y) - wide_product(self.y, other.x),
                    ONE as i128,
                ),
            ),
        }
    }

    /// The length of the vector. It is not negative.
    pub fn length(&self) -> (l: i64)
        ensures
            l == self.norm(),
            0 <= l <= 0xffff_ffff,
    {
        let square: i128 = wide_product(self.x, self.x) + wide_product(self.y, self.y)
            + wide_product(self.z, self.z);
        assert(self.x * self.x >= 0 && self.y * self.y >= 0 && self.z * self.z >= 0)
            by (nonlinear_arith);
        isqrt(square as u64) as i64
    }

    /// The vector scaled to length one; the zero vector stays the zero
    /// vector.
    pub fn normalize(&self) -> (unit: Vector3)
        ensures
            unit == self.normalized(),
    {
        let length: i64 = self.length();
        if length == 0 {
            Vector3 { x: 0, y: 0, z: 0 }
        } else {
            Vector3 {
                x: divide(self.x as i64, length),
                y: divide(self.y as i64, length),
                z: divide(self.z as i64, length),
            }
        }
    }
}

/// No component of a vector is longer than the vector.
pub proof fn lemma_component_within_norm(v: Vector3)
    ensures
        is_root(v.square(), v.norm()),
        -v.norm() <= v.x <= v.norm(),
        -v.norm() <= v.y <= v.norm(),
        -v.norm() <= v.z <= v.norm(),
{
    let s = v.square();
    let x = v.x as int;
    let y = v.y as int;
    let z = v.z as int;
    assert(x * x >= 0 && y * y >= 0 && z * z >= 0) by (nonlinear_arith);
    lemma_root_exists(s);
    let r = v.norm();
    lemma_square_below(x, r, s);
    lemma_square_below(y, r, s);
    lemma_square_below(z, r, s);
}

/// A number whose square lies below the square of `r + 1` lies within `r`
/// of zero.
proof fn lemma_square_below(c: int, r: int, s: int)
    requires
        r >= 0,
        c * c <= s < (r + 1) * (r + 1),
    ensures
        -r <= c <= r,
{
    if c > r {
        assert(c * c >= (r + 1) * (r + 1)) by (nonlinear_arith)
            requires
                c >= r + 1,
                r >= 0,
        ;
    }
    if c < -r {
        assert(c * c >= (r + 1) * (r + 1)) by (nonlinear_arith)
            requires
                c <= -(r + 1),
                r >= 0,
        ;
    }
}

/// A vector scaled to length one has no component beyond one: each lies
/// between `-ONE` and `ONE`.
pub proof fn lemma_unit_vector_components(v: Vector3)
    ensures
        -ONE <= v.normalized().x <= ONE,
        -ONE <= v.normalized().y <= ONE,
        -ONE <= v.normalized().z <= ONE,
{
    lemma_component_within_norm(v);
    let r = v.norm();
    if r != 0 {
        lemma_ratio_within_one(v.x as int, r);
        lemma_ratio_within_one(v.y as int, r);
        lemma_ratio_within_one(v.z as int, r);
    }
}

/// The square of one component of a unit vector, times the square of the
/// length `r` it was divided by, lies near the square of the component `c`
/// on the scale of `ONE * ONE`: no more than `2 * ONE * r * r` below it, and
/// no more than `2 * ONE * r * r + r * r` above it.
proof fn lemma_component_square(c: int, r: int)
    requires
        r > 0,
        -r <= c <= r,
    ensures
        ({
            let q = (c * 65536) / r;
            &&& 4294967296 * (c * c) - 131072 * (r * r) <= (r * r) * (q * q)
            &&& (r * r) * (q * q) <= 4294967296 * (c * c) + 131072 * (r * r) + r * r
        }),
{
    let a = c * 65536;
    let q = a / r;
    vstd::arithmetic::div_mod::lemma_fundamental_div_mod(a, r);
    vstd::arithmetic::div_mod::lemma_mod_bound(a, r);
    let e = a % r;
    let rq = r * q;
    assert(rq == a - e);
    assert(rq * rq == a * a - 2 * (a * e) + e * e) by (nonlinear_arith)
        requires
            rq == a - e,
    ;
    assert(a * a == 4294967296 * (c * c)) by (nonlinear_arith)
        requires
            a == c * 65536,
    ;
    assert(-(65536 * r) <= a <= 65536 * r);
    assert(a * e <= (65536 * r) * e) by (nonlinear_arith)
        requires
            a <= 65536 * r,
            e >= 0,
    ;
    assert(a * e >= -(65536 * r) * e) by (nonlinear_arith)
        requires
            a >= -(65536 * r),
            e >= 0,
    ;
    assert((65536 * r) * e <= 65536 * (r * r)) by (nonlinear_arith)
        requires
            0 <= e < r,
            r > 0,
    ;
    assert(-(65536 * r) * e == -((65536 * r) * e)) by (nonlinear_arith);
    assert(0 <= e * e <= r * r) by (nonlinear_arith)
        requires
            0 <= e < r,
    ;
    assert(rq * rq == (r * r) * (q * q)) by (nonlinear_arith)
        requires
            rq == r * q,
    ;
}

/// A vector of length one half or more, scaled to length one, has length
/// one up to rounding: the sum of the squares of its components lies within
/// `6 * ONE` below and `10 * ONE + 3` above `ONE * ONE`.
pub proof fn lemma_unit_vector_length(v: Vector3)
    requires
        2 * v.norm() >= ONE,
    ensures
        ONE * ONE - 6 * ONE <= v.normalized().square() <= ONE * ONE + 10 * ONE + 3,
{
    lemma_component_within_norm(v);
    lemma_unit_vector_components(v);
    let r = v.norm();
    let x = v.x as int;
    let y = v.y as int;
    let z = v.z as int;
    let s = v.square();
    lemma_ratio_within_one(x, r);
    lemma_ratio_within_one(y, r);
    lemma_ratio_within_one(z, r);
    lemma_component_square(x, r);
    lemma_component_square(y, r);
    lemma_component_square(z, r);
    let u = v.normalized();
    let qx = (x * 65536) / r;
    let qy = (y * 65536) / r;
    let qz = (z * 65536) / r;
    assert(u.x == qx && u.y == qy && u.z == qz);
    let total = qx * qx + qy * qy + qz * qz;
    assert(u.square() == total);
    let rr = r * r;
    assert(rr > 0) by (nonlinear_arith)
        requires
            rr == r * r,
            r >= 32768,
    ;
    assert(rr * total == rr * (qx * qx) + rr * (qy * qy) + rr * (qz * qz)) by (nonlinear_arith)
        requires
            total == qx * qx + qy * qy + qz * qz,
    ;
    assert(rr <= s < rr + 2 * r + 1) by (nonlinear_arith)
        requires
            rr == r * r,
            r * r <= s < (r + 1) * (r + 1),
    ;
    assert(32768 * r <= rr) by (nonlinear_arith)
        requires
            rr == r * r,
            r >= 32768,
    ;
    assert(rr * (4294967296 - 393216) <= rr * total) by (nonlinear_arith)
        requires
            rr * total >= 4294967296 * (x * x) + 4294967296 * (y * y) + 4294967296 * (z * z) - 3
                * (131072 * rr),
            s == x * x + y * y + z * z,
            rr <= s,
    ;
    assert(rr * total <= rr * (4294967296 + 655360 + 3)) by (nonlinear_arith)
        requires
            rr * total <= 4294967296 * (x * x) + 4294967296 * (y * y) + 4294967296 * (z * z) + 3
                * (131072 * rr) + 3 * rr,
            s == x * x + y * y + z * z,
            s <= rr + 2 * r,
            32768 * r <= rr,
    ;
    assert(4294967296 - 393216 <= total <= 4294967296 + 655360 + 3) by (nonlinear_arith)
        requires
            rr > 0,
            rr * (4294967296 - 393216) <= rr * total,
            rr * total <= rr * (4294967296 + 655360 + 3),
    ;
}

/// The dot product of three rounded quotients `a / d` with a vector whose
/// components lie within `bound` of zero, times `d`, lies within
/// `3 * d * bound` of the dot product of the dividends with the vector.
proof fn lemma_rounded_dot(
    a0: int,
    a1: int,
    a2: int,
    d: int,
    f0: int,
    f1: int,
    f2: int,
    bound: int,
)
    requires
        d > 0,
        -bound <= f0 <= bound,
        -bound <= f1 <= bound,
        -bound <= f2 <= bound,
    ensures
        (a0 * f0 + a1 * f1 + a2 * f2) - 3 * (d * bound) <= d * ((a0 / d) * f0 + (a1 / d) * f1 + (a2
            / d) * f2) <= (a0 * f0 + a1 * f1 + a2 * f2) + 3 * (d * bound),
{
    lemma_rounded_term(a0, d, f0, bound);
    lemma_rounded_term(a1, d, f1, bound);
    lemma_rounded_term(a2, d, f2, bound);
    let t0 = (a0 / d) * f0;
    let t1 = (a1 / d) * f1;
    let t2 = (a2 / d) * f2;
    assert(d * (t0 + t1 + t2) == d * t0 + d * t1 + d * t2) by (nonlinear_arith);
}

/// One term of a dot product with a rounded quotient.
proof fn lemma_rounded_term(a: int, d: int, f: int, bound: int)
    requires
        d > 0,
        -bound <= f <= bound,
    ensures
        a * f - d * bound <= d * ((a / d) * f) <= a * f + d * bound,
{
    vstd::arithmetic::div_mod::lemma_fundamental_div_mod(a, d);
    vstd::arithmetic::div_mod::lemma_mod_bound(a, d);
    let q = a / d;
    let e = a % d;
    assert(d * (q * f) == a * f - e * f) by (nonlinear_arith)
        requires
            a == d * q + e,
    ;
    assert(-(d * bound) <= e * f <= d * bound) by (nonlinear_arith)
        requires
            0 <= e < d,
            -bound <= f <= bound,
    ;
}

/// The cross product of two vectors, before it is rounded, is at right
/// angles to both.
proof fn lemma_cross_is_orthogonal(a: Vector3, b: Vector3)
    ensures
        (a.y * b.z - a.z * b.y) * a.x + (a.z * b.x - a.x * b.z) * a.y + (a.x * b.y - a.y * b.x)
            * a.z == 0,
        (a.y * b.z - a.z * b.y) * b.x + (a.z * b.x - a.x * b.z) * b.y + (a.x * b.y - a.y * b.x)
            * b.z == 0,
{
    let ax = a.x as int;
    let ay = a.y as int;
    let az = a.z as int;
    let bx = b.x as int;
    let by = b.y as int;
    let bz = b.z as int;
    assert((ay * bz - az * by) * ax == (ay * bz) * ax - (az * by) * ax) by (nonlinear_arith);
    assert((az * bx - ax * bz) * ay == (az * bx) * ay - (ax * bz) * ay) by (nonlinear_arith);
    assert((ax * by - ay * bx) * az == (ax * by) * az - (ay * bx) * az) by (nonlinear_arith);
    assert((ay * bz) * ax == (ax * bz) * ay) by (nonlinear_arith);
    assert((az * by) * ax == (ax * by) * az) by (nonlinear_arith);
    assert((az * bx) * ay == (ay * bx) * az) by (nonlinear_arith);
    assert((ay * bz - az * by) * bx == (ay * bz) * bx - (az * by) * bx) by (nonlinear_arith);
    assert((az * bx - ax * bz) * by == (az * bx) * by - (ax * bz) * by) by (nonlinear_arith);
    assert((ax * by - ay * bx) * bz == (ax * by) * bz - (ay * bx) * bz) by (nonlinear_arith);
    assert((ay * bz) * bx == (ay * bx) * bz) by (nonlinear_arith);
    assert((az * by) * bx == (az * bx) * by) by (nonlinear_arith);
    assert((ax * bz) * by == (ax * by) * bz) by (nonlinear_arith);
}

/// Every component of a vector lies within `bound` of zero.
pub open spec fn within(v: Vector3, bound: int) -> bool {
    &&& -bound <= v.x <= bound
    &&& -bound <= v.y <= bound
    &&& -bound <= v.z <= bound
}

/// The sum of the products of the components of two vectors, on the scale
/// of `ONE * ONE`: the dot product before it is rounded.
pub open spec fn raw_dot(a: Vector3, b: Vector3) -> int {
    a.x * b.x + a.y * b.y + a.z * b.z
}

/// The cross product of two vectors is at right angles to both, up to
/// rounding: its dot product with either, before rounding, lies within three
/// times the greatest component of that vector of zero. The components of
/// the first vector lie within one, those of the second within `2^30`, so
/// that nothing saturates.
pub proof fn lemma_cross_product_at_right_angles(a: Vector3, b: Vector3, bound: int)
    requires
        within(a, ONE as int),
        within(b, 0x3fff_ffff),
    ensures
        within(b, bound) ==> -3 * bound <= raw_dot(a.cross_product(b), b) <= 3 * bound,
        -3 * ONE <= raw_dot(a.cross_product(b), a) <= 3 * ONE,
{
    let cx = a.y * b.z - a.z * b.y;
    let cy = a.z * b.x - a.x * b.z;
    let cz = a.x * b.y - a.y * b.x;
    lemma_cross_is_orthogonal(a, b);
    lemma_product_within(a.y as int, b.z as int);
    lemma_product_within(a.z as int, b.y as int);
    lemma_product_within(a.z as int, b.x as int);
    lemma_product_within(a.x as int, b.z as int);
    lemma_product_within(a.x as int, b.y as int);
    lemma_product_within(a.y as int, b.x as int);
    lemma_quotient_bounds(cx, ONE as int, -0x7fff_fffe, 0x7fff_fffe);
    lemma_quotient_bounds(cy, ONE as int, -0x7fff_fffe, 0x7fff_fffe);
    lemma_quotient_bounds(cz, ONE as int, -0x7fff_fffe, 0x7fff_fffe);
    let c = a.cross_product(b);
    assert(c.x == cx / (ONE as int) && c.y == cy / (ONE as int) && c.z == cz / (ONE as int));
    lemma_rounded_dot(cx, cy, cz, ONE as int, a.x as int, a.y as int, a.z as int, ONE as int);
    assert(-3 * ONE <= raw_dot(c, a) <= 3 * ONE) by (nonlinear_arith)
        requires
            -3 * (ONE * ONE) <= ONE * raw_dot(c, a) <= 3 * (ONE * ONE),
            ONE == 0x1_0000,
    ;
    if within(b, bound) {
        lemma_rounded_dot(cx, cy, cz, ONE as int, b.x as int, b.y as int, b.z as int, bound);
        assert(-3 * bound <= raw_dot(c, b) <= 3 * bound) by (nonlinear_arith)
            requires
                -3 * (ONE * bound) <= ONE * raw_dot(c, b) <= 3 * (ONE * bound),
                ONE == 0x1_0000,
        ;
    }
}

/// The product of a number within one with a number within `2^30`.
proof fn lemma_product_within(a: int, b: int)
    requires
        -ONE <= a <= ONE,
        -0x3fff_ffff <= b <= 0x3fff_ffff,
    ensures
        -0x3fff_ffff * ONE <= a * b <= 0x3fff_ffff * ONE,
{
    assert(-0x3fff_ffff * 65536 <= a * b <= 0x3fff_ffff * 65536) by (nonlinear_arith)
        requires
            -65536 <= a <= 65536,
            -0x3fff_ffff <= b <= 0x3fff_ffff,
    ;
}

/// A vector at right angles to `f` up to rounding stays so when it is
/// scaled to length one: where the vector has length one half or more and
/// its dot product with `f`, before rounding, lies within `3 * ONE` of zero,
/// the dot product of the unit vector with `f` lies within `9 * ONE`.
pub proof fn lemma_unit_vector_at_right_angles(c: Vector3, f: Vector3)
    requires
        2 * c.norm() >= ONE,
        within(f, ONE as int),
        -3 * ONE <= raw_dot(c, f) <= 3 * ONE,
    ensures
        -9 * ONE <= raw_dot(c.normalized(), f) <= 9 * ONE,
{
    lemma_component_within_norm(c);
    let r = c.norm();
    lemma_ratio_within_one(c.x as int, r);
    lemma_ratio_within_one(c.y as int, r);
    lemma_ratio_within_one(c.z as int, r);
    let u = c.normalized();
    assert(u.x == (c.x * ONE) / r && u.y == (c.y * ONE) / r && u.z == (c.z * ONE) / r);
    lemma_rounded_dot(
        c.x * ONE,
        c.y * ONE,
        c.z * ONE,
        r,
        f.x as int,
        f.y as int,
        f.z as int,
        ONE as int,
    );
    let exact = (c.x * ONE) * f.x + (c.y * ONE) * f.y + (c.z * ONE) * f.z;
    assert(exact == ONE * raw_dot(c, f)) by (nonlinear_arith)
        requires
            exact == (c.x * ONE) * f.x + (c.y * ONE) * f.y + (c.z * ONE) * f.z,
            raw_dot(c, f) == c.x * f.x + c.y * f.y + c.z * f.z,
    ;
    assert(-9 * ONE <= raw_dot(u, f) <= 9 * ONE) by (nonlinear_arith)
        requires
            exact - 3 * (r * ONE) <= r * raw_dot(u, f) <= exact + 3 * (r * ONE),
            exact == ONE * raw_dot(c, f),
            -3 * ONE <= raw_dot(c, f) <= 3 * ONE,
            2 * r >= ONE,
            ONE == 0x1_0000,
    ;
}

/// The quotient of a number by one that is no nearer to zero lies between
/// minus one and one.
proof fn lemma_ratio_within_one(c: int, r: int)
    requires
        r > 0,
        -r <= c <= r,
    ensures
        -ONE <= ratio(c, r) <= ONE,
{
    assert((-ONE) * r <= c * ONE <= ONE * r) by (nonlinear_arith)
        requires
            r > 0,
            -r <= c <= r,
            ONE == 0x1_0000,
    ;
    lemma_quotient_bounds(c * ONE, r, -ONE as int, ONE as int);
}

} // verus!
