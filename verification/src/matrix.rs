use vstd::prelude::*;
use crate::fixed::floor_div;
use crate::fixed::saturate;
use crate::fixed::saturate_to_i32;
use crate::fixed::ONE;
use crate::vector::Vector3;
use crate::vector::raw_dot;
use crate::vector::within;
use crate::fixed::divide_wide;
use crate::fixed::quotient;
use crate::fixed::wide_product;

verus! {

/// A point in homogeneous coordinates, a column vector `(x, y, z, w)` of
/// fixed-point numbers.
#[derive(Clone, Copy, Debug, PartialEq, Eq, Structural)]
pub struct Vector4 {
    pub x: i32,
    pub y: i32,
    pub z: i32,
    pub w: i32,
}

/// A 4x4 matrix of fixed-point numbers; `m23` is the entry in row 2 and
/// column 3. A matrix acts on a column vector from the left.
#[derive(Clone, Copy, Debug, PartialEq, Eq, Structural)]
pub struct Matrix4 {
    pub m11: i32,
    pub m12: i32,
    pub m13: i32,
    pub m14: i32,
    pub m21: i32,
    pub m22: i32,
    pub m23: i32,
    pub m24: i32,
    pub m31: i32,
    pub m32: i32,
    pub m33: i32,
    pub m34: i32,
    pub m41: i32,
    pub m42: i32,
    pub m43: i32,
    pub m44: i32,
}

/// The product of a matrix row `(a, b, c, d)` with the column vector `v`:
/// the sum of the four products, rounded down to sixteen fractional bits and
/// brought into 32 bits.
pub open spec fn row_times(a: i32, b: i32, c: i32, d: i32, v: Vector4) -> int {
    saturate((a * v.x + b * v.y + c * v.z + d * v.w) / (ONE as int))
}

/// The product `m * v`.
pub open spec fn matrix_times(m: Matrix4, v: Vector4) -> Vector4 {
    Vector4 {
        x: row_times(m.m11, m.m12, m.m13, m.m14, v) as i32,
        y: row_times(m.m21, m.m22, m.m23, m.m24, v) as i32,
        z: row_times(m.m31, m.m32, m.m33, m.m34, v) as i32,
        w: row_times(m.m41, m.m42, m.m43, m.m44, v) as i32,
    }
}

/// The point `v` as a homogeneous column vector `(x, y, z, 1)`.
pub open spec fn homogeneous(v: Vector3) -> Vector4 {
    Vector4 { x: v.x, y: v.y, z: v.z, w: ONE }
}

/// The point `v` transformed by `m`, without a perspective divide: the
/// first three components of `m * (x, y, z, 1)`.
pub open spec fn transformed(v: Vector3, m: Matrix4) -> Vector3 {
    let image = matrix_times(m, homogeneous(v));
    Vector3 { x: image.x, y: image.y, z: image.z }
}

/// The matrix that leaves every vector as it is.
pub open spec fn identity() -> Matrix4 {
    Matrix4 {
        m11: ONE,
        m12: 0,
        m13: 0,
        m14: 0,
        m21: 0,
        m22: ONE,
        m23: 0,
        m24: 0,
        m31: 0,
        m32: 0,
        m33: ONE,
        m34: 0,
        m41: 0,
        m42: 0,
        m43: 0,
        m44: ONE,
    }
}

/// The matrix that moves every point by `t`.
pub open spec fn translation(t: Vector3) -> Matrix4 {
    Matrix4 { m14: t.x, m24: t.y, m34: t.z, ..identity() }
}

/// The product of a matrix row with a column vector.
fn row_product(a: i32, b: i32, c: i32, d: i32, v: &Vector4) -> (p: i32)
    ensures
        p == row_times(a, b, c, d, *v),
{
    assert(-0x4000_0000_0000_0000 <= a * v.x <= 0x4000_0000_0000_0000) by (nonlinear_arith)
        requires
            -0x8000_0000 <= a <= 0x8000_0000,
            -0x8000_0000 <= v.x <= 0x8000_0000,
    ;
    assert(-0x4000_0000_0000_0000 <= b * v.y <= 0x4000_0000_0000_0000) by (nonlinear_arith)
        requires
            -0x8000_0000 <= b <= 0x8000_0000,
            -0x8000_0000 <= v.y <= 0x8000_0000,
    ;
    assert(-0x4000_0000_0000_0000 <= c * v.z <= 0x4000_0000_0000_0000) by (nonlinear_arith)
        requires
            -0x8000_0000 <= c <= 0x8000_0000,
            -0x8000_0000 <= v.z <= 0x8000_0000,
    ;
    assert(-0x4000_0000_0000_0000 <= d * v.w <= 0x4000_0000_0000_0000) by (nonlinear_arith)
        requires
            -0x8000_0000 <= d <= 0x8000_0000,
            -0x8000_0000 <= v.w <= 0x8000_0000,
    ;
    let sum: i128 = (a as i128) * (v.x as i128) + (b as i128) * (v.y as i128) + (c as i128) * (
    v.z as i128) + (d as i128) * (v.w as i128);
    saturate_to_i32(floor_div(sum, ONE as i128))
}

/// A matrix from its sixteen entries, row by row.
pub fn create_matrix4(
    r0c0: i32,
    r0c1: i32,
    r0c2: i32,
    r0c3: i32,
    r1c0: i32,
    r1c1: i32,
    r1c2: i32,
    r1c3: i32,
    r2c0: i32,
    r2c1: i32,
    r2c2: i32,
    r2c3: i32,
    r3c0: i32,
    r3c1: i32,
    r3c2: i32,
    r3c3: i32,
) -> (m: Matrix4)
    ensures
        m == (Matrix4 {
            m11: r0c0,
            m12: r0c1,
            m13: r0c2,
            m14: r0c3,
            m21: r1c0,
            m22: r1c1,
            m23: r1c2,
            m24: r1c3,
            m31: r2c0,
            m32: r2c1,
            m33: r2c2,
            m34: r2c3,
            m41: r3c0,
            m42: r3c1,
            m43: r3c2,
            m44: r3c3,
        }),
{
    Matrix4 {
        m11: r0c0,
        m12: r0c1,
        m13: r0c2,
        m14: r0c3,
        m21: r1c0,
        m22: r1c1,
        m23: r1c2,
        m24: r1c3,
        m31: r2c0,
        m32: r2c1,
        m33: r2c2,
        m34: r2c3,
        m41: r3c0,
        m42: r3c1,
        m43: r3c2,
        m44: r3c3,
    }
}

/// The product of a matrix with a column vector.
pub fn multiply_matrix_vector4(matrix: &Matrix4, vector: &Vector4) -> (image: Vector4)
    ensures
        image == matrix_times(*matrix, *vector),
{
    Vector4 {
        x: row_product(matrix.m11, matrix.m12, matrix.m13, matrix.m14, vector),
        y: row_product(matrix.m21, matrix.m22, matrix.m23, matrix.m24, vector),
        z: row_product(matrix.m31, matrix.m32, matrix.m33, matrix.m34, vector),
        w: row_product(matrix.m41, matrix.m42, matrix.m43, matrix.m44, vector),
    }
}

/// Transforms a point by a matrix: the point is taken as `(x, y, z, 1)`, and
/// the first three components of its image are returned, with no
/// perspective divide.
pub fn transform_vertex(v: &Vector3, matrix: &Matrix4) -> (image: Vector3)
    ensures
        image == transformed(*v, *matrix),
{
    let v4 = Vector4 { x: v.x, y: v.y, z: v.z, w: ONE };
    let image = multiply_matrix_vector4(matrix, &v4);
    Vector3 { x: image.x, y: image.y, z: image.z }
}

/// Column `j` of a matrix, for `j` from 1 to 4.
pub open spec fn column(m: Matrix4, j: int) -> Vector4 {
    if j == 1 {
        Vector4 { x: m.m11, y: m.m21, z: m.m31, w: m.m41 }
    } else if j == 2 {
        Vector4 { x: m.m12, y: m.m22, z: m.m32, w: m.m42 }
    } else if j == 3 {
        Vector4 { x: m.m13, y: m.m23, z: m.m33, w: m.m43 }
    } else {
        Vector4 { x: m.m14, y: m.m24, z: m.m34, w: m.m44 }
    }
}

/// The matrix with the given four columns.
pub open spec fn from_columns(c1: Vector4, c2: Vector4, c3: Vector4, c4: Vector4) -> Matrix4 {
    Matrix4 {
        m11: c1.x,
        m12: c2.x,
        m13: c3.x,
        m14: c4.x,
        m21: c1.y,
        m22: c2.y,
        m23: c3.y,
        m24: c4.y,
        m31: c1.z,
        m32: c2.z,
        m33: c3.z,
        m34: c4.z,
        m41: c1.w,
        m42: c2.w,
        m43: c3.w,
        m44: c4.w,
    }
}

/// The product `a * b`: column by column, `a` times the column of `b`. It
/// stands for `b` applied first and `a` second.
pub open spec fn matrix_product(a: Matrix4, b: Matrix4) -> Matrix4 {
    from_columns(
        matrix_times(a, column(b, 1)),
        matrix_times(a, column(b, 2)),
        matrix_times(a, column(b, 3)),
        matrix_times(a, column(b, 4)),
    )
}

/// The product of two matrices.
pub fn multiply_matrices(a: &Matrix4, b: &Matrix4) -> (product: Matrix4)
    ensures
        product == matrix_product(*a, *b),
{
    let c1 = multiply_matrix_vector4(a, &Vector4 { x: b.m11, y: b.m21, z: b.m31, w: b.m41 });
    let c2 = multiply_matrix_vector4(a, &Vector4 { x: b.m12, y: b.m22, z: b.m32, w: b.m42 });
    let c3 = multiply_matrix_vector4(a, &Vector4 { x: b.m13, y: b.m23, z: b.m33, w: b.m43 });
    let c4 = multiply_matrix_vector4(a, &Vector4 { x: b.m14, y: b.m24, z: b.m34, w: b.m44 });
    Matrix4 {
        m11: c1.x,
        m12: c2.x,
        m13: c3.x,
        m14: c4.x,
        m21: c1.y,
        m22: c2.y,
        m23: c3.y,
        m24: c4.y,
        m31: c1.z,
        m32: c2.z,
        m33: c3.z,
        m34: c4.z,
        m41: c1.w,
        m42: c2.w,
        m43: c3.w,
        m44: c4.w,
    }
}

/// `-v`, brought into 32 bits.
pub open spec fn negated(v: int) -> int {
    saturate(-v)
}

/// `-v`, brought into 32 bits.
pub fn negate(v: i32) -> (n: i32)
    ensures
        n == negated(v as int),
{
    saturate_to_i32(-(v as i128))
}

/// The rotation about the `x` axis by the angle with the given sine and
/// cosine.
pub open spec fn rotation_x(sin: i32, cos: i32) -> Matrix4 {
    Matrix4 { m22: cos, m23: negated(sin as int) as i32, m32: sin, m33: cos, ..identity() }
}

/// The rotation about the `y` axis by the angle with the given sine and
/// cosine.
pub open spec fn rotation_y(sin: i32, cos: i32) -> Matrix4 {
    Matrix4 { m11: cos, m13: sin, m31: negated(sin as int) as i32, m33: cos, ..identity() }
}

/// The rotation about the `z` axis by the angle with the given sine and
/// cosine.
pub open spec fn rotation_z(sin: i32, cos: i32) -> Matrix4 {
    Matrix4 { m11: cos, m12: negated(sin as int) as i32, m21: sin, m22: cos, ..identity() }
}

/// The matrix that scales every axis by the same factor.
pub open spec fn scaling(factor: i32) -> Matrix4 {
    Matrix4 { m11: factor, m22: factor, m33: factor, ..identity() }
}

/// The model matrix `T * R * S`: a uniform scale, then the rotation
/// `Rz * Ry * Rx` with the given sines and cosines of the three Euler
/// angles, then the translation.
pub open spec fn model_matrix(t: Vector3, scale: i32, sines: Vector3, cosines: Vector3) -> Matrix4 {
    let rotation = matrix_product(
        matrix_product(rotation_z(sines.z, cosines.z), rotation_y(sines.y, cosines.y)),
        rotation_x(sines.x, cosines.x),
    );
    matrix_product(matrix_product(translation(t), rotation), scaling(scale))
}

/// Builds the model matrix of a body from its translation, its uniform
/// scale, and the sines and cosines of its three Euler angles: it scales
/// first, rotates about `x`, then `y`, then `z`, and translates last.
pub fn create_model_matrix(translation: Vector3, scale: i32, sines: Vector3, cosines: Vector3) -> (m:
    Matrix4)
    ensures
        m == model_matrix(translation, scale, sines, cosines),
{
    let rotation_matrix_x = create_matrix4(
        ONE,
        0,
        0,
        0,
        0,
        cosines.x,
        negate(sines.x),
        0,
        0,
        sines.x,
        cosines.x,
        0,
        0,
        0,
        0,
        ONE,
    );
    let rotation_matrix_y = create_matrix4(
        cosines.y,
        0,
        sines.y,
        0,
        0,
        ONE,
        0,
        0,
        negate(sines.y),
        0,
        cosines.y,
        0,
        0,
        0,
        0,
        ONE,
    );
    let rotation_matrix_z = create_matrix4(
        cosines.z,
        negate(sines.z),
        0,
        0,
        sines.z,
        cosines.z,
        0,
        0,
        0,
        0,
        ONE,
        0,
        0,
        0,
        0,
        ONE,
    );
    let rotation_matrix = multiply_matrices(
        &multiply_matrices(&rotation_matrix_z, &rotation_matrix_y),
        &rotation_matrix_x,
    );
    let scale_matrix = create_matrix4(scale, 0, 0, 0, 0, scale, 0, 0, 0, 0, scale, 0, 0, 0, 0, ONE);
    let translation_matrix = create_matrix4(
        ONE,
        0,
        0,
        translation.x,
        0,
        ONE,
        0,
        translation.y,
        0,
        0,
        ONE,
        translation.z,
        0,
        0,
        0,
        ONE,
    );
    multiply_matrices(&multiply_matrices(&translation_matrix, &rotation_matrix), &scale_matrix)
}

/// The view matrix of a camera at `eye` that looks at `target`, in a
/// right-handed basis: `forward` is the direction to the target, `right` is
/// `forward x up` scaled to length one, and the camera's own up is
/// `right x forward`. The rows are `right`, the camera's up and `-forward`,
/// each with the translation `-axis . eye`.
pub open spec fn view_matrix(eye: Vector3, target: Vector3, up: Vector3) -> Matrix4 {
    let forward = target.minus(eye).normalized();
    let right = forward.cross_product(up).normalized();
    let above = right.cross_product(forward);
    Matrix4 {
        m11: right.x,
        m12: right.y,
        m13: right.z,
        m14: negated(right.dot_product(eye)) as i32,
        m21: above.x,
        m22: above.y,
        m23: above.z,
        m24: negated(above.dot_product(eye)) as i32,
        m31: negated(forward.x as int) as i32,
        m32: negated(forward.y as int) as i32,
        m33: negated(forward.z as int) as i32,
        m34: forward.dot_product(eye) as i32,
        m41: 0,
        m42: 0,
        m43: 0,
        m44: ONE,
    }
}

/// Builds the view matrix of a camera at `eye` that looks at `target`.
/// Where the direction to the target is parallel to `up`, or the target is
/// the eye itself, there is no basis: the rows that have no direction are
/// zero.
pub fn create_view_matrix(eye: Vector3, target: Vector3, up: Vector3) -> (m: Matrix4)
    ensures
        m == view_matrix(eye, target, up),
{
    let forward = target.sub(&eye).normalize();
    let right = forward.cross(&up).normalize();
    let actual_up = right.cross(&forward);
    create_matrix4(
        right.x,
        right.y,
        right.z,
        negate(right.dot(&eye)),
        actual_up.x,
        actual_up.y,
        actual_up.z,
        negate(actual_up.dot(&eye)),
        negate(forward.x),
        negate(forward.y),
        negate(forward.z),
        forward.dot(&eye),
        0,
        0,
        0,
        ONE,
    )
}

/// The matrix of a symmetric perspective projection. `x` is scaled by
/// `1 / (aspect * tan)` and `y` by `1 / tan`, with `tan` the tangent of half
/// the vertical field of view; depth between `near` and `far` is mapped by
/// `-(far + near) / (far - near)` and `-2 * far * near / (far - near)`; and
/// `w` becomes `-z`, which is negative for points behind the eye.
pub open spec fn projection_matrix(tan: i32, aspect: i32, near: i32, far: i32) -> Matrix4 {
    Matrix4 {
        m11: quotient(ONE * ONE * ONE, aspect * tan) as i32,
        m12: 0,
        m13: 0,
        m14: 0,
        m21: 0,
        m22: quotient(ONE * ONE, tan as int) as i32,
        m23: 0,
        m24: 0,
        m31: 0,
        m32: 0,
        m33: quotient(-(far + near) * ONE, far - near) as i32,
        m34: quotient(-(2 * far * near), far - near) as i32,
        m41: 0,
        m42: 0,
        m43: (-ONE) as i32,
        m44: 0,
    }
}

/// Builds the matrix of a symmetric perspective projection from the tangent
/// of half the vertical field of view, the aspect ratio, and the distances
/// of the near and the far plane. A field of view without extent, or a near
/// plane that is the far plane, gives quotients by zero, which saturate.
pub fn create_projection_matrix(tan_half_fov: i32, aspect: i32, near: i32, far: i32) -> (m: Matrix4)
    ensures
        m == projection_matrix(tan_half_fov, aspect, near, far),
{
    let one: i128 = ONE as i128;
    let spread: i128 = far as i128 - near as i128;
    let across: i128 = wide_product(aspect, tan_half_fov);
    let plane: i128 = wide_product(far, near);
    assert(-(far + near) * ONE == -((far + near) * ONE)) by (nonlinear_arith);
    assert(2 * far * near == 2 * (far * near)) by (nonlinear_arith);
    assert(-0x10_0000_0000_0000 <= (far + near) * ONE <= 0x10_0000_0000_0000)
        by (nonlinear_arith)
        requires
            -0x1_0000_0000 <= far + near <= 0x1_0000_0000,
            ONE == 0x1_0000,
    ;
    create_matrix4(
        divide_wide(one * one * one, across),
        0,
        0,
        0,
        0,
        divide_wide(one * one, tan_half_fov as i128),
        0,
        0,
        0,
        0,
        divide_wide(-((far as i128 + near as i128) * one), spread),
        divide_wide(-(2 * plane), spread),
        0,
        0,
        -ONE,
        0,
    )
}

/// Under a perspective projection the clip-space `w` of a point is `-z`,
/// its distance in front of the eye, whatever the field of view and the
/// planes are: it is positive in front of the eye, zero in the plane of the
/// eye, and negative behind it.
pub proof fn lemma_projection_w_is_depth(
    tan: i32,
    aspect: i32,
    near: i32,
    far: i32,
    v: Vector3,
)
    ensures
        matrix_times(projection_matrix(tan, aspect, near, far), homogeneous(v)).w == saturate(
            -v.z,
        ),
{
    let z = v.z as int;
    assert(0 * v.x == 0 && 0 * v.y == 0 && 0 * ONE == 0) by (nonlinear_arith);
    assert((-ONE) * z == ONE * (-z)) by (nonlinear_arith);
    vstd::arithmetic::div_mod::lemma_div_multiples_vanish(-z, ONE as int);
}

/// Every component of the axes `right` and `-forward` of a view matrix lies
/// between minus one and one, and its bottom row is `(0, 0, 0, 1)`.
pub proof fn lemma_view_axes_within_one(eye: Vector3, target: Vector3, up: Vector3)
    ensures
        ({
            let m = view_matrix(eye, target, up);
            &&& -ONE <= m.m11 <= ONE && -ONE <= m.m12 <= ONE && -ONE <= m.m13 <= ONE
            &&& -ONE <= m.m31 <= ONE && -ONE <= m.m32 <= ONE && -ONE <= m.m33 <= ONE
            &&& m.m41 == 0 && m.m42 == 0 && m.m43 == 0 && m.m44 == ONE
        }),
{
    let forward = target.minus(eye);
    crate::vector::lemma_unit_vector_components(forward);
    crate::vector::lemma_unit_vector_components(forward.normalized().cross_product(up));
}

/// The axes `right` and `-forward` of a view matrix have length one up to
/// rounding, where the camera has a direction to look in and that direction
/// is not near to `up`: where the way to the target, and the cross product
/// of `forward` and `up`, have length one half or more. The sum of the
/// squares of each axis lies within `6 * ONE` below and `10 * ONE + 3` above
/// `ONE * ONE`.
pub proof fn lemma_view_axes_unit_length(eye: Vector3, target: Vector3, up: Vector3)
    requires
        2 * target.minus(eye).norm() >= ONE,
        2 * target.minus(eye).normalized().cross_product(up).norm() >= ONE,
    ensures
        ({
            let m = view_matrix(eye, target, up);
            &&& ONE * ONE - 6 * ONE <= m.m11 * m.m11 + m.m12 * m.m12 + m.m13 * m.m13 <= ONE * ONE
                + 10 * ONE + 3
            &&& ONE * ONE - 6 * ONE <= m.m31 * m.m31 + m.m32 * m.m32 + m.m33 * m.m33 <= ONE * ONE
                + 10 * ONE + 3
        }),
{
    let way = target.minus(eye);
    let forward = way.normalized();
    let across = forward.cross_product(up);
    crate::vector::lemma_unit_vector_components(way);
    crate::vector::lemma_unit_vector_length(way);
    crate::vector::lemma_unit_vector_length(across);
    let m = view_matrix(eye, target, up);
    assert(m.m31 == -forward.x && m.m32 == -forward.y && m.m33 == -forward.z);
    assert(m.m31 * m.m31 == forward.x * forward.x) by (nonlinear_arith)
        requires
            m.m31 == -forward.x,
    ;
    assert(m.m32 * m.m32 == forward.y * forward.y) by (nonlinear_arith)
        requires
            m.m32 == -forward.y,
    ;
    assert(m.m33 * m.m33 == forward.z * forward.z) by (nonlinear_arith)
        requires
            m.m33 == -forward.z,
    ;
}

/// The three axes of a view matrix are at right angles to one another, up
/// to rounding, where the direction of the camera is not near to `up`: where
/// the cross product of `forward` and `up` has length one half or more, and
/// no component of `up` reaches `2^30`. On the scale of `ONE * ONE`, the dot
/// product of `right` with `-forward` lies within `9 * ONE` of zero, and the
/// dot products of the camera's up with the other two within `3 * ONE`.
pub proof fn lemma_view_axes_at_right_angles(eye: Vector3, target: Vector3, up: Vector3)
    requires
        within(up, 0x3fff_ffff),
        2 * target.minus(eye).normalized().cross_product(up).norm() >= ONE,
    ensures
        ({
            let m = view_matrix(eye, target, up);
            &&& -9 * ONE <= m.m11 * m.m31 + m.m12 * m.m32 + m.m13 * m.m33 <= 9 * ONE
            &&& -3 * ONE <= m.m21 * m.m11 + m.m22 * m.m12 + m.m23 * m.m13 <= 3 * ONE
            &&& -3 * ONE <= m.m21 * m.m31 + m.m22 * m.m32 + m.m23 * m.m33 <= 3 * ONE
        }),
{
    let way = target.minus(eye);
    let forward = way.normalized();
    let across = forward.cross_product(up);
    let right = across.normalized();
    let above = right.cross_product(forward);
    crate::vector::lemma_unit_vector_components(way);
    crate::vector::lemma_unit_vector_components(across);
    crate::vector::lemma_cross_product_at_right_angles(forward, up, 0x3fff_ffff);
    crate::vector::lemma_unit_vector_at_right_angles(across, forward);
    crate::vector::lemma_cross_product_at_right_angles(right, forward, ONE as int);
    let m = view_matrix(eye, target, up);
    assert(m.m31 == -forward.x && m.m32 == -forward.y && m.m33 == -forward.z);
    assert(m.m11 * m.m31 + m.m12 * m.m32 + m.m13 * m.m33 == -raw_dot(right, forward))
        by (nonlinear_arith)
        requires
            m.m11 == right.x,
            m.m12 == right.y,
            m.m13 == right.z,
            m.m31 == -forward.x,
            m.m32 == -forward.y,
            m.m33 == -forward.z,
            raw_dot(right, forward) == right.x * forward.x + right.y * forward.y + right.z
                * forward.z,
    ;
    assert(m.m21 * m.m31 + m.m22 * m.m32 + m.m23 * m.m33 == -raw_dot(above, forward))
        by (nonlinear_arith)
        requires
            m.m21 == above.x,
            m.m22 == above.y,
            m.m23 == above.z,
            m.m31 == -forward.x,
            m.m32 == -forward.y,
            m.m33 == -forward.z,
            raw_dot(above, forward) == above.x * forward.x + above.y * forward.y + above.z
                * forward.z,
    ;
    assert(m.m21 * m.m11 + m.m22 * m.m12 + m.m23 * m.m13 == raw_dot(above, right));
}

/// The identity matrix leaves every vector as it is.
pub proof fn lemma_identity_keeps_vectors(v: Vector4)
    ensures
        matrix_times(identity(), v) == v,
{
    lemma_unit_row(v.x as int, v.y as int, v.z as int, v.w as int);
    lemma_unit_row(v.y as int, v.x as int, v.z as int, v.w as int);
    lemma_unit_row(v.z as int, v.x as int, v.y as int, v.w as int);
    lemma_unit_row(v.w as int, v.x as int, v.y as int, v.z as int);
}

/// A translation moves a point by its offset, as far as 32 bits reach.
pub proof fn lemma_translation_moves_points(t: Vector3, v: Vector3)
    ensures
        transformed(v, translation(t)).x == saturate(v.x + t.x),
        transformed(v, translation(t)).y == saturate(v.y + t.y),
        transformed(v, translation(t)).z == saturate(v.z + t.z),
{
    lemma_unit_row(v.x + t.x, v.y as int, v.z as int, 0);
    lemma_unit_row(v.y + t.y, v.x as int, v.z as int, 0);
    lemma_unit_row(v.z + t.z, v.x as int, v.y as int, 0);
    assert(t.x * ONE == ONE * t.x && t.y * ONE == ONE * t.y && t.z * ONE == ONE * t.z)
        by (nonlinear_arith);
    assert(ONE * (v.x + t.x) == ONE * v.x + ONE * t.x) by (nonlinear_arith);
    assert(ONE * (v.y + t.y) == ONE * v.y + ONE * t.y) by (nonlinear_arith);
    assert(ONE * (v.z + t.z) == ONE * v.z + ONE * t.z) by (nonlinear_arith);
}

/// A sum in which `a` is taken once and three other numbers not at all is
/// `a`.
proof fn lemma_unit_row(a: int, b: int, c: int, d: int)
    ensures
        (ONE * a + 0 * b + 0 * c + 0 * d) / (ONE as int) == a,
{
    assert(0 * b == 0 && 0 * c == 0 && 0 * d == 0) by (nonlinear_arith);
    vstd::arithmetic::div_mod::lemma_div_multiples_vanish(a, ONE as int);
}

} // verus!
