use vstd::prelude::*;
use crate::render::Face;
use crate::vector::Vector3;

verus! {

/// The byte is a decimal digit.
pub open spec fn is_digit(b: u8) -> bool {
    48 <= b <= 57
}

/// Every byte is a decimal digit.
pub open spec fn all_digits(bytes: Seq<u8>) -> bool {
    forall|i: int| 0 <= i < bytes.len() ==> is_digit(#[trigger] bytes[i])
}

/// The number a sequence of decimal digits writes; no digits write zero.
pub open spec fn decimal(digits: Seq<u8>) -> nat
    decreases digits.len(),
{
    if digits.len() == 0 {
        0
    } else {
        (decimal(digits.drop_last()) * 10 + (digits.last() - 48)) as nat
    }
}

/// The end of the first field of a face corner: the place of its first `/`,
/// or its length where it has none.
pub open spec fn field_end(token: Seq<u8>) -> int
    decreases token.len(),
{
    if token.len() == 0 {
        0
    } else if token[0] == 47 {
        0
    } else {
        1 + field_end(token.subrange(1, token.len() as int))
    }
}

/// The digits of the first field of a face corner, without the `+` sign it
/// may begin with.
pub open spec fn index_digits(token: Seq<u8>) -> Seq<u8> {
    let field = token.subrange(0, field_end(token));
    if field.len() > 0 && field[0] == 43 {
        field.subrange(1, field.len() as int)
    } else {
        field
    }
}

/// The vertex a face corner names, counted from zero. A face corner is
/// written `v`, `v/t` or `v/t/n`, its first field the number of a vertex,
/// counted from one in decimal digits. A first field that is not a number
/// from one up to the largest the machine counts names no vertex.
pub open spec fn corner_index(token: Seq<u8>) -> Option<usize> {
    let digits = index_digits(token);
    if digits.len() > 0 && all_digits(digits) && 1 <= decimal(digits) <= usize::MAX {
        Some((decimal(digits) - 1) as usize)
    } else {
        None
    }
}

/// The end of the first field lies inside the token, and no `/` comes
/// before it.
pub proof fn lemma_field_end(token: Seq<u8>)
    ensures
        0 <= field_end(token) <= token.len(),
        forall|i: int| 0 <= i < field_end(token) ==> token[i] != 47,
        field_end(token) < token.len() ==> token[field_end(token)] == 47,
    decreases token.len(),
{
    if token.len() > 0 && token[0] != 47 {
        let rest = token.subrange(1, token.len() as int);
        lemma_field_end(rest);
        assert forall|i: int| 0 <= i < field_end(token) implies token[i] != 47 by {
            if i > 0 {
                assert(token[i] == rest[i - 1]);
            }
        }
        if field_end(token) < token.len() {
            assert(token[field_end(token)] == rest[field_end(rest)]);
        }
    }
}

/// The number written by the first `k` of some digits is at most the number
/// written by all of them.
pub proof fn lemma_decimal_grows(digits: Seq<u8>, k: int)
    requires
        0 <= k <= digits.len(),
        all_digits(digits),
    ensures
        decimal(digits.subrange(0, k)) <= decimal(digits),
    decreases digits.len() - k,
{
    if k < digits.len() {
        let whole = digits.subrange(0, digits.len() as int);
        assert(whole =~= digits);
        lemma_decimal_grows(digits, k + 1);
        let longer = digits.subrange(0, k + 1);
        assert(longer.drop_last() =~= digits.subrange(0, k));
        assert(is_digit(digits[k]));
        assert(longer.last() == digits[k]);
    } else {
        assert(digits.subrange(0, k) =~= digits);
    }
}

/// Reads the vertex a face corner names.
pub fn parse_face_index(token: &Vec<u8>) -> (index: Option<usize>)
    ensures
        index == corner_index(token@),
{
    proof {
        lemma_field_end(token@);
    }
    let mut end: usize = 0;
    while end < token.len() && token[end] != 47
        invariant
            end <= token.len(),
            end <= field_end(token@),
            forall|i: int| 0 <= i < field_end(token@) ==> token@[i] != 47,
            field_end(token@) < token.len() ==> token@[field_end(token@)] == 47,
            field_end(token@) <= token.len(),
        decreases token.len() - end,
    {
        end += 1;
    }
    assert(end == field_end(token@));
    let start: usize = if end > 0 && token[0] == 43 {
        1
    } else {
        0
    };
    let ghost digits = index_digits(token@);
    assert(digits =~= token@.subrange(start as int, end as int));
    if start == end {
        return None;
    }
    let mut value: usize = 0;
    let mut i: usize = start;
    while i < end
        invariant
            start <= i <= end <= token.len(),
            digits == token@.subrange(start as int, end as int),
            digits == index_digits(token@),
            all_digits(digits.subrange(0, i - start)),
            value == decimal(digits.subrange(0, i - start)),
        decreases end - i,
    {
        let b: u8 = token[i];
        let ghost before = digits.subrange(0, i - start);
        let ghost after = digits.subrange(0, i - start + 1);
        proof {
            assert(after.drop_last() =~= before);
            assert(after.last() == b);
        }
        if b < 48 || b > 57 {
            proof {
                assert(digits[i - start] == b);
                assert(!is_digit(digits[i - start]));
            }
            return None;
        }
        let digit: usize = (b - 48) as usize;
        if value > (usize::MAX - digit) / 10 {
            proof {
                assert(decimal(after) > usize::MAX);
                if all_digits(digits) {
                    lemma_decimal_grows(digits, i - start + 1);
                }
            }
            return None;
        }
        value = value * 10 + digit;
        proof {
            assert forall|j: int| 0 <= j < after.len() implies is_digit(#[trigger] after[j]) by {
                if j < before.len() {
                    assert(after[j] == before[j]);
                }
            }
        }
        i += 1;
    }
    proof {
        assert(digits.subrange(0, end - start) =~= digits);
    }
    if value == 0 {
        None
    } else {
        Some(value - 1)
    }
}

/// The number of triangles a polygon of `corners` vertices is cut into.
pub open spec fn fan_len(corners: int) -> int {
    if corners >= 3 {
        corners - 2
    } else {
        0
    }
}

/// Cuts a polygon, given by the indices of its vertices in order, into a fan
/// of triangles around its first vertex: triangle `k` joins the first
/// vertex to vertices `k + 1` and `k + 2`. Fewer than three vertices make no
/// triangle.
pub fn triangulate_face(polygon: &Vec<usize>) -> (fan: Vec<Face>)
    ensures
        fan.len() == fan_len(polygon.len() as int),
        forall|k: int|
            0 <= k < fan.len() ==> #[trigger] fan[k] == (polygon[0], polygon[k + 1], polygon[k + 2]),
{
    let mut fan: Vec<Face> = Vec::new();
    if polygon.len() < 3 {
        return fan;
    }
    let mut i: usize = 1;
    while i < polygon.len() - 1
        invariant
            polygon.len() >= 3,
            1 <= i <= polygon.len() - 1,
            fan.len() == i - 1,
            forall|k: int|
                0 <= k < fan.len() ==> #[trigger] fan[k] == (polygon[0], polygon[k + 1], polygon[k + 2]),
        decreases polygon.len() - i,
    {
        fan.push((polygon[0], polygon[i], polygon[i + 1]));
        i += 1;
    }
    fan
}

/// The normal of a face: the cross product of its edges from the first
/// vertex to the second and to the third, scaled to length one.
pub open spec fn face_normal(v0: Vector3, v1: Vector3, v2: Vector3) -> Vector3 {
    v1.minus(v0).cross_product(v2.minus(v0)).normalized()
}

/// The face names three of the `count` vertices.
pub open spec fn face_in_range(face: Face, count: int) -> bool {
    face.0 < count && face.1 < count && face.2 < count
}

/// The sums of face normals with the normal of one more face added to the
/// sum of each of its three vertices, one after the other. A face that
/// names a vertex the mesh does not have adds nothing.
pub open spec fn with_face(sums: Seq<Vector3>, vertices: Seq<Vector3>, face: Face) -> Seq<Vector3> {
    if face_in_range(face, vertices.len() as int) {
        let n = face_normal(
            vertices[face.0 as int],
            vertices[face.1 as int],
            vertices[face.2 as int],
        );
        let first = sums.update(face.0 as int, sums[face.0 as int].plus(n));
        let second = first.update(face.1 as int, first[face.1 as int].plus(n));
        second.update(face.2 as int, second[face.2 as int].plus(n))
    } else {
        sums
    }
}

/// For each vertex the sum of the normals of the faces among the first `k`
/// that it belongs to.
pub open spec fn normal_sums(vertices: Seq<Vector3>, faces: Seq<Face>, k: int) -> Seq<Vector3>
    decreases k,
{
    if k <= 0 {
        Seq::new(vertices.len(), |i: int| Vector3 { x: 0, y: 0, z: 0 })
    } else {
        with_face(normal_sums(vertices, faces, k - 1), vertices, faces[k - 1])
    }
}

/// The sums of face normals keep one entry per vertex.
pub proof fn lemma_normal_sums_len(vertices: Seq<Vector3>, faces: Seq<Face>, k: int)
    ensures
        normal_sums(vertices, faces, k).len() == vertices.len(),
    decreases k,
{
    if k > 0 {
        lemma_normal_sums_len(vertices, faces, k - 1);
    }
}

/// Gives a mesh without normals its normals: the normal of a vertex is the
/// sum of the normals of the faces it belongs to, scaled to length one. A
/// vertex of no face, or one whose face normals cancel, gets the zero
/// vector.
pub fn compute_normals(vertices: &Vec<Vector3>, indices: &Vec<Face>) -> (normals: Vec<Vector3>)
    ensures
        normals.len() == vertices.len(),
        forall|i: int|
            0 <= i < normals.len() ==> #[trigger] normals[i] == normal_sums(
                vertices@,
                indices@,
                indices.len() as int,
            )[i].normalized(),
{
    let count: usize = vertices.len();
    let mut sums: Vec<Vector3> = Vec::new();
    let mut i: usize = 0;
    while i < count
        invariant
            i <= count,
            sums.len() == i,
            forall|j: int| 0 <= j < i ==> #[trigger] sums[j] == (Vector3 { x: 0, y: 0, z: 0 }),
        decreases count - i,
    {
        sums.push(Vector3::new(0, 0, 0));
        i += 1;
    }
    assert(sums@ =~= normal_sums(vertices@, indices@, 0));
    let mut k: usize = 0;
    while k < indices.len()
        invariant
            k <= indices.len(),
            count == vertices.len(),
            sums.len() == count,
            sums@ == normal_sums(vertices@, indices@, k as int),
        decreases indices.len() - k,
    {
        let face: Face = indices[k];
        if face.0 < count && face.1 < count && face.2 < count {
            let v0: Vector3 = vertices[face.0];
            let edge1: Vector3 = vertices[face.1].sub(&v0);
            let edge2: Vector3 = vertices[face.2].sub(&v0);
            let normal: Vector3 = edge1.cross(&edge2).normalize();
            let first: Vector3 = sums[face.0].add(&normal);
            sums[face.0] = first;
            let second: Vector3 = sums[face.1].add(&normal);
            sums[face.1] = second;
            let third: Vector3 = sums[face.2].add(&normal);
            sums[face.2] = third;
        }
        k += 1;
    }
    let mut normals: Vec<Vector3> = Vec::new();
    let mut j: usize = 0;
    while j < count
        invariant
            j <= count,
            sums.len() == count,
            normals.len() == j,
            forall|i: int| 0 <= i < j ==> #[trigger] normals[i] == sums[i].normalized(),
        decreases count - j,
    {
        normals.push(sums[j].normalize());
        j += 1;
    }
    normals
}

} // verus!
