use vstd::prelude::*;

verus! {

/// One, as a fixed-point number with sixteen fractional bits. Weights and
/// noise values are held on this scale.
pub const ONE: i32 = 0x1_0000;

/// The least of three numbers.
pub open spec fn min3(a: int, b: int, c: int) -> int {
    if a <= b && a <= c {
        a
    } else if b <= c {
        b
    } else {
        c
    }
}

/// The greatest of three numbers.
pub open spec fn max3(a: int, b: int, c: int) -> int {
    if a >= b && a >= c {
        a
    } else if b >= c {
        b
    } else {
        c
    }
}

/// A weighted sum with non-negative weights lies between the least and the
/// greatest of its terms, times the sum of the weights.
pub proof fn lemma_weighted_sum_bounds(
    q0: int,
    q1: int,
    q2: int,
    w0: int,
    w1: int,
    w2: int,
    lo: int,
    hi: int,
)
    requires
        w0 >= 0,
        w1 >= 0,
        w2 >= 0,
        lo <= q0 <= hi,
        lo <= q1 <= hi,
        lo <= q2 <= hi,
    ensures
        lo * (w0 + w1 + w2) <= q0 * w0 + q1 * w1 + q2 * w2 <= hi * (w0 + w1 + w2),
{
    assert(lo * w0 <= q0 * w0 <= hi * w0) by (nonlinear_arith)
        requires
            w0 >= 0,
            lo <= q0 <= hi,
    ;
    assert(lo * w1 <= q1 * w1 <= hi * w1) by (nonlinear_arith)
        requires
            w1 >= 0,
            lo <= q1 <= hi,
    ;
    assert(lo * w2 <= q2 * w2 <= hi * w2) by (nonlinear_arith)
        requires
            w2 >= 0,
            lo <= q2 <= hi,
    ;
    assert(lo * (w0 + w1 + w2) == lo * w0 + lo * w1 + lo * w2) by (nonlinear_arith);
    assert(hi * (w0 + w1 + w2) == hi * w0 + hi * w1 + hi * w2) by (nonlinear_arith);
}

/// A quotient lies between two bounds when the dividend lies between the
/// bounds times the divisor.
pub proof fn lemma_quotient_bounds(n: int, d: int, lo: int, hi: int)
    requires
        d > 0,
        lo * d <= n <= hi * d,
    ensures
        lo <= n / d <= hi,
{
    vstd::arithmetic::div_mod::lemma_fundamental_div_mod(n, d);
    vstd::arithmetic::div_mod::lemma_mod_bound(n, d);
    let q = n / d;
    let r = n % d;
    assert(lo <= q <= hi) by (nonlinear_arith)
        requires
            d > 0,
            n == d * q + r,
            0 <= r < d,
            lo * d <= n <= hi * d,
    ;
}

/// `v` brought into the range of a 32-bit signed number.
pub open spec fn saturate(v: int) -> int {
    if v < -0x8000_0000 {
        -0x8000_0000
    } else if v > 0x7fff_ffff {
        0x7fff_ffff
    } else {
        v
    }
}

/// `v` brought into 32 bits.
pub fn saturate_to_i32(v: i128) -> (s: i32)
    ensures
        s == saturate(v as int),
{
    if v < -0x8000_0000 {
        -0x8000_0000
    } else if v > 0x7fff_ffff {
        0x7fff_ffff
    } else {
        v as i32
    }
}

/// Rounded-down division of a signed dividend by a positive divisor.
pub fn floor_div(n: i128, d: i128) -> (q: i128)
    requires
        d > 0,
    ensures
        q == n / d,
{
    if n >= 0 {
        n / d
    } else {
        let m: i128 = -(n + 1);
        let p: i128 = m / d;
        proof {
            vstd::arithmetic::div_mod::lemma_fundamental_div_mod(m as int, d as int);
            vstd::arithmetic::div_mod::lemma_mod_pos_bound(m as int, d as int);
            let r = (m as int) % (d as int);
            assert(p >= 0) by (nonlinear_arith)
                requires
                    m == d * p + r,
                    0 <= r < d,
                    m >= 0,
            ;
            assert(n == (-p - 1) * d + (d - r - 1)) by (nonlinear_arith)
                requires
                    m == d * p + r,
                    m == -(n + 1),
            ;
            vstd::arithmetic::div_mod::lemma_fundamental_div_mod_converse(
                n as int,
                d as int,
                -p - 1,
                d - r - 1,
            );
        }
        -p - 1
    }
}

/// `r` is the whole part of the square root of `n`.
pub open spec fn is_root(n: int, r: int) -> bool {
    r >= 0 && r * r <= n < (r + 1) * (r + 1)
}

/// The whole part of the square root of a number that is not negative.
pub open spec fn root(n: int) -> int {
    choose|r: int| is_root(n, r)
}

/// Every number that is not negative has a whole square root.
pub proof fn lemma_root_exists(n: int)
    requires
        n >= 0,
    ensures
        is_root(n, root(n)),
{
    assert(n < (n + 1) * (n + 1)) by (nonlinear_arith)
        requires
            n >= 0,
    ;
    lemma_root_below(n, n);
}

/// Among the numbers from zero to `k`, where `n` lies below the square of
/// `k + 1`, is the whole square root of `n`.
proof fn lemma_root_below(n: int, k: int)
    requires
        0 <= k,
        0 <= n < (k + 1) * (k + 1),
    ensures
        is_root(n, root(n)),
    decreases k,
{
    if k * k <= n {
        assert(is_root(n, k));
    } else {
        assert(k > 0) by (nonlinear_arith)
            requires
                k >= 0,
                !(k * k <= n),
                n >= 0,
        ;
        assert(n < ((k - 1) + 1) * ((k - 1) + 1));
        lemma_root_below(n, k - 1);
    }
}

/// A number has one whole square root only.
pub proof fn lemma_root_is_unique(n: int, r: int, s: int)
    requires
        is_root(n, r),
        is_root(n, s),
    ensures
        r == s,
{
    if r < s {
        assert((r + 1) * (r + 1) <= s * s) by (nonlinear_arith)
            requires
                0 <= r + 1 <= s,
        ;
    }
    if s < r {
        assert((s + 1) * (s + 1) <= r * r) by (nonlinear_arith)
            requires
                0 <= s + 1 <= r,
        ;
    }
}

/// The whole part of the square root.
pub fn isqrt(n: u64) -> (r: u64)
    ensures
        is_root(n as int, r as int),
        r == root(n as int),
        r <= 0xffff_ffff,
{
    let mut lo: u64 = 0;
    let mut hi: u64 = 0x1_0000_0000;
    assert(0x1_0000_0000 * 0x1_0000_0000 > n) by (nonlinear_arith)
        requires
            n <= 0xffff_ffff_ffff_ffff,
    ;
    assert(0 * 0 == 0) by (nonlinear_arith);
    while hi - lo > 1
        invariant
            lo < hi <= 0x1_0000_0000,
            lo * lo <= n < hi * hi,
        decreases hi - lo,
    {
        let mid: u64 = lo + (hi - lo) / 2;
        assert(0 <= mid * mid <= 0x1_0000_0000 * 0x1_0000_0000) by (nonlinear_arith)
            requires
                0 <= mid <= 0x1_0000_0000,
        ;
        if (mid as u128) * (mid as u128) <= n as u128 {
            lo = mid;
        } else {
            hi = mid;
        }
    }
    proof {
        lemma_root_is_unique(n as int, lo as int, root(n as int));
    }
    lo
}

/// The quotient `n / d`, rounded down and brought into 32 bits. A quotient
/// by zero is without bound, and is brought into 32 bits as every other: to
/// the greatest number for a positive dividend and to the least for a
/// negative one. Zero by zero is zero.
pub open spec fn quotient(n: int, d: int) -> int {
    if d > 0 {
        saturate(n / d)
    } else if d < 0 {
        saturate((-n) / (-d))
    } else if n > 0 {
        0x7fff_ffff
    } else if n < 0 {
        -0x8000_0000
    } else {
        0
    }
}

/// The quotient of two numbers, rounded down and brought into 32 bits.
pub fn divide_wide(n: i128, d: i128) -> (q: i32)
    requires
        i128::MIN < n,
        i128::MIN < d,
    ensures
        q == quotient(n as int, d as int),
{
    if d > 0 {
        saturate_to_i32(floor_div(n, d))
    } else if d < 0 {
        saturate_to_i32(floor_div(-n, -d))
    } else if n > 0 {
        0x7fff_ffff
    } else if n < 0 {
        -0x8000_0000
    } else {
        0
    }
}

/// The quotient `a / b` of two fixed-point numbers as a fixed-point number,
/// rounded down and brought into 32 bits.
pub open spec fn ratio(a: int, b: int) -> int {
    quotient(a * ONE, b)
}

/// The quotient of two fixed-point numbers.
pub fn divide(a: i64, b: i64) -> (q: i32)
    ensures
        q == ratio(a as int, b as int),
{
    assert(-0x8000_0000_0000_0000_0000 <= a * ONE <= 0x8000_0000_0000_0000_0000)
        by (nonlinear_arith)
        requires
            -0x8000_0000_0000_0000 <= a <= 0x8000_0000_0000_0000,
            ONE == 0x1_0000,
    ;
    divide_wide((a as i128) * (ONE as i128), b as i128)
}

/// The product of two fixed-point numbers over `ONE`, rounded down and
/// brought into 32 bits.
pub open spec fn times(a: int, b: int) -> int {
    saturate((a * b) / (ONE as int))
}

/// The product of two fixed-point numbers.
pub fn multiply(a: i32, b: i32) -> (p: i32)
    ensures
        p == times(a as int, b as int),
{
    assert(-0x4000_0000_0000_0000 <= a * b <= 0x4000_0000_0000_0000) by (nonlinear_arith)
        requires
            -0x8000_0000 <= a <= 0x8000_0000,
            -0x8000_0000 <= b <= 0x8000_0000,
    ;
    saturate_to_i32(floor_div((a as i128) * (b as i128), ONE as i128))
}

/// The exact product of two 32-bit numbers.
pub fn wide_product(a: i32, b: i32) -> (p: i128)
    ensures
        p == a * b,
        -0x4000_0000_0000_0000 <= p <= 0x4000_0000_0000_0000,
{
    assert(-0x4000_0000_0000_0000 <= a * b <= 0x4000_0000_0000_0000) by (nonlinear_arith)
        requires
            -0x8000_0000 <= a <= 0x8000_0000,
            -0x8000_0000 <= b <= 0x8000_0000,
    ;
    (a as i128) * (b as i128)
}

} // verus!
