//! Integer helpers: division rounded toward zero, scaling by a fraction in
//! parts per million, speed saturation and the integer square root.
use vstd::prelude::*;

verus! {

/// Denominator of every fractional parameter: a fraction `f` is stored as `f * PPM`.
pub const PPM: i64 = 1_000_000;

/// Bound on coordinates, velocity components, radii, arena extents and gravity.
pub const COORD_LIMIT: i64 = 16_777_216;

/// Quotient of `n` by a positive `m`, rounded toward zero.
pub open spec fn trunc_div(n: int, m: int) -> int {
    if n >= 0 {
        n / m
    } else {
        -((-n) / m)
    }
}

/// `v` multiplied by the fraction `keep / PPM`, rounded toward zero.
pub open spec fn scale_ppm(v: int, keep: int) -> int {
    trunc_div(v * keep, PPM as int)
}

/// `v` held within `[-COORD_LIMIT, COORD_LIMIT]`.
pub open spec fn limit_speed(v: int) -> int {
    if v > COORD_LIMIT {
        COORD_LIMIT as int
    } else if v < -COORD_LIMIT {
        -COORD_LIMIT
    } else {
        v
    }
}

pub open spec fn abs(v: int) -> int {
    if v >= 0 {
        v
    } else {
        -v
    }
}

/// `r` is the square root of `n` rounded down.
pub open spec fn is_floor_sqrt(n: int, r: int) -> bool {
    0 <= r && r * r <= n && n < (r + 1) * (r + 1)
}

/// The square root of `n` rounded down.
pub open spec fn floor_sqrt(n: int) -> int {
    choose|r: int| is_floor_sqrt(n, r)
}

pub proof fn lemma_trunc_div_neg(n: int, m: int)
    requires
        m != 0,
    ensures
        trunc_div(-n, m) == -trunc_div(n, m),
{
    assert(0int / m == 0) by (nonlinear_arith)
        requires
            m != 0,
    ;
}

pub proof fn lemma_trunc_div_shrinks(n: int, m: int)
    requires
        m > 0,
    ensures
        abs(trunc_div(n, m)) <= abs(n),
        n >= 0 ==> trunc_div(n, m) >= 0,
        n <= 0 ==> trunc_div(n, m) <= 0,
{
    if n >= 0 {
        assert(n / m <= n) by (nonlinear_arith)
            requires
                n >= 0,
                m > 0,
        ;
        assert(n / m >= 0) by (nonlinear_arith)
            requires
                n >= 0,
                m > 0,
        ;
    } else {
        assert((-n) / m <= -n) by (nonlinear_arith)
            requires
                -n >= 0,
                m > 0,
        ;
        assert((-n) / m >= 0) by (nonlinear_arith)
            requires
                -n >= 0,
                m > 0,
        ;
    }
}

/// Dividing an exact multiple gives the factor back.
pub proof fn lemma_trunc_div_exact(q: int, m: int)
    requires
        m > 0,
    ensures
        trunc_div(q * m, m) == q,
{
    if q >= 0 {
        assert(q * m >= 0) by (nonlinear_arith)
            requires
                q >= 0,
                m > 0,
        ;
        assert((q * m) / m == q) by (nonlinear_arith)
            requires
                m > 0,
        ;
    } else {
        assert(q * m < 0) by (nonlinear_arith)
            requires
                q < 0,
                m > 0,
        ;
        assert((-(q * m)) / m == -q) by (nonlinear_arith)
            requires
                m > 0,
        ;
    }
}

/// A bound on the numerator over the divisor bounds the quotient.
pub proof fn lemma_trunc_div_bound(n: int, m: int, c: int)
    requires
        m > 0,
        c >= 0,
        abs(n) <= m * c,
    ensures
        abs(trunc_div(n, m)) <= c,
{
    let a = abs(n);
    assert(a / m <= c) by (nonlinear_arith)
        requires
            m > 0,
            0 <= a <= m * c,
    ;
    assert(a / m >= 0) by (nonlinear_arith)
        requires
            m > 0,
            0 <= a,
    ;
}

pub proof fn lemma_square_bound(a: int, b: int)
    requires
        abs(a) <= b,
    ensures
        0 <= a * a <= b * b,
{
    assert(0 <= a * a <= b * b) by (nonlinear_arith)
        requires
            abs(a) <= b,
    ;
}

pub proof fn lemma_mul_abs_bound(a: int, b: int, ba: int, bb: int)
    requires
        abs(a) <= ba,
        abs(b) <= bb,
    ensures
        abs(a * b) <= ba * bb,
{
    assert(abs(a * b) == abs(a) * abs(b)) by (nonlinear_arith);
    assert(abs(a) * abs(b) <= ba * bb) by (nonlinear_arith)
        requires
            0 <= abs(a) <= ba,
            0 <= abs(b) <= bb,
    ;
}

/// A value whose square is at most `n` is at most the square root of `n`.
pub proof fn lemma_abs_le_floor_sqrt(a: int, n: int, r: int)
    requires
        a * a <= n,
        is_floor_sqrt(n, r),
    ensures
        abs(a) <= r,
{
    if abs(a) > r {
        assert((r + 1) * (r + 1) <= a * a) by (nonlinear_arith)
            requires
                0 <= r,
                abs(a) >= r + 1,
        ;
    }
}

/// Squaring preserves strict order on non-negative values.
pub proof fn lemma_lt_of_square_lt(x: int, y: int)
    requires
        0 <= x,
        0 <= y,
        x * x < y * y,
    ensures
        x < y,
{
    if x >= y {
        assert(y * y <= x * x) by (nonlinear_arith)
            requires
                0 <= y <= x,
        ;
    }
}

pub proof fn lemma_floor_sqrt_exists(n: int)
    requires
        n >= 0,
    ensures
        is_floor_sqrt(n, floor_sqrt(n)),
    decreases n,
{
    if n == 0 {
        assert(is_floor_sqrt(0, 0));
    } else {
        lemma_floor_sqrt_exists(n - 1);
        let r = floor_sqrt(n - 1);
        if (r + 1) * (r + 1) <= n {
            assert(n < (r + 2) * (r + 2)) by (nonlinear_arith)
                requires
                    n - 1 < (r + 1) * (r + 1),
                    r >= 0,
            ;
            assert(is_floor_sqrt(n, r + 1));
        } else {
            assert(is_floor_sqrt(n, r));
        }
    }
}

pub proof fn lemma_floor_sqrt_unique(n: int, r: int)
    requires
        is_floor_sqrt(n, r),
    ensures
        floor_sqrt(n) == r,
{
    let s = floor_sqrt(n);
    assert(is_floor_sqrt(n, s));
    if s < r {
        assert((s + 1) * (s + 1) <= r * r) by (nonlinear_arith)
            requires
                0 <= s < r,
        ;
    } else if s > r {
        assert((r + 1) * (r + 1) <= s * s) by (nonlinear_arith)
            requires
                0 <= r < s,
        ;
    }
}

/// Quotient of `n` by a positive `m`, rounded toward zero.
pub fn div_toward_zero(n: i128, m: i128) -> (r: i128)
    requires
        m > 0,
        n > i128::MIN,
    ensures
        r == trunc_div(n as int, m as int),
{
    proof {
        lemma_trunc_div_shrinks(n as int, m as int);
    }
    if n >= 0 {
        n / m
    } else {
        let p: i128 = -n;
        -(p / m)
    }
}

/// `v * keep / PPM`, rounded toward zero.
pub fn scale_by_ppm(v: i128, keep: i64) -> (r: i128)
    requires
        0 <= keep <= PPM,
        abs(v as int) <= 0x100_0000_0000_0000_0000_0000_0000,
    ensures
        r == scale_ppm(v as int, keep as int),
        abs(r as int) <= abs(v as int),
{
    let k: i128 = keep as i128;
    proof {
        lemma_mul_abs_bound(v as int, k as int, abs(v as int), PPM as int);
        lemma_mul_abs_bound(abs(v as int), PPM as int, 0x100_0000_0000_0000_0000_0000_0000, PPM as int);
    }
    let p: i128 = v * k;
    proof {
        lemma_trunc_div_bound(p as int, PPM as int, abs(v as int));
    }
    div_toward_zero(p, PPM as i128)
}

/// `v` held within `[-COORD_LIMIT, COORD_LIMIT]`.
pub fn limit_speed_of(v: i128) -> (r: i64)
    ensures
        r == limit_speed(v as int),
{
    if v > COORD_LIMIT as i128 {
        COORD_LIMIT
    } else if v < -(COORD_LIMIT as i128) {
        -COORD_LIMIT
    } else {
        v as i64
    }
}

/// The square root of `n` rounded down, by bisection.
pub fn isqrt(n: u64) -> (r: u64)
    requires
        n < 0x1_0000_0000_0000_0000,
    ensures
        r == floor_sqrt(n as int),
        is_floor_sqrt(n as int, r as int),
{
    let mut lo: u64 = 0;
    let mut hi: u64 = 0x1_0000_0000;
    assert(n < hi * hi);
    while hi - lo > 1
        invariant
            lo < hi <= 0x1_0000_0000,
            lo * lo <= n,
            n < hi * hi,
        decreases hi - lo,
    {
        let mid: u64 = lo + (hi - lo) / 2;
        assert(mid * mid < 0x1_0000_0000_0000_0000) by (nonlinear_arith)
            requires
                0 <= mid < 0x1_0000_0000,
        ;
        if mid * mid <= n {
            lo = mid;
        } else {
            hi = mid;
        }
    }
    proof {
        assert(hi == lo + 1);
        lemma_floor_sqrt_unique(n as int, lo as int);
    }
    lo
}

} // verus!
