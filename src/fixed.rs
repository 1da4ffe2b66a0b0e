//! Fixed-point numbers and integer roots.
//!
//! A real number `x` is held as the integer `x * ONE`, rounded toward
//! negative infinity where it is not exact.
use vstd::prelude::*;

verus! {

/// The fixed-point scale: `ONE` stands for the real number 1.
pub const ONE: i64 = 1_000_000;

/// `x` limited to the closed range `[lo, hi]`.
pub open spec fn clamp_int(x: int, lo: int, hi: int) -> int {
    if x < lo {
        lo
    } else if x > hi {
        hi
    } else {
        x
    }
}

/// Division rounded toward negative infinity, for a positive divisor.
pub fn div_floor(n: i128, d: i128) -> (r: i128)
    requires
        0 < d < 0x4000_0000_0000_0000_0000_0000_0000_0000,
        n > -0x4000_0000_0000_0000_0000_0000_0000_0000,
    ensures
        r == n / d,
{
    if n >= 0 {
        n / d
    } else {
        let m: i128 = -n;
        let q: i128 = (m + (d - 1)) / d;
        proof {
            lemma_neg_div(n as int, d as int);
        }
        -q
    }
}

/// Remainder of the division rounded toward negative infinity: always in `[0, d)`.
pub fn mod_floor(n: i128, d: i128) -> (r: i128)
    requires
        0 < d < 0x1_0000_0000_0000_0000,
        -0x100_0000_0000_0000_0000_0000_0000_0000 < n < 0x100_0000_0000_0000_0000_0000_0000_0000,
    ensures
        r == n % d,
        0 <= r < d,
{
    let q = div_floor(n, d);
    proof {
        vstd::arithmetic::div_mod::lemma_fundamental_div_mod(n as int, d as int);
        lemma_div_shrinks(n as int, d as int);
    }
    n - q * d
}

/// Floor division by a positive divisor moves toward zero and never past it.
pub proof fn lemma_div_shrinks(n: int, d: int)
    requires
        d > 0,
    ensures
        n >= 0 ==> 0 <= n / d <= n,
        n < 0 ==> n <= n / d < 0,
{
    vstd::arithmetic::div_mod::lemma_fundamental_div_mod(n, d);
    let q = n / d;
    let r = n % d;
    assert(0 <= r < d);
    assert(n == d * q + r);
    if n >= 0 {
        if q < 0 {
            assert(d * q <= -d) by (nonlinear_arith)
                requires
                    q < 0,
                    d > 0,
            ;
        }
        if q > n {
            assert(d * q >= q) by (nonlinear_arith)
                requires
                    q > 0,
                    d > 0,
            ;
        }
    } else {
        if q >= 0 {
            assert(d * q >= 0) by (nonlinear_arith)
                requires
                    q >= 0,
                    d > 0,
            ;
        }
        if q < n {
            assert(d * q <= d * (n - 1)) by (nonlinear_arith)
                requires
                    q <= n - 1,
                    d > 0,
            ;
            assert(d * n <= n) by (nonlinear_arith)
                requires
                    n < 0,
                    d >= 1,
            ;
            assert(d * (n - 1) == d * n - d) by (nonlinear_arith);
        }
    }
}

/// Bounds on `n` carry over to the quotient `n / d`.
pub proof fn lemma_div_between(n: int, d: int, lo: int, hi: int)
    requires
        d > 0,
        d * lo <= n < d * (hi + 1),
    ensures
        lo <= n / d <= hi,
{
    vstd::arithmetic::div_mod::lemma_fundamental_div_mod(n, d);
    let q = n / d;
    let r = n % d;
    assert(0 <= r < d);
    if q > hi {
        assert(d * q >= d * (hi + 1)) by (nonlinear_arith)
            requires
                q >= hi + 1,
                d > 0,
        ;
    }
    if q < lo {
        assert(d * q <= d * (lo - 1)) by (nonlinear_arith)
            requires
                q <= lo - 1,
                d > 0,
        ;
        assert(d * (lo - 1) == d * lo - d) by (nonlinear_arith);
    }
}

proof fn lemma_neg_div(n: int, d: int)
    requires
        n < 0,
        d > 0,
    ensures
        -((-n + (d - 1)) / d) == n / d,
{
    let q = n / d;
    let r = n % d;
    vstd::arithmetic::div_mod::lemma_fundamental_div_mod(n, d);
    assert(n == d * q + r && 0 <= r < d);
    let m = -n + (d - 1);
    // m == d * (-q) + (d - 1 - r), with 0 <= d - 1 - r < d
    assert(m == d * (-q) + (d - 1 - r)) by (nonlinear_arith)
        requires
            n == d * q + r,
            m == -n + (d - 1),
    ;
    vstd::arithmetic::div_mod::lemma_div_basics(d);
    vstd::arithmetic::div_mod::lemma_fundamental_div_mod_converse(m, d, -q, d - 1 - r);
}

/// `r` is the integer square root of `n`.
pub open spec fn is_sqrt(n: int, r: int) -> bool {
    0 <= r && r * r <= n < (r + 1) * (r + 1)
}

/// `r` is the integer cube root of `n`.
pub open spec fn is_cbrt(n: int, r: int) -> bool {
    0 <= r && r * r * r <= n < (r + 1) * (r + 1) * (r + 1)
}

/// `r` is the integer fifth root of `n`.
pub open spec fn is_root5(n: int, r: int) -> bool {
    0 <= r && r * r * r * r * r <= n < (r + 1) * (r + 1) * (r + 1) * (r + 1) * (r + 1)
}

/// The integer square root of a non-negative `n`.
pub open spec fn sqrt_floor(n: int) -> int {
    choose|r: int| is_sqrt(n, r)
}

/// The integer cube root of a non-negative `n`.
pub open spec fn cbrt_floor(n: int) -> int {
    choose|r: int| is_cbrt(n, r)
}

/// The integer fifth root of a non-negative `n`.
pub open spec fn root5_floor(n: int) -> int {
    choose|r: int| is_root5(n, r)
}

proof fn lemma_mono2(a: int, b: int)
    requires
        0 <= a <= b,
    ensures
        a * a <= b * b,
{
    assert(a * a <= a * b) by (nonlinear_arith)
        requires
            0 <= a <= b,
    ;
    assert(a * b <= b * b) by (nonlinear_arith)
        requires
            0 <= a <= b,
    ;
}

proof fn lemma_mono3(a: int, b: int)
    requires
        0 <= a <= b,
    ensures
        a * a * a <= b * b * b,
{
    lemma_mono2(a, b);
    assert(a * a * a <= b * b * a) by (nonlinear_arith)
        requires
            0 <= a,
            a * a <= b * b,
    ;
    assert(b * b * a <= b * b * b) by (nonlinear_arith)
        requires
            0 <= a <= b,
    ;
}

proof fn lemma_mono5(a: int, b: int)
    requires
        0 <= a <= b,
    ensures
        a * a * a * a * a <= b * b * b * b * b,
{
    lemma_mono3(a, b);
    lemma_mono2(a, b);
    let a3 = a * a * a;
    let b3 = b * b * b;
    assert(a3 * a <= b3 * b) by (nonlinear_arith)
        requires
            0 <= a <= b,
            0 <= a3 <= b3,
    ;
    assert(a3 * a * a <= b3 * b * b) by (nonlinear_arith)
        requires
            0 <= a <= b,
            0 <= a3 * a <= b3 * b,
    ;
    assert(a * a * a * a * a == a3 * a * a);
    assert(b * b * b * b * b == b3 * b * b);
}

proof fn lemma_sqrt_unique(n: int, r: int)
    requires
        is_sqrt(n, r),
    ensures
        sqrt_floor(n) == r,
{
    let c = sqrt_floor(n);
    assert(is_sqrt(n, c));
    if c < r {
        lemma_mono2(c + 1, r);
    } else if r < c {
        lemma_mono2(r + 1, c);
    }
}

proof fn lemma_cbrt_unique(n: int, r: int)
    requires
        is_cbrt(n, r),
    ensures
        cbrt_floor(n) == r,
{
    let c = cbrt_floor(n);
    assert(is_cbrt(n, c));
    if c < r {
        lemma_mono3(c + 1, r);
    } else if r < c {
        lemma_mono3(r + 1, c);
    }
}

proof fn lemma_root5_unique(n: int, r: int)
    requires
        is_root5(n, r),
    ensures
        root5_floor(n) == r,
{
    let c = root5_floor(n);
    assert(is_root5(n, c));
    if c < r {
        lemma_mono5(c + 1, r);
    } else if r < c {
        lemma_mono5(r + 1, c);
    }
}

/// A square root of a number no larger than `m * m` is at most `m`.
pub proof fn lemma_sqrt_at_most(n: int, r: int, m: int)
    requires
        is_sqrt(n, r),
        0 <= m,
        n <= m * m,
    ensures
        r <= m,
{
    if r > m {
        lemma_mono2(m + 1, r);
        assert(m * m < (m + 1) * (m + 1)) by (nonlinear_arith)
            requires
                0 <= m,
        ;
    }
}

/// A cube root of a number no larger than `m * m * m` is at most `m`.
pub proof fn lemma_cbrt_at_most(n: int, r: int, m: int)
    requires
        is_cbrt(n, r),
        0 <= m,
        n <= m * m * m,
    ensures
        r <= m,
{
    if r > m {
        lemma_mono3(m + 1, r);
        assert(m * m * m < (m + 1) * (m + 1) * (m + 1)) by (nonlinear_arith)
            requires
                0 <= m,
        ;
    }
}

/// A fifth root of a number no larger than `m` to the fifth is at most `m`.
pub proof fn lemma_root5_at_most(n: int, r: int, m: int)
    requires
        is_root5(n, r),
        0 <= m,
        n <= m * m * m * m * m,
    ensures
        r <= m,
{
    if r > m {
        lemma_mono5(m + 1, r);
        lemma_mono5(m, m + 1);
        assert(m * m * m * m * m < (m + 1) * (m + 1) * (m + 1) * (m + 1) * (m + 1)) by (nonlinear_arith)
            requires
                0 <= m,
                m * m * m * m * m <= (m + 1) * (m + 1) * (m + 1) * (m + 1) * (m + 1),
        ;
    }
}

/// The integer square root, by bisection.
pub fn isqrt(n: u64) -> (r: u64)
    ensures
        r == sqrt_floor(n as int),
        is_sqrt(n as int, r as int),
{
    let mut lo: u64 = 0;
    let mut hi: u64 = 0x1_0000_0000;
    assert(hi * hi > n) by (nonlinear_arith)
        requires
            hi == 0x1_0000_0000u64,
            n <= u64::MAX,
    ;
    while hi - lo > 1
        invariant
            lo < hi <= 0x1_0000_0000,
            lo * lo <= n,
            n < hi * hi,
        decreases hi - lo,
    {
        let mid: u64 = lo + (hi - lo) / 2;
        assert(mid * mid < 0x1_0000_0000_0000_0000) by (nonlinear_arith)
            requires
                0 <= mid < 0x1_0000_0000,
        ;
        let sq: u128 = (mid as u128) * (mid as u128);
        if sq <= n as u128 {
            lo = mid;
        } else {
            hi = mid;
        }
    }
    proof {
        lemma_sqrt_unique(n as int, lo as int);
    }
    lo
}

/// The integer cube root, by bisection.
pub fn icbrt(n: u64) -> (r: u64)
    ensures
        r == cbrt_floor(n as int),
        is_cbrt(n as int, r as int),
{
    let mut lo: u64 = 0;
    let mut hi: u64 = 0x40_0000;
    assert(hi * hi * hi > n) by (nonlinear_arith)
        requires
            hi == 0x40_0000u64,
            n <= u64::MAX,
    ;
    while hi - lo > 1
        invariant
            lo < hi <= 0x40_0000,
            lo * lo * lo <= n,
            n < hi * hi * hi,
        decreases hi - lo,
    {
        let mid: u64 = lo + (hi - lo) / 2;
        let m: u128 = mid as u128;
        assert(m * m <= 0x40_0000 * 0x40_0000) by (nonlinear_arith)
            requires
                0 <= m <= 0x40_0000,
        ;
        let sq: u128 = m * m;
        assert(sq * m <= 0x40_0000 * 0x40_0000 * 0x40_0000) by (nonlinear_arith)
            requires
                0 <= m <= 0x40_0000,
                0 <= sq <= 0x40_0000 * 0x40_0000,
        ;
        let cube: u128 = sq * m;
        if cube <= n as u128 {
            lo = mid;
        } else {
            hi = mid;
        }
    }
    proof {
        lemma_cbrt_unique(n as int, lo as int);
    }
    lo
}

/// The integer fifth root, by bisection.
pub fn iroot5(n: u128) -> (r: u64)
    requires
        n < 0x10_0000_0000_0000_0000_0000_0000,
    ensures
        r == root5_floor(n as int),
        is_root5(n as int, r as int),
{
    let mut lo: u64 = 0;
    let mut hi: u64 = 0x10_0000;
    assert(hi * hi * hi * hi * hi == 0x10_0000_0000_0000_0000_0000_0000) by (nonlinear_arith)
        requires
            hi == 0x10_0000u64,
    ;
    while hi - lo > 1
        invariant
            lo < hi <= 0x10_0000,
            lo * lo * lo * lo * lo <= n,
            n < hi * hi * hi * hi * hi,
        decreases hi - lo,
    {
        let mid: u64 = lo + (hi - lo) / 2;
        assert(mid * mid * mid * mid * mid <= 0x10_0000_0000_0000_0000_0000_0000) by (nonlinear_arith)
            requires
                0 <= mid <= 0x10_0000,
        ;
        let m: u128 = mid as u128;
        assert(m * m <= 0x100_0000_0000) by (nonlinear_arith)
            requires
                0 <= m <= 0x10_0000,
        ;
        let p2: u128 = m * m;
        assert(p2 * m <= 0x1000_0000_0000_0000) by (nonlinear_arith)
            requires
                0 <= m <= 0x10_0000,
                0 <= p2 <= 0x100_0000_0000,
        ;
        let p3: u128 = p2 * m;
        assert(p3 * m <= 0x1_0000_0000_0000_0000_0000) by (nonlinear_arith)
            requires
                0 <= m <= 0x10_0000,
                0 <= p3 <= 0x1000_0000_0000_0000,
        ;
        let p4: u128 = p3 * m;
        assert(p4 * m <= 0x10_0000_0000_0000_0000_0000_0000) by (nonlinear_arith)
            requires
                0 <= m <= 0x10_0000,
                0 <= p4 <= 0x1_0000_0000_0000_0000_0000,
        ;
        let p5: u128 = p4 * m;
        if p5 <= n {
            lo = mid;
        } else {
            hi = mid;
        }
    }
    proof {
        lemma_root5_unique(n as int, lo as int);
    }
    lo
}

} // verus!
