//! Exact integer helpers for the fixed-point geometry: a floor square root
//! and a division that truncates toward zero.

use vstd::prelude::*;

verus! {

/// `r` is the floor of the real square root of `n`.
pub open spec fn is_sqrt(n: int, r: int) -> bool {
    0 <= r && r * r <= n && n < (r + 1) * (r + 1)
}

/// The floor square root itself, as a spec-level function of `n` alone.
/// For `n >= 0` it satisfies `is_sqrt` (`lemma_sqrt_floor`), which pins it
/// uniquely (`lemma_sqrt_unique`).
pub open spec fn sqrt_floor(n: int) -> int {
    choose|r: int| is_sqrt(n, r)
}

/// Two floor square roots of the same number are equal.
pub proof fn lemma_sqrt_unique(n: int, r1: int, r2: int)
    requires
        is_sqrt(n, r1),
        is_sqrt(n, r2),
    ensures
        r1 == r2,
{
    assert(r1 <= r2 && r2 <= r1) by (nonlinear_arith)
        requires
            0 <= r1 && r1 * r1 <= n && n < (r1 + 1) * (r1 + 1),
            0 <= r2 && r2 * r2 <= n && n < (r2 + 1) * (r2 + 1),
    ;
}

/// Every nonnegative integer has a floor square root.
pub proof fn lemma_sqrt_exists(n: int) -> (r: int)
    requires
        0 <= n,
    ensures
        is_sqrt(n, r),
    decreases n,
{
    if n == 0 {
        0
    } else {
        let p = lemma_sqrt_exists(n - 1);
        if (p + 1) * (p + 1) <= n {
            assert(is_sqrt(n, p + 1)) by (nonlinear_arith)
                requires
                    0 <= p && p * p <= n - 1 && n - 1 < (p + 1) * (p + 1),
                    (p + 1) * (p + 1) <= n,
            ;
            p + 1
        } else {
            p
        }
    }
}

/// `sqrt_floor(n)` really is the floor square root of `n`.
pub proof fn lemma_sqrt_floor(n: int)
    requires
        0 <= n,
    ensures
        is_sqrt(n, sqrt_floor(n)),
{
    let r = lemma_sqrt_exists(n);
    assert(is_sqrt(n, r));
}

/// Division rounding toward zero (for a positive divisor), as the hardware
/// signed division does.
pub open spec fn div_tz(p: int, q: int) -> int
    recommends
        q > 0,
{
    if p >= 0 {
        p / q
    } else {
        -((-p) / q)
    }
}

/// Magnitude of an integer.
pub open spec fn iabs(x: int) -> int {
    if x < 0 {
        -x
    } else {
        x
    }
}

/// Floor square root of a `u128`, by binary search.
pub fn isqrt_u128(n: u128) -> (r: u128)
    requires
        (n as int) < 0x4000_0000_0000_0000_0000_0000_0000_0000,
    ensures
        is_sqrt(n as int, r as int),
{
    if n == 0 {
        return 0;
    }
    let mut lo: u128 = 0;
    let mut hi: u128 = 0x8000_0000_0000_0000;
    proof {
        assert(0x8000_0000_0000_0000int * 0x8000_0000_0000_0000int
            == 0x4000_0000_0000_0000_0000_0000_0000_0000int) by (nonlinear_arith);
    }
    while lo + 1 < hi
        invariant
            lo < hi <= 0x8000_0000_0000_0000u128,
            (lo as int) * (lo as int) <= n as int,
            (n as int) < (hi as int) * (hi as int),
        decreases hi - lo,
    {
        let mid: u128 = lo + (hi - lo) / 2;
        assert(lo < mid < hi);
        assert(mid * mid <= u128::MAX) by (nonlinear_arith)
            requires
                mid <= 0x8000_0000_0000_0000u128,
        ;
        if mid * mid <= n {
            lo = mid;
        } else {
            hi = mid;
        }
    }
    lo
}

/// Quotient of `p` by a positive `q`, rounded toward zero.
pub fn div_trunc_i128(p: i128, q: i128) -> (r: i128)
    requires
        q > 0,
        p > i128::MIN,
    ensures
        r as int == div_tz(p as int, q as int),
{
    if p >= 0 {
        let pu: u128 = p as u128;
        let qu: u128 = q as u128;
        let d: u128 = pu / qu;
        proof {
            assert(pu as int / qu as int <= pu as int) by (nonlinear_arith)
                requires
                    qu >= 1,
                    pu >= 0,
            ;
        }
        d as i128
    } else {
        let pu: u128 = (-p) as u128;
        let qu: u128 = q as u128;
        let d: u128 = pu / qu;
        proof {
            assert(pu as int / qu as int <= pu as int) by (nonlinear_arith)
                requires
                    qu >= 1,
                    pu >= 0,
            ;
        }
        -(d as i128)
    }
}

/// Truncating division by a positive divisor is monotone in the dividend.
pub proof fn lemma_div_tz_monotone(p: int, q: int, d: int)
    requires
        p <= q,
        d >= 1,
    ensures
        div_tz(p, d) <= div_tz(q, d),
{
    if p >= 0 {
        assert(p / d <= q / d) by (nonlinear_arith)
            requires
                0 <= p <= q,
                d >= 1,
        ;
    } else if q >= 0 {
        assert((-p) / d >= 0 && q / d >= 0) by (nonlinear_arith)
            requires
                p < 0 <= q,
                d >= 1,
        ;
    } else {
        assert((-q) / d <= (-p) / d) by (nonlinear_arith)
            requires
                p <= q < 0,
                d >= 1,
        ;
    }
}

/// The magnitude of a truncated quotient never exceeds the magnitude of the
/// dividend (positive divisor).
pub proof fn lemma_div_tz_bound(p: int, q: int)
    requires
        q >= 1,
    ensures
        iabs(div_tz(p, q)) <= iabs(p),
{
    if p >= 0 {
        assert(0 <= p / q <= p) by (nonlinear_arith)
            requires
                q >= 1,
                p >= 0,
        ;
    } else {
        assert(0 <= (-p) / q <= -p) by (nonlinear_arith)
            requires
                q >= 1,
                p < 0,
        ;
    }
}

} // verus!
