//! Fixed-point arithmetic kernel: truncating division (the rounding rule
//! of every fixed-point operation in the simulation) and an exact integer
//! square root, with the bounds lemmas the physics proofs rest on.

use vstd::prelude::*;

verus! {

/// Quotient of `a` by `b`, rounded toward zero, for positive `b`.
/// This is the rounding every fixed-point division of the simulation
/// uses; it matches what `/` does on Rust's signed integers.
pub open spec fn div_trunc(a: int, b: int) -> int {
    if a >= 0 {
        a / b
    } else {
        -((-a) / b)
    }
}

/// Magnitude of an integer.
pub open spec fn abs_i(a: int) -> int {
    if a >= 0 {
        a
    } else {
        -a
    }
}

/// Truncating division never grows the magnitude of its dividend, and
/// shrinks it through the divisor.
pub proof fn lemma_div_trunc_mag(a: int, b: int)
    requires
        b > 0,
    ensures
        abs_i(div_trunc(a, b)) <= abs_i(a) / b,
        abs_i(div_trunc(a, b)) <= abs_i(a),
        a >= 0 ==> div_trunc(a, b) >= 0,
        a <= 0 ==> div_trunc(a, b) <= 0,
{
    if a >= 0 {
        assert(a / b >= 0) by (nonlinear_arith)
            requires
                a >= 0,
                b > 0,
        ;
        assert(a / b <= a) by (nonlinear_arith)
            requires
                a >= 0,
                b > 0,
        ;
    } else {
        assert((-a) / b >= 0) by (nonlinear_arith)
            requires
                -a >= 0,
                b > 0,
        ;
        assert((-a) / b <= -a) by (nonlinear_arith)
            requires
                -a >= 0,
                b > 0,
        ;
    }
}

/// If `|a| <= c * b` then the truncated quotient of `a` by `b` has
/// magnitude at most `c`.
pub proof fn lemma_div_trunc_bound(a: int, b: int, c: int)
    requires
        b > 0,
        c >= 0,
        abs_i(a) <= c * b,
    ensures
        abs_i(div_trunc(a, b)) <= c,
{
    if a >= 0 {
        assert(a / b <= c) by (nonlinear_arith)
            requires
                b > 0,
                c >= 0,
                a >= 0,
                a <= c * b,
        ;
        assert(a / b >= 0) by (nonlinear_arith)
            requires
                a >= 0,
                b > 0,
        ;
    } else {
        assert((-a) / b <= c) by (nonlinear_arith)
            requires
                b > 0,
                c >= 0,
                -a >= 0,
                -a <= c * b,
        ;
        assert((-a) / b >= 0) by (nonlinear_arith)
            requires
                -a >= 0,
                b > 0,
        ;
    }
}

/// Dividing an exact multiple is exact, whatever the signs.
pub proof fn lemma_div_trunc_exact(v: int, c: int)
    requires
        c > 0,
    ensures
        div_trunc(v * c, c) == v,
{
    if v >= 0 {
        assert((v * c) / c == v) by (nonlinear_arith)
            requires
                c > 0,
                v >= 0,
        ;
    } else {
        assert(-(v * c) == (-v) * c) by (nonlinear_arith);
        assert(((-v) * c) / c == -v) by (nonlinear_arith)
            requires
                c > 0,
                -v >= 0,
        ;
        assert(v * c < 0) by (nonlinear_arith)
            requires
                v < 0,
                c > 0,
        ;
    }
}

/// The integer square root: the largest `r` with `r * r <= n`.
pub open spec fn spec_isqrt(n: int) -> int
    decreases n,
{
    if n <= 0 {
        0
    } else {
        let r = spec_isqrt(n - 1);
        if (r + 1) * (r + 1) <= n {
            r + 1
        } else {
            r
        }
    }
}

/// The integer square root is the unique non-negative `r` with
/// `r * r <= n < (r + 1) * (r + 1)`.
pub proof fn lemma_isqrt_bounds(n: int)
    requires
        n >= 0,
    ensures
        spec_isqrt(n) >= 0,
        spec_isqrt(n) * spec_isqrt(n) <= n,
        n < (spec_isqrt(n) + 1) * (spec_isqrt(n) + 1),
    decreases n,
{
    if n > 0 {
        lemma_isqrt_bounds(n - 1);
        let r = spec_isqrt(n - 1);
        if (r + 1) * (r + 1) <= n {
            assert(n < (r + 2) * (r + 2)) by (nonlinear_arith)
                requires
                    r >= 0,
                    n - 1 < (r + 1) * (r + 1),
            ;
        }
    }
}

/// Any `r` within the square-root bounds is the square root.
pub proof fn lemma_isqrt_unique(n: int, r: int)
    requires
        n >= 0,
        r >= 0,
        r * r <= n,
        n < (r + 1) * (r + 1),
    ensures
        r == spec_isqrt(n),
{
    lemma_isqrt_bounds(n);
    let s = spec_isqrt(n);
    if r < s {
        assert((r + 1) * (r + 1) <= s * s) by (nonlinear_arith)
            requires
                0 <= r,
                r + 1 <= s,
        ;
    }
    if r > s {
        assert((s + 1) * (s + 1) <= r * r) by (nonlinear_arith)
            requires
                0 <= s,
                s + 1 <= r,
        ;
    }
}

/// Binary-search integer square root on `u128`.
pub fn isqrt_u128(n: u128) -> (r: u128)
    ensures
        r == spec_isqrt(n as int),
        r * r <= n,
{
    let mut lo: u128 = 0;
    let mut hi: u128 = 18446744073709551616;
    proof {
        assert((hi as int) * (hi as int) > n as int) by (nonlinear_arith)
            requires
                hi == 18446744073709551616,
                n <= u128::MAX,
        ;
    }
    while lo + 1 < hi
        invariant
            lo < hi,
            hi <= 18446744073709551616,
            (lo as int) * (lo as int) <= n as int,
            (hi as int) * (hi as int) > n as int,
        decreases hi - lo,
    {
        let mid = lo + (hi - lo) / 2;
        proof {
            assert((mid as int) * (mid as int) <= (u128::MAX) as int) by (nonlinear_arith)
                requires
                    mid < 18446744073709551616,
            ;
        }
        if mid * mid <= n {
            lo = mid;
        } else {
            hi = mid;
        }
    }
    proof {
        lemma_isqrt_unique(n as int, lo as int);
    }
    lo
}

/// Truncating division on `i64`, for a positive divisor.
/// Total: the quotient magnitude never exceeds the dividend's.
pub fn div_trunc_i64(a: i64, b: i64) -> (r: i64)
    requires
        b > 0,
    ensures
        r == div_trunc(a as int, b as int),
{
    proof {
        lemma_div_trunc_mag(a as int, b as int);
    }
    let q: Option<i64> = a.checked_div(b);
    q.unwrap()
}

/// Truncating division on `i128`, for a positive divisor.
pub fn div_trunc_i128(a: i128, b: i128) -> (r: i128)
    requires
        b > 0,
    ensures
        r == div_trunc(a as int, b as int),
{
    proof {
        lemma_div_trunc_mag(a as int, b as int);
    }
    let q: Option<i128> = a.checked_div(b);
    q.unwrap()
}

} // verus!
