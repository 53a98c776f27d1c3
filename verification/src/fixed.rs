//! Saturating fixed-point arithmetic.
//!
//! Every physical quantity of the simulation (a coordinate, a speed, a mass,
//! a radius, a friction coefficient) is an `i64` count of steps, `ONE` steps
//! to the table unit.  Stored quantities stay within `[-LIMIT, LIMIT]`: an
//! operation computes the exact integer result, rounds a quotient toward
//! zero, and then saturates at the limit.

use vstd::prelude::*;

verus! {

/// A fixed-point quantity: a count of steps of `1 / ONE` table units.
pub type Fixed = i64;

/// The number of steps in one table unit.
pub const ONE: i64 = 1_000_000_000;

/// The largest magnitude that a stored quantity takes.
pub const LIMIT: i64 = 1_000_000_000_000;

/// Whether `v` is a magnitude that a stored quantity may take.
pub open spec fn in_range(v: int) -> bool {
    -LIMIT <= v <= LIMIT
}

/// `v` saturated to `[-LIMIT, LIMIT]`.
pub open spec fn clamp(v: int) -> int {
    if v < -LIMIT {
        -(LIMIT as int)
    } else if v > LIMIT {
        LIMIT as int
    } else {
        v
    }
}

/// `v` saturated to `[1, LIMIT]`, the range of a mass or a radius.
pub open spec fn clamp_positive(v: int) -> int {
    if v < 1 {
        1
    } else if v > LIMIT {
        LIMIT as int
    } else {
        v
    }
}

/// The quotient of `n` by a positive `d`, rounded toward zero.
pub open spec fn trunc_div(n: int, d: int) -> int {
    if n >= 0 {
        n / d
    } else {
        -((-n) / d)
    }
}

/// `a * b / c`, rounded toward zero and saturated.
pub open spec fn scaled(a: int, b: int, c: int) -> int {
    clamp(trunc_div(a * b, c))
}

/// The weighted mean `(a * wa + b * wb) / d`, rounded toward zero and
/// saturated.
pub open spec fn blend(a: int, wa: int, b: int, wb: int, d: int) -> int {
    clamp(trunc_div(a * wa + b * wb, d))
}

/// Whether `r` is the integer square root of `n`: the one `r >= 0` with
/// `r * r <= n < (r + 1) * (r + 1)`.
pub open spec fn is_sqrt_of(r: int, n: int) -> bool {
    &&& 0 <= r
    &&& r * r <= n
    &&& n < (r + 1) * (r + 1)
}

/// The integer square root of `n`, rounded down; 0 for a negative `n`.
pub closed spec fn isqrt(n: int) -> int
    decreases n,
{
    if n <= 0 {
        0
    } else {
        let r = isqrt(n - 1);
        if (r + 1) * (r + 1) <= n {
            r + 1
        } else {
            r
        }
    }
}

/// `isqrt(n)` is the integer square root of every `n >= 0`.
pub proof fn lemma_isqrt_is_sqrt(n: int)
    requires
        n >= 0,
    ensures
        is_sqrt_of(isqrt(n), n),
    decreases n,
{
    if n > 0 {
        lemma_isqrt_is_sqrt(n - 1);
        let r = isqrt(n - 1);
        assert((r + 2) * (r + 2) > (r + 1) * (r + 1)) by (nonlinear_arith)
            requires
                r >= 0,
        ;
    }
}

/// The integer square root is unique.
pub proof fn lemma_isqrt_unique(r: int, n: int)
    requires
        is_sqrt_of(r, n),
    ensures
        r == isqrt(n),
{
    lemma_isqrt_is_sqrt(n);
    let s = isqrt(n);
    if r < s {
        assert((r + 1) * (r + 1) <= s * s) by (nonlinear_arith)
            requires
                0 <= r,
                r + 1 <= s,
        ;
    } else if s < r {
        assert((s + 1) * (s + 1) <= r * r) by (nonlinear_arith)
            requires
                0 <= s,
                s + 1 <= r,
        ;
    }
}

/// The product of two bounded magnitudes is bounded by the product of the
/// bounds.
pub proof fn lemma_product_bound(a: int, b: int, x: int, y: int)
    by (nonlinear_arith)
    requires
        -x <= a <= x,
        -y <= b <= y,
    ensures
        -(x * y) <= a * b <= x * y,
{
}

/// Rounding toward zero never moves a quotient away from zero, and a
/// divisor of at least the multiplier never lengthens the multiplicand.
pub proof fn lemma_scaled_shrinks(a: int, b: int, c: int)
    requires
        0 <= b <= c,
        c > 0,
        in_range(a),
    ensures
        a >= 0 ==> 0 <= scaled(a, b, c) <= a,
        a <= 0 ==> a <= scaled(a, b, c) <= 0,
{
    if a >= 0 {
        assert(0 <= a * b <= a * c) by (nonlinear_arith)
            requires
                0 <= a,
                0 <= b <= c,
        ;
        assert(0 <= (a * b) / c <= a) by (nonlinear_arith)
            requires
                0 <= a * b <= a * c,
                c > 0,
        ;
    } else {
        let m = -a;
        assert(-(a * b) == m * b) by (nonlinear_arith)
            requires
                m == -a,
        ;
        assert(0 <= m * b <= m * c) by (nonlinear_arith)
            requires
                0 <= m,
                0 <= b <= c,
        ;
        assert(0 <= (m * b) / c <= m) by (nonlinear_arith)
            requires
                0 <= m * b <= m * c,
                c > 0,
        ;
    }
}

/// The saturating sum of two quantities.
pub fn sat_add(a: Fixed, b: Fixed) -> (r: Fixed)
    ensures
        r == clamp(a + b),
{
    let s: i128 = a as i128 + b as i128;
    if s < -(LIMIT as i128) {
        -LIMIT
    } else if s > LIMIT as i128 {
        LIMIT
    } else {
        s as i64
    }
}

/// The saturating difference of two quantities.
pub fn sat_sub(a: Fixed, b: Fixed) -> (r: Fixed)
    ensures
        r == clamp(a - b),
{
    let s: i128 = a as i128 - b as i128;
    if s < -(LIMIT as i128) {
        -LIMIT
    } else if s > LIMIT as i128 {
        LIMIT
    } else {
        s as i64
    }
}

/// The magnitude of `a`.
pub open spec fn abs(a: int) -> int {
    if a < 0 {
        -a
    } else {
        a
    }
}

/// The magnitude of `a`, which always fits the wider unsigned type.
pub fn magnitude(a: i64) -> (r: u128)
    ensures
        r == abs(a as int),
        r <= 0x8000_0000_0000_0000,
{
    if a < 0 {
        (-(a as i128)) as u128
    } else {
        a as u128
    }
}

/// `a * b / c`, rounded toward zero and saturated.
pub fn mul_div(a: Fixed, b: Fixed, c: u64) -> (r: Fixed)
    requires
        c > 0,
    ensures
        r == scaled(a as int, b as int, c as int),
        in_range(r as int),
{
    let ma: u128 = magnitude(a);
    let mb: u128 = magnitude(b);
    let negative: bool = (a < 0) != (b < 0);
    proof {
        lemma_product_bound(
            ma as int,
            mb as int,
            0x8000_0000_0000_0000,
            0x8000_0000_0000_0000,
        );
        assert(a * b == if negative {
            -(ma * mb)
        } else {
            ma * mb
        }) by (nonlinear_arith)
            requires
                ma == abs(a as int),
                mb == abs(b as int),
                negative == ((a < 0) != (b < 0)),
        ;
    }
    let product: u128 = ma * mb;
    let q: u128 = product / (c as u128);
    proof {
        assert(0 <= (product as int) / (c as int)) by (nonlinear_arith)
            requires
                product >= 0,
                c > 0,
        ;
        if product == 0 {
            assert(q == 0);
        }
    }
    if q > LIMIT as u128 {
        if negative {
            -LIMIT
        } else {
            LIMIT
        }
    } else if negative {
        -(q as i64)
    } else {
        q as i64
    }
}

/// The weighted mean `(a * wa + b * wb) / d`, rounded toward zero and
/// saturated.
pub fn weighted_mean(a: Fixed, wa: Fixed, b: Fixed, wb: Fixed, d: i64) -> (r: Fixed)
    requires
        in_range(a as int),
        in_range(wa as int),
        in_range(b as int),
        in_range(wb as int),
        d > 0,
    ensures
        r == blend(a as int, wa as int, b as int, wb as int, d as int),
        in_range(r as int),
{
    proof {
        lemma_product_bound(a as int, wa as int, LIMIT as int, LIMIT as int);
        lemma_product_bound(b as int, wb as int, LIMIT as int, LIMIT as int);
    }
    let n: i128 = (a as i128) * (wa as i128) + (b as i128) * (wb as i128);
    let q: i128 = n / (d as i128);
    proof {
        if n >= 0 {
            assert(0 <= (n as int) / (d as int) <= n) by (nonlinear_arith)
                requires
                    n >= 0,
                    d > 0,
            ;
        } else {
            assert(0 <= (-(n as int)) / (d as int) <= -n) by (nonlinear_arith)
                requires
                    n < 0,
                    d > 0,
            ;
        }
        assert(q == trunc_div(n as int, d as int));
    }
    if q < -(LIMIT as i128) {
        -LIMIT
    } else if q > LIMIT as i128 {
        LIMIT
    } else {
        q as i64
    }
}

/// The integer square root of `n`, rounded down.
pub fn int_sqrt(n: u128) -> (r: u64)
    ensures
        r == isqrt(n as int),
        is_sqrt_of(r as int, n as int),
{
    let mut lo: u128 = 0;
    let mut hi: u128 = 0x1_0000_0000_0000_0000;
    while hi - lo > 1
        invariant
            lo < hi <= 0x1_0000_0000_0000_0000,
            lo * lo <= n,
            n < hi * hi,
        decreases hi - lo,
    {
        let mid: u128 = lo + (hi - lo) / 2;
        assert(mid * mid <= 0xffff_ffff_ffff_ffff * 0xffff_ffff_ffff_ffff) by (nonlinear_arith)
            requires
                0 <= mid <= 0xffff_ffff_ffff_ffff,
        ;
        if mid * mid <= n {
            lo = mid;
        } else {
            hi = mid;
        }
    }
    proof {
        lemma_isqrt_unique(lo as int, n as int);
    }
    lo as u64
}

} // verus!
