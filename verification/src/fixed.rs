//! Fixed-point scalar arithmetic.
//!
//! World coordinates, velocities and accelerations are `i64` values in
//! milliunits: `SCALE` of them make one world unit.  Division in the
//! steering formulas is Rust's truncating division; `tdiv` is its exact
//! specification, written over Euclidean `/` on `int`.

use vstd::prelude::*;

verus! {

/// Milliunits per world unit.
pub const SCALE: i64 = 1000;

/// Truncating integer division (the semantics of exec `/` on `i64`),
/// for a positive divisor.
pub open spec fn tdiv(a: int, b: int) -> int {
    if a >= 0 {
        a / b
    } else {
        -((-a) / b)
    }
}

/// Truncating division by a positive divisor, as executable code.
pub fn div_trunc(a: i64, b: i64) -> (r: i64)
    requires
        b > 0,
        a > i64::MIN,
    ensures
        r == tdiv(a as int, b as int),
{
    a / b
}

/// Truncating division by a positive divisor does not grow magnitude.
pub proof fn lemma_tdiv_magnitude(a: int, b: int)
    requires
        b > 0,
    ensures
        a >= 0 ==> 0 <= tdiv(a, b) <= a,
        a < 0 ==> a <= tdiv(a, b) <= 0,
{
    if a >= 0 {
        assert(0 <= a / b <= a) by (nonlinear_arith)
            requires a >= 0, b > 0;
    } else {
        assert(0 <= (-a) / b <= -a) by (nonlinear_arith)
            requires -a >= 0, b > 0;
    }
}

/// `r` is the floor of the square root of `n`.
pub open spec fn is_sqrt_floor(n: int, r: int) -> bool {
    0 <= r && r * r <= n < (r + 1) * (r + 1)
}

/// The floor of the square root of `n`, as a deterministic spec value.
pub open spec fn sqrt_floor(n: int) -> int {
    choose|r: int| is_sqrt_floor(n, r)
}

/// Every nonnegative integer has a square-root floor.
pub proof fn lemma_sqrt_floor_exists(n: int)
    requires
        n >= 0,
    ensures
        is_sqrt_floor(n, sqrt_floor(n)),
    decreases n,
{
    if n == 0 {
        assert(is_sqrt_floor(0, 0));
    } else {
        lemma_sqrt_floor_exists(n - 1);
        let r = choose|r: int| #[trigger] is_sqrt_floor(n - 1, r);
        if n < (r + 1) * (r + 1) {
            assert(is_sqrt_floor(n, r));
        } else {
            assert(n == (r + 1) * (r + 1));
            assert((r + 1) * (r + 1) < (r + 2) * (r + 2)) by (nonlinear_arith)
                requires r >= 0;
            assert(is_sqrt_floor(n, r + 1));
        }
    }
}

/// The square-root floor is unique.
pub proof fn lemma_sqrt_floor_unique(n: int, r1: int, r2: int)
    requires
        is_sqrt_floor(n, r1),
        is_sqrt_floor(n, r2),
    ensures
        r1 == r2,
{
    if r1 < r2 {
        assert((r1 + 1) * (r1 + 1) <= r2 * r2) by (nonlinear_arith)
            requires 0 <= r1, 0 <= r2, r1 + 1 <= r2;
    }
    if r2 < r1 {
        assert((r2 + 1) * (r2 + 1) <= r1 * r1) by (nonlinear_arith)
            requires 0 <= r1, 0 <= r2, r2 + 1 <= r1;
    }
}

/// The square-root floor is monotone.
pub proof fn lemma_sqrt_floor_monotone(a: int, b: int)
    requires
        0 <= a <= b,
    ensures
        sqrt_floor(a) <= sqrt_floor(b),
{
    lemma_sqrt_floor_exists(a);
    lemma_sqrt_floor_exists(b);
    let ra = sqrt_floor(a);
    let rb = sqrt_floor(b);
    if ra > rb {
        assert((rb + 1) * (rb + 1) <= ra * ra) by (nonlinear_arith)
            requires 0 <= rb, rb + 1 <= ra;
    }
}

/// The square-root floor of a perfect square is its root.
pub proof fn lemma_sqrt_floor_square(x: int)
    requires
        x >= 0,
    ensures
        sqrt_floor(x * x) == x,
{
    assert(x * x < (x + 1) * (x + 1)) by (nonlinear_arith)
        requires x >= 0;
    assert(is_sqrt_floor(x * x, x));
    lemma_sqrt_floor_exists(x * x);
    lemma_sqrt_floor_unique(x * x, x, sqrt_floor(x * x));
}

/// Truncating division of a product-bounded value is bounded by the
/// multiplier: `|a| <= m * d` gives `|a / d| <= m`.
pub proof fn lemma_tdiv_bounded(a: int, d: int, m: int)
    requires
        d > 0,
        m >= 0,
        -(m * d) <= a <= m * d,
    ensures
        -m <= tdiv(a, d) <= m,
{
    if a >= 0 {
        vstd::arithmetic::div_mod::lemma_div_is_ordered(a, m * d, d);
        vstd::arithmetic::div_mod::lemma_div_multiples_vanish(m, d);
        assert(m * d == d * m) by (nonlinear_arith);
        assert(a / d >= 0) by (nonlinear_arith)
            requires a >= 0, d > 0;
    } else {
        vstd::arithmetic::div_mod::lemma_div_is_ordered(-a, m * d, d);
        vstd::arithmetic::div_mod::lemma_div_multiples_vanish(m, d);
        assert(m * d == d * m) by (nonlinear_arith);
        assert((-a) / d >= 0) by (nonlinear_arith)
            requires -a >= 0, d > 0;
    }
}

/// A value below `b * c` divides by `c` to below `b`.
pub proof fn lemma_div_below(a: int, c: int, b: int)
    requires
        0 <= a,
        a < b * c,
        c > 0,
        b > 0,
    ensures
        0 <= a / c < b,
{
    vstd::arithmetic::div_mod::lemma_fundamental_div_mod(a, c);
    vstd::arithmetic::div_mod::lemma_mod_bound(a, c);
    assert(a / c >= 0) by (nonlinear_arith)
        requires a >= 0, c > 0;
    if a / c >= b {
        assert(c * (a / c) >= c * b) by (nonlinear_arith)
            requires c > 0, a / c >= b;
        assert(b * c == c * b) by (nonlinear_arith);
    }
}

/// Integer square root by binary search.
pub fn isqrt(n: u64) -> (r: u64)
    ensures
        r == sqrt_floor(n as int),
        is_sqrt_floor(n as int, r as int),
{
    let mut lo: u64 = 0;
    let mut hi: u64 = if n < 4294967295 {
        n
    } else {
        4294967295
    };
    proof {
        assert((n + 1) * (n + 1) > n) by (nonlinear_arith)
            requires n >= 0;
        assert(hi == 4294967295 ==> (hi + 1) * (hi + 1) > n) by (nonlinear_arith)
            requires n <= u64::MAX;
    }
    while lo < hi
        invariant
            lo <= hi <= 4294967295,
            lo * lo <= n,
            (hi + 1) * (hi + 1) > n,
        decreases hi - lo,
    {
        let mid = lo + (hi - lo + 1) / 2;
        proof {
            assert(mid * mid <= 4294967295u64 * 4294967295u64) by (nonlinear_arith)
                requires 0 <= mid <= 4294967295u64;
        }
        if mid * mid <= n {
            lo = mid;
        } else {
            hi = mid - 1;
        }
    }
    proof {
        assert(is_sqrt_floor(n as int, lo as int));
        lemma_sqrt_floor_exists(n as int);
        lemma_sqrt_floor_unique(n as int, lo as int, sqrt_floor(n as int));
    }
    lo
}

/// Clamp `v` into `[lo, hi]`.
pub open spec fn spec_clamp(v: int, lo: int, hi: int) -> int {
    if v < lo {
        lo
    } else if v > hi {
        hi
    } else {
        v
    }
}

/// Clamp `v` into `[lo, hi]`.
pub fn clamp_i64(v: i64, lo: i64, hi: i64) -> (r: i64)
    requires
        lo <= hi,
    ensures
        r == spec_clamp(v as int, lo as int, hi as int),
        lo <= r <= hi,
{
    if v < lo {
        lo
    } else if v > hi {
        hi
    } else {
        v
    }
}

} // verus!
