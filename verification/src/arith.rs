//! Integer arithmetic shared by the geometry: quotients rounded toward
//! negative infinity and integer square roots.

use vstd::prelude::*;
use vstd::arithmetic::div_mod::lemma_fundamental_div_mod;
use vstd::arithmetic::div_mod::lemma_fundamental_div_mod_converse;

verus! {

/// Largest magnitude the divisions of this module accept.
pub const WIDE_MAX: i128 = 0x3fff_ffff_ffff_ffff_ffff_ffff_ffff_ffff;

/// The quotient `a / b` rounded toward negative infinity.
pub open spec fn floor_div(a: int, b: int) -> int
    recommends
        b != 0,
{
    if b > 0 {
        a / b
    } else {
        (-a) / (-b)
    }
}

/// `q` is the rounded-down quotient of `a` by a positive `d` exactly when
/// `a` lies in the `q`-th window of width `d`.
pub proof fn lemma_floor_div_window(a: int, d: int, q: int)
    requires
        d > 0,
        q * d <= a < q * d + d,
    ensures
        floor_div(a, d) == q,
{
    lemma_fundamental_div_mod_converse(a, d, q, a - q * d);
}

/// The rounded-down quotient brackets the dividend.
pub proof fn lemma_floor_div_bounds(a: int, d: int)
    requires
        d > 0,
    ensures
        floor_div(a, d) * d <= a < floor_div(a, d) * d + d,
{
    lemma_fundamental_div_mod(a, d);
    assert(0 <= a % d < d);
    assert(d * (a / d) == (a / d) * d) by (nonlinear_arith);
}

/// Rounding down is monotone in the dividend.
pub proof fn lemma_floor_div_monotone(a: int, b: int, d: int)
    requires
        d > 0,
        a <= b,
    ensures
        floor_div(a, d) <= floor_div(b, d),
{
    lemma_floor_div_bounds(a, d);
    lemma_floor_div_bounds(b, d);
    let qa = floor_div(a, d);
    let qb = floor_div(b, d);
    assert(qa <= qb) by (nonlinear_arith)
        requires
            d > 0,
            qa * d <= a,
            a <= b,
            b < qb * d + d,
    ;
}

/// An exact multiple divides without rounding.
pub proof fn lemma_floor_div_exact(q: int, d: int)
    requires
        d != 0,
    ensures
        floor_div(q * d, d) == q,
{
    if d > 0 {
        lemma_floor_div_window(q * d, d, q);
    } else {
        assert(-(q * d) == q * (-d)) by (nonlinear_arith);
        lemma_floor_div_window(q * (-d), -d, q);
    }
}

/// A quotient whose dividend lies between two multiples of the divisor lies
/// between the two factors.
pub proof fn lemma_floor_div_between(a: int, d: int, lo: int, hi: int)
    requires
        d > 0,
        lo * d <= a <= hi * d,
    ensures
        lo <= floor_div(a, d) <= hi,
{
    lemma_floor_div_exact(lo, d);
    lemma_floor_div_exact(hi, d);
    lemma_floor_div_monotone(lo * d, a, d);
    lemma_floor_div_monotone(a, hi * d, d);
}

/// Dividing by a positive number does not take a number out of bounds that
/// are symmetric about zero.
pub proof fn lemma_floor_div_shrinks(a: int, d: int, bound: int)
    requires
        d > 0,
        -bound <= a <= bound,
    ensures
        -bound <= floor_div(a, d) <= bound,
{
    assert(bound * d >= bound && (-bound) * d <= -bound) by (nonlinear_arith)
        requires
            d >= 1,
            bound >= 0,
    ;
    lemma_floor_div_between(a, d, -bound, bound);
}

/// A factor common to the dividend and the divisor does not change the
/// rounded quotient.
pub proof fn lemma_floor_div_cancel(k: int, x: int, d: int)
    requires
        k > 0,
        d > 0,
    ensures
        k * d > 0,
        floor_div(k * x, k * d) == floor_div(x, d),
{
    let q = floor_div(x, d);
    lemma_floor_div_bounds(x, d);
    assert(k * d > 0) by (nonlinear_arith)
        requires
            k > 0,
            d > 0,
    ;
    assert(q * (k * d) <= k * x < q * (k * d) + k * d) by (nonlinear_arith)
        requires
            k > 0,
            q * d <= x < q * d + d,
    ;
    lemma_floor_div_window(k * x, k * d, q);
}

/// Divides rounding toward negative infinity.
pub fn div_floor(a: i128, b: i128) -> (q: i128)
    requires
        b != 0,
        -WIDE_MAX <= a <= WIDE_MAX,
        -WIDE_MAX <= b <= WIDE_MAX,
    ensures
        q == floor_div(a as int, b as int),
        -WIDE_MAX <= q <= WIDE_MAX,
{
    let n: i128 = if b < 0 { -a } else { a };
    let d: i128 = if b < 0 { -b } else { b };
    proof {
        lemma_floor_div_bounds(n as int, d as int);
        let q = floor_div(n as int, d as int);
        assert(-WIDE_MAX <= q <= WIDE_MAX) by (nonlinear_arith)
            requires
                d >= 1,
                q * d <= n,
                n < q * d + d,
                -WIDE_MAX <= n <= WIDE_MAX,
        ;
    }
    if n >= 0 {
        n / d
    } else {
        let below: i128 = (-n - 1) / d;
        proof {
            let m = (-n - 1) as int;
            lemma_fundamental_div_mod(m, d as int);
            let r = m % (d as int);
            assert(0 <= r < d);
            assert(n == (-below - 1) * d + (d - r - 1)) by (nonlinear_arith)
                requires
                    m == d * below + r,
                    m == -n - 1,
            ;
            lemma_floor_div_window(n as int, d as int, -below - 1);
        }
        -below - 1
    }
}

/// A product is bounded by the product of the bounds of its factors.
pub proof fn lemma_product_bound(a: int, b: int, x: int, y: int)
    by (nonlinear_arith)
    requires
        -x <= a <= x,
        -y <= b <= y,
    ensures
        -(x * y) <= a * b <= x * y,
{
}

/// A product is bounded by the larger of the squares of its factors.
pub proof fn lemma_product_below_squares(a: int, b: int, m: int)
    by (nonlinear_arith)
    requires
        a * a <= m,
        b * b <= m,
    ensures
        -m <= a * b <= m,
{
    assert((a - b) * (a - b) >= 0);
    assert((a + b) * (a + b) >= 0);
}

/// A number whose square stays below `(r + 1)^2` has magnitude at most `r`.
pub proof fn lemma_below_root(a: int, n: int, r: int)
    requires
        is_sqrt(n, r),
        a * a <= n,
    ensures
        -r <= a <= r,
{
    if a > r {
        lemma_square_monotone(r, a);
    }
    if -a > r {
        lemma_square_monotone(r, -a);
        assert((-a) * (-a) == a * a) by (nonlinear_arith);
    }
}

/// `r` is the integer square root of `n`.
pub open spec fn is_sqrt(n: int, r: int) -> bool {
    0 <= r && r * r <= n < (r + 1) * (r + 1)
}

/// The integer square root: the largest `r` with `r * r <= n`.
pub open spec fn sqrt_floor(n: int) -> int
    recommends
        n >= 0,
{
    choose|r: int| is_sqrt(n, r)
}

/// Squaring is strictly monotone on the non-negative integers.
pub proof fn lemma_square_monotone(a: int, b: int)
    requires
        0 <= a < b,
    ensures
        (a + 1) * (a + 1) <= b * b,
        a * a < b * b,
{
    assert((a + 1) * (a + 1) <= b * b) by (nonlinear_arith)
        requires
            0 <= a,
            a + 1 <= b,
    ;
    assert(a * a < (a + 1) * (a + 1)) by (nonlinear_arith)
        requires
            0 <= a,
    ;
}

/// A number has at most one integer square root, and `sqrt_floor` names it.
pub proof fn lemma_sqrt_unique(n: int, r: int)
    requires
        is_sqrt(n, r),
    ensures
        sqrt_floor(n) == r,
{
    let s = sqrt_floor(n);
    assert(is_sqrt(n, s));
    if s < r {
        lemma_square_monotone(s, r);
    }
    if r < s {
        lemma_square_monotone(r, s);
    }
}

/// Every number that is not negative has an integer square root, and
/// `sqrt_floor` names it.
pub proof fn lemma_sqrt_floor_is_sqrt(n: int)
    requires
        n >= 0,
    ensures
        is_sqrt(n, sqrt_floor(n)),
    decreases n,
{
    if n == 0 {
        assert(is_sqrt(0, 0));
    } else {
        lemma_sqrt_floor_is_sqrt(n - 1);
        let r = sqrt_floor(n - 1);
        assert((r + 1) * (r + 1) < (r + 2) * (r + 2)) by (nonlinear_arith)
            requires
                r >= 0,
        ;
        if (r + 1) * (r + 1) <= n {
            assert(is_sqrt(n, r + 1));
        } else {
            assert(is_sqrt(n, r));
        }
    }
}

/// The square root of a square is the magnitude of its root.
pub proof fn lemma_sqrt_of_square(a: int)
    ensures
        sqrt_floor(a * a) == (if a >= 0 {
            a
        } else {
            -a
        }),
{
    let m = if a >= 0 { a } else { -a };
    assert(m * m == a * a) by (nonlinear_arith)
        requires
            m == a || m == -a,
    ;
    assert(m * m < (m + 1) * (m + 1)) by (nonlinear_arith)
        requires
            m >= 0,
    ;
    lemma_sqrt_unique(a * a, m);
}

/// Computes the integer square root by bisection.
pub fn isqrt(n: i128) -> (r: i128)
    requires
        0 <= n <= WIDE_MAX,
    ensures
        r == sqrt_floor(n as int),
        is_sqrt(n as int, r as int),
        0 <= r < 0x8000_0000_0000_0000,
{
    let mut lo: i128 = 0;
    let mut hi: i128 = 0x8000_0000_0000_0000;
    assert(hi * hi > n) by (nonlinear_arith)
        requires
            hi == 0x8000_0000_0000_0000,
            n <= WIDE_MAX,
    ;
    while hi - lo > 1
        invariant
            0 <= lo < hi <= 0x8000_0000_0000_0000,
            lo * lo <= n < hi * hi,
            0 <= n <= WIDE_MAX,
        decreases hi - lo,
    {
        let mid: i128 = lo + (hi - lo) / 2;
        assert(0 <= mid * mid < 0x4000_0000_0000_0000_0000_0000_0000_0000) by (nonlinear_arith)
            requires
                0 <= mid < 0x8000_0000_0000_0000,
        ;
        if mid * mid <= n {
            lo = mid;
        } else {
            hi = mid;
        }
    }
    proof {
        assert(hi == lo + 1);
        lemma_sqrt_unique(n as int, lo as int);
    }
    lo
}

} // verus!
