//! Exact integer helpers: floor square root, floor cube root, clamping
//! and truncating division, with their spec-level counterparts.

use vstd::prelude::*;

verus! {

/// Absolute value over mathematical integers.
pub open spec fn iabs(x: int) -> int {
    if x >= 0 {
        x
    } else {
        -x
    }
}

/// Square over mathematical integers.
pub open spec fn sq(x: int) -> int {
    x * x
}

/// Cube over mathematical integers.
pub open spec fn cube(x: int) -> int {
    x * x * x
}

/// The floor of the square root of a nonnegative integer: the unique
/// `r >= 0` with `r^2 <= x < (r+1)^2`.
pub open spec fn sqrt_floor(x: int) -> int {
    choose|r: int| 0 <= r && #[trigger] sq(r) <= x < sq(r + 1)
}

/// The floor of the cube root of a nonnegative integer: the unique
/// `r >= 0` with `r^3 <= x < (r+1)^3`.
pub open spec fn cbrt_floor(x: int) -> int {
    choose|r: int| 0 <= r && #[trigger] cube(r) <= x < cube(r + 1)
}

/// Squaring is strictly monotonic on nonnegative integers, so the floor
/// square root is unique.
pub proof fn lemma_sqrt_floor_unique(x: int, r: int)
    requires
        0 <= r,
        sq(r) <= x < sq(r + 1),
    ensures
        sqrt_floor(x) == r,
{
    assert(exists|c: int| 0 <= c && #[trigger] sq(c) <= x < sq(c + 1)) by {
        assert(0 <= r && sq(r) <= x < sq(r + 1));
    }
    let c = choose|c: int| 0 <= c && #[trigger] sq(c) <= x < sq(c + 1);
    assert(0 <= c && sq(c) <= x < sq(c + 1));
    if c < r {
        assert(sq(c + 1) <= sq(r)) by (nonlinear_arith)
            requires 0 <= c, c < r,
        ;
    }
    if r < c {
        assert(sq(r + 1) <= sq(c)) by (nonlinear_arith)
            requires 0 <= r, r < c,
        ;
    }
}

/// Cubing is strictly monotonic on nonnegative integers, so the floor
/// cube root is unique.
pub proof fn lemma_cbrt_floor_unique(x: int, r: int)
    requires
        0 <= r,
        cube(r) <= x < cube(r + 1),
    ensures
        cbrt_floor(x) == r,
{
    assert(exists|c: int| 0 <= c && #[trigger] cube(c) <= x < cube(c + 1)) by {
        assert(0 <= r && cube(r) <= x < cube(r + 1));
    }
    let c = choose|c: int| 0 <= c && #[trigger] cube(c) <= x < cube(c + 1);
    assert(0 <= c && cube(c) <= x < cube(c + 1));
    if c < r {
        assert(cube(c + 1) <= cube(r)) by (nonlinear_arith)
            requires 0 <= c, c < r,
        ;
    }
    if r < c {
        assert(cube(r + 1) <= cube(c)) by (nonlinear_arith)
            requires 0 <= r, r < c,
        ;
    }
}

/// Floor square root by binary search, exact for every admitted input.
pub fn isqrt(x: u128) -> (r: u64)
    requires
        x < 1208925819614629174706176,  // 2^80
    ensures
        r == sqrt_floor(x as int),
        sq(r as int) <= x < sq(r as int + 1),
{
    let mut lo: u128 = 0;
    let mut hi: u128 = 1099511627776;  // 2^40
    proof {
        assert(sq(1099511627776) == 1208925819614629174706176);
    }
    while lo + 1 < hi
        invariant
            lo < hi,
            hi <= 1099511627776,
            sq(lo as int) <= x,
            x < sq(hi as int),
        decreases hi - lo,
    {
        let mid: u128 = lo + (hi - lo) / 2;
        proof {
            assert(mid * mid <= 1099511627776 * 1099511627776) by (nonlinear_arith)
                requires mid <= 1099511627776,
            ;
        }
        if mid * mid <= x {
            lo = mid;
        } else {
            hi = mid;
        }
    }
    proof {
        lemma_sqrt_floor_unique(x as int, lo as int);
    }
    lo as u64
}

/// Floor cube root by binary search, exact for every admitted input.
pub fn icbrt(x: u128) -> (r: u64)
    requires
        x < 2417851639229258349412352,  // 2^81
    ensures
        r == cbrt_floor(x as int),
        cube(r as int) <= x < cube(r as int + 1),
{
    let mut lo: u128 = 0;
    let mut hi: u128 = 134217728;  // 2^27
    proof {
        assert(cube(134217728) == 2417851639229258349412352);
    }
    while lo + 1 < hi
        invariant
            lo < hi,
            hi <= 134217728,
            cube(lo as int) <= x,
            x < cube(hi as int),
        decreases hi - lo,
    {
        let mid: u128 = lo + (hi - lo) / 2;
        proof {
            assert(mid * mid <= 134217728 * 134217728) by (nonlinear_arith)
                requires mid <= 134217728,
            ;
            assert(mid * mid * mid <= 134217728 * 134217728 * 134217728)
                by (nonlinear_arith)
                requires mid <= 134217728,
            ;
        }
        if mid * mid * mid <= x {
            lo = mid;
        } else {
            hi = mid;
        }
    }
    proof {
        lemma_cbrt_floor_unique(x as int, lo as int);
    }
    lo as u64
}

/// A floor square root exists for every nonnegative integer, so
/// `sqrt_floor` satisfies its defining bounds.
pub proof fn lemma_sqrt_floor_exists(x: int)
    requires
        0 <= x,
    ensures
        0 <= sqrt_floor(x),
        sq(sqrt_floor(x)) <= x < sq(sqrt_floor(x) + 1),
    decreases x,
{
    if x == 0 {
        lemma_sqrt_floor_unique(0, 0);
    } else {
        lemma_sqrt_floor_exists(x - 1);
        let r = sqrt_floor(x - 1);
        if sq(r + 1) <= x {
            assert(x < sq(r + 2)) by (nonlinear_arith)
                requires 0 <= r, x - 1 < sq(r + 1),
            ;
            lemma_sqrt_floor_unique(x, r + 1);
        } else {
            lemma_sqrt_floor_unique(x, r);
        }
    }
}

/// A floor cube root exists for every nonnegative integer, so
/// `cbrt_floor` satisfies its defining bounds.
pub proof fn lemma_cbrt_floor_exists(x: int)
    requires
        0 <= x,
    ensures
        0 <= cbrt_floor(x),
        cube(cbrt_floor(x)) <= x < cube(cbrt_floor(x) + 1),
    decreases x,
{
    if x == 0 {
        lemma_cbrt_floor_unique(0, 0);
    } else {
        lemma_cbrt_floor_exists(x - 1);
        let r = cbrt_floor(x - 1);
        if cube(r + 1) <= x {
            assert(x < cube(r + 2)) by (nonlinear_arith)
                requires 0 <= r, x - 1 < cube(r + 1),
            ;
            lemma_cbrt_floor_unique(x, r + 1);
        } else {
            lemma_cbrt_floor_unique(x, r);
        }
    }
}

/// Clamp an integer into `[-bound, bound]`.
pub open spec fn clamp_spec(x: int, bound: int) -> int {
    if x > bound {
        bound
    } else if x < -bound {
        -bound
    } else {
        x
    }
}

/// Clamp an `i128` into `[-bound, bound]`, exact against `clamp_spec`.
pub fn clamp_to(x: i128, bound: i64) -> (r: i64)
    requires
        bound > 0,
    ensures
        r as int == clamp_spec(x as int, bound as int),
{
    if x > bound as i128 {
        bound
    } else if x < -(bound as i128) {
        -bound
    } else {
        x as i64
    }
}

/// Division truncating toward zero, for a positive divisor; agrees with
/// Euclidean division on nonnegative dividends.
pub open spec fn div_trunc(a: int, b: int) -> int {
    if a >= 0 {
        a / b
    } else {
        -((-a) / b)
    }
}

/// Truncating division of an `i128` by a positive divisor, exact
/// against `div_trunc`.
pub fn div_trunc_i128(a: i128, b: i128) -> (q: i128)
    requires
        b > 0,
        a > i128::MIN,
    ensures
        q == div_trunc(a as int, b as int),
{
    if a >= 0 {
        (((a as u128) / (b as u128)) as i128)
    } else {
        let m: u128 = (-a) as u128;
        let q0: u128 = m / (b as u128);
        proof {
            assert(q0 <= m) by (nonlinear_arith)
                requires q0 == m as int / (b as u128 as int), b as int >= 1, m >= 0,
            ;
        }
        -(q0 as i128)
    }
}

/// A truncated quotient is no larger in magnitude than any bound on the
/// dividend's magnitude divided out: `|a| <= c*b ==> |a/b| <= c`.
pub proof fn lemma_div_trunc_bound(a: int, b: int, c: int)
    requires
        b > 0,
        0 <= c,
        iabs(a) <= c * b,
    ensures
        iabs(div_trunc(a, b)) <= c,
{
    if a >= 0 {
        assert(a / b <= c) by (nonlinear_arith)
            requires b > 0, a >= 0, 0 <= c, a <= c * b,
        ;
        assert(a / b >= 0) by (nonlinear_arith)
            requires b > 0, a >= 0,
        ;
    } else {
        assert((-a) / b <= c) by (nonlinear_arith)
            requires b > 0, -a >= 0, 0 <= c, -a <= c * b,
        ;
        assert((-a) / b >= 0) by (nonlinear_arith)
            requires b > 0, -a >= 0,
        ;
    }
}

/// Scaling dividend and positive divisor by the same positive factor
/// leaves the truncated quotient unchanged.
pub proof fn lemma_div_trunc_scale(k: int, a: int, b: int)
    requires
        k > 0,
        b > 0,
    ensures
        div_trunc(k * a, k * b) == div_trunc(a, b),
{
    if a >= 0 {
        assert(k * a >= 0) by (nonlinear_arith)
            requires k > 0, a >= 0,
        ;
        lemma_div_mul_cancel(k, a, b);
    } else {
        assert(k * a < 0) by (nonlinear_arith)
            requires k > 0, a < 0,
        ;
        assert(-(k * a) == k * (-a)) by (nonlinear_arith);
        lemma_div_mul_cancel(k, -a, b);
    }
}

/// For nonnegative `a`: `(k*a) / (k*b) == a / b`.
proof fn lemma_div_mul_cancel(k: int, a: int, b: int)
    requires
        k > 0,
        b > 0,
        a >= 0,
    ensures
        (k * a) / (k * b) == a / b,
{
    let q = a / b;
    let r = a % b;
    vstd::arithmetic::div_mod::lemma_fundamental_div_mod(a, b);
    assert(a == b * q + r);
    assert(0 <= r < b);
    assert(k * a == (k * b) * q + k * r) by (nonlinear_arith)
        requires a == b * q + r,
    ;
    assert(0 <= k * r) by (nonlinear_arith)
        requires k > 0, r >= 0,
    ;
    assert(k * r < k * b) by (nonlinear_arith)
        requires k > 0, r < b,
    ;
    assert(k * b > 0) by (nonlinear_arith)
        requires k > 0, b > 0,
    ;
    vstd::arithmetic::div_mod::lemma_fundamental_div_mod_converse(
        k * a, k * b, q, k * r);
    assert(q >= 0) by (nonlinear_arith)
        requires b > 0, a >= 0, q == a / b,
    ;
}

} // verus!
