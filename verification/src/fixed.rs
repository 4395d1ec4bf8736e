//! Signed fixed-point scalars.
//!
//! A scalar is an `i128` holding `SCALE` times the real value it stands for.
//! All arithmetic is exact integer arithmetic with truncation toward zero,
//! mirrored one-for-one by the spec functions here, so every function of the
//! renderer can state precisely which number it computes.
use vstd::prelude::*;

verus! {

use vstd::arithmetic::div_mod::{
    lemma_div_pos_is_pos, lemma_div_nonincreasing, lemma_div_is_ordered, lemma_div_by_multiple,
    lemma_div_is_ordered_by_denominator, lemma_fundamental_div_mod,
};

/// Number of fixed-point units per whole unit: a scalar `x` stands for `x / SCALE`.
pub const SCALE: i128 = 1024;

/// Largest magnitude allowed for a well-formed world coordinate.
pub const COORD_MAX: i128 = 268435456;

/// Stand-in for an unbounded ray-parameter interval: no hit is sought past it.
pub const T_LIMIT: i128 = 1099511627776;

/// Largest operand magnitude accepted by `mul_fx`.
pub const MUL_IN_MAX: i128 = 4611686018427387904;

/// Largest numerator magnitude accepted by `div_fx`.
pub const DIV_IN_MAX: i128 = 10384593717069655257060992658440192;

/// Division truncating toward zero, as the machine division does.
pub open spec fn tdiv(a: int, b: int) -> int {
    if a == 0 {
        0
    } else if a > 0 && b > 0 {
        a / b
    } else if a < 0 && b < 0 {
        (a * -1) / (b * -1)
    } else if a < 0 {
        ((a * -1) / b) * -1
    } else {
        (a / (b * -1)) * -1
    }
}

/// Product of two fixed-point scalars, back in fixed-point representation.
pub open spec fn fxmul(a: int, b: int) -> int {
    tdiv(a * b, SCALE as int)
}

/// Quotient of two fixed-point scalars, in fixed-point representation.
pub open spec fn fxdiv(a: int, b: int) -> int {
    tdiv(a * (SCALE as int), b)
}

/// The integer square root: the greatest `r` with `r * r <= n` (0 for `n <= 0`).
pub open spec fn isqrt(n: int) -> int
    decreases n,
{
    if n <= 0 {
        0
    } else {
        let p = isqrt(n - 1);
        if (p + 1) * (p + 1) <= n {
            p + 1
        } else {
            p
        }
    }
}

/// Square root of a nonnegative fixed-point scalar, in fixed-point representation.
pub open spec fn fxsqrt(a: int) -> int {
    isqrt(a * (SCALE as int))
}

/// `isqrt(n)` is the unique nonnegative root: it squares to at most `n`
/// while its successor squares past `n`.
pub proof fn lemma_isqrt_bounds(n: int)
    requires
        0 <= n,
    ensures
        0 <= isqrt(n),
        isqrt(n) * isqrt(n) <= n,
        n < (isqrt(n) + 1) * (isqrt(n) + 1),
    decreases n,
{
    if n == 0 {
        assert(isqrt(0) == 0);
    } else {
        lemma_isqrt_bounds(n - 1);
        let p = isqrt(n - 1);
        if (p + 1) * (p + 1) <= n {
            assert(n < ((p + 1) + 1) * ((p + 1) + 1)) by (nonlinear_arith)
                requires
                    0 <= p,
                    n - 1 < (p + 1) * (p + 1),
            ;
        }
    }
}

/// Any `r` with `r * r <= n < (r + 1) * (r + 1)` is `isqrt(n)`.
pub proof fn lemma_isqrt_unique(n: int, r: int)
    requires
        0 <= r,
        r * r <= n,
        n < (r + 1) * (r + 1),
    ensures
        r == isqrt(n),
{
    lemma_isqrt_bounds(n);
    let q = isqrt(n);
    if r < q {
        assert((r + 1) * (r + 1) <= q * q) by (nonlinear_arith)
            requires
                0 <= r,
                r + 1 <= q,
        ;
    }
    if q < r {
        assert((q + 1) * (q + 1) <= r * r) by (nonlinear_arith)
            requires
                0 <= q,
                q + 1 <= r,
        ;
    }
}

/// A product is bounded by the product of the operands' bounds.
pub proof fn lemma_mul_bound(a: int, b: int, ma: int, mb: int)
    requires
        -ma <= a <= ma,
        -mb <= b <= mb,
    ensures
        -(ma * mb) <= a * b <= ma * mb,
{
    assert(-(ma * mb) <= a * b <= ma * mb) by (nonlinear_arith)
        requires
            -ma <= a <= ma,
            -mb <= b <= mb,
    ;
}

/// Truncating division never grows the magnitude of the dividend.
pub proof fn lemma_tdiv_bound(a: int, b: int, m: int)
    requires
        b != 0,
        -m <= a <= m,
    ensures
        -m <= tdiv(a, b) <= m,
{
    if a == 0 {
    } else if a > 0 && b > 0 {
        lemma_div_pos_is_pos(a, b);
        lemma_div_nonincreasing(a, b);
    } else if a < 0 && b < 0 {
        lemma_div_pos_is_pos(a * -1, b * -1);
        lemma_div_nonincreasing(a * -1, b * -1);
    } else if a < 0 {
        lemma_div_pos_is_pos(a * -1, b);
        lemma_div_nonincreasing(a * -1, b);
    } else {
        lemma_div_pos_is_pos(a, b * -1);
        lemma_div_nonincreasing(a, b * -1);
    }
}

/// Dividing by a positive scale shrinks a bound on the dividend by that scale.
pub proof fn lemma_tdiv_scale_bound(a: int, s: int, m: int)
    requires
        1 <= s,
        0 <= m,
        -(m * s) <= a <= m * s,
    ensures
        -m <= tdiv(a, s) <= m,
{
    if a == 0 {
    } else if a > 0 {
        lemma_div_pos_is_pos(a, s);
        lemma_div_is_ordered(a, m * s, s);
        lemma_div_by_multiple(m, s);
    } else {
        lemma_div_pos_is_pos(a * -1, s);
        lemma_div_is_ordered(a * -1, m * s, s);
        lemma_div_by_multiple(m, s);
    }
}

/// Truncating division of a nonnegative number by a positive one is
/// nonnegative.
pub proof fn lemma_tdiv_nonneg(a: int, b: int)
    requires
        0 <= a,
        0 < b,
    ensures
        0 <= tdiv(a, b),
{
    if a > 0 {
        lemma_div_pos_is_pos(a, b);
    }
}

/// A fixed-point product of nonnegative scalars is nonnegative.
pub proof fn lemma_fxmul_nonneg(a: int, b: int)
    requires
        0 <= a,
        0 <= b,
    ensures
        0 <= fxmul(a, b),
{
    assert(0 <= a * b) by (nonlinear_arith)
        requires
            0 <= a,
            0 <= b,
    ;
    lemma_tdiv_nonneg(a * b, SCALE as int);
}

/// A nonnegative dividend strictly below `m * s` divides to strictly below
/// `m`.
pub proof fn lemma_tdiv_lt(a: int, s: int, m: int)
    requires
        0 <= a,
        0 < s,
        a < m * s,
    ensures
        0 <= tdiv(a, s) < m,
{
    lemma_tdiv_nonneg(a, s);
    if a == 0 {
        assert(0 < m) by (nonlinear_arith)
            requires
                0 < s,
                0 < m * s,
        ;
    } else {
        lemma_fundamental_div_mod(a, s);
        let q = a / s;
        lemma_div_pos_is_pos(a, s);
        assert(q < m) by (nonlinear_arith)
            requires
                a == s * q + a % s,
                0 <= a % s,
                a < m * s,
                0 < s,
                0 <= q,
        ;
    }
}

/// Dividing by anything at least `s` shrinks a bound on the dividend by `s`.
pub proof fn lemma_tdiv_div_ge(a: int, b: int, s: int, m: int)
    requires
        1 <= s <= b,
        0 <= m,
        -(m * s) <= a <= m * s,
    ensures
        -m <= tdiv(a, b) <= m,
{
    if a == 0 {
    } else if a > 0 {
        lemma_div_pos_is_pos(a, b);
        lemma_div_is_ordered_by_denominator(a, s, b);
        lemma_div_is_ordered(a, m * s, s);
        lemma_div_by_multiple(m, s);
    } else {
        lemma_div_pos_is_pos(a * -1, b);
        lemma_div_is_ordered_by_denominator(a * -1, s, b);
        lemma_div_is_ordered(a * -1, m * s, s);
        lemma_div_by_multiple(m, s);
    }
}

/// A fixed-point product of operands bounded by `ma` and `mb` is bounded by
/// any `m` with `ma * mb <= m * SCALE`.
pub proof fn lemma_fxmul_bound(a: int, b: int, ma: int, mb: int, m: int)
    requires
        0 <= ma,
        0 <= mb,
        0 <= m,
        -ma <= a <= ma,
        -mb <= b <= mb,
        ma * mb <= m * (SCALE as int),
    ensures
        -m <= fxmul(a, b) <= m,
{
    lemma_mul_bound(a, b, ma, mb);
    lemma_tdiv_scale_bound(a * b, SCALE as int, m);
}

/// Truncating division is monotone in the dividend, for positive divisors.
pub proof fn lemma_tdiv_mono(x: int, y: int, b: int)
    requires
        x <= y,
        0 < b,
    ensures
        tdiv(x, b) <= tdiv(y, b),
{
    if x == 0 {
        if y > 0 {
            lemma_div_pos_is_pos(y, b);
        }
    } else if y == 0 {
        if x < 0 {
            lemma_div_pos_is_pos(x * -1, b);
        }
    } else if x > 0 {
        lemma_div_is_ordered(x, y, b);
    } else if y < 0 {
        lemma_div_is_ordered(y * -1, x * -1, b);
    } else {
        lemma_div_pos_is_pos(x * -1, b);
        lemma_div_pos_is_pos(y, b);
    }
}

/// `tdiv` agrees with the machine's truncating division and stays in range
/// whenever the dividend is not the extreme value.
proof fn lemma_tdiv_in_range(a: int, b: int)
    requires
        b != 0,
        -(i128::MAX as int) <= a <= i128::MAX as int,
    ensures
        -(i128::MAX as int) <= tdiv(a, b) <= i128::MAX as int,
{
    lemma_tdiv_bound(a, b, i128::MAX as int);
}

/// Truncating division of machine integers.
pub fn tdiv_i128(a: i128, b: i128) -> (r: i128)
    requires
        b != 0,
        a != i128::MIN,
    ensures
        r == tdiv(a as int, b as int),
{
    proof {
        lemma_tdiv_in_range(a as int, b as int);
    }
    let q = a.checked_div(b);
    match q {
        Some(v) => v,
        None => {
            proof {
                assert(false);
            }
            0
        },
    }
}

/// Fixed-point multiplication.
pub fn mul_fx(a: i128, b: i128) -> (r: i128)
    requires
        -MUL_IN_MAX <= a <= MUL_IN_MAX,
        -MUL_IN_MAX <= b <= MUL_IN_MAX,
    ensures
        r == fxmul(a as int, b as int),
{
    proof {
        lemma_mul_bound(a as int, b as int, MUL_IN_MAX as int, MUL_IN_MAX as int);
    }
    let p = a * b;
    tdiv_i128(p, SCALE)
}

/// Fixed-point division.
pub fn div_fx(a: i128, b: i128) -> (r: i128)
    requires
        b != 0,
        -DIV_IN_MAX <= a <= DIV_IN_MAX,
    ensures
        r == fxdiv(a as int, b as int),
{
    proof {
        lemma_mul_bound(a as int, SCALE as int, DIV_IN_MAX as int, SCALE as int);
    }
    let p = a * SCALE;
    tdiv_i128(p, b)
}

/// Integer square root by bisection.
fn isqrt_u128(n: u128) -> (r: u128)
    ensures
        r as int == isqrt(n as int),
        r < 18446744073709551616u128,
{
    let mut lo: u128 = 0;
    let mut hi: u128 = 18446744073709551616u128;
    while lo + 1 < hi
        invariant
            lo < hi <= 18446744073709551616u128,
            (lo as int) * (lo as int) <= n as int,
            (n as int) < (hi as int) * (hi as int),
        decreases hi - lo,
    {
        let mid = lo + (hi - lo) / 2;
        proof {
            lemma_mul_bound(mid as int, mid as int, 18446744073709551615int, 18446744073709551615int);
        }
        if mid * mid <= n {
            lo = mid;
        } else {
            hi = mid;
        }
    }
    proof {
        lemma_isqrt_unique(n as int, lo as int);
    }
    lo
}

/// Fixed-point square root of a nonnegative scalar.
pub fn sqrt_fx(a: i128) -> (r: i128)
    requires
        0 <= a <= DIV_IN_MAX,
    ensures
        r == fxsqrt(a as int),
        0 <= r < 18446744073709551616i128,
{
    let n = (a * SCALE) as u128;
    let r = isqrt_u128(n);
    r as i128
}

/// A scalar forced into `[min, max]`; `min` wins when the interval is empty.
pub open spec fn clamp_spec(x: int, min: int, max: int) -> int {
    if x < min {
        min
    } else if x > max {
        max
    } else {
        x
    }
}

/// Force a scalar into `[min, max]`.
pub fn clamp(x: i128, min: i128, max: i128) -> (r: i128)
    ensures
        r == clamp_spec(x as int, min as int, max as int),
{
    if x < min {
        min
    } else if x > max {
        max
    } else {
        x
    }
}

/// Whether `x` lies in the closed interval `[min, max]`.
pub fn in_range(x: i128, min: i128, max: i128) -> (r: bool)
    ensures
        r <==> min <= x <= max,
{
    min <= x && x <= max
}

} // verus!
