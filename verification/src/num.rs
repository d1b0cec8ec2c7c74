//! Scalar fixed-point arithmetic: truncating division and the integer square
//! root, with the spec-level functions that the vector contracts are stated in.

use vstd::prelude::*;

verus! {

use vstd::arithmetic::div_mod::{
    lemma_div_is_ordered, lemma_div_nonincreasing, lemma_div_pos_is_pos,
};

/// Number of sub-units per whole unit: every coordinate, color component and
/// scalar of this crate counts these sub-units (16 binary fraction bits).
pub const SCALE: i64 = 65536;

/// One half of a whole unit, in sub-units.
pub const HALF_SCALE: i64 = 32768;

/// The exact quotient rounded toward zero: the rounding every executable
/// division of this crate performs.  Meaningful for positive `b`.
pub open spec fn tdiv(a: int, b: int) -> int {
    if a >= 0 {
        a / b
    } else {
        -((-a) / b)
    }
}

/// The integer square root: the largest `r` with `r * r <= n`
/// (and `0` for negative `n`).
pub open spec fn sqrt_floor(n: int) -> int
    decreases n,
{
    if n < 1 {
        0
    } else if (sqrt_floor(n - 1) + 1) * (sqrt_floor(n - 1) + 1) <= n {
        sqrt_floor(n - 1) + 1
    } else {
        sqrt_floor(n - 1)
    }
}

/// `sqrt_floor(n)` is the floor of the square root: it is nonnegative, its
/// square is at most `n`, and the next square is beyond `n`.
pub proof fn lemma_sqrt_floor_props(n: int)
    ensures
        0 <= sqrt_floor(n),
        n >= 0 ==> sqrt_floor(n) * sqrt_floor(n) <= n,
        n < (sqrt_floor(n) + 1) * (sqrt_floor(n) + 1),
    decreases n,
{
    if n < 1 {
        assert(sqrt_floor(n) == 0);
        assert(n < (sqrt_floor(n) + 1) * (sqrt_floor(n) + 1));
    } else {
        lemma_sqrt_floor_props(n - 1);
        let r: int = sqrt_floor(n - 1);
        if (r + 1) * (r + 1) <= n {
            assert(sqrt_floor(n) == r + 1);
            assert(n <= (r + 1) * (r + 1));
            assert((r + 1) * (r + 1) < (r + 2) * (r + 2)) by (nonlinear_arith)
                requires
                    0 <= r;
            assert(n < (r + 2) * (r + 2));
            assert(n < (sqrt_floor(n) + 1) * (sqrt_floor(n) + 1));
        } else {
            assert(sqrt_floor(n) == r);
            assert(n < (r + 1) * (r + 1));
            assert(n < (sqrt_floor(n) + 1) * (sqrt_floor(n) + 1));
        }
    }
}

/// Any `r` whose square brackets `n` is the integer square root of `n`.
pub proof fn lemma_sqrt_floor_is(n: int, r: int)
    requires
        0 <= r,
        r * r <= n,
        n < (r + 1) * (r + 1),
    ensures
        sqrt_floor(n) == r,
{
    lemma_sqrt_floor_props(n);
    let s: int = sqrt_floor(n);
    if s < r {
        assert((s + 1) * (s + 1) <= r * r) by (nonlinear_arith)
            requires
                0 <= s,
                s + 1 <= r;
    }
    if r < s {
        assert((r + 1) * (r + 1) <= s * s) by (nonlinear_arith)
            requires
                0 <= r,
                r + 1 <= s;
    }
}

/// If `n` is at most `m * m`, its square root is at most `m`.
pub proof fn lemma_sqrt_floor_at_most(n: int, m: int)
    requires
        0 <= m,
        n <= m * m,
    ensures
        sqrt_floor(n) <= m,
{
    lemma_sqrt_floor_props(n);
    let s: int = sqrt_floor(n);
    if n < 1 {
        assert(sqrt_floor(n) == 0);
    } else if m < s {
        assert(n < s * s) by (nonlinear_arith)
            requires
                0 <= m,
                m + 1 <= s,
                n <= m * m;
    }
}

/// If `n` lies below the next square after `m * m`, its square root is at
/// most `m`.
pub proof fn lemma_sqrt_floor_below(n: int, m: int)
    requires
        0 <= m,
        n < (m + 1) * (m + 1),
    ensures
        sqrt_floor(n) <= m,
{
    lemma_sqrt_floor_props(n);
    let s: int = sqrt_floor(n);
    if n < 1 {
        assert(sqrt_floor(n) == 0);
    } else if m < s {
        assert((m + 1) * (m + 1) <= s * s) by (nonlinear_arith)
            requires
                0 <= m,
                m + 1 <= s;
    }
}

/// For nonnegative `p` and positive `l`, the square of the rounded-down
/// quotient `p / l`, rescaled by `l * l`, lies within `2 * p * l` below the
/// exact square `p * p`.
pub proof fn lemma_div_sq_bounds(p: int, l: int)
    requires
        0 <= p,
        1 <= l,
    ensures
        (p / l) * (p / l) * (l * l) <= p * p,
        p * p - 2 * p * l <= (p / l) * (p / l) * (l * l),
{
    vstd::arithmetic::div_mod::lemma_fundamental_div_mod(p, l);
    vstd::arithmetic::div_mod::lemma_mod_division_less_than_divisor(p, l);
    lemma_div_pos_is_pos(p, l);
    let q: int = p / l;
    assert(q * q * (l * l) <= p * p) by (nonlinear_arith)
        requires
            0 <= q,
            1 <= l,
            0 <= p,
            l * q <= p;
    assert(p * p - 2 * p * l <= q * q * (l * l)) by (nonlinear_arith)
        requires
            0 <= q,
            1 <= l,
            0 <= p,
            p <= l * q + l;
}

/// The integer square root is monotone.
pub proof fn lemma_sqrt_floor_monotone(a: int, b: int)
    requires
        a <= b,
    ensures
        sqrt_floor(a) <= sqrt_floor(b),
{
    lemma_sqrt_floor_props(a);
    lemma_sqrt_floor_props(b);
    let sa: int = sqrt_floor(a);
    let sb: int = sqrt_floor(b);
    if a < 1 {
        assert(sqrt_floor(a) == 0);
    } else if sb < sa {
        assert((sb + 1) * (sb + 1) <= sa * sa) by (nonlinear_arith)
            requires
                0 <= sb,
                sb + 1 <= sa;
    }
}

/// Negating the dividend negates a truncating quotient.
pub proof fn lemma_tdiv_neg(a: int, b: int)
    requires
        1 <= b,
    ensures
        tdiv(-a, b) == -tdiv(a, b),
{
    if a > 0 {
        assert(-(-a) == a);
        assert(tdiv(-a, b) == -(a / b));
        assert(tdiv(a, b) == a / b);
    } else if a < 0 {
        assert(tdiv(-a, b) == (-a) / b);
        assert(tdiv(a, b) == -((-a) / b));
    }
}

/// A truncating quotient of a bounded dividend is bounded by the quotient of
/// the bound.
pub proof fn lemma_tdiv_bound(a: int, b: int, m: int)
    requires
        1 <= b,
        -m <= a <= m,
    ensures
        -(m / b) <= tdiv(a, b) <= m / b,
        0 <= m / b <= m,
{
    if a >= 0 {
        lemma_div_is_ordered(a, m, b);
        lemma_div_pos_is_pos(a, b);
    } else {
        lemma_div_is_ordered(-a, m, b);
        lemma_div_pos_is_pos(-a, b);
    }
    lemma_div_pos_is_pos(m, b);
    lemma_div_nonincreasing(m, b);
}

/// A product of factors bounded by `m` and `n` is bounded by `m * n`.
pub proof fn lemma_prod_le(a: int, b: int, m: int, n: int)
    requires
        -m <= a <= m,
        -n <= b <= n,
        0 <= m,
        0 <= n,
    ensures
        -(m * n) <= a * b <= m * n,
{
    assert(-(m * n) <= a * b <= m * n) by (nonlinear_arith)
        requires
            -m <= a && a <= m,
            -n <= b && b <= n,
            0 <= m,
            0 <= n;
}

/// The product of two `i64` values, exactly, in the wider type.
pub fn wide_mul(a: i64, b: i64) -> (r: i128)
    ensures
        r == (a as int) * (b as int),
{
    proof {
        assert(i128::MIN <= (a as int) * (b as int) <= i128::MAX) by (nonlinear_arith)
            requires
                i64::MIN <= a as int <= i64::MAX,
                i64::MIN <= b as int <= i64::MAX;
    }
    (a as i128) * (b as i128)
}

/// Truncating division on the wide type, computed through the unsigned
/// divisions whose rounding is already toward zero.
pub fn div_trunc(a: i128, b: i128) -> (r: i128)
    requires
        1 <= b,
        i128::MIN < a,
    ensures
        r == tdiv(a as int, b as int),
{
    if a >= 0 {
        let q: u128 = (a as u128) / (b as u128);
        proof {
            lemma_div_nonincreasing(a as int, b as int);
            lemma_div_pos_is_pos(a as int, b as int);
        }
        q as i128
    } else {
        let n: u128 = (-a) as u128;
        let q: u128 = n / (b as u128);
        proof {
            lemma_div_nonincreasing(-(a as int), b as int);
            lemma_div_pos_is_pos(-(a as int), b as int);
        }
        -(q as i128)
    }
}

/// The integer square root of `n`, by bisection.
pub fn isqrt(n: u128) -> (r: u128)
    requires
        (n as int) < 0x4000_0000_0000_0000_0000_0000_0000_0000,
    ensures
        r * r <= n < (r + 1) * (r + 1),
        r == sqrt_floor(n as int),
{
    let mut lo: u128 = 0;
    let mut hi: u128 = 0x8000_0000_0000_0000;
    while lo + 1 < hi
        invariant
            lo < hi,
            hi <= 0x8000_0000_0000_0000,
            lo * lo <= n,
            n < hi * hi,
        decreases hi - lo,
    {
        let mid: u128 = lo + (hi - lo) / 2;
        proof {
            assert((mid as int) * (mid as int) < 0x4000_0000_0000_0000_0000_0000_0000_0000)
                by (nonlinear_arith)
                requires
                    0 <= (mid as int) && (mid as int) < 0x8000_0000_0000_0000;
        }
        if mid * mid <= n {
            lo = mid;
        } else {
            hi = mid;
        }
    }
    proof {
        lemma_sqrt_floor_is(n as int, lo as int);
    }
    lo
}

} // verus!
