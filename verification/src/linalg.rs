//! The 3-vector algebra: componentwise arithmetic, dot and cross products,
//! length and normalization, and the textual serialization of a color.
//!
//! Every executable operation has an exact integer contract over the vector's
//! mathematical view ([`Vec3Model`]): scaled products and quotients round
//! toward zero, square roots round down.

use vstd::prelude::*;

verus! {

use crate::num::{
    SCALE, tdiv, sqrt_floor, wide_mul, div_trunc, isqrt, lemma_tdiv_bound, lemma_tdiv_neg,
    lemma_sqrt_floor_props, lemma_sqrt_floor_at_most,
};
use vstd::arithmetic::div_mod::lemma_div_by_multiple;
use vstd::arithmetic::mul::lemma_mul_inequality;

/// Componentwise bound under which a product of two components, scaled back
/// down, still fits `i64`.
pub const PROD_LIMIT: i64 = 0x40_0000_0000;

/// Componentwise bound under which the three squares and their sum fit the
/// wide intermediate type.
pub const SUM_LIMIT: i64 = 0x4000_0000_0000_0000;

/// A 3-vector of fixed-point components, `SCALE` sub-units per whole unit.
#[derive(Clone, Copy, Debug, PartialEq, Eq, Structural)]
pub struct Vec3 {
    pub x: i64,
    pub y: i64,
    pub z: i64,
}

/// A position in space: structurally a `Vec3`, used in a distinct role.
pub type Point3 = Vec3;

/// An RGB color, each channel nominally in `[0, SCALE]` (the range is a
/// convention, enforced only when a pixel is serialized).
pub type Color = Vec3;

/// The mathematical value of a vector: its components as unbounded integers.
pub struct Vec3Model {
    pub x: int,
    pub y: int,
    pub z: int,
}

impl View for Vec3 {
    type V = Vec3Model;

    open spec fn view(&self) -> Vec3Model {
        Vec3Model { x: self.x as int, y: self.y as int, z: self.z as int }
    }
}

/// Every component of `v` lies in `[-bound, bound]`.
pub open spec fn in_range(v: Vec3Model, bound: int) -> bool {
    &&& -bound <= v.x <= bound
    &&& -bound <= v.y <= bound
    &&& -bound <= v.z <= bound
}

/// Componentwise sum.
pub open spec fn add_m(u: Vec3Model, v: Vec3Model) -> Vec3Model {
    Vec3Model { x: u.x + v.x, y: u.y + v.y, z: u.z + v.z }
}

/// Componentwise difference.
pub open spec fn sub_m(u: Vec3Model, v: Vec3Model) -> Vec3Model {
    Vec3Model { x: u.x - v.x, y: u.y - v.y, z: u.z - v.z }
}

/// Componentwise sign flip.
pub open spec fn neg_m(u: Vec3Model) -> Vec3Model {
    Vec3Model { x: -u.x, y: -u.y, z: -u.z }
}

/// Componentwise (Hadamard) product, scaled back down.
pub open spec fn mul_m(u: Vec3Model, v: Vec3Model) -> Vec3Model {
    Vec3Model {
        x: tdiv(u.x * v.x, SCALE as int),
        y: tdiv(u.y * v.y, SCALE as int),
        z: tdiv(u.z * v.z, SCALE as int),
    }
}

/// The vector scaled by the fixed-point scalar `s`.
pub open spec fn scale_m(u: Vec3Model, s: int) -> Vec3Model {
    Vec3Model {
        x: tdiv(u.x * s, SCALE as int),
        y: tdiv(u.y * s, SCALE as int),
        z: tdiv(u.z * s, SCALE as int),
    }
}

/// Truncating division with a divisor of either sign.
pub open spec fn sdiv(a: int, b: int) -> int {
    if b >= 0 {
        tdiv(a, b)
    } else {
        -tdiv(a, -b)
    }
}

/// The vector divided by the fixed-point scalar `s`.
pub open spec fn div_m(u: Vec3Model, s: int) -> Vec3Model {
    Vec3Model {
        x: sdiv(u.x * SCALE, s),
        y: sdiv(u.y * SCALE, s),
        z: sdiv(u.z * SCALE, s),
    }
}

/// The exact (unscaled) sum of squares of the components.
pub open spec fn sum_sq(u: Vec3Model) -> int {
    u.x * u.x + u.y * u.y + u.z * u.z
}

/// The exact (unscaled) sum of componentwise products.
pub open spec fn dot_full(u: Vec3Model, v: Vec3Model) -> int {
    u.x * v.x + u.y * v.y + u.z * v.z
}

/// The fixed-point dot product: the exact sum of products, scaled back down.
pub open spec fn dot_m(u: Vec3Model, v: Vec3Model) -> int {
    tdiv(dot_full(u, v), SCALE as int)
}

/// The fixed-point cross product: each component is an exact difference of
/// products, scaled back down once.
pub open spec fn cross_m(u: Vec3Model, v: Vec3Model) -> Vec3Model {
    Vec3Model {
        x: tdiv(u.y * v.z - u.z * v.y, SCALE as int),
        y: tdiv(u.z * v.x - u.x * v.z, SCALE as int),
        z: tdiv(u.x * v.y - u.y * v.x, SCALE as int),
    }
}

/// The fixed-point length: because the components already carry one factor of
/// `SCALE`, the square root of the exact sum of squares is itself scaled.
pub open spec fn length_m(u: Vec3Model) -> int {
    sqrt_floor(sum_sq(u))
}

/// The normalized vector: each component divided by the length.
pub open spec fn unit_m(u: Vec3Model) -> Vec3Model {
    let l: int = length_m(u);
    Vec3Model {
        x: tdiv(u.x * SCALE, l),
        y: tdiv(u.y * SCALE, l),
        z: tdiv(u.z * SCALE, l),
    }
}

/// A product of two `PROD_LIMIT`-bounded components, scaled back down.
fn mul_fixed(a: i64, b: i64) -> (r: i64)
    requires
        -PROD_LIMIT <= a <= PROD_LIMIT,
        -PROD_LIMIT <= b <= PROD_LIMIT,
    ensures
        r as int == tdiv(a * b, SCALE as int),
{
    let p: i128 = wide_mul(a, b);
    proof {
        assert(-0x1000_0000_0000_0000_0000 <= (a as int) * (b as int)
            <= 0x1000_0000_0000_0000_0000) by (nonlinear_arith)
            requires
                -0x40_0000_0000 <= (a as int) && (a as int) <= 0x40_0000_0000,
                -0x40_0000_0000 <= (b as int) && (b as int) <= 0x40_0000_0000;
        lemma_tdiv_bound(p as int, SCALE as int, 0x1000_0000_0000_0000_0000);
    }
    div_trunc(p, SCALE as i128) as i64
}

impl Default for Vec3 {
    /// The zero vector.
    fn default() -> (r: Vec3)
        ensures
            r@ == (Vec3Model { x: 0int, y: 0int, z: 0int }),
    {
        Vec3 { x: 0, y: 0, z: 0 }
    }
}

impl Vec3 {
    /// Componentwise sum.
    pub fn add(self, rhs: Vec3) -> (r: Vec3)
        requires
            i64::MIN <= self@.x + rhs@.x <= i64::MAX,
            i64::MIN <= self@.y + rhs@.y <= i64::MAX,
            i64::MIN <= self@.z + rhs@.z <= i64::MAX,
        ensures
            r@ == add_m(self@, rhs@),
    {
        Vec3 { x: self.x + rhs.x, y: self.y + rhs.y, z: self.z + rhs.z }
    }

    /// Componentwise difference.
    pub fn sub(self, rhs: Vec3) -> (r: Vec3)
        requires
            i64::MIN <= self@.x - rhs@.x <= i64::MAX,
            i64::MIN <= self@.y - rhs@.y <= i64::MAX,
            i64::MIN <= self@.z - rhs@.z <= i64::MAX,
        ensures
            r@ == sub_m(self@, rhs@),
    {
        Vec3 { x: self.x - rhs.x, y: self.y - rhs.y, z: self.z - rhs.z }
    }

    /// Componentwise sign flip.
    pub fn neg(self) -> (r: Vec3)
        requires
            i64::MIN < self@.x,
            i64::MIN < self@.y,
            i64::MIN < self@.z,
        ensures
            r@ == neg_m(self@),
    {
        Vec3 { x: -self.x, y: -self.y, z: -self.z }
    }

    /// Componentwise (Hadamard) product, the color-tinting multiplication.
    pub fn mul(self, rhs: Vec3) -> (r: Vec3)
        requires
            in_range(self@, PROD_LIMIT as int),
            in_range(rhs@, PROD_LIMIT as int),
        ensures
            r@ == mul_m(self@, rhs@),
    {
        Vec3 {
            x: mul_fixed(self.x, rhs.x),
            y: mul_fixed(self.y, rhs.y),
            z: mul_fixed(self.z, rhs.z),
        }
    }

    /// The vector scaled by the fixed-point scalar `s`.
    pub fn scale(self, s: i64) -> (r: Vec3)
        requires
            in_range(self@, PROD_LIMIT as int),
            -PROD_LIMIT <= s <= PROD_LIMIT,
        ensures
            r@ == scale_m(self@, s as int),
    {
        Vec3 { x: mul_fixed(self.x, s), y: mul_fixed(self.y, s), z: mul_fixed(self.z, s) }
    }

    /// The vector divided by the fixed-point scalar `s`; the caller keeps
    /// `s` away from zero.
    pub fn div(self, s: i64) -> (r: Vec3)
        requires
            s != 0,
            in_range(self@, PROD_LIMIT as int),
        ensures
            r@ == div_m(self@, s as int),
    {
        let sw: i128 = s as i128;
        if sw > 0 {
            Vec3 {
                x: Self::div_comp(self.x, sw),
                y: Self::div_comp(self.y, sw),
                z: Self::div_comp(self.z, sw),
            }
        } else {
            Vec3 {
                x: -Self::div_comp(self.x, -sw),
                y: -Self::div_comp(self.y, -sw),
                z: -Self::div_comp(self.z, -sw),
            }
        }
    }

    /// One component of the scalar division: `(a * SCALE) / d`, truncated.
    fn div_comp(a: i64, d: i128) -> (r: i64)
        requires
            1 <= d,
            -PROD_LIMIT <= a <= PROD_LIMIT,
        ensures
            r as int == tdiv(a * SCALE, d as int),
            -0x40_0000_0000_0000 <= r <= 0x40_0000_0000_0000,
    {
        let p: i128 = wide_mul(a, SCALE);
        proof {
            assert(-0x40_0000_0000_0000 <= (a as int) * (SCALE as int)
                <= 0x40_0000_0000_0000) by (nonlinear_arith)
                requires
                    -0x40_0000_0000 <= (a as int) && (a as int) <= 0x40_0000_0000,
                    SCALE as int == 65536;
            lemma_tdiv_bound(p as int, d as int, 0x40_0000_0000_0000);
        }
        div_trunc(p, d) as i64
    }

    /// First component.
    pub fn x(self) -> (r: i64)
        ensures
            r as int == self@.x,
    {
        self.x
    }

    /// Second component.
    pub fn y(self) -> (r: i64)
        ensures
            r as int == self@.y,
    {
        self.y
    }

    /// Third component.
    pub fn z(self) -> (r: i64)
        ensures
            r as int == self@.z,
    {
        self.z
    }

    /// Component access by position; positions beyond the third are a caller
    /// error and are excluded outright.
    pub fn index(self, i: usize) -> (r: i64)
        requires
            i < 3,
        ensures
            r as int == if i == 0 {
                self@.x
            } else if i == 1 {
                self@.y
            } else {
                self@.z
            },
    {
        if i == 0 {
            self.x
        } else if i == 1 {
            self.y
        } else {
            self.z
        }
    }

    /// The scaled squared length: the exact sum of squares, scaled back down.
    pub fn length_squared(self) -> (r: i128)
        requires
            in_range(self@, SUM_LIMIT as int),
        ensures
            r == tdiv(sum_sq(self@), SCALE as int),
            0 <= r,
    {
        let s: i128 = Self::sum_squares(self);
        proof {
            lemma_tdiv_bound(s as int, SCALE as int, 0x3000_0000_0000_0000_0000_0000_0000_0000);
        }
        div_trunc(s, SCALE as i128)
    }

    /// The exact sum of squares of the components, in the wide type.
    fn sum_squares(self) -> (r: i128)
        requires
            in_range(self@, SUM_LIMIT as int),
        ensures
            r == sum_sq(self@),
            0 <= r <= 0x3000_0000_0000_0000_0000_0000_0000_0000,
    {
        let xx: i128 = wide_mul(self.x, self.x);
        let yy: i128 = wide_mul(self.y, self.y);
        let zz: i128 = wide_mul(self.z, self.z);
        proof {
            Self::lemma_square_bound(self@.x);
            Self::lemma_square_bound(self@.y);
            Self::lemma_square_bound(self@.z);
        }
        xx + yy + zz
    }

    /// A `SUM_LIMIT`-bounded value has a square between `0` and `2^124`.
    proof fn lemma_square_bound(a: int)
        requires
            -0x4000_0000_0000_0000 <= a <= 0x4000_0000_0000_0000,
        ensures
            0 <= a * a <= 0x1000_0000_0000_0000_0000_0000_0000_0000,
    {
        assert(0 <= a * a <= 0x1000_0000_0000_0000_0000_0000_0000_0000) by (nonlinear_arith)
            requires
                -0x4000_0000_0000_0000 <= a && a <= 0x4000_0000_0000_0000;
    }

    /// The fixed-point length: the rounded-down square root of the exact sum
    /// of squares (already carrying one factor of `SCALE`).
    pub fn length(self) -> (r: i64)
        requires
            in_range(self@, SUM_LIMIT as int),
        ensures
            r as int == length_m(self@),
            0 <= r,
    {
        let s: i128 = Self::sum_squares(self);
        let root: u128 = isqrt(s as u128);
        proof {
            lemma_sqrt_floor_at_most(s as int, 0x7FFF_FFFF_FFFF_FFFF);
            lemma_sqrt_floor_props(s as int);
        }
        root as i64
    }

    /// The normalized vector.  The caller keeps the vector away from zero;
    /// with a zero vector the quotient below would have no meaning.
    pub fn unit_vector(self) -> (r: Vec3)
        requires
            in_range(self@, SUM_LIMIT as int),
            1 <= sum_sq(self@),
        ensures
            r@ == unit_m(self@),
            in_range(r@, SCALE as int),
    {
        let l: i64 = self.length();
        proof {
            lemma_sqrt_floor_props(sum_sq(self@));
            crate::num::lemma_sqrt_floor_is(1, 1);
            crate::num::lemma_sqrt_floor_monotone(1, sum_sq(self@));
            assert(self@.x * self@.x <= sum_sq(self@)) by (nonlinear_arith);
            assert(self@.y * self@.y <= sum_sq(self@)) by (nonlinear_arith);
            assert(self@.z * self@.z <= sum_sq(self@)) by (nonlinear_arith);
        }
        Vec3 {
            x: Self::unit_comp(self.x, l, Ghost(self@)),
            y: Self::unit_comp(self.y, l, Ghost(self@)),
            z: Self::unit_comp(self.z, l, Ghost(self@)),
        }
    }

    /// One component of the normalization: `(a * SCALE) / l`, truncated, which
    /// stays within `[-SCALE, SCALE]` because no component exceeds the length.
    fn unit_comp(a: i64, l: i64, u: Ghost<Vec3Model>) -> (r: i64)
        requires
            1 <= l,
            a * a <= sum_sq(u@),
            sum_sq(u@) < (l + 1) * (l + 1),
        ensures
            r as int == tdiv(a * SCALE, l as int),
            -SCALE <= r <= SCALE,
    {
        proof {
            assert(-(l as int) <= a as int <= l as int) by (nonlinear_arith)
                requires
                    (a as int) * (a as int) <= sum_sq(u@),
                    sum_sq(u@) < ((l as int) + 1) * ((l as int) + 1),
                    1 <= l as int;
            lemma_mul_inequality(a as int, l as int, SCALE as int);
            lemma_mul_inequality(-(l as int), a as int, SCALE as int);
            lemma_tdiv_bound((a as int) * (SCALE as int), l as int, (l as int) * (SCALE as int));
            lemma_div_by_multiple(SCALE as int, l as int);
            assert((SCALE as int) * (l as int) == (l as int) * (SCALE as int));
        }
        let p: i128 = wide_mul(a, SCALE);
        div_trunc(p, l as i128) as i64
    }
}

/// The fixed-point dot product of `u` and `v`.
pub fn dot(u: &Vec3, v: &Vec3) -> (r: i128)
    requires
        in_range(u@, SUM_LIMIT as int),
        in_range(v@, SUM_LIMIT as int),
    ensures
        r == dot_m(u@, v@),
{
    let a: i128 = wide_mul(u.x, v.x);
    let b: i128 = wide_mul(u.y, v.y);
    let c: i128 = wide_mul(u.z, v.z);
    proof {
        lemma_prod_bound(u@.x, v@.x);
        lemma_prod_bound(u@.y, v@.y);
        lemma_prod_bound(u@.z, v@.z);
        lemma_tdiv_bound(
            dot_full(u@, v@),
            SCALE as int,
            0x3000_0000_0000_0000_0000_0000_0000_0000,
        );
    }
    div_trunc(a + b + c, SCALE as i128)
}

/// A product of two `SUM_LIMIT`-bounded values stays within `2^124`.
proof fn lemma_prod_bound(a: int, b: int)
    requires
        -0x4000_0000_0000_0000 <= a <= 0x4000_0000_0000_0000,
        -0x4000_0000_0000_0000 <= b <= 0x4000_0000_0000_0000,
    ensures
        -0x1000_0000_0000_0000_0000_0000_0000_0000 <= a * b
            <= 0x1000_0000_0000_0000_0000_0000_0000_0000,
{
    assert(-0x1000_0000_0000_0000_0000_0000_0000_0000 <= a * b
        <= 0x1000_0000_0000_0000_0000_0000_0000_0000) by (nonlinear_arith)
        requires
            -0x4000_0000_0000_0000 <= a && a <= 0x4000_0000_0000_0000,
            -0x4000_0000_0000_0000 <= b && b <= 0x4000_0000_0000_0000;
}

/// The fixed-point cross product of `u` and `v`, right-handed.
pub fn cross(u: &Vec3, v: &Vec3) -> (r: Vec3)
    requires
        in_range(u@, PROD_LIMIT as int),
        in_range(v@, PROD_LIMIT as int),
    ensures
        r@ == cross_m(u@, v@),
{
    Vec3 {
        x: cross_comp(u.y, v.z, u.z, v.y),
        y: cross_comp(u.z, v.x, u.x, v.z),
        z: cross_comp(u.x, v.y, u.y, v.x),
    }
}

/// One cross-product component: `(a * b - c * d) / SCALE`, truncated.
fn cross_comp(a: i64, b: i64, c: i64, d: i64) -> (r: i64)
    requires
        -PROD_LIMIT <= a <= PROD_LIMIT,
        -PROD_LIMIT <= b <= PROD_LIMIT,
        -PROD_LIMIT <= c <= PROD_LIMIT,
        -PROD_LIMIT <= d <= PROD_LIMIT,
    ensures
        r as int == tdiv(a * b - c * d, SCALE as int),
{
    let p: i128 = wide_mul(a, b);
    let q: i128 = wide_mul(c, d);
    proof {
        assert(-0x1000_0000_0000_0000_0000 <= (a as int) * (b as int)
            <= 0x1000_0000_0000_0000_0000) by (nonlinear_arith)
            requires
                -0x40_0000_0000 <= (a as int) && (a as int) <= 0x40_0000_0000,
                -0x40_0000_0000 <= (b as int) && (b as int) <= 0x40_0000_0000;
        assert(-0x1000_0000_0000_0000_0000 <= (c as int) * (d as int)
            <= 0x1000_0000_0000_0000_0000) by (nonlinear_arith)
            requires
                -0x40_0000_0000 <= (c as int) && (c as int) <= 0x40_0000_0000,
                -0x40_0000_0000 <= (d as int) && (d as int) <= 0x40_0000_0000;
        lemma_tdiv_bound(
            (a as int) * (b as int) - (c as int) * (d as int),
            SCALE as int,
            0x2000_0000_0000_0000_0000,
        );
    }
    div_trunc(p - q, SCALE as i128) as i64
}

/// The normalized copy of `v`.
pub fn unit_vector(v: &Vec3) -> (r: Vec3)
    requires
        in_range(v@, SUM_LIMIT as int),
        1 <= sum_sq(v@),
    ensures
        r@ == unit_m(v@),
        in_range(r@, SCALE as int),
{
    v.unit_vector()
}

/// Relies on `String::push`: it appends the given character to the string.
pub assume_specification[ String::push ](s: &mut String, ch: char)
    ensures
        final(s)@ == old(s)@.push(ch),
;

/// The decimal digit character for `d` in `{0, ..., 9}`.
pub open spec fn digit_char(d: int) -> char {
    if d == 0 {
        '0'
    } else if d == 1 {
        '1'
    } else if d == 2 {
        '2'
    } else if d == 3 {
        '3'
    } else if d == 4 {
        '4'
    } else if d == 5 {
        '5'
    } else if d == 6 {
        '6'
    } else if d == 7 {
        '7'
    } else if d == 8 {
        '8'
    } else {
        '9'
    }
}

/// The decimal digits of a nonnegative `n`, most significant first.
pub open spec fn dec_digits(n: int) -> Seq<char>
    decreases n,
{
    if n < 10 {
        seq![digit_char(n)]
    } else {
        dec_digits(n / 10).push(digit_char(n % 10))
    }
}

/// The serialized value of one color channel: the channel times `255.999`,
/// truncated to an integer and clamped to the unsigned 32-bit range, exactly
/// as a saturating float-to-integer cast would produce it.
pub open spec fn byte_m(c: int) -> int {
    let q: int = tdiv(255999 * c, 1000 * (SCALE as int));
    if q < 0 {
        0
    } else if q > 0xFFFF_FFFF {
        0xFFFF_FFFF
    } else {
        q
    }
}

/// The serialized pixel line: the three channel values in decimal, separated
/// by single spaces.
pub open spec fn color_line(c: Vec3Model) -> Seq<char> {
    (dec_digits(byte_m(c.x)).push(' ') + dec_digits(byte_m(c.y))).push(' ') + dec_digits(
        byte_m(c.z),
    )
}

/// The decimal digit character for `d < 10`.
fn digit_to_char(d: u32) -> (c: char)
    requires
        d < 10,
    ensures
        c == digit_char(d as int),
{
    if d == 0 {
        '0'
    } else if d == 1 {
        '1'
    } else if d == 2 {
        '2'
    } else if d == 3 {
        '3'
    } else if d == 4 {
        '4'
    } else if d == 5 {
        '5'
    } else if d == 6 {
        '6'
    } else if d == 7 {
        '7'
    } else if d == 8 {
        '8'
    } else {
        '9'
    }
}

/// Appends the decimal digits of `n` to `s`.
fn push_decimal(s: &mut String, n: u32) -> (nothing: ())
    ensures
        final(s)@ == old(s)@ + dec_digits(n as int),
    decreases n,
{
    if n >= 10 {
        push_decimal(s, n / 10);
        let ghost mid: Seq<char> = s@;
        let c: char = digit_to_char(n % 10);
        s.push(c);
        proof {
            assert(mid.push(digit_char((n as int) % 10)) =~= old(s)@ + dec_digits(
                (n as int) / 10,
            ).push(digit_char((n as int) % 10)));
        }
    } else {
        let c: char = digit_to_char(n);
        s.push(c);
        proof {
            assert(old(s)@.push(digit_char(n as int)) =~= old(s)@ + seq![digit_char(n as int)]);
        }
    }
}

/// One channel of a pixel, scaled for serialization: the channel times
/// `255.999`, truncated, saturating at the unsigned 32-bit bounds.
fn channel_byte(c: i64) -> (r: u32)
    ensures
        r as int == byte_m(c as int),
{
    proof {
        assert(-0x8000_0000_0000_0000_0000_0000 <= 255999 * (c as int)
            <= 0x8000_0000_0000_0000_0000_0000) by (nonlinear_arith)
            requires
                i64::MIN <= c as int <= i64::MAX;
    }
    let q: i128 = div_trunc(255999 * (c as i128), 1000 * (SCALE as i128));
    if q < 0 {
        0
    } else if q > 0xFFFF_FFFF {
        0xFFFF_FFFF
    } else {
        q as u32
    }
}

impl Vec3 {
    /// The textual form of one pixel: the three channels of `pixel_color`
    /// scaled to display integers and written as a space-separated decimal
    /// triplet.  The caller appends the line terminator when writing it out.
    pub fn write_color(pixel_color: Color) -> (line: String)
        ensures
            line@ == color_line(pixel_color@),
    {
        let r: u32 = channel_byte(pixel_color.x);
        let g: u32 = channel_byte(pixel_color.y);
        let b: u32 = channel_byte(pixel_color.z);
        let mut line: String = String::new();
        push_decimal(&mut line, r);
        proof {
            assert(line@ =~= dec_digits(r as int));
        }
        line.push(' ');
        push_decimal(&mut line, g);
        line.push(' ');
        push_decimal(&mut line, b);
        line
    }
}

/// Law: the fixed-point dot product is symmetric in its arguments.
pub proof fn lemma_dot_comm(u: Vec3Model, v: Vec3Model)
    ensures
        dot_m(u, v) == dot_m(v, u),
{
    assert(dot_full(u, v) == dot_full(v, u)) by (nonlinear_arith);
}

/// Law: swapping the arguments of the cross product flips the sign of every
/// component.
pub proof fn lemma_cross_antisym(u: Vec3Model, v: Vec3Model)
    ensures
        cross_m(u, v) == neg_m(cross_m(v, u)),
{
    assert(u.y * v.z - u.z * v.y == -(v.y * u.z - v.z * u.y)) by (nonlinear_arith);
    assert(u.z * v.x - u.x * v.z == -(v.z * u.x - v.x * u.z)) by (nonlinear_arith);
    assert(u.x * v.y - u.y * v.x == -(v.x * u.y - v.y * u.x)) by (nonlinear_arith);
    lemma_tdiv_neg(v.y * u.z - v.z * u.y, SCALE as int);
    lemma_tdiv_neg(v.z * u.x - v.x * u.z, SCALE as int);
    lemma_tdiv_neg(v.x * u.y - v.y * u.x, SCALE as int);
}

/// One component of the normalization, squared: rescaled by `l * l` it lies
/// within `2 * SCALE * l * l` below the exact square `a * a * SCALE * SCALE`.
proof fn lemma_unit_comp_sq(a: int, l: int)
    requires
        1 <= l,
        -l <= a <= l,
    ensures
        tdiv(a * SCALE, l) * tdiv(a * SCALE, l) * (l * l) <= (a * a) * ((SCALE as int)
            * (SCALE as int)),
        (a * a) * ((SCALE as int) * (SCALE as int)) - 2 * SCALE * (l * l) <= tdiv(a * SCALE, l)
            * tdiv(a * SCALE, l) * (l * l),
{
    let s: int = SCALE as int;
    let p: int = if a >= 0 {
        a * s
    } else {
        -(a * s)
    };
    assert(0 <= p && p <= l * s) by (nonlinear_arith)
        requires
            -l <= a <= l,
            s == 65536,
            p == if a >= 0 {
                a * s
            } else {
                -(a * s)
            };
    crate::num::lemma_div_sq_bounds(p, l);
    let q: int = p / l;
    if a >= 0 {
        assert(tdiv(a * s, l) == q);
    } else {
        lemma_tdiv_neg(p, l);
        assert(tdiv(a * s, l) == -q);
        assert((-q) * (-q) == q * q) by (nonlinear_arith);
    }
    assert(p * p == (a * a) * (s * s)) by (nonlinear_arith)
        requires
            p == if a >= 0 {
                a * s
            } else {
                -(a * s)
            };
    assert(2 * p * l <= 2 * s * (l * l)) by (nonlinear_arith)
        requires
            0 <= p <= l * s,
            1 <= l,
            s == 65536;
}

/// Law: normalizing a vector whose exact squared length is at least one whole
/// unit squared yields a vector whose fixed-point length is within four
/// sub-units of one whole unit (the fixed-point analogue of unit length up to
/// rounding tolerance).
pub proof fn lemma_unit_vector_length(v: Vec3Model)
    requires
        (SCALE as int) * (SCALE as int) <= sum_sq(v),
    ensures
        SCALE - 4 <= length_m(unit_m(v)) <= SCALE as int,
{
    let s: int = SCALE as int;
    let d: int = sum_sq(v);
    let l: int = length_m(v);
    crate::num::lemma_sqrt_floor_is(s * s, s);
    crate::num::lemma_sqrt_floor_monotone(s * s, d);
    crate::num::lemma_sqrt_floor_props(d);
    assert(d <= l * l + 2 * l) by (nonlinear_arith)
        requires
            d < (l + 1) * (l + 1);
    let a1: int = v.x;
    let a2: int = v.y;
    let a3: int = v.z;
    assert(a1 * a1 <= d && a2 * a2 <= d && a3 * a3 <= d) by (nonlinear_arith)
        requires
            d == a1 * a1 + a2 * a2 + a3 * a3;
    assert(-l <= a1 <= l) by (nonlinear_arith)
        requires
            a1 * a1 <= d,
            d < (l + 1) * (l + 1),
            0 <= l;
    assert(-l <= a2 <= l) by (nonlinear_arith)
        requires
            a2 * a2 <= d,
            d < (l + 1) * (l + 1),
            0 <= l;
    assert(-l <= a3 <= l) by (nonlinear_arith)
        requires
            a3 * a3 <= d,
            d < (l + 1) * (l + 1),
            0 <= l;
    lemma_unit_comp_sq(a1, l);
    lemma_unit_comp_sq(a2, l);
    lemma_unit_comp_sq(a3, l);
    let u1: int = tdiv(a1 * SCALE, l);
    let u2: int = tdiv(a2 * SCALE, l);
    let u3: int = tdiv(a3 * SCALE, l);
    let w: int = sum_sq(unit_m(v));
    assert(w == u1 * u1 + u2 * u2 + u3 * u3);
    assert(w * (l * l) <= d * (s * s)) by (nonlinear_arith)
        requires
            w == u1 * u1 + u2 * u2 + u3 * u3,
            d == a1 * a1 + a2 * a2 + a3 * a3,
            u1 * u1 * (l * l) <= (a1 * a1) * (s * s),
            u2 * u2 * (l * l) <= (a2 * a2) * (s * s),
            u3 * u3 * (l * l) <= (a3 * a3) * (s * s);
    assert(d * (s * s) - 6 * s * (l * l) <= w * (l * l)) by (nonlinear_arith)
        requires
            w == u1 * u1 + u2 * u2 + u3 * u3,
            d == a1 * a1 + a2 * a2 + a3 * a3,
            (a1 * a1) * (s * s) - 2 * s * (l * l) <= u1 * u1 * (l * l),
            (a2 * a2) * (s * s) - 2 * s * (l * l) <= u2 * u2 * (l * l),
            (a3 * a3) * (s * s) - 2 * s * (l * l) <= u3 * u3 * (l * l);
    assert(w <= s * s + 2 * s) by (nonlinear_arith)
        requires
            w * (l * l) <= d * (s * s),
            l * l <= d,
            d <= l * l + 2 * l,
            s <= l,
            s == 65536,
            1 <= l;
    assert(s * s - 6 * s <= w) by (nonlinear_arith)
        requires
            d * (s * s) - 6 * s * (l * l) <= w * (l * l),
            l * l <= d,
            s == 65536,
            1 <= l;
    crate::num::lemma_sqrt_floor_below(w, s);
    crate::num::lemma_sqrt_floor_is((s - 4) * (s - 4), s - 4);
    crate::num::lemma_sqrt_floor_monotone((s - 4) * (s - 4), w);
    assert((s - 4) * (s - 4) <= s * s - 6 * s) by (nonlinear_arith)
        requires
            s == 65536;
}

/// Law: the scaled squared length of a vector is its dot product with itself.
pub proof fn lemma_length_squared_is_dot(v: Vec3Model)
    ensures
        tdiv(sum_sq(v), SCALE as int) == dot_m(v, v),
{
}

} // verus!
