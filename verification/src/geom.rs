//! The ray model, the ray-sphere intersection test, the per-ray shading
//! function and the camera-ray construction for a pixel grid.

use vstd::prelude::*;

verus! {

use crate::num::{
    SCALE, HALF_SCALE, tdiv, sqrt_floor, wide_mul, div_trunc, isqrt, lemma_tdiv_bound,
    lemma_sqrt_floor_at_most,
};
use crate::linalg::{
    Vec3, Point3, Color, Vec3Model, in_range, add_m, sub_m, scale_m, sum_sq, dot_full, unit_m,
};
use vstd::arithmetic::div_mod::{
    lemma_div_by_multiple, lemma_div_is_ordered, lemma_div_is_ordered_by_denominator,
};
use vstd::arithmetic::mul::{lemma_mul_inequality, lemma_mul_nonnegative};

/// Componentwise bound on the scene handed to the intersection and shading
/// functions, chosen so that every intermediate of the quadratic fits the
/// wide type.
pub const MAX_COORD: i64 = 0x1000_0000;

/// Componentwise bound on the camera description handed to the pixel-ray
/// construction, chosen so that the resulting directions stay within
/// `MAX_COORD`.
pub const CAM_LIMIT: i64 = 0x100_0000;

/// A ray: the half-line `origin + t * direction`.
#[derive(Clone, Copy, Debug, PartialEq, Eq, Structural)]
pub struct Ray {
    pub orig: Point3,
    pub dir: Vec3,
}

/// The mathematical value of a ray.
pub struct RayModel {
    pub orig: Vec3Model,
    pub dir: Vec3Model,
}

impl View for Ray {
    type V = RayModel;

    open spec fn view(&self) -> RayModel {
        RayModel { orig: self.orig@, dir: self.dir@ }
    }
}

/// The point of the ray at parameter `t` (a fixed-point scalar): the origin
/// plus the scaled direction.
pub open spec fn at_m(r: RayModel, t: int) -> Vec3Model {
    Vec3Model {
        x: r.orig.x + tdiv(t * r.dir.x, SCALE as int),
        y: r.orig.y + tdiv(t * r.dir.y, SCALE as int),
        z: r.orig.z + tdiv(t * r.dir.z, SCALE as int),
    }
}

/// Quadratic coefficient `a`: the exact squared length of the direction.
pub open spec fn hit_a(r: RayModel) -> int {
    sum_sq(r.dir)
}

/// Half the linear coefficient `h`: the exact product of the center-to-origin
/// offset with the direction.
pub open spec fn hit_h(center: Vec3Model, r: RayModel) -> int {
    dot_full(sub_m(r.orig, center), r.dir)
}

/// Constant coefficient `c`: the exact squared offset length minus the
/// squared radius.
pub open spec fn hit_c(center: Vec3Model, radius: int, r: RayModel) -> int {
    sum_sq(sub_m(r.orig, center)) - radius * radius
}

/// The discriminant `h * h - a * c` of the intersection quadratic.  Its sign
/// decides the hit exactly: the fixed-point quantities carry the same scale
/// on both sides, so no rounding enters before this test.
pub open spec fn hit_disc(center: Vec3Model, radius: int, r: RayModel) -> int {
    hit_h(center, r) * hit_h(center, r) - hit_a(r) * hit_c(center, radius, r)
}

/// The intersection result: minus one (scaled) when the discriminant is
/// negative, otherwise the smaller quadratic root `(-h - sqrt(disc)) / a`
/// as a fixed-point scalar, rounded toward zero.
pub open spec fn hit_m(center: Vec3Model, radius: int, r: RayModel) -> int {
    if hit_disc(center, radius, r) < 0 {
        -(SCALE as int)
    } else {
        tdiv(
            (-hit_h(center, r) - sqrt_floor(hit_disc(center, radius, r))) * (SCALE as int),
            hit_a(r),
        )
    }
}

/// The background blend factor for a missed ray: half of the normalized
/// direction's `y` component shifted up by one.
pub open spec fn blend_factor(r: RayModel) -> int {
    tdiv((unit_m(r.dir).y + SCALE) * (HALF_SCALE as int), SCALE as int)
}

/// The background gradient: the first color weighted by one minus the blend
/// factor, the second by the blend factor.
pub open spec fn background_m(r: RayModel, c1: Vec3Model, c2: Vec3Model) -> Vec3Model {
    let s: int = blend_factor(r);
    add_m(scale_m(c1, SCALE - s), scale_m(c2, s))
}

/// The color derived from a surface normal: each component mapped from
/// `[-1, 1]` into `[0, 1]` by a shift and a halving.
pub open spec fn normal_color_m(n: Vec3Model) -> Vec3Model {
    scale_m(
        add_m(n, Vec3Model { x: SCALE as int, y: SCALE as int, z: SCALE as int }),
        HALF_SCALE as int,
    )
}

/// The shading result: the normal color of the hit point when the sphere is
/// hit in front of the origin, the background gradient otherwise.
pub open spec fn ray_color_m(
    r: RayModel,
    center: Vec3Model,
    radius: int,
    c1: Vec3Model,
    c2: Vec3Model,
) -> Vec3Model {
    let t: int = hit_m(center, radius, r);
    if t > 0 {
        normal_color_m(unit_m(sub_m(at_m(r, t), center)))
    } else {
        background_m(r, c1, c2)
    }
}

impl Ray {
    /// The ray's origin.
    pub fn origin(self) -> (p: Point3)
        ensures
            p@ == self@.orig,
    {
        self.orig
    }

    /// The ray's direction.
    pub fn direction(self) -> (d: Vec3)
        ensures
            d@ == self@.dir,
    {
        self.dir
    }

    /// The point of the ray at parameter `t`.  Negative parameters are
    /// meaningful (behind the origin) and are not rejected.
    pub fn at(self, t: i128) -> (p: Point3)
        requires
            -0x4000_0000_0000_0000 <= t <= 0x4000_0000_0000_0000,
            i64::MIN <= self@.orig.x + tdiv(t * self@.dir.x, SCALE as int) <= i64::MAX,
            i64::MIN <= self@.orig.y + tdiv(t * self@.dir.y, SCALE as int) <= i64::MAX,
            i64::MIN <= self@.orig.z + tdiv(t * self@.dir.z, SCALE as int) <= i64::MAX,
        ensures
            p@ == at_m(self@, t as int),
    {
        Point3 {
            x: Self::at_comp(self.orig.x, self.dir.x, t),
            y: Self::at_comp(self.orig.y, self.dir.y, t),
            z: Self::at_comp(self.orig.z, self.dir.z, t),
        }
    }

    /// One component of the parametric point: `o + (t * d) / SCALE`.
    fn at_comp(o: i64, d: i64, t: i128) -> (r: i64)
        requires
            -0x4000_0000_0000_0000 <= t <= 0x4000_0000_0000_0000,
            i64::MIN <= o + tdiv(t * d, SCALE as int) <= i64::MAX,
        ensures
            r as int == o + tdiv(t * d, SCALE as int),
    {
        proof {
            crate::num::lemma_prod_le(t as int, d as int, 0x4000_0000_0000_0000, 0x8000_0000_0000_0000);
            lemma_tdiv_bound(
                (t as int) * (d as int),
                SCALE as int,
                0x2000_0000_0000_0000_0000_0000_0000_0000,
            );
        }
        let q: i128 = div_trunc(t * (d as i128), SCALE as i128);
        ((o as i128) + q) as i64
    }
}

/// The ray parameter at which `r` first meets the sphere of the given center
/// and radius, as a fixed-point scalar, or minus one (scaled) when the
/// discriminant is negative and the ray misses.  The sign test on the
/// discriminant is exact; only the root itself is rounded (toward zero).
pub fn hit_sphere(center: Point3, radius: i64, r: Ray) -> (t: i128)
    requires
        in_range(center@, MAX_COORD as int),
        in_range(r@.orig, MAX_COORD as int),
        in_range(r@.dir, MAX_COORD as int),
        0 <= radius <= MAX_COORD,
        1 <= sum_sq(r@.dir),
    ensures
        t == hit_m(center@, radius as int, r@),
        -0x2000_0000_0000_0000_0000 <= t <= 0x2000_0000_0000_0000_0000,
        sum_sq(r@.dir) >= (SCALE as int) * (SCALE as int) ==> -0x2000_0000_0000 <= t
            <= 0x2000_0000_0000,
{
    let oc: Vec3 = r.origin().sub(center);
    let dir: Vec3 = r.direction();
    proof {
        crate::num::lemma_prod_le(r@.dir.x, r@.dir.x, 0x1000_0000, 0x1000_0000);
        crate::num::lemma_prod_le(r@.dir.y, r@.dir.y, 0x1000_0000, 0x1000_0000);
        crate::num::lemma_prod_le(r@.dir.z, r@.dir.z, 0x1000_0000, 0x1000_0000);
        crate::num::lemma_prod_le(oc@.x, r@.dir.x, 0x2000_0000, 0x1000_0000);
        crate::num::lemma_prod_le(oc@.y, r@.dir.y, 0x2000_0000, 0x1000_0000);
        crate::num::lemma_prod_le(oc@.z, r@.dir.z, 0x2000_0000, 0x1000_0000);
        crate::num::lemma_prod_le(oc@.x, oc@.x, 0x2000_0000, 0x2000_0000);
        crate::num::lemma_prod_le(oc@.y, oc@.y, 0x2000_0000, 0x2000_0000);
        crate::num::lemma_prod_le(oc@.z, oc@.z, 0x2000_0000, 0x2000_0000);
        crate::num::lemma_prod_le(radius as int, radius as int, 0x1000_0000, 0x1000_0000);
    }
    let a: i128 = wide_mul(dir.x, dir.x) + wide_mul(dir.y, dir.y) + wide_mul(dir.z, dir.z);
    let h: i128 = wide_mul(oc.x, dir.x) + wide_mul(oc.y, dir.y) + wide_mul(oc.z, dir.z);
    let c: i128 = wide_mul(oc.x, oc.x) + wide_mul(oc.y, oc.y) + wide_mul(oc.z, oc.z) - wide_mul(
        radius,
        radius,
    );
    proof {
        assert(a == hit_a(r@));
        assert(h == hit_h(center@, r@));
        assert(c == hit_c(center@, radius as int, r@));
        crate::num::lemma_prod_le(h as int, h as int, 0x600_0000_0000_0000, 0x600_0000_0000_0000);
        crate::num::lemma_prod_le(a as int, c as int, 0x300_0000_0000_0000, 0x1000_0000_0000_0000);
    }
    let disc: i128 = h * h - a * c;
    if disc < 0 {
        -(SCALE as i128)
    } else {
        let sd: u128 = isqrt(disc as u128);
        proof {
            lemma_sqrt_floor_at_most(disc as int, 0x1000_0000_0000_0000);
            crate::num::lemma_prod_le(
                -(h as int) - (sd as int),
                SCALE as int,
                0x2000_0000_0000_0000,
                0x1_0000,
            );
            lemma_tdiv_bound(
                (-(h as int) - (sd as int)) * (SCALE as int),
                a as int,
                0x2000_0000_0000_0000_0000,
            );
            if sum_sq(r@.dir) >= (SCALE as int) * (SCALE as int) {
                assert((SCALE as int) * (SCALE as int) == 0x1_0000_0000);
                lemma_div_is_ordered_by_denominator(
                    0x2000_0000_0000_0000_0000,
                    0x1_0000_0000,
                    a as int,
                );
            }
        }
        let num: i128 = (-h - (sd as i128)) * (SCALE as i128);
        div_trunc(num, a)
    }
}

/// The color seen along `r`: the sphere with the given center and radius is
/// tested first; a hit in front of the origin is shaded by its surface
/// normal, anything else by the vertical background gradient from `color_1`
/// (bottom) to `color_2` (top).
pub fn ray_color(r: &Ray, center: Point3, radius: i64, color_1: &Color, color_2: &Color) -> (c:
    Color)
    requires
        in_range(r@.orig, MAX_COORD as int),
        in_range(r@.dir, MAX_COORD as int),
        in_range(center@, MAX_COORD as int),
        0 <= radius <= MAX_COORD,
        in_range(color_1@, MAX_COORD as int),
        in_range(color_2@, MAX_COORD as int),
        (SCALE as int) * (SCALE as int) <= sum_sq(r@.dir),
        hit_m(center@, radius as int, r@) > 0 ==> 1 <= sum_sq(
            sub_m(at_m(r@, hit_m(center@, radius as int, r@)), center@),
        ),
    ensures
        c@ == ray_color_m(r@, center@, radius as int, color_1@, color_2@),
{
    let t: i128 = hit_sphere(center, radius, *r);
    if t > 0 {
        proof {
            crate::num::lemma_prod_le(t as int, r@.dir.x, 0x2000_0000_0000, 0x1000_0000);
            crate::num::lemma_prod_le(t as int, r@.dir.y, 0x2000_0000_0000, 0x1000_0000);
            crate::num::lemma_prod_le(t as int, r@.dir.z, 0x2000_0000_0000, 0x1000_0000);
            lemma_tdiv_bound(
                (t as int) * r@.dir.x,
                SCALE as int,
                0x2000_0000_0000_0000_0000,
            );
            lemma_tdiv_bound(
                (t as int) * r@.dir.y,
                SCALE as int,
                0x2000_0000_0000_0000_0000,
            );
            lemma_tdiv_bound(
                (t as int) * r@.dir.z,
                SCALE as int,
                0x2000_0000_0000_0000_0000,
            );
        }
        let p: Point3 = r.at(t);
        let diff: Vec3 = p.sub(center);
        let n: Vec3 = diff.unit_vector();
        let shifted: Color = n.add(Vec3 { x: SCALE, y: SCALE, z: SCALE });
        shifted.scale(HALF_SCALE)
    } else {
        let ud: Vec3 = r.direction().unit_vector();
        proof {
            lemma_mul_nonnegative(ud@.y + SCALE, HALF_SCALE as int);
            crate::num::lemma_prod_le(ud@.y + SCALE, HALF_SCALE as int, 0x2_0000, 0x8000);
            lemma_tdiv_bound(
                (ud@.y + SCALE) * (HALF_SCALE as int),
                SCALE as int,
                0x1_0000_0000,
            );
            vstd::arithmetic::div_mod::lemma_div_pos_is_pos(
                (ud@.y + SCALE) * (HALF_SCALE as int),
                SCALE as int,
            );
        }
        let s: i64 = div_trunc(((ud.y + SCALE) as i128) * (HALF_SCALE as i128), SCALE as i128)
            as i64;
        proof {
            crate::num::lemma_prod_le(color_1@.x, (SCALE - s) as int, 0x1000_0000, 0x1_0000);
            crate::num::lemma_prod_le(color_1@.y, (SCALE - s) as int, 0x1000_0000, 0x1_0000);
            crate::num::lemma_prod_le(color_1@.z, (SCALE - s) as int, 0x1000_0000, 0x1_0000);
            crate::num::lemma_prod_le(color_2@.x, s as int, 0x1000_0000, 0x1_0000);
            crate::num::lemma_prod_le(color_2@.y, s as int, 0x1000_0000, 0x1_0000);
            crate::num::lemma_prod_le(color_2@.z, s as int, 0x1000_0000, 0x1_0000);
            lemma_tdiv_bound(color_1@.x * ((SCALE - s) as int), SCALE as int, 0x1000_0000_0000);
            lemma_tdiv_bound(color_1@.y * ((SCALE - s) as int), SCALE as int, 0x1000_0000_0000);
            lemma_tdiv_bound(color_1@.z * ((SCALE - s) as int), SCALE as int, 0x1000_0000_0000);
            lemma_tdiv_bound(color_2@.x * (s as int), SCALE as int, 0x1000_0000_0000);
            lemma_tdiv_bound(color_2@.y * (s as int), SCALE as int, 0x1000_0000_0000);
            lemma_tdiv_bound(color_2@.z * (s as int), SCALE as int, 0x1000_0000_0000);
        }
        let ca: Color = color_1.scale(SCALE - s);
        let cb: Color = color_2.scale(s);
        ca.add(cb)
    }
}

/// The scaled fraction `i / d` as a fixed-point value.
pub open spec fn frac_scaled(i: int, d: int) -> int {
    (i * (SCALE as int)) / d
}

/// The camera ray for pixel `(i, j)`: the direction runs from the camera
/// origin through the viewport point `lower_left + u * horizontal
/// + v * vertical`, where `u` and `v` are the scaled pixel fractions.
pub open spec fn pixel_ray_m(
    origin: Vec3Model,
    lower_left: Vec3Model,
    horizontal: Vec3Model,
    vertical: Vec3Model,
    i: int,
    j: int,
    width: int,
    height: int,
) -> RayModel {
    let u: int = frac_scaled(i, width - 1);
    let v: int = frac_scaled(j, height - 1);
    RayModel {
        orig: origin,
        dir: sub_m(
            add_m(add_m(lower_left, scale_m(horizontal, u)), scale_m(vertical, v)),
            origin,
        ),
    }
}

/// Builds the camera ray for pixel `(i, j)` of a `width` by `height` raster.
/// The direction components stay within `MAX_COORD`, so the ray can be handed
/// to the intersection and shading functions.
pub fn pixel_ray(
    origin: Point3,
    lower_left: Point3,
    horizontal: Vec3,
    vertical: Vec3,
    i: u32,
    j: u32,
    width: u32,
    height: u32,
) -> (r: Ray)
    requires
        2 <= width,
        2 <= height,
        i < width,
        j < height,
        in_range(origin@, CAM_LIMIT as int),
        in_range(lower_left@, CAM_LIMIT as int),
        in_range(horizontal@, CAM_LIMIT as int),
        in_range(vertical@, CAM_LIMIT as int),
    ensures
        r@ == pixel_ray_m(origin@, lower_left@, horizontal@, vertical@, i as int, j as int,
            width as int, height as int),
        in_range(r@.dir, MAX_COORD as int),
        r@.orig == origin@,
{
    let u: i64 = frac_of(i, width - 1);
    let v: i64 = frac_of(j, height - 1);
    proof {
        crate::num::lemma_prod_le(horizontal@.x, u as int, 0x100_0000, 0x1_0000);
        crate::num::lemma_prod_le(horizontal@.y, u as int, 0x100_0000, 0x1_0000);
        crate::num::lemma_prod_le(horizontal@.z, u as int, 0x100_0000, 0x1_0000);
        crate::num::lemma_prod_le(vertical@.x, v as int, 0x100_0000, 0x1_0000);
        crate::num::lemma_prod_le(vertical@.y, v as int, 0x100_0000, 0x1_0000);
        crate::num::lemma_prod_le(vertical@.z, v as int, 0x100_0000, 0x1_0000);
        lemma_tdiv_bound(horizontal@.x * (u as int), SCALE as int, 0x100_0000_0000);
        lemma_tdiv_bound(horizontal@.y * (u as int), SCALE as int, 0x100_0000_0000);
        lemma_tdiv_bound(horizontal@.z * (u as int), SCALE as int, 0x100_0000_0000);
        lemma_tdiv_bound(vertical@.x * (v as int), SCALE as int, 0x100_0000_0000);
        lemma_tdiv_bound(vertical@.y * (v as int), SCALE as int, 0x100_0000_0000);
        lemma_tdiv_bound(vertical@.z * (v as int), SCALE as int, 0x100_0000_0000);
    }
    let su: Vec3 = horizontal.scale(u);
    let sv: Vec3 = vertical.scale(v);
    let dir: Vec3 = lower_left.add(su).add(sv).sub(origin);
    Ray { orig: origin, dir }
}

/// The scaled fraction `i / d` for `i <= d`, a value in `[0, SCALE]`.
fn frac_of(i: u32, d: u32) -> (r: i64)
    requires
        1 <= d,
        i <= d,
    ensures
        r as int == frac_scaled(i as int, d as int),
        0 <= r <= SCALE,
{
    proof {
        lemma_mul_inequality(i as int, d as int, SCALE as int);
        assert(0x10000_0000_0000 >= (i as int) * (SCALE as int) >= 0) by (nonlinear_arith)
            requires
                0 <= (i as int) <= 0xFFFF_FFFF,
                SCALE as int == 0x1_0000;
        lemma_div_is_ordered((i as int) * (SCALE as int), (d as int) * (SCALE as int), d as int);
        lemma_div_by_multiple(SCALE as int, d as int);
        assert((SCALE as int) * (d as int) == (d as int) * (SCALE as int));
        vstd::arithmetic::div_mod::lemma_div_pos_is_pos((i as int) * (SCALE as int), d as int);
    }
    (((i as u64) * (SCALE as u64)) / (d as u64)) as i64
}

/// Law: at parameter zero a ray evaluates to its own origin.
pub proof fn lemma_at_zero(r: RayModel)
    ensures
        at_m(r, 0) == r.orig,
{
    assert(0 * r.dir.x == 0) by (nonlinear_arith);
    assert(0 * r.dir.y == 0) by (nonlinear_arith);
    assert(0 * r.dir.z == 0) by (nonlinear_arith);
}

/// Law: a horizontal ray (direction `y` component zero) that does not hit the
/// sphere blends the two background colors at the exact midpoint factor,
/// whatever its other direction components are.
pub proof fn lemma_horizontal_miss_midpoint(
    r: RayModel,
    center: Vec3Model,
    radius: int,
    c1: Vec3Model,
    c2: Vec3Model,
)
    requires
        r.dir.y == 0,
        1 <= sum_sq(r.dir),
        hit_m(center, radius, r) <= 0,
    ensures
        blend_factor(r) == HALF_SCALE as int,
        ray_color_m(r, center, radius, c1, c2) == add_m(
            scale_m(c1, SCALE - HALF_SCALE as int),
            scale_m(c2, HALF_SCALE as int),
        ),
{
    crate::num::lemma_sqrt_floor_is(1, 1);
    crate::num::lemma_sqrt_floor_monotone(1, sum_sq(r.dir));
    let l: int = crate::linalg::length_m(r.dir);
    assert(0 * (SCALE as int) == 0) by (nonlinear_arith);
    vstd::arithmetic::div_mod::lemma_div_of0(l);
    assert(unit_m(r.dir).y == 0);
    assert((0 + SCALE as int) * (HALF_SCALE as int) == 0x8000_0000) by (nonlinear_arith);
    assert(blend_factor(r) == tdiv(0x8000_0000, SCALE as int));
}

} // verus!
