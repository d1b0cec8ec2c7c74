use raytrace::geom::{hit_sphere, pixel_ray, ray_color, Ray};
use raytrace::linalg::Vec3;
use raytrace::num::{HALF_SCALE, SCALE};

const S: i64 = SCALE;

fn v(x: i64, y: i64, z: i64) -> Vec3 {
    Vec3 { x, y, z }
}

#[test]
fn accessors_return_fields() {
    let r = Ray { orig: v(1, 2, 3), dir: v(4, 5, 6) };
    assert_eq!(r.origin(), v(1, 2, 3));
    assert_eq!(r.direction(), v(4, 5, 6));
}

#[test]
fn at_zero_is_origin() {
    let r = Ray { orig: v(123, -456, 789), dir: v(S, -2 * S, 3 * S) };
    assert_eq!(r.at(0), r.origin());
}

#[test]
fn at_one_adds_direction() {
    let r = Ray { orig: v(S, 0, 0), dir: v(0, 2 * S, -S) };
    assert_eq!(r.at(S as i128), v(S, 2 * S, -S));
}

#[test]
fn at_negative_parameter_goes_behind() {
    let r = Ray { orig: v(0, 0, 0), dir: v(S, 0, 0) };
    assert_eq!(r.at(-(S as i128)), v(-S, 0, 0));
}

#[test]
fn hit_straight_on_returns_near_root() {
    // sphere center (0, 0, -1), radius 0.5, ray from origin along -z:
    // the near face at t = 0.5, not the far-side root
    let r = Ray { orig: v(0, 0, 0), dir: v(0, 0, -S) };
    let t = hit_sphere(v(0, 0, -S), S / 2, r);
    assert_eq!(t, (S / 2) as i128);
}

#[test]
fn miss_returns_sentinel() {
    // same sphere, ray along +x: no intersection
    let r = Ray { orig: v(0, 0, 0), dir: v(S, 0, 0) };
    let t = hit_sphere(v(0, 0, -S), S / 2, r);
    assert_eq!(t, -(S as i128));
}

#[test]
fn tangent_ray_uses_same_root_formula() {
    // sphere center (0.5, 0, -1), radius 0.5, ray along -z: discriminant is
    // exactly zero and the single root t = 1 still comes out
    let r = Ray { orig: v(0, 0, 0), dir: v(0, 0, -S) };
    let t = hit_sphere(v(S / 2, 0, -S), S / 2, r);
    assert_eq!(t, S as i128);
}

#[test]
fn shade_center_hit_maps_normal() {
    // straight-on hit: normal (0, 0, 1), color (0.5, 0.5, 1.0)
    let r = Ray { orig: v(0, 0, 0), dir: v(0, 0, -S) };
    let c = ray_color(&r, v(0, 0, -S), S / 2, &v(S, S, S), &v(S / 2, 45876, S));
    assert_eq!(c, v(S / 2, S / 2, S));
}

#[test]
fn shade_horizontal_miss_is_midpoint() {
    // direction y component zero, sphere missed: the exact midpoint of the
    // two background colors, whatever x and z are
    let c1 = v(S, S, S);
    let c2 = v(S / 2, 45876, S);
    let r = Ray { orig: v(0, 0, 0), dir: v(S, 0, 0) };
    let c = ray_color(&r, v(0, 0, -S), S / 2, &c1, &c2);
    assert_eq!(c, v(49152, 55706, S));
    let r2 = Ray { orig: v(0, 0, 0), dir: v(-3 * S, 0, 7 * S) };
    let c_2 = ray_color(&r2, v(0, 0, -S), S / 2, &c1, &c2);
    assert_eq!(c_2, v(49152, 55706, S));
}

#[test]
fn shade_straight_up_takes_second_color() {
    // unit direction y = 1: blend factor 1, the second color alone
    let c1 = v(S, S, S);
    let c2 = v(S / 2, 45876, S);
    let r = Ray { orig: v(0, 0, 0), dir: v(0, S, 0) };
    let c = ray_color(&r, v(0, 0, -S), S / 2, &c1, &c2);
    assert_eq!(c, c2);
}

#[test]
fn pixel_ray_spans_the_viewport() {
    let origin = v(0, 0, 0);
    let lower_left = v(-2 * S, -S, -S);
    let horizontal = v(4 * S, 0, 0);
    let vertical = v(0, 2 * S, 0);
    let r00 = pixel_ray(origin, lower_left, horizontal, vertical, 0, 0, 2, 2);
    assert_eq!(r00.orig, origin);
    assert_eq!(r00.dir, v(-2 * S, -S, -S));
    let r11 = pixel_ray(origin, lower_left, horizontal, vertical, 1, 1, 2, 2);
    assert_eq!(r11.dir, v(2 * S, S, -S));
}

#[test]
fn far_sphere_renders_pure_background() {
    // a 2-by-2 render against a sphere far outside every camera ray: all
    // four pixels must equal the background formula, none a normal shade
    let origin = v(0, 0, 0);
    let lower_left = v(-2 * S, -S, -S);
    let horizontal = v(4 * S, 0, 0);
    let vertical = v(0, 2 * S, 0);
    let center = v(0, 0, 1000 * S);
    let radius = S / 2;
    let c1 = v(S, S, S);
    let c2 = v(S / 2, 45876, S);
    for j in (0..2u32).rev() {
        for i in 0..2u32 {
            let r = pixel_ray(origin, lower_left, horizontal, vertical, i, j, 2, 2);
            // the sphere lies behind the camera: no hit is reported
            assert_eq!(hit_sphere(center, radius, r), -(S as i128));
            let c = ray_color(&r, center, radius, &c1, &c2);
            // the background formula, replayed on the same direction
            let ud = r.direction().unit_vector();
            let s = ((ud.y() + S) * (HALF_SCALE)) / S;
            let expected = c1.scale(S - s).add(c2.scale(s));
            assert_eq!(c, expected);
        }
    }
}
