use raytrace::linalg::{cross, dot, unit_vector, Color, Vec3};
use raytrace::num::{HALF_SCALE, SCALE};

const S: i64 = SCALE;

fn v(x: i64, y: i64, z: i64) -> Vec3 {
    Vec3 { x, y, z }
}

#[test]
fn add_is_componentwise() {
    let r = v(1, 2, 3).add(v(4, 5, 6));
    assert_eq!(r, v(5, 7, 9));
}

#[test]
fn sub_is_componentwise() {
    let r = v(10, 2, -3).sub(v(4, 5, 6));
    assert_eq!(r, v(6, -3, -9));
}

#[test]
fn neg_flips_signs() {
    let r = v(1, -2, 0).neg();
    assert_eq!(r, v(-1, 2, 0));
}

#[test]
fn default_is_zero() {
    let r: Vec3 = Default::default();
    assert_eq!(r, v(0, 0, 0));
}

#[test]
fn hadamard_mul_scales_down() {
    // 2.0 * 0.5 = 1.0, 3.0 * 1.0 = 3.0, -1.0 * 2.0 = -2.0
    let r = v(2 * S, 3 * S, -S).mul(v(S / 2, S, 2 * S));
    assert_eq!(r, v(S, 3 * S, -2 * S));
}

#[test]
fn scale_by_half() {
    let r = v(S, -2 * S, 3 * S).scale(HALF_SCALE);
    assert_eq!(r, v(S / 2, -S, 3 * S / 2));
}

#[test]
fn div_by_two() {
    let r = v(S, -2 * S, 3 * S).div(2 * S);
    assert_eq!(r, v(S / 2, -S, 3 * S / 2));
}

#[test]
fn div_truncates_toward_zero() {
    // one sub-unit halved truncates to zero from either sign
    let r = v(1, -1, 3).div(2 * S);
    assert_eq!(r, v(0, 0, 1));
}

#[test]
fn div_by_negative() {
    let r = v(S, 0, -S).div(-S);
    assert_eq!(r, v(-S, 0, S));
}

#[test]
fn accessors_and_index_agree() {
    let a = v(7, 8, 9);
    assert_eq!(a.x(), 7);
    assert_eq!(a.y(), 8);
    assert_eq!(a.z(), 9);
    assert_eq!(a.index(0), 7);
    assert_eq!(a.index(1), 8);
    assert_eq!(a.index(2), 9);
}

#[test]
fn length_of_pythagorean_triple_is_exact() {
    assert_eq!(v(3 * S, 4 * S, 0).length(), 5 * S);
}

#[test]
fn length_rounds_down() {
    // sqrt(2) = 1.41421..., scaled and floored
    assert_eq!(v(S, S, 0).length(), 92681);
}

#[test]
fn length_squared_matches_dot_with_self() {
    let a = v(12345, -6789, 101112);
    assert_eq!(a.length_squared(), dot(&a, &a));
}

#[test]
fn dot_exact_value() {
    let r = dot(&v(S, 2 * S, 3 * S), &v(4 * S, 5 * S, 6 * S));
    assert_eq!(r, 32 * (S as i128));
}

#[test]
fn dot_is_symmetric() {
    let a = v(12347, -985, 30001);
    let b = v(-7, 991, -44444);
    assert_eq!(dot(&a, &b), dot(&b, &a));
}

#[test]
fn cross_of_axes_is_right_handed() {
    let r = cross(&v(S, 0, 0), &v(0, S, 0));
    assert_eq!(r, v(0, 0, S));
}

#[test]
fn cross_is_antisymmetric() {
    let a = v(12347, -985, 30001);
    let b = v(-7, 991, -44444);
    assert_eq!(cross(&a, &b), cross(&b, &a).neg());
}

#[test]
fn unit_vector_of_axis_is_exact() {
    assert_eq!(v(2 * S, 0, 0).unit_vector(), v(S, 0, 0));
    assert_eq!(unit_vector(&v(0, -3 * S, 0)), v(0, -S, 0));
}

#[test]
fn unit_vector_length_is_close_to_one() {
    let u = v(3 * S, 4 * S, 12 * S).unit_vector();
    assert_eq!(u, v(15123, 20164, 60494));
    let len = u.length();
    assert!(S - 4 <= len && len <= S, "length was {}", len);
    let len2 = v(S, S, S).unit_vector().length();
    assert!(S - 4 <= len2 && len2 <= S, "length was {}", len2);
}

#[test]
fn write_color_red_and_black() {
    let red = Color::write_color(v(S, 0, 0));
    assert_eq!(red, "255 0 0");
    let black = Color::write_color(v(0, 0, 0));
    assert_eq!(black, "0 0 0");
}

#[test]
fn write_color_truncates_and_clamps() {
    // 0.5 scales to floor(127.9995) = 127; channels beyond 1.0 keep the
    // saturating-cast value; negative channels clamp to zero
    let line = Color::write_color(v(S / 2, 2 * S, -S));
    assert_eq!(line, "127 511 0");
}
