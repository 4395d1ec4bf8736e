use pathtracer::fixed::{clamp, div_fx, in_range, mul_fx, sqrt_fx, tdiv_i128, SCALE, T_LIMIT};
use pathtracer::math::{Ray, Vec3};

#[test]
fn tdiv_truncates_toward_zero() {
    assert_eq!(tdiv_i128(7, 2), 3);
    assert_eq!(tdiv_i128(-7, 2), -3);
    assert_eq!(tdiv_i128(7, -2), -3);
    assert_eq!(tdiv_i128(-7, -2), 3);
    assert_eq!(tdiv_i128(0, 5), 0);
}

#[test]
fn fixed_point_products_and_quotients() {
    // 2.0 * 0.5 == 1.0
    assert_eq!(mul_fx(2 * SCALE, SCALE / 2), SCALE);
    // 1.0 / 2.0 == 0.5
    assert_eq!(div_fx(SCALE, 2 * SCALE), SCALE / 2);
    // (-1.5) * 2.0 == -3.0
    assert_eq!(mul_fx(-3 * SCALE / 2, 2 * SCALE), -3 * SCALE);
}

#[test]
fn fixed_point_square_root() {
    // sqrt(4.0) == 2.0
    assert_eq!(sqrt_fx(4 * SCALE), 2 * SCALE);
    // sqrt(0) == 0, sqrt(1.0) == 1.0
    assert_eq!(sqrt_fx(0), 0);
    assert_eq!(sqrt_fx(SCALE), SCALE);
}

#[test]
fn clamp_and_in_range() {
    assert_eq!(clamp(5, 0, 3), 3);
    assert_eq!(clamp(-5, 0, 3), 0);
    assert_eq!(clamp(2, 0, 3), 2);
    assert!(in_range(2, 1, 3));
    assert!(in_range(1, 1, 3));
    assert!(in_range(3, 1, 3));
    assert!(!in_range(4, 1, 3));
}

#[test]
fn vector_arithmetic() {
    let a = Vec3::new(SCALE, 2 * SCALE, 3 * SCALE);
    let b = Vec3::new(SCALE, SCALE, SCALE);
    assert_eq!(a.add(b), Vec3::new(2 * SCALE, 3 * SCALE, 4 * SCALE));
    assert_eq!(a.sub(b), Vec3::new(0, SCALE, 2 * SCALE));
    assert_eq!(a.neg(), Vec3::new(-SCALE, -2 * SCALE, -3 * SCALE));
    assert_eq!(a.mul(b), a);
    assert_eq!(a.scale(2 * SCALE), Vec3::new(2 * SCALE, 4 * SCALE, 6 * SCALE));
    assert_eq!(a.div(2 * SCALE), Vec3::new(SCALE / 2, SCALE, 3 * SCALE / 2));
    assert_eq!(Vec3::origin(), Vec3::new(0, 0, 0));
}

#[test]
fn dot_and_cross_products() {
    let a = Vec3::new(SCALE, 2 * SCALE, 3 * SCALE);
    let b = Vec3::new(SCALE, SCALE, SCALE);
    assert_eq!(Vec3::dot(&a, &b), 6 * SCALE);
    let x = Vec3::new(SCALE, 0, 0);
    let y = Vec3::new(0, SCALE, 0);
    assert_eq!(Vec3::cross(&x, &y), Vec3::new(0, 0, SCALE));
    assert_eq!(Vec3::cross(&y, &x), Vec3::new(0, 0, -SCALE));
}

#[test]
fn lengths_and_normalization() {
    let v = Vec3::new(3 * SCALE, 0, 0);
    assert_eq!(v.length_squared(), 9 * SCALE);
    assert_eq!(v.length(), 3 * SCALE);
    assert_eq!(v.unit(), Vec3::new(SCALE, 0, 0));
    assert_eq!(Vec3::new(0, 2 * SCALE, 0).unit(), Vec3::new(0, SCALE, 0));
    // a vector too short to normalize comes back unchanged
    let tiny = Vec3::new(1, 0, 0);
    assert_eq!(tiny.unit(), tiny);
}

#[test]
fn gamma_correction_is_square_root_per_channel() {
    let c = Vec3::new(SCALE, SCALE / 4, 0);
    assert_eq!(c.gamma_correct(), Vec3::new(SCALE, SCALE / 2, 0));
}

#[test]
fn rgb_maps_bytes_to_unit_channels() {
    assert_eq!(Vec3::rgb(255, 0, 0), Vec3::new(SCALE, 0, 0));
    assert_eq!(
        Vec3::rgb(105, 72, 45),
        Vec3::new(105 * SCALE / 255, 72 * SCALE / 255, 45 * SCALE / 255)
    );
    assert_eq!(Vec3::rgb(105, 72, 45), Vec3::new(421, 289, 180));
}

#[test]
fn ray_parametrization() {
    let r = Ray::new(Vec3::new(SCALE, 0, 0), Vec3::new(0, SCALE, 0));
    assert_eq!(r.at(2 * SCALE), Vec3::new(SCALE, 2 * SCALE, 0));
    assert_eq!(r.at(0), Vec3::new(SCALE, 0, 0));
    assert!(T_LIMIT > 0);
}
