use pathtracer::fx::{fx_clamp, fx_div, fx_mul, fx_sqrt, SCALE};
use pathtracer::vec3::Vec3;

#[test]
fn scale_is_two_to_sixteen() {
    assert_eq!(SCALE, 65536);
}

#[test]
fn fx_mul_exact_products() {
    assert_eq!(fx_mul(2 * SCALE, 3 * SCALE), 6 * SCALE);
    assert_eq!(fx_mul(SCALE / 2, SCALE / 2), SCALE / 4);
    assert_eq!(fx_mul(0, 12345), 0);
}

#[test]
fn fx_mul_rounds_toward_negative_infinity() {
    // -3 / 65536 floors to -1, not 0.
    assert_eq!(fx_mul(-1, 3), -1);
    assert_eq!(fx_mul(1, 3), 0);
}

#[test]
fn fx_div_exact_quotients() {
    assert_eq!(fx_div(6 * SCALE, 3 * SCALE), 2 * SCALE);
    assert_eq!(fx_div(SCALE, 2 * SCALE), SCALE / 2);
    assert_eq!(fx_div(-SCALE, 2 * SCALE), -SCALE / 2);
}

#[test]
fn fx_sqrt_exact_squares() {
    assert_eq!(fx_sqrt(4 * SCALE), 2 * SCALE);
    assert_eq!(fx_sqrt(25 * SCALE), 5 * SCALE);
    assert_eq!(fx_sqrt(SCALE), SCALE);
    assert_eq!(fx_sqrt(0), 0);
    assert_eq!(fx_sqrt(-5), 0);
}

#[test]
fn fx_clamp_cases() {
    assert_eq!(fx_clamp(5, 0, 10), 5);
    assert_eq!(fx_clamp(-5, 0, 10), 0);
    assert_eq!(fx_clamp(15, 0, 10), 10);
}

#[test]
fn vec3_componentwise_ops() {
    let a = Vec3::new(SCALE, 2 * SCALE, -SCALE);
    let b = Vec3::new(SCALE, SCALE, SCALE);
    let s = a.add(b);
    assert_eq!((s.x(), s.y(), s.z()), (2 * SCALE, 3 * SCALE, 0));
    let d = a.sub(b);
    assert_eq!((d.x(), d.y(), d.z()), (0, SCALE, -2 * SCALE));
    let m = a.mul(b);
    assert_eq!((m.x(), m.y(), m.z()), (SCALE, 2 * SCALE, -SCALE));
    let n = a.neg();
    assert_eq!((n.x(), n.y(), n.z()), (-SCALE, -2 * SCALE, SCALE));
    let k = a.scale(2 * SCALE);
    assert_eq!((k.x(), k.y(), k.z()), (2 * SCALE, 4 * SCALE, -2 * SCALE));
    let q = a.divide(2 * SCALE);
    assert_eq!((q.x(), q.y(), q.z()), (SCALE / 2, SCALE, -SCALE / 2));
    let e = a.div(Vec3::new(SCALE, 2 * SCALE, 4 * SCALE));
    assert_eq!((e.x(), e.y(), e.z()), (SCALE, SCALE, -SCALE / 4));
}

#[test]
fn vec3_colour_channels_alias_components() {
    let c = Vec3::new(1, 2, 3);
    assert_eq!(c.r(), c.x());
    assert_eq!(c.g(), c.y());
    assert_eq!(c.b(), c.z());
}

#[test]
fn dot_and_length_of_pythagorean_vector() {
    let v = Vec3::new(3 * SCALE, 4 * SCALE, 0);
    assert_eq!(v.dot(v), 25 * SCALE);
    assert_eq!(v.length_squared(), 25 * SCALE);
    assert_eq!(v.length(), 5 * SCALE);
}

#[test]
fn cross_of_axes_gives_third_axis() {
    let x = Vec3::new(SCALE, 0, 0);
    let y = Vec3::new(0, SCALE, 0);
    let z = x.cross(y);
    assert_eq!((z.x(), z.y(), z.z()), (0, 0, SCALE));
    let w = y.cross(x);
    assert_eq!((w.x(), w.y(), w.z()), (0, 0, -SCALE));
}

#[test]
fn near_zero_threshold() {
    assert!(Vec3::new(0, 0, 0).near_zero());
    assert!(Vec3::new(100, -100, 100).near_zero());
    assert!(!Vec3::new(SCALE, 0, 0).near_zero());
    assert!(!Vec3::new(0, 256, 0).near_zero());
}

#[test]
fn unit_vector_has_length_one_within_tolerance() {
    // The proved tolerance: the squared norm of the normalized vector is
    // within about 2^-13 of one.
    let cases = [
        Vec3::new(3 * SCALE, 4 * SCALE, 0),
        Vec3::new(SCALE, SCALE, SCALE),
        Vec3::new(-7 * SCALE, 2 * SCALE, 9999),
        Vec3::new(123456789, -987654, 3),
    ];
    for v in cases {
        let u = v.unit_vector();
        let w = (u.x() as i128) * (u.x() as i128) + (u.y() as i128) * (u.y() as i128)
            + (u.z() as i128) * (u.z() as i128);
        let s = SCALE as i128;
        assert!(w >= s * s - 6 * s - 1536, "norm too small: {}", w);
        assert!(w <= s * s + 9 * s + 1540, "norm too large: {}", w);
    }
}

#[test]
fn unit_vector_of_axis_is_exact() {
    let v = Vec3::new(0, 0, -5 * SCALE);
    let u = v.unit_vector();
    assert_eq!((u.x(), u.y(), u.z()), (0, 0, -SCALE));
}

#[test]
fn reflect_about_y_axis() {
    let v = Vec3::new(SCALE, -SCALE, 0);
    let n = Vec3::new(0, SCALE, 0);
    let r = v.reflect(n);
    assert_eq!((r.x(), r.y(), r.z()), (SCALE, SCALE, 0));
    // The incoming and the reflected vector have the same squared norm.
    assert_eq!(r.length_squared(), v.length_squared());
}

#[test]
fn refract_with_unit_ratio_passes_straight_through() {
    let v = Vec3::new(0, 0, -SCALE);
    let n = Vec3::new(0, 0, SCALE);
    let r = v.refract(n, SCALE);
    assert_eq!((r.x(), r.y(), r.z()), (0, 0, -SCALE));
}
