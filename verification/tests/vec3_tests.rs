use raytracer::aabb::Axis;
use raytracer::fixed::{Fixed, SCALE};
use raytracer::ray::Ray;
use raytracer::vec3::{Vec3, NEAR_ZERO_RAW, UNIT_EPSILON_RAW, UNIT_TOLERANCE_RAW};

fn v(x: i32, y: i32, z: i32) -> Vec3 {
    Vec3::new(Fixed::from_int(x), Fixed::from_int(y), Fixed::from_int(z))
}

fn length_of(u: Vec3) -> f64 {
    let x = u.x.raw as f64 / 4294967296.0;
    let y = u.y.raw as f64 / 4294967296.0;
    let z = u.z.raw as f64 / 4294967296.0;
    (x * x + y * y + z * z).sqrt()
}

#[test]
fn vec3_constructors() {
    assert_eq!(Vec3::splat(Fixed::from_int(2)), v(2, 2, 2));
    assert_eq!(Vec3::zero(), v(0, 0, 0));
    assert_eq!(Vec3::one(), v(1, 1, 1));
    assert_eq!(Vec3::default(), v(0, 0, 0));
    assert_eq!(v(1, 2, 3).get_axis(Axis::X), Fixed::from_int(1));
    assert_eq!(v(1, 2, 3).get_axis(Axis::Y), Fixed::from_int(2));
    assert_eq!(v(1, 2, 3).get_axis(Axis::Z), Fixed::from_int(3));
}

#[test]
fn vec3_arithmetic_exact_values() {
    let a = v(1, 2, 3);
    let b = v(4, -5, 6);
    assert_eq!(a.add(b), v(5, -3, 9));
    assert_eq!(a.sub(b), v(-3, 7, -3));
    assert_eq!(a.mul(b), v(4, -10, 18));
    assert_eq!(v(8, 10, 18).div(v(4, -5, 6)), v(2, -2, 3));
    assert_eq!(a.neg(), v(-1, -2, -3));
    assert_eq!(a.scale(Fixed::from_int(3)), v(3, 6, 9));
    assert_eq!(v(3, 6, 9).div_scalar(Fixed::from_int(3)), a);
    let mut c = a;
    c.add_assign(b);
    assert_eq!(c, v(5, -3, 9));
    c.mul_assign(Fixed::from_int(2));
    assert_eq!(c, v(10, -6, 18));
}

#[test]
fn vec3_dot_and_cross_exact_values() {
    let a = v(1, 2, 3);
    let b = v(4, -5, 6);
    assert_eq!(a.dot(&b), Fixed::from_int(12));
    assert_eq!(a.cross(&b), v(27, 6, -13));
    assert_eq!(v(1, 0, 0).cross(&v(0, 1, 0)), v(0, 0, 1));
}

#[test]
fn vec3_length_exact_values() {
    assert_eq!(v(3, 4, 0).length_squared(), Fixed::from_int(25));
    assert_eq!(v(3, 4, 0).length(), Fixed::from_int(5));
    assert_eq!(v(0, 0, -7).unit_vector(), v(0, 0, -1));
    assert_eq!(Vec3::zero().unit_vector(), Vec3::zero());
}

#[test]
fn vec3_near_zero_threshold() {
    assert_eq!(NEAR_ZERO_RAW, 65536);
    assert!(Vec3::zero().near_zero());
    let tiny = Vec3::new(Fixed::from_raw(65535), Fixed::from_raw(-65535), Fixed::from_raw(0));
    assert!(tiny.near_zero());
    let small = Vec3::new(Fixed::from_raw(0), Fixed::from_raw(65536), Fixed::from_raw(0));
    assert!(!small.near_zero());
    let other = Vec3::new(Fixed::from_raw(0), Fixed::from_raw(0), Fixed::from_raw(-65536));
    assert!(!other.near_zero());
}

#[test]
fn vec3_near_zero_vectors_are_those_without_length() {
    for raw in [0i64, 1, 43, 100, 65535, 65536, 65537, 92681, 1 << 20, 1 << 32, i64::MAX, i64::MIN] {
        for sign in [1i64, -1] {
            let c = Fixed::from_raw(raw.saturating_mul(sign));
            for p in [
                Vec3::new(c, Fixed::zero(), Fixed::zero()),
                Vec3::new(Fixed::from_raw(7), c, Fixed::from_raw(-9)),
                Vec3::new(c, c, c),
            ] {
                assert_eq!(p.near_zero(), p.length_squared().raw == 0);
                assert_eq!(p.near_zero(), p.length().raw == 0);
            }
        }
    }
}

#[test]
fn vec3_unit_vector_of_a_vector_without_length_is_zero() {
    let tiny = Vec3::new(Fixed::from_raw(100), Fixed::zero(), Fixed::from_raw(-65535));
    assert_eq!(tiny.length(), Fixed::zero());
    assert_eq!(tiny.unit_vector(), Vec3::zero());
    assert_eq!(Vec3::zero().unit_vector(), Vec3::zero());
}

#[test]
fn vec3_unit_vector_stays_within_one() {
    // the length is rounded down to 2^-16: the quotient 1.41 is cut to one
    let short = Vec3::new(Fixed::from_raw(92681), Fixed::zero(), Fixed::zero());
    assert_eq!(short.length().raw, 65536);
    assert_eq!(short.unit_vector(), v(1, 0, 0));
    // the squared length sticks at the upper bound
    let huge = Vec3::new(Fixed::from_int(-2000000), Fixed::from_int(3), Fixed::infinity());
    let unit = huge.unit_vector();
    assert_eq!(unit.x, Fixed::from_int(-1));
    assert_eq!(unit.z, Fixed::from_int(1));
    for c in [unit.x, unit.y, unit.z] {
        assert!(-SCALE <= c.raw && c.raw <= SCALE);
    }
    for p in [v(3, 4, 0), v(1, 1, 1), v(-5, 0, 12), v(1000, -2000, 3000)] {
        let unit = p.unit_vector();
        assert!((length_of(unit) - 1.0).abs() < 1e-8);
        assert!(unit.x.abs().raw >= SCALE / 2 || unit.y.abs().raw >= SCALE / 2 || unit.z.abs().raw >= SCALE / 2);
    }
}

#[test]
fn vec3_random_range_stays_in_range_and_varies() {
    let lo = Fixed::from_int(-1);
    let hi = Fixed::from_int(1);
    let mut all_at_lo = true;
    let mut all_at_hi = true;
    for _ in 0..100 {
        let p = Vec3::random_range(lo, hi);
        for c in [p.x, p.y, p.z] {
            assert!(lo.raw <= c.raw && c.raw <= hi.raw);
            all_at_lo = all_at_lo && c == lo;
            all_at_hi = all_at_hi && c == hi;
        }
    }
    assert!(!all_at_lo);
    assert!(!all_at_hi);
    let same = Vec3::random_range(hi, hi);
    assert_eq!(same, Vec3::splat(hi));
}

#[test]
fn vec3_random_components_lie_in_the_unit_interval() {
    for _ in 0..100 {
        let p = Vec3::random();
        for c in [p.x, p.y, p.z] {
            assert!(0 <= c.raw && c.raw <= SCALE);
        }
    }
}

#[test]
fn vec3_unit_from_sample_accepts_the_unit_ball() {
    let inside = Vec3::new(Fixed::from_ratio(1, 2), Fixed::zero(), Fixed::zero());
    assert_eq!(Vec3::unit_from_sample(inside), Some(v(1, 0, 0)));
    let on_the_sphere = v(0, -1, 0);
    assert_eq!(Vec3::unit_from_sample(on_the_sphere), Some(v(0, -1, 0)));
    let corner = v(1, 1, 1);
    assert_eq!(Vec3::unit_from_sample(corner), None);
    assert_eq!(Vec3::unit_from_sample(Vec3::zero()), None);
    // squared length exactly at the bound is rejected, above it the sample is kept
    let at_bound = Vec3::new(Fixed::from_raw(1 << 27), Fixed::zero(), Fixed::zero());
    assert_eq!(at_bound.length_squared().raw, UNIT_EPSILON_RAW);
    assert_eq!(Vec3::unit_from_sample(at_bound), None);
    let above = Vec3::new(Fixed::from_raw((1 << 27) + 64), Fixed::zero(), Fixed::zero());
    assert_eq!(above.length_squared().raw, UNIT_EPSILON_RAW + 4);
    let unit = Vec3::unit_from_sample(above).expect("above the bound");
    assert!((unit.length_squared().raw - SCALE).abs() <= UNIT_TOLERANCE_RAW);
    // a sample this short would be scaled to a length of 1.0001
    let short = Vec3::new(Fixed::from_raw(4195327), Fixed::zero(), Fixed::zero());
    assert_eq!(Vec3::unit_from_sample(short), None);
}

#[test]
fn vec3_random_unit_vector_has_unit_length() {
    for _ in 0..200 {
        let u = Vec3::random_unit_vector();
        assert!((length_of(u) - 1.0).abs() < 1e-6, "length {}", length_of(u));
        assert!((u.length_squared().raw - SCALE).abs() <= UNIT_TOLERANCE_RAW);
        assert!(u.length().raw > 0);
        for c in [u.x, u.y, u.z] {
            assert!(-SCALE <= c.raw && c.raw <= SCALE);
        }
    }
}

#[test]
fn vec3_random_on_hemisphere_points_along_the_normal() {
    let normal = v(0, 0, 1);
    for _ in 0..200 {
        let u = Vec3::random_on_hemisphere(&normal);
        assert!(u.dot(&normal).raw >= 0);
        assert!((length_of(u) - 1.0).abs() < 1e-6);
    }
}

#[test]
fn vec3_toward_flips_a_vector_that_points_away() {
    let normal = v(0, 1, 0);
    assert_eq!(v(1, 2, 3).toward(&normal), v(1, 2, 3));
    assert_eq!(v(1, -2, 3).toward(&normal), v(-1, 2, -3));
    assert_eq!(v(1, 0, 3).toward(&normal), v(-1, 0, -3));
}

#[test]
fn ray_at_exact_values() {
    let r = Ray::new(v(1, 2, 3), v(0, -2, 4), Fixed::from_ratio(1, 2));
    assert_eq!(r.at(Fixed::zero()), v(1, 2, 3));
    assert_eq!(r.at(Fixed::from_int(2)), v(1, -2, 11));
    assert_eq!(r.at(Fixed::from_ratio(-1, 2)), v(1, 3, 1));
    assert_eq!(r.time, Fixed::from_ratio(1, 2));
}

#[test]
fn vec3_to_text_separates_the_components_by_blanks() {
    assert_eq!(v(1, -2, 3).to_text(), "1 -2 3");
    assert_eq!(Vec3::zero().to_text(), "0 0 0");
    let color = Vec3::new(Fixed::from_ratio(1, 2), Fixed::from_ratio(7, 10), Fixed::one());
    assert_eq!(color.to_text(), "0.5 0.69999999995343387126922607421875 1");
    let mixed = Vec3::new(Fixed::from_ratio(-1, 4), Fixed::zero(), Fixed::from_ratio(5, 8));
    assert_eq!(mixed.to_text(), "-0.25 0 0.625");
}
