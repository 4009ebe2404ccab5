use raytracer::fixed::{SCALE, fx_mul, fx_div, fx_sqrt, div_int};
use raytracer::vec3::Vec3;

#[test]
fn fixed_point_basics() {
    assert_eq!(fx_mul(SCALE, SCALE), SCALE);
    assert_eq!(fx_mul(2 * SCALE, 3 * SCALE), 6 * SCALE);
    assert_eq!(fx_mul(-SCALE / 2, SCALE), -SCALE / 2);
    assert_eq!(fx_div(SCALE, 2 * SCALE), SCALE / 2);
    assert_eq!(fx_div(-3 * SCALE, 2 * SCALE), -3 * SCALE / 2);
    assert_eq!(fx_sqrt(4 * SCALE), 2 * SCALE);
    assert_eq!(fx_sqrt(0), 0);
    assert_eq!(fx_sqrt(SCALE), SCALE);
    assert_eq!(div_int(10 * SCALE, 4), 10 * SCALE / 4);
    assert_eq!(div_int(-7, 2), -3);
}

#[test]
fn vector_arithmetic() {
    let a = Vec3::new(SCALE, 2 * SCALE, -3 * SCALE);
    let b = Vec3::new(-SCALE, SCALE / 2, SCALE);
    assert_eq!(a.add(&b), Vec3::new(0, 2 * SCALE + SCALE / 2, -2 * SCALE));
    assert_eq!(a.sub(&b), Vec3::new(2 * SCALE, 3 * SCALE / 2, -4 * SCALE));
    assert_eq!(a.neg(), Vec3::new(-SCALE, -2 * SCALE, 3 * SCALE));
    assert_eq!(a.mul(2 * SCALE), Vec3::new(2 * SCALE, 4 * SCALE, -6 * SCALE));
    assert_eq!(a.div(2 * SCALE), Vec3::new(SCALE / 2, SCALE, -3 * SCALE / 2));
    assert_eq!(a.mul_vec(&b), Vec3::new(-SCALE, SCALE, -3 * SCALE));
    assert_eq!(a.x(), SCALE);
    assert_eq!(a.y(), 2 * SCALE);
    assert_eq!(a.z(), -3 * SCALE);
    assert_eq!(Vec3::zero(), Vec3::new(0, 0, 0));
}

#[test]
fn dot_cross_length() {
    let a = Vec3::new(SCALE, 0, 0);
    let b = Vec3::new(0, SCALE, 0);
    assert_eq!(a.dot(&b), 0);
    assert_eq!(a.dot(&a), SCALE);
    assert_eq!(a.cross(&b), Vec3::new(0, 0, SCALE));
    let c = Vec3::new(3 * SCALE, 4 * SCALE, 0);
    assert_eq!(c.length_squared(), 25 * SCALE);
    assert_eq!(c.length(), 5 * SCALE);
    assert_eq!(c.unit(), Vec3::new(3 * SCALE / 5, 4 * SCALE / 5, 0));
}

#[test]
fn near_zero_is_exact_zero() {
    assert!(Vec3::new(0, 0, 0).near_zero());
    assert!(!Vec3::new(1, 0, 0).near_zero());
    assert!(!Vec3::new(0, 0, -1).near_zero());
}

#[test]
fn unit_of_zero_vector_is_guarded() {
    assert_eq!(Vec3::new(0, 0, 0).unit(), Vec3::new(0, 0, 0));
}

// Reflecting about an axis-aligned unit normal flips the normal component
// exactly.
#[test]
fn reflect_axis_normal_exact() {
    let n = Vec3::new(0, 0, SCALE);
    let v = Vec3::new(12345, -999, 77777);
    let r = v.reflect(&n);
    assert_eq!(r, Vec3::new(12345, -999, -77777));
    assert_eq!(r.dot(&n), -v.dot(&n));
}

// The same law on a skew unit normal, within the proved rounding tolerance.
#[test]
fn reflect_skew_normal_opposes() {
    let n = Vec3::new(39322, 52429, 0);
    assert_eq!(n.dot(&n), SCALE);
    let v = Vec3::new(100000, -50000, 25000);
    let d = v.dot(&n);
    let rd = v.reflect(&n).dot(&n);
    assert!((rd + d).abs() <= 13 + 6 * d.abs() / SCALE);
}

#[test]
fn refract_straight_through() {
    // Head-on incidence with matched indices passes straight through.
    let n = Vec3::new(0, 0, SCALE);
    let v = Vec3::new(0, 0, -SCALE);
    let r = v.refract(&n, SCALE);
    // cos = 1, perpendicular part is zero, parallel part is -n.
    assert_eq!(r, Vec3::new(0, 0, -SCALE));
}

// The refracted direction opposes the normal, within the proved rounding
// allowance.
#[test]
fn refract_opposes_normal() {
    let n = Vec3::new(0, 0, SCALE);
    let slanted = Vec3::new(46340, 0, -46340);
    for f in [43690i64, SCALE, 98304] {
        let r = slanted.refract(&n, f);
        assert!(SCALE * r.dot(&n) <= 26 * SCALE + 12 * f);
    }
}

#[test]
fn random_vectors_respect_bounds() {
    for _ in 0..50 {
        let v = Vec3::random_range(-SCALE, SCALE);
        assert!(-SCALE <= v.x() && v.x() <= SCALE);
        assert!(-SCALE <= v.y() && v.y() <= SCALE);
        assert!(-SCALE <= v.z() && v.z() <= SCALE);
        let u = Vec3::random_unit();
        assert!(u.x().abs() <= 2 * SCALE);
        assert!(u.y().abs() <= 2 * SCALE);
        assert!(u.z().abs() <= 2 * SCALE);
        // the sampler only hands out near-unit vectors
        assert!((u.dot(&u) - SCALE).abs() <= 256);
        let d = Vec3::random_in_unit_disk();
        assert_eq!(d.z(), 0);
        assert!(d.x().abs() <= SCALE);
        assert!(d.y().abs() <= SCALE);
        // and disk points stay inside the unit circle
        assert!(d.dot(&d) <= SCALE);
    }
}
