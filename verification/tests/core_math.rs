use raytracer::fx::{fx_sqrt, fxdiv, fxmul, FX_ONE};
use raytracer::utils::{degrees_to_radians, random_double, tan_half, Interval, PI};
use raytracer::vec3::{
    cross, dot, random_in_unit_disk, random_unit_vector, random_vec3_range, reflect, unit_vector,
    Vec3, NEAR_ZERO_RAW,
};

#[test]
fn fixed_point_products_and_quotients() {
    assert_eq!(fxmul(2 * FX_ONE, 3 * FX_ONE), 6 * FX_ONE);
    assert_eq!(fxmul(-2 * FX_ONE, 3 * FX_ONE), -6 * FX_ONE);
    assert_eq!(fxmul(FX_ONE / 2, FX_ONE / 2), FX_ONE / 4);
    assert_eq!(fxdiv(6 * FX_ONE, 3 * FX_ONE), 2 * FX_ONE);
    assert_eq!(fxdiv(-6 * FX_ONE, 3 * FX_ONE), -2 * FX_ONE);
    assert_eq!(fxdiv(FX_ONE, -2 * FX_ONE), -FX_ONE / 2);
}

#[test]
fn square_roots_are_exact_on_squares() {
    assert_eq!(fx_sqrt(4 * FX_ONE), 2 * FX_ONE);
    assert_eq!(fx_sqrt(9 * FX_ONE), 3 * FX_ONE);
    assert_eq!(fx_sqrt(0), 0);
}

#[test]
fn vector_algebra() {
    let a = Vec3::new(FX_ONE, 2 * FX_ONE, 3 * FX_ONE);
    let b = Vec3::new(4 * FX_ONE, -5 * FX_ONE, 6 * FX_ONE);
    let s = a.add(&b);
    assert_eq!((s.x(), s.y(), s.z()), (5 * FX_ONE, -3 * FX_ONE, 9 * FX_ONE));
    let d = a.sub(&b);
    assert_eq!((d.x(), d.y(), d.z()), (-3 * FX_ONE, 7 * FX_ONE, -3 * FX_ONE));
    assert_eq!(dot(&a, &b), (4 - 10 + 18) * FX_ONE);
    let c = cross(&Vec3::new(FX_ONE, 0, 0), &Vec3::new(0, FX_ONE, 0));
    assert_eq!((c.x, c.y, c.z), (0, 0, FX_ONE));
    assert_eq!(a.length_squared(), 14 * FX_ONE);
}

// Normalized vectors have length one, within fixed-point tolerance.
#[test]
fn unit_vector_has_length_one() {
    let samples = [
        Vec3::new(3 * FX_ONE, 4 * FX_ONE, 0),
        Vec3::new(FX_ONE, FX_ONE, FX_ONE),
        Vec3::new(-7 * FX_ONE, 2 * FX_ONE, 5 * FX_ONE),
        Vec3::new(1000 * FX_ONE, -1, 17),
    ];
    for v in samples.iter() {
        let u = unit_vector(v);
        let err = (u.length() - FX_ONE).abs();
        assert!(err <= 16, "length off by {err}");
    }
}

#[test]
fn random_unit_vector_has_length_one() {
    for _ in 0..200 {
        let u = random_unit_vector();
        let err = (u.length() - FX_ONE).abs();
        assert!(err <= 64, "length off by {err}");
    }
}

// reflect(v, n) preserves magnitude for a unit normal.
#[test]
fn reflection_preserves_magnitude() {
    let n = Vec3::new(0, FX_ONE, 0);
    let cases = [
        Vec3::new(3 * FX_ONE, -4 * FX_ONE, 0),
        Vec3::new(FX_ONE, -FX_ONE, FX_ONE),
        Vec3::new(-2 * FX_ONE, -5 * FX_ONE, 7 * FX_ONE),
    ];
    for v in cases.iter() {
        let r = reflect(v, &n);
        assert_eq!(r.length_squared(), v.length_squared());
        assert_eq!(r.length(), v.length());
    }
    // Exact mirror image about the y axis.
    let r = reflect(&Vec3::new(3 * FX_ONE, -4 * FX_ONE, 0), &n);
    assert_eq!((r.x, r.y, r.z), (3 * FX_ONE, 4 * FX_ONE, 0));
}

#[test]
fn near_zero_thresholds() {
    // 1e-9 is raw 1 at this scale; 0.01 is far above the threshold.
    assert!(Vec3::new(1, -1, 0).near_zero());
    assert!(!Vec3::new(FX_ONE / 100, 0, 0).near_zero());
    assert!(Vec3::new(NEAR_ZERO_RAW - 1, 0, 0).near_zero());
    assert!(!Vec3::new(NEAR_ZERO_RAW, 0, 0).near_zero());
}

#[test]
fn random_ranges_respected() {
    for _ in 0..100 {
        let r = random_double();
        assert!((0..FX_ONE).contains(&r));
        let v = random_vec3_range(-3, 9);
        assert!((-3..9).contains(&v.x));
        assert!((-3..9).contains(&v.y));
        assert!((-3..9).contains(&v.z));
        let p = random_in_unit_disk();
        assert_eq!(p.z, 0);
        assert!((-FX_ONE..FX_ONE).contains(&p.x));
        assert!((-FX_ONE..FX_ONE).contains(&p.y));
        assert!(p.length_squared() < FX_ONE);
    }
}

#[test]
fn zero_width_range_is_constant() {
    let v = random_vec3_range(7, 7);
    assert_eq!((v.x, v.y, v.z), (7, 7, 7));
}

#[test]
fn angles_and_intervals() {
    // 180 degrees is pi radians.
    assert_eq!(degrees_to_radians(180 * FX_ONE), PI);
    // tan(45 degrees) is one, within series tolerance.
    let t = tan_half(90 * FX_ONE);
    assert!((t - FX_ONE).abs() < FX_ONE / 1000, "tan off: {t}");
    let itv = Interval::new(5, 10);
    assert!(itv.contains(5) && itv.contains(10) && itv.contains(7));
    assert!(!itv.contains(4) && !itv.contains(11));
}
