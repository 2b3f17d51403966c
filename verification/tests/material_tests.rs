use raytracer::fx::{fx_sqrt, FX_ONE};
use raytracer::material::{reflect, schlick, Dielectric, Lambertian, Metal};
use raytracer::rng::rng_from_seed;
use raytracer::vec3::{Ray, Vec3};

#[test]
fn sqrt_exact_values() {
    assert_eq!(2 * FX_ONE, fx_sqrt(4 * FX_ONE));
    assert_eq!(FX_ONE, fx_sqrt(FX_ONE));
    assert_eq!(92681, fx_sqrt(2 * FX_ONE));
    assert_eq!(0, fx_sqrt(0));
}

#[test]
fn unit_vector_has_length_one() {
    // |a.unit()| is one within rounding for any nonzero a
    let cases = [
        Vec3(3 * FX_ONE, -4 * FX_ONE, 12 * FX_ONE),
        Vec3(FX_ONE, FX_ONE, FX_ONE),
        Vec3(0, 0, -7 * FX_ONE),
        Vec3(123456, -654321, 42),
    ];
    for v in cases {
        let l = v.to_unit().len();
        assert!((l - FX_ONE).abs() <= 8, "length {} strays from one", l);
    }
}

#[test]
fn add_then_sub_returns_original() {
    let a = Vec3(123456, -98765, 424242);
    let b = Vec3(-111111, 222222, -333333);
    assert_eq!(a, a.add(b).sub(b));
}

#[test]
fn cross_is_antisymmetric() {
    let a = Vec3(123456, -98765, 424242);
    let b = Vec3(-111111, 222222, -333333);
    assert_eq!(a.cross(b), b.cross(a).neg());
}

#[test]
fn reflect_flips_normal_component() {
    // reflect(v, n) . n == -(v . n), within rounding, for a unit normal
    let v = Vec3(3 * FX_ONE, -2 * FX_ONE, FX_ONE / 2);
    let n = Vec3(0, FX_ONE, 0);
    let d1 = reflect(v, n).dot(&n);
    let d2 = v.dot(&n);
    assert!((d1 + d2).abs() <= 8, "dot products {} and {} do not cancel", d1, d2);
}

#[test]
fn reflect_exact_mirror() {
    // a 45-degree bounce off the floor
    let v = Vec3(FX_ONE, -FX_ONE, 0);
    let n = Vec3(0, FX_ONE, 0);
    assert_eq!(Vec3(FX_ONE, FX_ONE, 0), reflect(v, n));
}

#[test]
fn schlick_at_normal_incidence() {
    // cosine one kills the fifth-power term: only r0^2 remains
    assert_eq!(2621, schlick(FX_ONE, 98304));
}

#[test]
fn lambertian_scatters_near_normal() {
    let mut rng = rng_from_seed(7);
    let mat = Lambertian { albedo: Vec3(FX_ONE / 2, FX_ONE / 4, FX_ONE / 8) };
    let normal = Vec3(0, FX_ONE, 0);
    let origin = Vec3(FX_ONE, 2 * FX_ONE, 3 * FX_ONE);
    let r = Ray { origin: Vec3(0, 0, 0), direction: Vec3(0, -FX_ONE, 0) };
    for _ in 0..16 {
        let (atten, scattered) = mat.scatter(&r, &normal, &origin, &mut rng);
        assert_eq!(mat.albedo, atten);
        assert_eq!(origin, scattered.origin);
        // the direction is the normal plus a point of the open unit ball
        let s = scattered.direction.sub(normal);
        assert!(s.len_squared() < FX_ONE);
    }
}

#[test]
fn metal_with_zero_fuzz_is_exact_mirror() {
    let mut rng = rng_from_seed(7);
    let mat = Metal { albedo: Vec3(FX_ONE, FX_ONE / 2, 0), fuzz: 0 };
    let normal = Vec3(0, FX_ONE, 0);
    let origin = Vec3(0, 0, 0);
    let r = Ray { origin: Vec3(-FX_ONE, FX_ONE, 0), direction: Vec3(FX_ONE, -FX_ONE, 0) };
    let (atten, scattered) = mat.scatter(&r, &normal, &origin, &mut rng);
    assert_eq!(mat.albedo, atten);
    // the unit incoming direction is (46341, -46341, 0); mirroring it
    // about the vertical normal flips its vertical component
    assert_eq!(Vec3(46341, 46341, 0), scattered.direction);
}

#[test]
fn dielectric_reflects_at_critical_boundary() {
    // a grazing exit: the index ratio times the sine is exactly one,
    // which must count as total internal reflection
    let mut rng = rng_from_seed(7);
    let mat = Dielectric { ref_idx: FX_ONE };
    let normal = Vec3(0, 0, FX_ONE);
    let origin = Vec3(0, 0, 0);
    let r = Ray { origin: Vec3(-FX_ONE, 0, 0), direction: Vec3(FX_ONE, 0, 0) };
    let (atten, scattered) = mat.scatter(&r, &normal, &origin, &mut rng);
    assert_eq!(Vec3(FX_ONE, FX_ONE, FX_ONE), atten);
    assert_eq!(Vec3(FX_ONE, 0, 0), scattered.direction);
}

#[test]
fn dielectric_total_internal_reflection() {
    // exiting glass well past the critical angle: always reflected
    let mut rng = rng_from_seed(7);
    let mat = Dielectric { ref_idx: 98304 };
    let normal = Vec3(0, 0, FX_ONE);
    let origin = Vec3(0, 0, 0);
    let d = Vec3(FX_ONE, 0, 13107);
    let r = Ray { origin: Vec3(-FX_ONE, 0, 0), direction: d };
    for _ in 0..8 {
        let (atten, scattered) = mat.scatter(&r, &normal, &origin, &mut rng);
        assert_eq!(Vec3(FX_ONE, FX_ONE, FX_ONE), atten);
        // the reflection of the unit direction about the oriented normal
        let expected = reflect(d.to_unit(), normal.neg());
        assert_eq!(expected, scattered.direction);
    }
}
