use raytracer::camera::{tan_half, Camera};
use raytracer::fx::FX_ONE;
use raytracer::geometry::{Solid, SolidGroup, Sphere};
use raytracer::material::{Lambertian, Material};
use raytracer::render::{background, channel8, color, render_row, sample_coord, T_MAX_HIT, T_MIN_HIT};
use raytracer::rng::{rand_fx, rng_from_seed};
use raytracer::scene::random_scene;
use raytracer::vec3::{Ray, Vec3};

fn grey_sphere(center: Vec3, radius: i64) -> Sphere {
    Sphere {
        center,
        radius,
        material: Material::Lambertian(Lambertian { albedo: Vec3(FX_ONE / 2, FX_ONE / 2, FX_ONE / 2) }),
    }
}

#[test]
fn head_on_unit_sphere_hit() {
    // from two units away, aimed at the center of a unit sphere: the
    // hit parameter is the distance to the center minus the radius
    let s = grey_sphere(Vec3(0, 0, 0), FX_ONE);
    let r = Ray { origin: Vec3(0, 0, 2 * FX_ONE), direction: Vec3(0, 0, -FX_ONE) };
    let rec = s.hit(&r, T_MIN_HIT, T_MAX_HIT).expect("the ray aims at the sphere");
    assert_eq!(FX_ONE, rec.t);
    assert_eq!(Vec3(0, 0, FX_ONE), rec.p);
    // the normal is unit length and points outward
    assert_eq!(Vec3(0, 0, FX_ONE), rec.normal);
    assert!(rec.p.dot(&rec.normal) > 0);
}

#[test]
fn near_root_is_preferred() {
    // entering front face: t = 1, not the far root t = 3
    let s = grey_sphere(Vec3(0, 0, -2 * FX_ONE), FX_ONE);
    let r = Ray { origin: Vec3(0, 0, 0), direction: Vec3(0, 0, -FX_ONE) };
    let rec = s.hit(&r, T_MIN_HIT, T_MAX_HIT).expect("the ray aims at the sphere");
    assert_eq!(FX_ONE, rec.t);
}

#[test]
fn far_root_from_inside() {
    // from the center only the far root lies ahead
    let s = grey_sphere(Vec3(0, 0, 0), FX_ONE);
    let r = Ray { origin: Vec3(0, 0, 0), direction: Vec3(0, 0, -FX_ONE) };
    let rec = s.hit(&r, T_MIN_HIT, T_MAX_HIT).expect("the far root is ahead");
    assert_eq!(FX_ONE, rec.t);
    // a negative-radius shell flips the normal inward
    let hollow = grey_sphere(Vec3(0, 0, 0), -FX_ONE);
    let rec2 = hollow.hit(&r, T_MIN_HIT, T_MAX_HIT).expect("same geometry");
    assert_eq!(Vec3(0, 0, FX_ONE), rec2.normal);
}

#[test]
fn miss_returns_none_and_background() {
    let s = grey_sphere(Vec3(0, 0, -5 * FX_ONE), FX_ONE);
    let group = SolidGroup { solids: vec![s] };
    let r = Ray { origin: Vec3(0, 0, 0), direction: Vec3(0, FX_ONE, 0) };
    assert!(group.hit(&r, T_MIN_HIT, T_MAX_HIT).is_none());
    let mut rng = rng_from_seed(3);
    let c = color(&r, &group, 10, &mut rng);
    assert_eq!(background(&r), c);
    // straight up the gradient is pure sky blue
    assert_eq!(Vec3(FX_ONE / 2, 45875, FX_ONE), c);
}

#[test]
fn zero_depth_is_black() {
    // a sphere dead ahead, yet no bounces left: black
    let s = grey_sphere(Vec3(0, 0, -2 * FX_ONE), FX_ONE);
    let group = SolidGroup { solids: vec![s] };
    let r = Ray { origin: Vec3(0, 0, 0), direction: Vec3(0, 0, -FX_ONE) };
    let mut rng = rng_from_seed(3);
    assert_eq!(Vec3(0, 0, 0), color(&r, &group, 0, &mut rng));
    assert_eq!(Vec3(0, 0, 0), color(&r, &group, -5, &mut rng));
}

#[test]
fn group_picks_nearest() {
    let near = grey_sphere(Vec3(0, 0, -2 * FX_ONE), FX_ONE);
    let far = grey_sphere(Vec3(0, 0, -6 * FX_ONE), FX_ONE);
    // order of members must not matter
    let g1 = SolidGroup { solids: vec![near, far] };
    let near2 = grey_sphere(Vec3(0, 0, -2 * FX_ONE), FX_ONE);
    let far2 = grey_sphere(Vec3(0, 0, -6 * FX_ONE), FX_ONE);
    let g2 = SolidGroup { solids: vec![far2, near2] };
    let r = Ray { origin: Vec3(0, 0, 0), direction: Vec3(0, 0, -FX_ONE) };
    let t1 = g1.hit(&r, T_MIN_HIT, T_MAX_HIT).expect("hits the near sphere").t;
    let t2 = g2.hit(&r, T_MIN_HIT, T_MAX_HIT).expect("hits the near sphere").t;
    assert_eq!(FX_ONE, t1);
    assert_eq!(t1, t2);
}

#[test]
fn channel8_values() {
    assert_eq!(0, channel8(0));
    assert_eq!(0, channel8(-42));
    assert_eq!(255, channel8(FX_ONE));
    assert_eq!(255, channel8(10 * FX_ONE));
    // sqrt(1/4) = 1/2, scaled by 255.99 and truncated
    assert_eq!(127, channel8(FX_ONE / 4));
}

#[test]
fn sample_coord_stays_normalized() {
    assert_eq!(0, sample_coord(0, 20, 0));
    let u = sample_coord(19, 20, FX_ONE - 1);
    assert!(0 <= u && u <= FX_ONE);
    let mut rng = rng_from_seed(9);
    for i in 0..20 {
        let r = rand_fx(&mut rng, 0, FX_ONE);
        let u = sample_coord(i, 20, r);
        assert!(0 <= u && u <= FX_ONE);
    }
}

#[test]
fn tangent_of_half_angle() {
    // 90 degrees: tan of 45 degrees is one, within series error
    assert!((tan_half(90 * FX_ONE) - FX_ONE).abs() < 200);
    // 60 degrees: tan of 30 degrees is 0.5774
    assert!((tan_half(60 * FX_ONE) - 37837).abs() < 200);
}

#[test]
fn random_scene_is_populated() {
    let mut rng = rng_from_seed(11);
    let scene = random_scene(&mut rng);
    assert!(scene.solids.len() >= 4);
    // straight up from above the scene nothing is hit
    let r = Ray { origin: Vec3(0, 4 * FX_ONE, 0), direction: Vec3(0, FX_ONE, 0) };
    assert!(scene.hit(&r, T_MIN_HIT, T_MAX_HIT).is_none());
}

#[test]
fn seeded_render_is_reproducible() {
    // a single diffuse sphere of radius one half at (0, 0, -1), rendered
    // twice at 20 x 10 with 10 samples and depth 10 from the same seed
    let sphere = Sphere {
        center: Vec3(0, 0, -FX_ONE),
        radius: FX_ONE / 2,
        material: Material::Lambertian(Lambertian { albedo: Vec3(FX_ONE / 2, FX_ONE / 2, FX_ONE / 2) }),
    };
    let scene = SolidGroup { solids: vec![sphere] };
    let cam = Camera::new(
        Vec3(0, 0, 0),
        Vec3(0, 0, -FX_ONE),
        Vec3(0, FX_ONE, 0),
        90 * FX_ONE,
        2 * FX_ONE,
        0,
        FX_ONE,
    );

    let mut first: Vec<(i64, i64, i64)> = Vec::new();
    let mut rng = rng_from_seed(42);
    for j in (0..10).rev() {
        let row = render_row(&cam, &scene, j, 20, 10, 10, 10, &mut rng);
        assert_eq!(20, row.len());
        first.extend(row);
    }

    let mut second: Vec<(i64, i64, i64)> = Vec::new();
    let mut rng2 = rng_from_seed(42);
    for j in (0..10).rev() {
        second.extend(render_row(&cam, &scene, j, 20, 10, 10, 10, &mut rng2));
    }

    assert_eq!(first, second);
    assert_eq!(200, first.len());
    for &(r, g, b) in &first {
        assert!(0 <= r && r <= 255);
        assert!(0 <= g && g <= 255);
        assert!(0 <= b && b <= 255);
    }
    // a different seed gives a different estimate somewhere
    let mut third: Vec<(i64, i64, i64)> = Vec::new();
    let mut rng3 = rng_from_seed(43);
    for j in (0..10).rev() {
        third.extend(render_row(&cam, &scene, j, 20, 10, 10, 10, &mut rng3));
    }
    assert_ne!(first, third);
}
