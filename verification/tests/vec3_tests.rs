use raytracer::fx::FX_ONE;
use raytracer::vec3::{Ray, Vec3};

#[test]
fn test_add() {
    let a = Vec3(FX_ONE, FX_ONE, FX_ONE);
    let b = Vec3(FX_ONE, FX_ONE, FX_ONE);
    let c = a.add(b);

    assert_eq!(2 * FX_ONE, c.0);
    assert_eq!(2 * FX_ONE, c.1);
    assert_eq!(2 * FX_ONE, c.2);
}

#[test]
fn test_sub() {
    let a = Vec3(2 * FX_ONE, 2 * FX_ONE, 2 * FX_ONE);
    let b = Vec3(2 * FX_ONE, 2 * FX_ONE, 2 * FX_ONE);
    let c = a.sub(b);

    assert_eq!(0, c.0);
    assert_eq!(0, c.1);
    assert_eq!(0, c.2);
}

#[test]
fn test_mul_vec() {
    let a = Vec3(2 * FX_ONE, 2 * FX_ONE, 2 * FX_ONE);
    let b = Vec3(2 * FX_ONE, 2 * FX_ONE, 2 * FX_ONE);
    let c = a.mul(b);

    assert_eq!(4 * FX_ONE, c.0);
    assert_eq!(4 * FX_ONE, c.1);
    assert_eq!(4 * FX_ONE, c.2);
}

#[test]
fn test_mul_scalar() {
    let a = Vec3(2 * FX_ONE, 2 * FX_ONE, 2 * FX_ONE);
    let c = a.scale(2 * FX_ONE);

    assert_eq!(4 * FX_ONE, c.0);
    assert_eq!(4 * FX_ONE, c.1);
    assert_eq!(4 * FX_ONE, c.2);
}

#[test]
fn test_div_vec() {
    let a = Vec3(2 * FX_ONE, 2 * FX_ONE, 2 * FX_ONE);
    let b = Vec3(2 * FX_ONE, 2 * FX_ONE, 2 * FX_ONE);
    let c = a.div(b);

    assert_eq!(FX_ONE, c.0);
    assert_eq!(FX_ONE, c.1);
    assert_eq!(FX_ONE, c.2);
}

#[test]
fn test_div_scalar() {
    let a = Vec3(2 * FX_ONE, 2 * FX_ONE, 2 * FX_ONE);
    let c = a.div_scale(2 * FX_ONE);

    assert_eq!(FX_ONE, c.0);
    assert_eq!(FX_ONE, c.1);
    assert_eq!(FX_ONE, c.2);
}

#[test]
fn test_dot() {
    let a = Vec3(2 * FX_ONE, 2 * FX_ONE, 2 * FX_ONE);
    let b = Vec3(2 * FX_ONE, 2 * FX_ONE, 2 * FX_ONE);

    assert_eq!(12 * FX_ONE, a.dot(&b));
}

#[test]
fn test_unit() {
    let a = Vec3::unit();

    assert_eq!(FX_ONE, a.0);
    assert_eq!(FX_ONE, a.1);
    assert_eq!(FX_ONE, a.2);
}

#[test]
fn test_len() {
    let a = Vec3::unit();

    assert_eq!(1732, a.len() * 1000 / FX_ONE);
}

#[test]
fn test_cross() {
    let a = Vec3(3 * FX_ONE, 2 * FX_ONE, -2 * FX_ONE);
    let b = Vec3(FX_ONE, 0, -5 * FX_ONE);

    let exp = Vec3(-10 * FX_ONE, 13 * FX_ONE, -2 * FX_ONE);

    assert_eq!(exp, a.cross(b));
}

#[test]
fn test_ray() {
    let r = Ray { origin: Vec3(0, 0, 0), direction: Vec3(FX_ONE, 0, 0) };

    let exp = Vec3(2 * FX_ONE, 0, 0);

    assert_eq!(exp, r.point_at_param(2 * FX_ONE))
}
