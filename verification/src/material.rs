//! Surface materials and their scattering rules.
//!
//! A material, given an incoming ray, the surface normal and the hit
//! point, yields an attenuation color and the scattered outgoing ray.
//! The set of materials is closed, so it is modelled as an enum over
//! the three variants; each variant's deterministic computations are
//! pinned to spec-level mirrors, and the random parts are constrained
//! by what holds of every draw.

use vstd::prelude::*;
use crate::fx::{
    fxd, fxm, fxsqrt, fx_div, fx_min, fx_mul, fx_sqrt, is_sqrt, lemma_fxm_bound, lemma_tdiv_bound,
    tdiv, FX_ONE,
};
use crate::rng::rand_fx;
use crate::sample::random_in_unit_sphere;
use crate::vec3::{
    lemma_tdiv_any, sv_add, sv_dot, sv_len_sq, sv_neg, sv_scale, sv_sub, sv_to_unit, vbnd, Ray,
    Vec3, VEC_BOUND,
};

verus! {

/// A perfectly diffuse surface of a certain color.
#[derive(Clone, Copy, Debug)]
pub struct Lambertian {
    pub albedo: Vec3,
}

/// A reflective surface; `fuzz` in `[0, 1]` blurs the mirror image.
#[derive(Clone, Copy, Debug)]
pub struct Metal {
    pub albedo: Vec3,
    pub fuzz: i64,
}

/// A refractive surface with the given relative refractive index.
#[derive(Clone, Copy, Debug)]
pub struct Dielectric {
    pub ref_idx: i64,
}

/// The closed set of surface materials.
#[derive(Clone, Copy, Debug)]
pub enum Material {
    Lambertian(Lambertian),
    Metal(Metal),
    Dielectric(Dielectric),
}

/// Every channel of a color lies in `[0, 1]`.
pub open spec fn color_ok(c: Vec3) -> bool {
    0 <= c.0 <= FX_ONE && 0 <= c.1 <= FX_ONE && 0 <= c.2 <= FX_ONE
}

/// Well-formedness of a material's parameters: colors are colors,
/// fuzz lies in `[0, 1]`, and the refractive index lies in `[1/8, 8]`
/// (ample for physical media), which keeps its reciprocal in range.
pub open spec fn mat_ok(m: Material) -> bool {
    match m {
        Material::Lambertian(l) => color_ok(l.albedo),
        Material::Metal(mt) => color_ok(mt.albedo) && 0 <= mt.fuzz <= FX_ONE,
        Material::Dielectric(d) => FX_ONE / 8 <= d.ref_idx <= 8 * FX_ONE,
    }
}

/// Mirror of mirror reflection about a normal:
/// `v - n * (2 * (v . n))`.
pub open spec fn sv_reflect(v: Vec3, n: Vec3) -> Vec3 {
    sv_sub(v, sv_scale(n, fxm(sv_dot(v, n), 131072) as i64))
}

/// Mirror of Snell refraction: the component parallel to the surface
/// is scaled by the index ratio, the perpendicular one restores unit
/// length (its square is clamped at zero where rounding would push it
/// below).
pub open spec fn sv_refract(inv: Vec3, norm: Vec3, eta: i64) -> Vec3 {
    let cos = sv_dot(sv_neg(inv), norm);
    let par = sv_scale(sv_add(inv, sv_scale(norm, cos as i64)), eta);
    let k = FX_ONE as int - sv_len_sq(par);
    let s = if k < 0 {
        0int
    } else {
        fxsqrt(k)
    };
    sv_add(par, sv_scale(norm, (-s) as i64))
}

/// Mirror of the Schlick reflectance approximation:
/// `r0^2 + (1 - r0^2) * (1 - cos)^5` with `r0 = (1 - eta) / (1 + eta)`.
pub open spec fn sv_schlick(cos: i64, eta: i64) -> int {
    let r0 = fxd(FX_ONE as int - eta, FX_ONE as int + eta);
    let r1 = fxm(r0, r0);
    let p = FX_ONE as int - cos;
    let p2 = fxm(p, p);
    let p4 = fxm(p2, p2);
    let p5 = fxm(p4, p);
    r1 + fxm(FX_ONE as int - r1, p5)
}

/// The deterministic quantities a dielectric derives from the incoming
/// direction and the outward normal: the unit direction, the oriented
/// normal, the index ratio, and whether total internal reflection is
/// forced.  The boundary case — ratio times sine exactly one — counts
/// as total internal reflection.
pub open spec fn sv_diel_env(d: Dielectric, dir: Vec3, normal: Vec3) -> (Vec3, Vec3, i64, bool) {
    let front = sv_dot(dir, normal) < 0;
    let norm = if front {
        normal
    } else {
        sv_neg(normal)
    };
    let unit = sv_to_unit(dir);
    let eta: i64 = if front {
        fxd(65536, d.ref_idx as int) as i64
    } else {
        d.ref_idx
    };
    let cd = sv_dot(sv_neg(unit), norm);
    let cos: i64 = if cd <= FX_ONE as int {
        cd as i64
    } else {
        FX_ONE
    };
    let c2 = fxm(cos as int, cos as int);
    let sin: i64 = if c2 > FX_ONE as int {
        0
    } else {
        fxsqrt(FX_ONE as int - c2) as i64
    };
    let tir = fxm(eta as int, sin as int) >= FX_ONE as int;
    (unit, norm, eta, tir)
}

/// What scattering promises for every material and every random draw:
/// the ray leaves from the hit point with a bounded direction, the
/// attenuation is the material's own, and the direction relates to the
/// incoming ray as the variant prescribes.
pub open spec fn scatter_post(m: Material, r: Ray, normal: Vec3, origin: Vec3, out: (Vec3, Ray)) -> bool {
    &&& out.1.origin == origin
    &&& vbnd(out.1.direction, 0x400_0000)
    &&& match m {
        Material::Lambertian(l) => {
            &&& out.0 == l.albedo
            &&& exists|s: Vec3|
                sv_len_sq(s) < FX_ONE as int && out.1.direction == sv_add(s, normal)
        },
        Material::Metal(mt) => {
            &&& out.0 == mt.albedo
            &&& exists|s: Vec3|
                sv_len_sq(s) < FX_ONE as int && out.1.direction == sv_add(
                    sv_reflect(sv_to_unit(r.direction), normal),
                    sv_scale(s, mt.fuzz),
                )
            &&& (mt.fuzz == 0 ==> out.1.direction == sv_reflect(sv_to_unit(r.direction), normal))
        },
        Material::Dielectric(d) => {
            let (unit, norm, eta, tir) = sv_diel_env(d, r.direction, normal);
            &&& out.0 == (Vec3(FX_ONE, FX_ONE, FX_ONE))
            &&& (tir ==> out.1.direction == sv_reflect(unit, norm))
            &&& (out.1.direction == sv_reflect(unit, norm) || (!tir && out.1.direction
                == sv_refract(unit, norm, eta)))
        },
    }
}

/// What scattering asks of its inputs: a usable incoming direction and
/// a normal of roughly unit size (the integrator checks both before
/// calling), and a well-formed material.
pub open spec fn scatter_pre(m: Material, r: Ray, normal: Vec3) -> bool {
    &&& mat_ok(m)
    &&& vbnd(r.direction, VEC_BOUND as int)
    &&& sv_len_sq(r.direction) > 0
    &&& vbnd(normal, 2 * FX_ONE as int)
}

/// Mirror reflection of `incident` about `normal`.
pub fn reflect(incident: Vec3, normal: Vec3) -> (r: Vec3)
    requires
        vbnd(incident, 4 * FX_ONE as int),
        vbnd(normal, 2 * FX_ONE as int),
    ensures
        r == sv_reflect(incident, normal),
        vbnd(r, 0x100_0000),
{
    proof {
        lemma_fxm_bound(incident.0 as int, normal.0 as int, 0x4_0000, 0x2_0000);
        lemma_fxm_bound(incident.1 as int, normal.1 as int, 0x4_0000, 0x2_0000);
        lemma_fxm_bound(incident.2 as int, normal.2 as int, 0x4_0000, 0x2_0000);
    }
    let d = incident.dot(&normal);
    proof {
        lemma_fxm_bound(d as int, 131072, 0x18_0000, 0x2_0000);
    }
    let two_d = fx_mul(d, 2 * FX_ONE);
    proof {
        lemma_fxm_bound(normal.0 as int, two_d as int, 0x2_0000, 0x30_0000);
        lemma_fxm_bound(normal.1 as int, two_d as int, 0x2_0000, 0x30_0000);
        lemma_fxm_bound(normal.2 as int, two_d as int, 0x2_0000, 0x30_0000);
    }
    incident.sub(normal.scale(two_d))
}

/// Snell refraction of the unit direction `inv` about the oriented
/// normal `norm` with index ratio `eta`.
pub fn refract(inv: Vec3, norm: Vec3, eta: i64) -> (r: Vec3)
    requires
        vbnd(inv, 2 * FX_ONE as int),
        vbnd(norm, 2 * FX_ONE as int),
        FX_ONE / 8 <= eta <= 8 * FX_ONE,
    ensures
        r == sv_refract(inv, norm, eta),
        vbnd(r, 0x400_0000),
{
    proof {
        assert(sv_neg(inv).0 as int == -(inv.0 as int));
        assert(sv_neg(inv).1 as int == -(inv.1 as int));
        assert(sv_neg(inv).2 as int == -(inv.2 as int));
        lemma_fxm_bound(sv_neg(inv).0 as int, norm.0 as int, 0x2_0000, 0x2_0000);
        lemma_fxm_bound(sv_neg(inv).1 as int, norm.1 as int, 0x2_0000, 0x2_0000);
        lemma_fxm_bound(sv_neg(inv).2 as int, norm.2 as int, 0x2_0000, 0x2_0000);
    }
    let cos_theta = inv.neg().dot(&norm);
    proof {
        lemma_fxm_bound(norm.0 as int, cos_theta as int, 0x2_0000, 0x30_0000);
        lemma_fxm_bound(norm.1 as int, cos_theta as int, 0x2_0000, 0x30_0000);
        lemma_fxm_bound(norm.2 as int, cos_theta as int, 0x2_0000, 0x30_0000);
    }
    let shifted = inv.add(norm.scale(cos_theta));
    proof {
        lemma_fxm_bound(shifted.0 as int, eta as int, 0x70_0000, 0x8_0000);
        lemma_fxm_bound(shifted.1 as int, eta as int, 0x70_0000, 0x8_0000);
        lemma_fxm_bound(shifted.2 as int, eta as int, 0x70_0000, 0x8_0000);
    }
    let r_par = shifted.scale(eta);
    let q = r_par.len_squared();
    let s = if FX_ONE - q < 0 {
        0
    } else {
        fx_sqrt(FX_ONE - q)
    };
    proof {
        assert(s as int <= FX_ONE as int) by (nonlinear_arith)
            requires
                s as int == 0 || (is_sqrt((65536 - sv_len_sq(r_par)) * 65536, s as int) && 0
                    <= 65536 - sv_len_sq(r_par) <= 65536),
        {
            assert((s as int) * (s as int) <= 65536int * 65536 || s as int == 0);
        }
        lemma_fxm_bound(norm.0 as int, -s as int, 0x2_0000, 0x1_0000);
        lemma_fxm_bound(norm.1 as int, -s as int, 0x2_0000, 0x1_0000);
        lemma_fxm_bound(norm.2 as int, -s as int, 0x2_0000, 0x1_0000);
    }
    let r_perp = norm.scale(-s);
    r_par.add(r_perp)
}

/// The Schlick reflectance approximation for the given cosine of
/// incidence and index ratio.
pub fn schlick(cosine: i64, ref_idx: i64) -> (r: i64)
    requires
        FX_ONE / 8 <= ref_idx <= 8 * FX_ONE,
        -0x20_0000 <= cosine <= FX_ONE,
    ensures
        r as int == sv_schlick(cosine, ref_idx),
{
    proof {
        lemma_tdiv_any((65536 - ref_idx as int) * 65536, 0x7_0000_0000_0000, 65536 + ref_idx as int);
    }
    let r0 = fx_div(FX_ONE - ref_idx, FX_ONE + ref_idx);
    proof {
        lemma_tdiv_r0_tight(ref_idx as int, r0 as int);
        lemma_fxm_bound(r0 as int, r0 as int, 0x8_0000, 0x8_0000);
    }
    let r1 = fx_mul(r0, r0);
    let p = FX_ONE - cosine;
    proof {
        lemma_fxm_bound(p as int, p as int, 0x30_0000, 0x30_0000);
        lemma_fxm_bound(fxm(p as int, p as int), fxm(p as int, p as int), 0x900_0000, 0x900_0000);
        lemma_fxm_bound(
            fxm(fxm(p as int, p as int), fxm(p as int, p as int)),
            p as int,
            0x51_0000_0000,
            0x30_0000,
        );
        lemma_fxm_bound(
            FX_ONE as int - r1 as int,
            fxm(fxm(fxm(p as int, p as int), fxm(p as int, p as int)), p as int),
            0x41_0000,
            0xF30_0000_0000,
        );
    }
    let p2 = fx_mul(p, p);
    let p4 = fx_mul(p2, p2);
    let p5 = fx_mul(p4, p);
    r1 + fx_mul(FX_ONE - r1, p5)
}

/// The quotient `(1 - eta) / (1 + eta)` has magnitude under eight,
/// because the denominator is at least one (in fixed-point units).
proof fn lemma_tdiv_r0_tight(eta: int, r0: int)
    requires
        8192 <= eta <= 524288,
        r0 == fxd(65536 - eta, 65536 + eta),
    ensures
        -524288 <= r0 <= 524288,
{
    assert(-524288 <= tdiv((65536 - eta) * 65536, 65536 + eta) <= 524288) by (nonlinear_arith)
        requires 8192 <= eta <= 524288
    {
        assert((524288 - 65536) * 65536 <= 524288 * (65536 + 8192)) by (nonlinear_arith);
    }
}

/// Reflecting about an exactly unit normal flips the dot product with
/// that normal: `reflect(v, n) . n` equals `-(v . n)` up to a rounding
/// error below nine raw units (about `0.00014`).  The normal must have
/// exactly unit length at the raw-integer level, as axis-aligned
/// normals do; for normals that are only approximately unit the
/// identity holds only approximately, scaled by the norm's error.
pub proof fn lemma_reflect_flips_dot(v: Vec3, n: Vec3)
    requires
        vbnd(v, 4 * FX_ONE as int),
        (n.0 as int) * (n.0 as int) + (n.1 as int) * (n.1 as int) + (n.2 as int) * (n.2 as int)
            == 65536 * 65536,
    ensures
        -8 <= sv_dot(sv_reflect(v, n), n) + sv_dot(v, n) <= 8,
{
    let v0 = v.0 as int;
    let v1 = v.1 as int;
    let v2 = v.2 as int;
    let n0 = n.0 as int;
    let n1 = n.1 as int;
    let n2 = n.2 as int;
    assert(n0 * n0 <= 65536int * 65536 && n1 * n1 <= 65536int * 65536 && n2 * n2 <= 65536int
        * 65536) by (nonlinear_arith)
        requires n0 * n0 + n1 * n1 + n2 * n2 == 65536int * 65536
    {
    }
    assert(-65536 <= n0 <= 65536) by (nonlinear_arith)
        requires n0 * n0 <= 65536int * 65536
    {
    }
    assert(-65536 <= n1 <= 65536) by (nonlinear_arith)
        requires n1 * n1 <= 65536int * 65536
    {
    }
    assert(-65536 <= n2 <= 65536) by (nonlinear_arith)
        requires n2 * n2 <= 65536int * 65536
    {
    }

    let d = sv_dot(v, n);
    let f0 = fxm(v0, n0);
    let f1 = fxm(v1, n1);
    let f2 = fxm(v2, n2);
    lemma_fxm_bound(v0, n0, 0x4_0000, 0x1_0000);
    lemma_fxm_bound(v1, n1, 0x4_0000, 0x1_0000);
    lemma_fxm_bound(v2, n2, 0x4_0000, 0x1_0000);
    let p0 = v0 * n0 - 65536 * f0;
    let p1 = v1 * n1 - 65536 * f1;
    let p2 = v2 * n2 - 65536 * f2;
    crate::fx::lemma_tdiv_close(v0 * n0);
    crate::fx::lemma_tdiv_close(v1 * n1);
    crate::fx::lemma_tdiv_close(v2 * n2);

    // doubling is exact
    assert(d * 131072 == (2 * d) * 65536) by (nonlinear_arith);
    crate::fx::lemma_tdiv_exact(2 * d);
    let m = fxm(d, 131072);
    assert(m == 2 * d);

    let q0 = fxm(n0, m);
    let q1 = fxm(n1, m);
    let q2 = fxm(n2, m);
    lemma_fxm_bound(n0, m, 0x1_0000, 0x18_0000);
    lemma_fxm_bound(n1, m, 0x1_0000, 0x18_0000);
    lemma_fxm_bound(n2, m, 0x1_0000, 0x18_0000);
    let s0 = n0 * m - 65536 * q0;
    let s1 = n1 * m - 65536 * q1;
    let s2 = n2 * m - 65536 * q2;
    crate::fx::lemma_tdiv_close(n0 * m);
    crate::fx::lemma_tdiv_close(n1 * m);
    crate::fx::lemma_tdiv_close(n2 * m);

    assert(sv_reflect(v, n).0 as int == v0 - q0);
    assert(sv_reflect(v, n).1 as int == v1 - q1);
    assert(sv_reflect(v, n).2 as int == v2 - q2);

    let g0 = fxm(v0 - q0, n0);
    let g1 = fxm(v1 - q1, n1);
    let g2 = fxm(v2 - q2, n2);
    assert(sv_dot(sv_reflect(v, n), n) == g0 + g1 + g2);
    let t0 = (v0 - q0) * n0 - 65536 * g0;
    let t1 = (v1 - q1) * n1 - 65536 * g1;
    let t2 = (v2 - q2) * n2 - 65536 * g2;
    crate::fx::lemma_tdiv_close((v0 - q0) * n0);
    crate::fx::lemma_tdiv_close((v1 - q1) * n1);
    crate::fx::lemma_tdiv_close((v2 - q2) * n2);

    let bigp = p0 + p1 + p2;
    let bigt = t0 + t1 + t2;
    let bigq = s0 * n0 + s1 * n1 + s2 * n2;
    let goal = g0 + g1 + g2 + d;

    assert(65536int * 65536 * g0 == 65536 * (65536 * f0 + p0) - (m * (n0 * n0) - s0 * n0) - 65536
        * t0) by (nonlinear_arith)
        requires
            p0 == v0 * n0 - 65536 * f0,
            s0 == n0 * m - 65536 * q0,
            t0 == (v0 - q0) * n0 - 65536 * g0,
    {
    }
    assert(65536int * 65536 * g1 == 65536 * (65536 * f1 + p1) - (m * (n1 * n1) - s1 * n1) - 65536
        * t1) by (nonlinear_arith)
        requires
            p1 == v1 * n1 - 65536 * f1,
            s1 == n1 * m - 65536 * q1,
            t1 == (v1 - q1) * n1 - 65536 * g1,
    {
    }
    assert(65536int * 65536 * g2 == 65536 * (65536 * f2 + p2) - (m * (n2 * n2) - s2 * n2) - 65536
        * t2) by (nonlinear_arith)
        requires
            p2 == v2 * n2 - 65536 * f2,
            s2 == n2 * m - 65536 * q2,
            t2 == (v2 - q2) * n2 - 65536 * g2,
    {
    }
    assert(m * (n0 * n0) + m * (n1 * n1) + m * (n2 * n2) == m * (65536int * 65536))
        by (nonlinear_arith)
        requires n0 * n0 + n1 * n1 + n2 * n2 == 65536int * 65536
    {
    }
    assert(65536int * 65536 * goal == 65536 * (bigp - bigt) + bigq);

    assert(-65536int * 65536 < s0 * n0 <= 65536int * 65536) by (nonlinear_arith)
        requires -65536 < s0 < 65536, -65536 <= n0 <= 65536
    {
    }
    assert(-65536int * 65536 < s1 * n1 <= 65536int * 65536) by (nonlinear_arith)
        requires -65536 < s1 < 65536, -65536 <= n1 <= 65536
    {
    }
    assert(-65536int * 65536 < s2 * n2 <= 65536int * 65536) by (nonlinear_arith)
        requires -65536 < s2 < 65536, -65536 <= n2 <= 65536
    {
    }

    assert(-8 <= goal <= 8) by (nonlinear_arith)
        requires
            -9 * (65536int * 65536) < 65536int * 65536 * goal < 9 * (65536int * 65536),
    {
    }
}

impl Lambertian {
    /// Diffuse scattering: the outgoing direction is the normal plus a
    /// random point of the unit ball; the attenuation is the albedo.
    pub fn scatter(
        &self,
        _r: &Ray,
        normal: &Vec3,
        origin: &Vec3,
        rng: &mut rand::rngs::StdRng,
    ) -> (out: (Vec3, Ray))
        requires
            vbnd(*normal, 2 * FX_ONE as int),
        ensures
            out.0 == self.albedo,
            out.1.origin == *origin,
            vbnd(out.1.direction, 0x400_0000),
            exists|s: Vec3| sv_len_sq(s) < FX_ONE as int && out.1.direction == sv_add(s, *normal),
    {
        let s = random_in_unit_sphere(rng);
        let direction = s.add(*normal);
        proof {
            assert(sv_len_sq(s) < FX_ONE as int && direction == sv_add(s, *normal));
        }
        (self.albedo, Ray { origin: *origin, direction })
    }
}

impl Metal {
    /// Specular scattering: the unit incoming direction is mirrored
    /// about the normal and perturbed by `fuzz` times a random point
    /// of the unit ball; the attenuation is the albedo.
    pub fn scatter(
        &self,
        r: &Ray,
        normal: &Vec3,
        origin: &Vec3,
        rng: &mut rand::rngs::StdRng,
    ) -> (out: (Vec3, Ray))
        requires
            vbnd(r.direction, VEC_BOUND as int),
            sv_len_sq(r.direction) > 0,
            vbnd(*normal, 2 * FX_ONE as int),
            0 <= self.fuzz <= FX_ONE,
        ensures
            out.0 == self.albedo,
            out.1.origin == *origin,
            vbnd(out.1.direction, 0x400_0000),
            exists|s: Vec3|
                sv_len_sq(s) < FX_ONE as int && out.1.direction == sv_add(
                    sv_reflect(sv_to_unit(r.direction), *normal),
                    sv_scale(s, self.fuzz),
                ),
            self.fuzz == 0 ==> out.1.direction == sv_reflect(sv_to_unit(r.direction), *normal),
    {
        let reflected = reflect(r.direction.to_unit(), *normal);
        let s = random_in_unit_sphere(rng);
        proof {
            lemma_fxm_bound(s.0 as int, self.fuzz as int, 0x1_0000, 0x1_0000);
            lemma_fxm_bound(s.1 as int, self.fuzz as int, 0x1_0000, 0x1_0000);
            lemma_fxm_bound(s.2 as int, self.fuzz as int, 0x1_0000, 0x1_0000);
        }
        let fuzzed = s.scale(self.fuzz);
        let direction = reflected.add(fuzzed);
        proof {
            assert(sv_len_sq(s) < FX_ONE as int && direction == sv_add(
                sv_reflect(sv_to_unit(r.direction), *normal),
                sv_scale(s, self.fuzz),
            ));
            if self.fuzz == 0 {
                assert(s.0 as int * 0 == 0) by (nonlinear_arith);
                assert(s.1 as int * 0 == 0) by (nonlinear_arith);
                assert(s.2 as int * 0 == 0) by (nonlinear_arith);
                assert(fxm(s.0 as int, 0) == 0);
                assert(fxm(s.1 as int, 0) == 0);
                assert(fxm(s.2 as int, 0) == 0);
                assert(direction == sv_reflect(sv_to_unit(r.direction), *normal));
            }
        }
        (self.albedo, Ray { origin: *origin, direction })
    }
}

impl Dielectric {
    /// Refractive scattering: orient the normal by the side the ray
    /// comes from, pick the index ratio accordingly, force reflection
    /// past the critical angle (the boundary counts as total internal
    /// reflection), otherwise reflect with the Schlick probability and
    /// refract with the rest.  The attenuation is always white.
    pub fn scatter(
        &self,
        r: &Ray,
        normal: &Vec3,
        origin: &Vec3,
        rng: &mut rand::rngs::StdRng,
    ) -> (out: (Vec3, Ray))
        requires
            vbnd(r.direction, VEC_BOUND as int),
            sv_len_sq(r.direction) > 0,
            vbnd(*normal, 2 * FX_ONE as int),
            FX_ONE / 8 <= self.ref_idx <= 8 * FX_ONE,
        ensures
            out.0 == (Vec3(FX_ONE, FX_ONE, FX_ONE)),
            out.1.origin == *origin,
            vbnd(out.1.direction, 0x400_0000),
            sv_diel_env(*self, r.direction, *normal).3 ==> out.1.direction == sv_reflect(
                sv_diel_env(*self, r.direction, *normal).0,
                sv_diel_env(*self, r.direction, *normal).1,
            ),
            out.1.direction == sv_reflect(
                sv_diel_env(*self, r.direction, *normal).0,
                sv_diel_env(*self, r.direction, *normal).1,
            ) || (!sv_diel_env(*self, r.direction, *normal).3 && out.1.direction == sv_refract(
                sv_diel_env(*self, r.direction, *normal).0,
                sv_diel_env(*self, r.direction, *normal).1,
                sv_diel_env(*self, r.direction, *normal).2,
            )),
    {
        let front_face = r.direction.dot(normal) < 0;
        let norm = if front_face {
            *normal
        } else {
            normal.neg()
        };
        let unit_direction = r.direction.to_unit();
        proof {
            assert(sv_neg(unit_direction).0 as int == -(unit_direction.0 as int));
            assert(sv_neg(unit_direction).1 as int == -(unit_direction.1 as int));
            assert(sv_neg(unit_direction).2 as int == -(unit_direction.2 as int));
            lemma_fxm_bound(sv_neg(unit_direction).0 as int, norm.0 as int, 0x2_0000, 0x2_0000);
            lemma_fxm_bound(sv_neg(unit_direction).1 as int, norm.1 as int, 0x2_0000, 0x2_0000);
            lemma_fxm_bound(sv_neg(unit_direction).2 as int, norm.2 as int, 0x2_0000, 0x2_0000);
        }
        let cos_theta = fx_min(unit_direction.neg().dot(&norm), FX_ONE);
        proof {
            lemma_fxm_bound(cos_theta as int, cos_theta as int, 0x30_0000, 0x30_0000);
        }
        proof {
            assert(0 <= cos_theta as int * cos_theta as int) by (nonlinear_arith);
        }
        let c2 = fx_mul(cos_theta, cos_theta);
        let k = if c2 > FX_ONE {
            0
        } else {
            FX_ONE - c2
        };
        let sin_theta = fx_sqrt(k);
        proof {
            assert(sin_theta as int <= FX_ONE as int) by (nonlinear_arith)
                requires
                    is_sqrt(k as int * 65536, sin_theta as int),
                    0 <= k <= 65536,
            {
                assert((sin_theta as int) * (sin_theta as int) <= 65536int * 65536);
            }
        }
        let attenuation = Vec3(FX_ONE, FX_ONE, FX_ONE);
        let etai_over_etat = if front_face {
            proof {
                lemma_tdiv_bound(0x1_0000_0000, 0x1_0000_0000, self.ref_idx as int);
            }
            let recip = fx_div(FX_ONE, self.ref_idx);
            proof {
                lemma_recip_range(self.ref_idx as int, recip as int);
            }
            recip
        } else {
            self.ref_idx
        };
        proof {
            lemma_fxm_bound(etai_over_etat as int, sin_theta as int, 0x8_0000, 0x1_0000);
        }
        let reflect_prob = schlick(cos_theta, etai_over_etat);
        let should_reflect = rand_fx(rng, 0, FX_ONE);

        if fx_mul(etai_over_etat, sin_theta) >= FX_ONE {
            // total internal reflection: no refracted solution exists
            let scattered = Ray { origin: *origin, direction: reflect(unit_direction, norm) };
            return (attenuation, scattered);
        }
        if should_reflect < reflect_prob {
            let scattered = Ray { origin: *origin, direction: reflect(unit_direction, norm) };
            return (attenuation, scattered);
        }
        let refracted = refract(unit_direction, norm, etai_over_etat);
        let scattered = Ray { origin: *origin, direction: refracted };
        (attenuation, scattered)
    }
}

/// The reciprocal of an index in `[1/8, 8]` lies in `[1/8, 8]`.
proof fn lemma_recip_range(idx: int, recip: int)
    requires
        8192 <= idx <= 524288,
        recip == fxd(65536, idx),
    ensures
        8192 <= recip <= 524288,
{
    vstd::arithmetic::div_mod::lemma_div_is_ordered_by_denominator(65536int * 65536, 8192, idx);
    vstd::arithmetic::div_mod::lemma_div_is_ordered_by_denominator(65536int * 65536, idx, 524288);
    assert((65536int * 65536) / 8192 == 524288);
    assert((65536int * 65536) / 524288 == 8192);
}

impl Material {
    /// Scatter the incoming ray at the hit point: dispatch to the
    /// variant's rule.
    pub fn scatter(
        &self,
        r: &Ray,
        normal: &Vec3,
        origin: &Vec3,
        rng: &mut rand::rngs::StdRng,
    ) -> (out: (Vec3, Ray))
        requires
            scatter_pre(*self, *r, *normal),
        ensures
            scatter_post(*self, *r, *normal, *origin, out),
    {
        match self {
            Material::Lambertian(l) => l.scatter(r, normal, origin, rng),
            Material::Metal(m) => m.scatter(r, normal, origin, rng),
            Material::Dielectric(d) => d.scatter(r, normal, origin, rng),
        }
    }
}

} // verus!
