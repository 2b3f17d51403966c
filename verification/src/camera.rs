//! The camera: derived viewport state and per-sample ray generation,
//! with depth of field.
//!
//! Construction derives an orthonormal-in-spirit basis from the eye,
//! target and up vectors, a viewport from the vertical field of view
//! and aspect ratio, and scales the viewport by the focus distance so
//! the focal plane sits where requested.  The half-angle tangent is a
//! truncated sine/cosine series; it is clamped to `[0, 16]`, far
//! outside anything the accepted field-of-view range can produce, so
//! the clamp only tames the representable range.

use vstd::prelude::*;
use crate::fx::{fxd, fxm, fx_div, fx_mul, lemma_fxm_bound, tdiv, FX_ONE};
use crate::rng::rand_fx;
use crate::sample::random_in_unit_disk;
use crate::vec3::{
    bnd, lemma_tdiv_any, sv_add, sv_cross, sv_div_scale, sv_len_sq, sv_scale, sv_sub, sv_to_unit,
    vbnd, Ray, Vec3,
};

verus! {

/// Radians per degree (raw units): the closest scalar to pi / 180.
pub const RAD_PER_DEG: i64 = 1144;

/// Largest vertical field of view accepted, in degrees (raw units).
pub const VFOV_BOUND: i64 = 0x96_0000;

/// Mirror of the half-angle tangent: convert degrees to radians, halve,
/// evaluate truncated series for sine and cosine, divide, clamp.
pub open spec fn sv_tan_half(vfov: int) -> int {
    let x = tdiv(fxm(vfov, 1144), 2);
    let x2 = fxm(x, x);
    let x3 = fxm(x2, x);
    let x5 = fxm(x3, x2);
    let x7 = fxm(x5, x2);
    let sn = x - tdiv(x3, 6) + tdiv(x5, 120) - tdiv(x7, 5040);
    let x4 = fxm(x2, x2);
    let x6 = fxm(x4, x2);
    let cs = 65536 - tdiv(x2, 2) + tdiv(x4, 24) - tdiv(x6, 720);
    let safe = if cs <= 0 {
        1int
    } else {
        cs
    };
    let t = fxd(sn, safe);
    if t > 0x10_0000 {
        0x10_0000int
    } else if t < 0 {
        0int
    } else {
        t
    }
}

/// The tangent of half the field of view (given in degrees).
pub fn tan_half(vfov: i64) -> (r: i64)
    requires
        0 < vfov <= VFOV_BOUND,
    ensures
        r as int == sv_tan_half(vfov as int),
        0 <= r <= 0x10_0000,
{
    proof {
        lemma_fxm_bound(vfov as int, 1144, 0x96_0000, 1144);
    }
    let theta = fx_mul(vfov, RAD_PER_DEG);
    let x = theta / 2;
    proof {
        lemma_fxm_bound(x as int, x as int, 0x2_0000, 0x2_0000);
        lemma_fxm_bound(fxm(x as int, x as int), x as int, 0x4_0000, 0x2_0000);
        lemma_fxm_bound(fxm(fxm(x as int, x as int), x as int), fxm(x as int, x as int), 0x8_0000, 0x4_0000);
        lemma_fxm_bound(
            fxm(fxm(fxm(x as int, x as int), x as int), fxm(x as int, x as int)),
            fxm(x as int, x as int),
            0x20_0000,
            0x4_0000,
        );
        lemma_fxm_bound(fxm(x as int, x as int), fxm(x as int, x as int), 0x4_0000, 0x4_0000);
        lemma_fxm_bound(
            fxm(fxm(x as int, x as int), fxm(x as int, x as int)),
            fxm(x as int, x as int),
            0x10_0000,
            0x4_0000,
        );
    }
    let x2 = fx_mul(x, x);
    let x3 = fx_mul(x2, x);
    let x5 = fx_mul(x3, x2);
    let x7 = fx_mul(x5, x2);
    let sn = x - x3 / 6 + x5 / 120 - x7 / 5040;
    let x4 = fx_mul(x2, x2);
    let x6 = fx_mul(x4, x2);
    let cs = FX_ONE - x2 / 2 + x4 / 24 - x6 / 720;
    let safe = if cs <= 0 {
        1
    } else {
        cs
    };
    proof {
        lemma_tdiv_any(sn as int * 65536, 0x80_0000_0000, safe as int);
    }
    let t = fx_div(sn, safe);
    if t > 0x10_0000 {
        0x10_0000
    } else if t < 0 {
        0
    } else {
        t
    }
}

/// Immutable derived camera state.
pub struct Camera {
    pub lower_left: Vec3,
    pub horizontal: Vec3,
    pub vertical: Vec3,
    pub origin: Vec3,
    pub u: Vec3,
    pub v: Vec3,
    pub w: Vec3,
    pub lens_radius: i64,
}

/// The bounds ray generation relies on: a viewport within range, a
/// roughly unit basis, and a lens radius in `[0, 1]`.
pub open spec fn cam_ok(c: Camera) -> bool {
    &&& vbnd(c.origin, 0x400_0000)
    &&& vbnd(c.lower_left, 0x1_0000_0000)
    &&& vbnd(c.horizontal, 0x1_0000_0000)
    &&& vbnd(c.vertical, 0x1_0000_0000)
    &&& vbnd(c.u, 0x2_0000)
    &&& vbnd(c.v, 0x8_0000)
    &&& vbnd(c.w, 0x2_0000)
    &&& 0 <= c.lens_radius <= FX_ONE
}

/// Mirror of the derived camera state.
pub open spec fn sv_camera(
    lookfrom: Vec3,
    lookat: Vec3,
    vup: Vec3,
    vfov: i64,
    aspect_ratio: i64,
    aperature: i64,
    focus_dist: i64,
) -> Camera {
    let h = sv_tan_half(vfov as int) as i64;
    let viewport_height = fxm(h as int, 131072) as i64;
    let viewport_width = fxm(aspect_ratio as int, viewport_height as int) as i64;
    let w = sv_to_unit(sv_sub(lookfrom, lookat));
    let u = sv_to_unit(sv_cross(vup, w));
    let v = sv_cross(w, u);
    let horizontal = sv_scale(sv_scale(u, viewport_width), focus_dist);
    let vertical = sv_scale(sv_scale(v, viewport_height), focus_dist);
    Camera {
        origin: lookfrom,
        horizontal,
        vertical,
        lens_radius: tdiv(aperature as int, 2) as i64,
        u,
        v,
        w,
        lower_left: sv_sub(
            sv_sub(sv_sub(lookfrom, sv_div_scale(horizontal, 131072)), sv_div_scale(vertical, 131072)),
            sv_scale(w, focus_dist),
        ),
    }
}

/// Mirror of ray generation for a given lens-disk sample `d`.
pub open spec fn sv_get_ray(c: Camera, s: i64, t: i64, d: Vec3) -> Ray {
    let rd = sv_scale(d, c.lens_radius);
    let offset = sv_add(sv_scale(c.u, rd.0), sv_scale(c.v, rd.1));
    Ray {
        origin: sv_add(c.origin, offset),
        direction: sv_sub(
            sv_sub(
                sv_add(sv_add(c.lower_left, sv_scale(c.horizontal, s)), sv_scale(c.vertical, t)),
                c.origin,
            ),
            offset,
        ),
    }
}

impl Camera {
    /// Derive the camera state from eye, target, up vector, vertical
    /// field of view (degrees), aspect ratio, aperture and focus
    /// distance.  The eye must be away from the target and the up
    /// vector away from the view axis, else no basis exists.
    pub fn new(
        lookfrom: Vec3,
        lookat: Vec3,
        vup: Vec3,
        vfov: i64,
        aspect_ratio: i64,
        aperature: i64,
        focus_dist: i64,
    ) -> (c: Camera)
        requires
            vbnd(lookfrom, 0x400_0000),
            vbnd(lookat, 0x400_0000),
            vbnd(vup, 0x400_0000),
            0 < vfov <= VFOV_BOUND,
            0 < aspect_ratio <= 8 * FX_ONE,
            0 <= aperature <= 2 * FX_ONE,
            0 < focus_dist <= 0x40_0000,
            sv_len_sq(sv_sub(lookfrom, lookat)) > 0,
            sv_len_sq(sv_cross(vup, sv_to_unit(sv_sub(lookfrom, lookat)))) > 0,
        ensures
            c == sv_camera(lookfrom, lookat, vup, vfov, aspect_ratio, aperature, focus_dist),
            cam_ok(c),
    {
        let h = tan_half(vfov);
        proof {
            lemma_fxm_bound(h as int, 131072, 0x10_0000, 131072);
            lemma_fxm_bound(aspect_ratio as int, fxm(h as int, 131072), 0x8_0000, 0x20_0000);
        }
        let viewport_height = fx_mul(h, 2 * FX_ONE);
        let viewport_width = fx_mul(aspect_ratio, viewport_height);

        let w = lookfrom.sub(lookat).to_unit();
        proof {
            lemma_fxm_bound(vup.0 as int, w.0 as int, 0x400_0000, 0x2_0000);
            lemma_fxm_bound(vup.0 as int, w.1 as int, 0x400_0000, 0x2_0000);
            lemma_fxm_bound(vup.0 as int, w.2 as int, 0x400_0000, 0x2_0000);
            lemma_fxm_bound(vup.1 as int, w.0 as int, 0x400_0000, 0x2_0000);
            lemma_fxm_bound(vup.1 as int, w.1 as int, 0x400_0000, 0x2_0000);
            lemma_fxm_bound(vup.1 as int, w.2 as int, 0x400_0000, 0x2_0000);
            lemma_fxm_bound(vup.2 as int, w.0 as int, 0x400_0000, 0x2_0000);
            lemma_fxm_bound(vup.2 as int, w.1 as int, 0x400_0000, 0x2_0000);
            lemma_fxm_bound(vup.2 as int, w.2 as int, 0x400_0000, 0x2_0000);
        }
        let u = vup.cross(w).to_unit();
        proof {
            lemma_fxm_bound(w.0 as int, u.0 as int, 0x2_0000, 0x2_0000);
            lemma_fxm_bound(w.0 as int, u.1 as int, 0x2_0000, 0x2_0000);
            lemma_fxm_bound(w.0 as int, u.2 as int, 0x2_0000, 0x2_0000);
            lemma_fxm_bound(w.1 as int, u.0 as int, 0x2_0000, 0x2_0000);
            lemma_fxm_bound(w.1 as int, u.1 as int, 0x2_0000, 0x2_0000);
            lemma_fxm_bound(w.1 as int, u.2 as int, 0x2_0000, 0x2_0000);
            lemma_fxm_bound(w.2 as int, u.0 as int, 0x2_0000, 0x2_0000);
            lemma_fxm_bound(w.2 as int, u.1 as int, 0x2_0000, 0x2_0000);
            lemma_fxm_bound(w.2 as int, u.2 as int, 0x2_0000, 0x2_0000);
        }
        let v = w.cross(u);

        let origin = lookfrom;
        proof {
            lemma_scale2_bounds(u, viewport_width, focus_dist, 0x2_0000, 0x100_0000);
            lemma_scale2_bounds(v, viewport_height, focus_dist, 0x8_0000, 0x20_0000);
        }
        let horizontal = u.scale(viewport_width).scale(focus_dist);
        let vertical = v.scale(viewport_height).scale(focus_dist);
        let lens_radius = aperature / 2;

        proof {
            lemma_fxm_bound(w.0 as int, focus_dist as int, 0x2_0000, 0x40_0000);
            lemma_fxm_bound(w.1 as int, focus_dist as int, 0x2_0000, 0x40_0000);
            lemma_fxm_bound(w.2 as int, focus_dist as int, 0x2_0000, 0x40_0000);
            lemma_tdiv_any(horizontal.0 as int * 65536, 0x8000_0000_0000, 131072);
            lemma_tdiv_any(horizontal.1 as int * 65536, 0x8000_0000_0000, 131072);
            lemma_tdiv_any(horizontal.2 as int * 65536, 0x8000_0000_0000, 131072);
            lemma_tdiv_any(vertical.0 as int * 65536, 0x8000_0000_0000, 131072);
            lemma_tdiv_any(vertical.1 as int * 65536, 0x8000_0000_0000, 131072);
            lemma_tdiv_any(vertical.2 as int * 65536, 0x8000_0000_0000, 131072);
        }
        Camera {
            origin,
            horizontal,
            vertical,
            lens_radius,
            u,
            v,
            w,
            lower_left: origin.sub(horizontal.div_scale(2 * FX_ONE)).sub(
                vertical.div_scale(2 * FX_ONE),
            ).sub(w.scale(focus_dist)),
        }
    }

    /// The ray for normalized image coordinates `(s, t)`: the origin is
    /// jittered within the lens disk for depth of field, the direction
    /// aims at the matching viewport point.  With a closed aperture
    /// (lens radius zero) the ray is a deterministic function of the
    /// camera and the coordinates.
    pub fn get_ray(&self, s: i64, t: i64, rng: &mut rand::rngs::StdRng) -> (r: Ray)
        requires
            cam_ok(*self),
            0 <= s <= FX_ONE,
            0 <= t <= FX_ONE,
        ensures
            exists|d: Vec3|
                d.2 == 0 && sv_len_sq(d) < FX_ONE as int && r == sv_get_ray(*self, s, t, d),
            self.lens_radius == 0 ==> r == sv_get_ray(*self, s, t, Vec3(0, 0, 0)),
    {
        let d = random_in_unit_disk(rng);
        proof {
            lemma_fxm_bound(d.0 as int, self.lens_radius as int, 0x1_0000, 0x1_0000);
            lemma_fxm_bound(d.1 as int, self.lens_radius as int, 0x1_0000, 0x1_0000);
            lemma_fxm_bound(d.2 as int, self.lens_radius as int, 0x1_0000, 0x1_0000);
        }
        let rd = d.scale(self.lens_radius);
        proof {
            lemma_fxm_bound(self.u.0 as int, rd.0 as int, 0x2_0000, 0x1_0000);
            lemma_fxm_bound(self.u.1 as int, rd.0 as int, 0x2_0000, 0x1_0000);
            lemma_fxm_bound(self.u.2 as int, rd.0 as int, 0x2_0000, 0x1_0000);
            lemma_fxm_bound(self.v.0 as int, rd.1 as int, 0x8_0000, 0x1_0000);
            lemma_fxm_bound(self.v.1 as int, rd.1 as int, 0x8_0000, 0x1_0000);
            lemma_fxm_bound(self.v.2 as int, rd.1 as int, 0x8_0000, 0x1_0000);
        }
        let offset = self.u.scale(rd.0).add(self.v.scale(rd.1));
        proof {
            lemma_fxm_bound(self.horizontal.0 as int, s as int, 0x1_0000_0000, 0x1_0000);
            lemma_fxm_bound(self.horizontal.1 as int, s as int, 0x1_0000_0000, 0x1_0000);
            lemma_fxm_bound(self.horizontal.2 as int, s as int, 0x1_0000_0000, 0x1_0000);
            lemma_fxm_bound(self.vertical.0 as int, t as int, 0x1_0000_0000, 0x1_0000);
            lemma_fxm_bound(self.vertical.1 as int, t as int, 0x1_0000_0000, 0x1_0000);
            lemma_fxm_bound(self.vertical.2 as int, t as int, 0x1_0000_0000, 0x1_0000);
        }
        let ray = Ray {
            origin: self.origin.add(offset),
            direction: self.lower_left.add(self.horizontal.scale(s)).add(
                self.vertical.scale(t),
            ).sub(self.origin).sub(offset),
        };
        proof {
            assert(ray == sv_get_ray(*self, s, t, d));
            if self.lens_radius == 0 {
                lemma_zero_disk(d, *self, s, t);
            }
        }
        ray
    }
}

/// Scaling a bounded vector by two bounded scalars stays bounded.
proof fn lemma_scale2_bounds(a: Vec3, s1: i64, s2: i64, ba: int, b1: int)
    requires
        vbnd(a, ba),
        bnd(s1, b1),
        bnd(s2, 0x40_0000),
        0 <= ba,
        0 <= b1,
    ensures
        vbnd(sv_scale(a, s1), (ba * b1) / 65536),
        vbnd(sv_scale(sv_scale(a, s1), s2), (((ba * b1) / 65536) * 0x40_0000) / 65536),
{
    lemma_fxm_bound(a.0 as int, s1 as int, ba, b1);
    lemma_fxm_bound(a.1 as int, s1 as int, ba, b1);
    lemma_fxm_bound(a.2 as int, s1 as int, ba, b1);
    lemma_fxm_bound(sv_scale(a, s1).0 as int, s2 as int, (ba * b1) / 65536, 0x40_0000);
    lemma_fxm_bound(sv_scale(a, s1).1 as int, s2 as int, (ba * b1) / 65536, 0x40_0000);
    lemma_fxm_bound(sv_scale(a, s1).2 as int, s2 as int, (ba * b1) / 65536, 0x40_0000);
}

/// With a closed lens every disk sample produces the same ray as the
/// center sample: scaling by a zero radius yields the zero offset.
proof fn lemma_zero_disk(d: Vec3, c: Camera, s: i64, t: i64)
    requires
        c.lens_radius == 0,
        cam_ok(c),
    ensures
        sv_get_ray(c, s, t, d) == sv_get_ray(c, s, t, Vec3(0, 0, 0)),
{
    assert(d.0 as int * 0 == 0) by (nonlinear_arith);
    assert(d.1 as int * 0 == 0) by (nonlinear_arith);
    assert(d.2 as int * 0 == 0) by (nonlinear_arith);
    assert(0int * 0 == 0) by (nonlinear_arith);
    assert(sv_scale(d, 0) == sv_scale(Vec3(0, 0, 0), 0int as i64));
}

} // verus!
