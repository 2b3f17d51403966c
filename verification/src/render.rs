//! The recursive color integrator and the per-pixel estimate.
//!
//! `color` intersects the ray with the scene over `(T_MIN_HIT,
//! T_MAX_HIT)` — the lower bound is the shadow-acne guard — and either
//! returns black when the bounce budget is spent, scatters and recurses
//! on a hit, or returns the sky gradient on a miss.  A hit record whose
//! point or normal has strayed outside the representable range through
//! rounding (possible only for rays far outside the accepted scene
//! bounds) is treated as absorbed, i.e. black.

use vstd::prelude::*;
use crate::camera::{cam_ok, Camera};
use crate::fx::{fxm, fxsqrt, fx_mul, fx_sqrt, fx_div, fxd, is_sqrt, lemma_fxm_bound, tdiv, FX_ONE};
use crate::geometry::{ray_ok, Solid, DIR_BOUND, ORG_BOUND};
use crate::rng::rand_fx;
use crate::vec3::{
    in_bounds, sv_add, sv_len_sq, sv_scale, sv_to_unit, vbnd, Ray, Vec3, VEC_BOUND,
};

verus! {

/// Lower bound of the hit interval: the shadow-acne guard, about a
/// thousandth (raw units).
pub const T_MIN_HIT: i64 = 66;

/// Upper bound of the hit interval: beyond any accepted scene.
pub const T_MAX_HIT: i64 = 0x800_0000;

/// Every color channel a bounce can produce stays within eight (raw
/// `0x8_0000`): attenuations lie in `[0, 1]` and the sky blend within
/// a couple of units.
pub const COLOR_BOUND: i64 = 0x8_0000;

/// Mirror of the sky gradient: blend white and sky blue by the
/// "upness" of the unit direction.
pub open spec fn sv_background(r: Ray) -> Vec3 {
    let u = sv_to_unit(r.direction);
    let t = fxm(32768, u.1 as int + 65536) as i64;
    sv_add(
        sv_scale(Vec3(FX_ONE, FX_ONE, FX_ONE), (65536 - t) as i64),
        sv_scale(Vec3(32768, 45875, 65536), t),
    )
}

/// The sky gradient for a ray pointing in a usable direction.
pub fn background(r: &Ray) -> (c: Vec3)
    requires
        vbnd(r.direction, VEC_BOUND as int),
        sv_len_sq(r.direction) > 0,
    ensures
        c == sv_background(*r),
        vbnd(c, COLOR_BOUND as int),
{
    let unit = r.direction.to_unit();
    proof {
        lemma_fxm_bound(32768, unit.1 as int + 65536, 32768, 0x3_0000);
        lemma_fxm_bound(FX_ONE as int, 65536 - fxm(32768, unit.1 as int + 65536), 0x1_0000, 0x2_8000);
        lemma_fxm_bound(32768, fxm(32768, unit.1 as int + 65536), 0x1_0000, 0x1_8000);
        lemma_fxm_bound(45875, fxm(32768, unit.1 as int + 65536), 0x1_0000, 0x1_8000);
        lemma_fxm_bound(65536, fxm(32768, unit.1 as int + 65536), 0x1_0000, 0x1_8000);
    }
    let t = fx_mul(FX_ONE / 2, unit.1 + FX_ONE);
    let white = Vec3(FX_ONE, FX_ONE, FX_ONE);
    let sky = Vec3(32768, 45875, FX_ONE);
    white.scale(FX_ONE - t).add(sky.scale(t))
}

/// The radiance estimate for one ray: black once the bounce budget is
/// spent, the material's attenuation times the recursive estimate on a
/// hit, the sky gradient on a miss.
pub fn color<T: Solid>(r: &Ray, s: &T, depth: i64, rng: &mut rand::rngs::StdRng) -> (c: Vec3)
    requires
        s.wf(),
        ray_ok(*r),
    ensures
        vbnd(c, COLOR_BOUND as int),
        depth <= 0 ==> c == (Vec3(0, 0, 0)),
        depth > 0 && s.hit_spec(*r, T_MIN_HIT, T_MAX_HIT) is None && sv_len_sq(r.direction) > 0
            ==> c == sv_background(*r),
    decreases depth,
{
    if depth <= 0 {
        return Vec3(0, 0, 0);
    }
    match s.hit(r, T_MIN_HIT, T_MAX_HIT) {
        Some(rec) => {
            proof {
                s.lemma_hit_in_range(*r, T_MIN_HIT, T_MAX_HIT);
            }
            // rounding can push a record off the representable range only
            // for rays far outside the scene bounds: treat it as absorbed
            if !(in_bounds(&rec.p, ORG_BOUND) && in_bounds(&rec.normal, 2 * FX_ONE)) {
                return Vec3(0, 0, 0);
            }
            let (atten, next) = rec.material.scatter(r, &rec.normal, &rec.p, rng);
            let rest = color(&next, s, depth - 1, rng);
            proof {
                lemma_fxm_bound(rest.0 as int, atten.0 as int, COLOR_BOUND as int, 0x1_0000);
                lemma_fxm_bound(rest.1 as int, atten.1 as int, COLOR_BOUND as int, 0x1_0000);
                lemma_fxm_bound(rest.2 as int, atten.2 as int, COLOR_BOUND as int, 0x1_0000);
            }
            rest.mul(atten)
        },
        None => {
            if r.direction.len_squared() > 0 {
                background(r)
            } else {
                Vec3(0, 0, 0)
            }
        },
    }
}

/// Mirror of the gamma-corrected 8-bit value of one channel: clamp to
/// `[0, 1]`, take the square root (gamma two), scale just below 256 and
/// truncate.
pub open spec fn sv_channel8(x: int) -> int {
    let c = if x < 0 {
        0int
    } else if x > 65536 {
        65536int
    } else {
        x
    };
    tdiv(fxsqrt(c) * 16776560, 65536) / 65536
}

/// A normalized image coordinate: the fraction `(i + r) / n`, which
/// always lies in `[0, 1]`.
pub fn sample_coord(i: u32, n: u32, r: i64) -> (u: i64)
    requires
        i < n,
        n <= 0x8000,
        0 <= r < FX_ONE,
    ensures
        0 <= u <= FX_ONE,
        u as int == fxd(i as int * 65536 + r, n as int * 65536),
{
    let numerator = (i as i64) * FX_ONE + r;
    proof {
        lemma_unit_frac(numerator as int, n as int * 65536);
    }
    fx_div(numerator, (n as i64) * FX_ONE)
}

/// A fraction of at most one stays at most one after scaling.
proof fn lemma_unit_frac(a: int, m: int)
    by (nonlinear_arith)
    requires
        0 <= a <= m,
        0 < m,
    ensures
        0 <= tdiv(a * 65536, m) <= 65536,
{
}

/// One channel triple with every value in the 8-bit range.
pub open spec fn rgb_ok(t: (i64, i64, i64)) -> bool {
    0 <= t.0 <= 255 && 0 <= t.1 <= 255 && 0 <= t.2 <= 255
}

/// One scanline of the image: for each column, average `ns` jittered
/// samples of the integrator, gamma-correct, and scale to 8-bit
/// channels.  A sample whose generated ray falls outside the accepted
/// scene bounds contributes black.
pub fn render_row<T: Solid>(
    cam: &Camera,
    s: &T,
    j: u32,
    nx: u32,
    ny: u32,
    ns: u32,
    depth: i64,
    rng: &mut rand::rngs::StdRng,
) -> (row: Vec<(i64, i64, i64)>)
    requires
        s.wf(),
        cam_ok(*cam),
        0 < nx <= 0x8000,
        0 < ny <= 0x8000,
        j < ny,
        0 < ns <= 0x8000,
    ensures
        row@.len() == nx as int,
        forall|k: int| 0 <= k < row@.len() ==> rgb_ok(#[trigger] row@[k]),
{
    let mut row: Vec<(i64, i64, i64)> = Vec::new();
    let mut i: u32 = 0;
    while i < nx
        invariant
            s.wf(),
            cam_ok(*cam),
            0 < nx <= 0x8000,
            0 < ny <= 0x8000,
            j < ny,
            0 < ns <= 0x8000,
            i <= nx,
            row@.len() == i as int,
            forall|k: int| 0 <= k < row@.len() ==> rgb_ok(#[trigger] row@[k]),
        decreases nx - i,
    {
        let mut col = Vec3(0, 0, 0);
        let mut k: u32 = 0;
        while k < ns
            invariant
                s.wf(),
                cam_ok(*cam),
                0 < nx <= 0x8000,
                0 < ny <= 0x8000,
                j < ny,
                i < nx,
                0 < ns <= 0x8000,
                k <= ns,
                vbnd(col, k as int * (COLOR_BOUND as int)),
            decreases ns - k,
        {
            let ru = rand_fx(rng, 0, FX_ONE);
            let rv = rand_fx(rng, 0, FX_ONE);
            let u = sample_coord(i, nx, ru);
            let v = sample_coord(j, ny, rv);
            let ray = cam.get_ray(u, v, rng);
            let c = if in_bounds(&ray.origin, ORG_BOUND) && in_bounds(&ray.direction, DIR_BOUND) {
                color(&ray, s, depth, rng)
            } else {
                Vec3(0, 0, 0)
            };
            col = c.add(col);
            k = k + 1;
        }
        let mean = col.div_scale((ns as i64) * FX_ONE);
        row.push((channel8(mean.0), channel8(mean.1), channel8(mean.2)));
        i = i + 1;
    }
    row
}

/// The gamma-corrected 8-bit value of one color channel.
pub fn channel8(x: i64) -> (v: i64)
    ensures
        v as int == sv_channel8(x as int),
        0 <= v <= 255,
{
    let c = if x < 0 {
        0
    } else if x > FX_ONE {
        FX_ONE
    } else {
        x
    };
    let g = fx_sqrt(c);
    proof {
        assert(g as int <= 65536) by (nonlinear_arith)
            requires
                is_sqrt(c as int * 65536, g as int),
                0 <= c <= 65536,
        {
            assert((g as int) * (g as int) <= 65536int * 65536);
        }
        lemma_fxm_bound(g as int, 16776560, 0x1_0000, 16776560);
    }
    let m = fx_mul(g, 16776560);
    m / FX_ONE
}

} // verus!
