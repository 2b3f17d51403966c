//! Ray/geometry intersection: spheres and groups of solids.
//!
//! `Sphere::hit` solves the quadratic for the ray/sphere intersection
//! and returns the nearest root inside the open interval
//! `(t_min, t_max)`; tangency (zero discriminant) counts as a miss, as
//! does a direction whose squared length rounds to zero (such a
//! direction is below the representable quantum).  A group tests its
//! members in turn, narrowing the upper bound to the closest hit so
//! far, which yields the overall nearest hit without sorting.

use vstd::prelude::*;
use crate::fx::{fxd, fxm, fxsqrt, fx_div, fx_mul, fx_sqrt, is_sqrt, lemma_fxm_bound};
use crate::material::{mat_ok, Material};
use crate::vec3::{
    bnd, lemma_tdiv_any, sv_div_scale, sv_dot, sv_len_sq, sv_point_at, sv_sub, vbnd, Ray, Vec3,
};

verus! {

/// Largest magnitude accepted for sphere centers and radii (raw units).
pub const GEO_BOUND: i64 = 0x400_0000;

/// Largest magnitude accepted for ray origins (raw units).
pub const ORG_BOUND: i64 = 0x400_0000;

/// Largest magnitude accepted for ray direction components (raw units).
pub const DIR_BOUND: i64 = 0x400_0000;

/// Largest magnitude accepted for the intersection interval ends.
pub const T_BOUND: i64 = 0x800_0000;

/// A ray the intersection routines accept: origin and direction within
/// the bounds that keep every intermediate product representable.
pub open spec fn ray_ok(r: Ray) -> bool {
    vbnd(r.origin, ORG_BOUND as int) && vbnd(r.direction, DIR_BOUND as int)
}

/// A successful intersection: the hit parameter, the world point, the
/// outward normal there, and the material of the surface.
#[derive(Clone, Copy, Debug)]
pub struct HitRecord {
    pub t: i64,
    pub p: Vec3,
    pub normal: Vec3,
    pub material: Material,
}

/// Anything a ray can intersect.
pub trait Solid: Sized {
    /// The exact hit this solid yields for the given ray and interval.
    spec fn hit_spec(&self, r: Ray, t_min: i64, t_max: i64) -> Option<HitRecord>;

    /// Well-formedness: geometry within bounds, materials well-formed.
    spec fn wf(&self) -> bool;

    /// Any hit lies strictly inside the queried interval, carries a
    /// well-formed material, and can only come from a ray whose
    /// direction does not round to zero.
    proof fn lemma_hit_in_range(&self, r: Ray, t_min: i64, t_max: i64)
        requires
            self.wf(),
            ray_ok(r),
        ensures
            match self.hit_spec(r, t_min, t_max) {
                Some(h) => t_min < h.t < t_max && mat_ok(h.material) && sv_len_sq(r.direction)
                    > 0,
                None => true,
            },
    ;

    /// The nearest intersection with parameter in `(t_min, t_max)`, or
    /// nothing if no such intersection exists.
    fn hit(&self, r: &Ray, t_min: i64, t_max: i64) -> (res: Option<HitRecord>)
        requires
            self.wf(),
            ray_ok(*r),
            bnd(t_min, T_BOUND as int),
            bnd(t_max, T_BOUND as int),
        ensures
            res == self.hit_spec(*r, t_min, t_max),
    ;
}

/// A sphere; a negative radius flips the normal inward, the deliberate
/// convention for hollow shells.
pub struct Sphere {
    pub center: Vec3,
    pub radius: i64,
    pub material: Material,
}

/// A point on a ray whose parameter is within `T_BOUND` stays within
/// representable bounds.
proof fn lemma_point_bounds(r: Ray, t: i64)
    requires
        ray_ok(r),
        bnd(t, T_BOUND as int),
    ensures
        vbnd(sv_point_at(r, t), 0x20_4000_0000),
{
    lemma_fxm_bound(r.direction.0 as int, t as int, 0x400_0000, 0x800_0000);
    lemma_fxm_bound(r.direction.1 as int, t as int, 0x400_0000, 0x800_0000);
    lemma_fxm_bound(r.direction.2 as int, t as int, 0x400_0000, 0x800_0000);
}

/// Mirror of the record a sphere builds for a hit at parameter `t`.
pub open spec fn sphere_rec(s: Sphere, r: Ray, t: i64) -> HitRecord {
    let p = sv_point_at(r, t);
    HitRecord { t, p, normal: sv_div_scale(sv_sub(p, s.center), s.radius), material: s.material }
}

/// Mirror of the sphere intersection: solve `a t^2 + 2 b t + c = 0`;
/// a real root exists only when the discriminant is positive (and the
/// direction is not degenerate); try the near root, then the far one.
pub open spec fn sphere_hit(s: Sphere, r: Ray, t_min: i64, t_max: i64) -> Option<HitRecord> {
    let oc = sv_sub(r.origin, s.center);
    let a = sv_dot(r.direction, r.direction);
    let b = sv_dot(oc, r.direction);
    let c = sv_len_sq(oc) - fxm(s.radius as int, s.radius as int);
    let disc = fxm(b, b) - fxm(a, c);
    if disc > 0 && a > 0 {
        let sd = fxsqrt(disc);
        let near = fxd(-b - sd, a);
        if t_min < near && near < t_max {
            Some(sphere_rec(s, r, near as i64))
        } else {
            let far = fxd(-b + sd, a);
            if t_min < far && far < t_max {
                Some(sphere_rec(s, r, far as i64))
            } else {
                None
            }
        }
    } else {
        None
    }
}

impl Solid for Sphere {
    open spec fn hit_spec(&self, r: Ray, t_min: i64, t_max: i64) -> Option<HitRecord> {
        sphere_hit(*self, r, t_min, t_max)
    }

    open spec fn wf(&self) -> bool {
        vbnd(self.center, GEO_BOUND as int) && self.radius != 0 && bnd(self.radius, GEO_BOUND as int)
            && mat_ok(self.material)
    }

    proof fn lemma_hit_in_range(&self, r: Ray, t_min: i64, t_max: i64) {
    }

    fn hit(&self, r: &Ray, t_min: i64, t_max: i64) -> (res: Option<HitRecord>) {
        proof {
            lemma_fxm_bound(r.direction.0 as int, r.direction.0 as int, 0x400_0000, 0x400_0000);
            lemma_fxm_bound(r.direction.1 as int, r.direction.1 as int, 0x400_0000, 0x400_0000);
            lemma_fxm_bound(r.direction.2 as int, r.direction.2 as int, 0x400_0000, 0x400_0000);
        }
        let oc = r.origin.sub(self.center);
        let a = r.direction.dot(&r.direction);
        proof {
            lemma_fxm_bound(oc.0 as int, r.direction.0 as int, 0x800_0000, 0x400_0000);
            lemma_fxm_bound(oc.1 as int, r.direction.1 as int, 0x800_0000, 0x400_0000);
            lemma_fxm_bound(oc.2 as int, r.direction.2 as int, 0x800_0000, 0x400_0000);
            lemma_fxm_bound(oc.0 as int, oc.0 as int, 0x800_0000, 0x800_0000);
            lemma_fxm_bound(oc.1 as int, oc.1 as int, 0x800_0000, 0x800_0000);
            lemma_fxm_bound(oc.2 as int, oc.2 as int, 0x800_0000, 0x800_0000);
            lemma_fxm_bound(self.radius as int, self.radius as int, 0x400_0000, 0x400_0000);
        }
        let b = oc.dot(&r.direction);
        let c = oc.len_squared() - fx_mul(self.radius, self.radius);
        proof {
            lemma_fxm_bound(b as int, b as int, 0x60_0000_0000, 0x60_0000_0000);
            lemma_fxm_bound(a as int, c as int, 0x30_0000_0000, 0xD0_0000_0000);
        }
        let discriminant = fx_mul(b, b) - fx_mul(a, c);

        if discriminant > 0 && a > 0 {
            let sqrt_d = fx_sqrt(discriminant);
            proof {
                assert(sqrt_d < 0x100_0000_0000) by (nonlinear_arith)
                    requires
                        is_sqrt(discriminant as int * 65536, sqrt_d as int),
                        discriminant as int * 65536 < 0x8000_0000_0000_0000 * 0x1_0000,
                {
                    assert((sqrt_d as int) * (sqrt_d as int) < 0x8000_0000_0000_0000 * 0x1_0000);
                }
                lemma_tdiv_any((-b - sqrt_d) as int * 65536, 0x160_0000_0000_0000, a as int);
                lemma_tdiv_any((-b + sqrt_d) as int * 65536, 0x160_0000_0000_0000, a as int);
            }
            let near = fx_div(-b - sqrt_d, a);
            if near < t_max && near > t_min {
                proof {
                    lemma_point_bounds(*r, near);
                }
                let p = r.point_at_param(near);
                return Some(
                    HitRecord {
                        t: near,
                        p: p,
                        material: self.material,
                        normal: p.sub(self.center).div_scale(self.radius),
                    },
                );
            }
            let far = fx_div(-b + sqrt_d, a);
            if far < t_max && far > t_min {
                proof {
                    lemma_point_bounds(*r, far);
                }
                let p = r.point_at_param(far);
                return Some(
                    HitRecord {
                        t: far,
                        p: p,
                        material: self.material,
                        normal: p.sub(self.center).div_scale(self.radius),
                    },
                );
            }
        }
        None
    }
}

/// An ordered collection of solids sharing the intersection contract.
pub struct SolidGroup<T: Solid> {
    pub solids: Vec<T>,
}

/// Mirror of the group's narrowing scan from member `i` on: `closest`
/// is the best upper bound so far and `acc` the best hit so far.
pub open spec fn group_hit<T: Solid>(
    s: Seq<T>,
    r: Ray,
    t_min: i64,
    closest: i64,
    acc: Option<HitRecord>,
    i: int,
) -> Option<HitRecord>
    decreases s.len() - i,
{
    if i < 0 || i >= s.len() {
        acc
    } else {
        match s[i].hit_spec(r, t_min, closest) {
            Some(h) => group_hit(s, r, t_min, h.t, Some(h), i + 1),
            None => group_hit(s, r, t_min, closest, acc, i + 1),
        }
    }
}

/// The scan's result parameter stays strictly inside `(t_min, t_max)`.
proof fn lemma_group_range<T: Solid>(
    s: Seq<T>,
    r: Ray,
    t_min: i64,
    closest: i64,
    acc: Option<HitRecord>,
    i: int,
    t_max: i64,
)
    requires
        forall|j: int| 0 <= j < s.len() ==> s[j].wf(),
        ray_ok(r),
        closest <= t_max,
        match acc {
            Some(h) => t_min < h.t < t_max && mat_ok(h.material) && sv_len_sq(r.direction) > 0,
            None => true,
        },
    ensures
        match group_hit(s, r, t_min, closest, acc, i) {
            Some(h) => t_min < h.t < t_max && mat_ok(h.material) && sv_len_sq(r.direction) > 0,
            None => true,
        },
    decreases s.len() - i,
{
    if 0 <= i < s.len() {
        s[i].lemma_hit_in_range(r, t_min, closest);
        match s[i].hit_spec(r, t_min, closest) {
            Some(h) => {
                lemma_group_range(s, r, t_min, h.t, Some(h), i + 1, t_max);
            },
            None => {
                lemma_group_range(s, r, t_min, closest, acc, i + 1, t_max);
            },
        }
    }
}

/// A group yields no hit exactly when every member, queried over the
/// full interval, yields none: a ray that misses every sphere misses
/// the aggregate, and a hit on any member is never dropped by the
/// narrowing scan.
pub proof fn lemma_group_miss<T: Solid>(s: Seq<T>, r: Ray, t_min: i64, t_max: i64)
    ensures
        group_hit(s, r, t_min, t_max, None, 0) is None <==> (forall|j: int|
            0 <= j < s.len() ==> s[j].hit_spec(r, t_min, t_max) is None),
{
    if forall|j: int| 0 <= j < s.len() ==> s[j].hit_spec(r, t_min, t_max) is None {
        lemma_group_miss_from(s, r, t_min, t_max, 0);
    }
    if group_hit(s, r, t_min, t_max, None, 0) is None {
        lemma_group_none_from(s, r, t_min, t_max, 0);
    }
}

proof fn lemma_group_miss_from<T: Solid>(s: Seq<T>, r: Ray, t_min: i64, t_max: i64, i: int)
    requires
        forall|j: int| 0 <= j < s.len() ==> s[j].hit_spec(r, t_min, t_max) is None,
    ensures
        group_hit(s, r, t_min, t_max, None, i) is None,
    decreases s.len() - i,
{
    if 0 <= i < s.len() {
        lemma_group_miss_from(s, r, t_min, t_max, i + 1);
    }
}

/// Once the scan has stored a hit, it returns one.
proof fn lemma_group_keeps_hit<T: Solid>(
    s: Seq<T>,
    r: Ray,
    t_min: i64,
    closest: i64,
    acc: Option<HitRecord>,
    i: int,
)
    requires
        acc is Some,
    ensures
        group_hit(s, r, t_min, closest, acc, i) is Some,
    decreases s.len() - i,
{
    if 0 <= i < s.len() {
        match s[i].hit_spec(r, t_min, closest) {
            Some(h) => {
                lemma_group_keeps_hit(s, r, t_min, h.t, Some(h), i + 1);
            },
            None => {
                lemma_group_keeps_hit(s, r, t_min, closest, acc, i + 1);
            },
        }
    }
}

proof fn lemma_group_none_from<T: Solid>(s: Seq<T>, r: Ray, t_min: i64, t_max: i64, i: int)
    requires
        0 <= i,
        group_hit(s, r, t_min, t_max, None, i) is None,
    ensures
        forall|j: int| i <= j < s.len() ==> (#[trigger] s[j].hit_spec(r, t_min, t_max)) is None,
    decreases s.len() - i,
{
    if 0 <= i < s.len() {
        match s[i].hit_spec(r, t_min, t_max) {
            Some(h) => {
                lemma_group_keeps_hit(s, r, t_min, h.t, Some(h), i + 1);
                assert(false);
            },
            None => {
                lemma_group_none_from(s, r, t_min, t_max, i + 1);
            },
        }
    }
}

impl<T: Solid> Solid for SolidGroup<T> {
    open spec fn hit_spec(&self, r: Ray, t_min: i64, t_max: i64) -> Option<HitRecord> {
        group_hit(self.solids@, r, t_min, t_max, None, 0)
    }

    open spec fn wf(&self) -> bool {
        forall|j: int| 0 <= j < self.solids@.len() ==> self.solids@[j].wf()
    }

    proof fn lemma_hit_in_range(&self, r: Ray, t_min: i64, t_max: i64) {
        lemma_group_range(self.solids@, r, t_min, t_max, None, 0, t_max);
    }

    fn hit(&self, r: &Ray, t_min: i64, t_max: i64) -> (res: Option<HitRecord>) {
        let mut closest = t_max;
        let mut rec: Option<HitRecord> = None;
        let n = self.solids.len();
        let mut i: usize = 0;

        while i < n
            invariant
                0 <= i <= n,
                n == self.solids@.len(),
                self.wf(),
                ray_ok(*r),
                bnd(t_min, T_BOUND as int),
                bnd(t_max, T_BOUND as int),
                bnd(closest, T_BOUND as int),
                closest <= t_max,
                match rec {
                    Some(h) => t_min < h.t < t_max && mat_ok(h.material) && sv_len_sq(r.direction)
                        > 0,
                    None => true,
                },
                group_hit(self.solids@, *r, t_min, t_max, None, 0) == group_hit(
                    self.solids@,
                    *r,
                    t_min,
                    closest,
                    rec,
                    i as int,
                ),
            decreases n - i,
        {
            proof {
                self.solids@[i as int].lemma_hit_in_range(*r, t_min, closest);
            }
            if let Some(h) = self.solids[i].hit(r, t_min, closest) {
                closest = h.t;
                rec = Some(h);
            }
            i = i + 1;
        }
        rec
    }
}

} // verus!
