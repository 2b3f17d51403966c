//! Three-component vectors and rays over fixed-point scalars.
//!
//! Every executable operation is pinned to a spec-level mirror
//! (`sv_add`, `sv_dot`, ...) that states the exact raw value computed,
//! rounding included.

use vstd::prelude::*;
use crate::fx::{
    fxd, fxm, fxsqrt, fx_div, fx_mul, fx_sqrt, is_sqrt, lemma_fxm_bound, lemma_tdiv_bound, tdiv,
    FX_ONE,
};

verus! {

/// A point, direction or color: three fixed-point components.
#[derive(Clone, Copy, Debug, PartialEq, Eq, Structural)]
pub struct Vec3(pub i64, pub i64, pub i64);

/// `x` lies within `[-b, b]`.
pub open spec fn bnd(x: i64, b: int) -> bool {
    -b <= x as int && x as int <= b
}

/// Every component of `v` lies within `[-b, b]`.
pub open spec fn vbnd(v: Vec3, b: int) -> bool {
    bnd(v.0, b) && bnd(v.1, b) && bnd(v.2, b)
}

/// Domain bound accepted by the vector operations (raw units).
pub const VEC_BOUND: i64 = 0x1_0000_0000;

/// Mirror of component-wise addition.
pub open spec fn sv_add(a: Vec3, b: Vec3) -> Vec3 {
    Vec3((a.0 + b.0) as i64, (a.1 + b.1) as i64, (a.2 + b.2) as i64)
}

/// Mirror of component-wise subtraction.
pub open spec fn sv_sub(a: Vec3, b: Vec3) -> Vec3 {
    Vec3((a.0 - b.0) as i64, (a.1 - b.1) as i64, (a.2 - b.2) as i64)
}

/// Mirror of negation.
pub open spec fn sv_neg(a: Vec3) -> Vec3 {
    Vec3((-a.0) as i64, (-a.1) as i64, (-a.2) as i64)
}

/// Mirror of component-wise (Hadamard) multiplication.
pub open spec fn sv_mul(a: Vec3, b: Vec3) -> Vec3 {
    Vec3(fxm(a.0 as int, b.0 as int) as i64, fxm(a.1 as int, b.1 as int) as i64, fxm(
        a.2 as int,
        b.2 as int,
    ) as i64)
}

/// Mirror of multiplication by a scalar.
pub open spec fn sv_scale(a: Vec3, s: i64) -> Vec3 {
    Vec3(fxm(a.0 as int, s as int) as i64, fxm(a.1 as int, s as int) as i64, fxm(
        a.2 as int,
        s as int,
    ) as i64)
}

/// Mirror of component-wise division.
pub open spec fn sv_div(a: Vec3, b: Vec3) -> Vec3 {
    Vec3(fxd(a.0 as int, b.0 as int) as i64, fxd(a.1 as int, b.1 as int) as i64, fxd(
        a.2 as int,
        b.2 as int,
    ) as i64)
}

/// Mirror of division by a scalar.
pub open spec fn sv_div_scale(a: Vec3, s: i64) -> Vec3 {
    Vec3(fxd(a.0 as int, s as int) as i64, fxd(a.1 as int, s as int) as i64, fxd(
        a.2 as int,
        s as int,
    ) as i64)
}

/// Mirror of the dot product (exact integer sum of the three rounded
/// component products).
pub open spec fn sv_dot(a: Vec3, b: Vec3) -> int {
    fxm(a.0 as int, b.0 as int) + fxm(a.1 as int, b.1 as int) + fxm(a.2 as int, b.2 as int)
}

/// Mirror of the squared length.
pub open spec fn sv_len_sq(a: Vec3) -> int {
    sv_dot(a, a)
}

/// Mirror of the length: the fixed-point square root of the squared length.
pub open spec fn sv_len(a: Vec3) -> int {
    fxsqrt(sv_len_sq(a))
}

/// Mirror of the right-handed cross product.
pub open spec fn sv_cross(a: Vec3, b: Vec3) -> Vec3 {
    Vec3(
        (fxm(a.1 as int, b.2 as int) - fxm(a.2 as int, b.1 as int)) as i64,
        (-(fxm(a.0 as int, b.2 as int) - fxm(a.2 as int, b.0 as int))) as i64,
        (fxm(a.0 as int, b.1 as int) - fxm(a.1 as int, b.0 as int)) as i64,
    )
}

/// Mirror of normalization: scale by the reciprocal of the length.
pub open spec fn sv_to_unit(a: Vec3) -> Vec3 {
    let k = fxd(65536, sv_len(a)) as i64;
    sv_scale(a, k)
}

impl Vec3 {
    /// The vector with every component one.
    pub fn unit() -> (r: Vec3)
        ensures
            r == (Vec3(FX_ONE, FX_ONE, FX_ONE)),
    {
        Vec3(FX_ONE, FX_ONE, FX_ONE)
    }

    /// A vector with each component drawn from `[lower, upper)`.
    pub fn random(rng: &mut rand::rngs::StdRng, lower: i64, upper: i64) -> (r: Vec3)
        requires
            lower < upper,
            upper - lower <= i64::MAX,
        ensures
            lower <= r.0 < upper,
            lower <= r.1 < upper,
            lower <= r.2 < upper,
    {
        Vec3(
            crate::rng::rand_fx(rng, lower, upper),
            crate::rng::rand_fx(rng, lower, upper),
            crate::rng::rand_fx(rng, lower, upper),
        )
    }

    /// Component-wise sum.
    pub fn add(self, rhs: Vec3) -> (r: Vec3)
        requires
            i64::MIN <= self.0 + rhs.0 <= i64::MAX,
            i64::MIN <= self.1 + rhs.1 <= i64::MAX,
            i64::MIN <= self.2 + rhs.2 <= i64::MAX,
        ensures
            r == sv_add(self, rhs),
    {
        Vec3(self.0 + rhs.0, self.1 + rhs.1, self.2 + rhs.2)
    }

    /// Component-wise difference.
    pub fn sub(self, rhs: Vec3) -> (r: Vec3)
        requires
            i64::MIN <= self.0 - rhs.0 <= i64::MAX,
            i64::MIN <= self.1 - rhs.1 <= i64::MAX,
            i64::MIN <= self.2 - rhs.2 <= i64::MAX,
        ensures
            r == sv_sub(self, rhs),
    {
        Vec3(self.0 - rhs.0, self.1 - rhs.1, self.2 - rhs.2)
    }

    /// Negation.
    pub fn neg(self) -> (r: Vec3)
        requires
            i64::MIN < self.0,
            i64::MIN < self.1,
            i64::MIN < self.2,
        ensures
            r == sv_neg(self),
    {
        Vec3(-self.0, -self.1, -self.2)
    }

    /// Component-wise (Hadamard) product.
    pub fn mul(self, rhs: Vec3) -> (r: Vec3)
        requires
            vbnd(self, VEC_BOUND as int),
            vbnd(rhs, VEC_BOUND as int),
        ensures
            r == sv_mul(self, rhs),
            vbnd(r, 0x1_0000_0000_0000),
    {
        proof {
            lemma_fxm_bound(self.0 as int, rhs.0 as int, VEC_BOUND as int, VEC_BOUND as int);
            lemma_fxm_bound(self.1 as int, rhs.1 as int, VEC_BOUND as int, VEC_BOUND as int);
            lemma_fxm_bound(self.2 as int, rhs.2 as int, VEC_BOUND as int, VEC_BOUND as int);
        }
        Vec3(fx_mul(self.0, rhs.0), fx_mul(self.1, rhs.1), fx_mul(self.2, rhs.2))
    }

    /// Product with a scalar.
    pub fn scale(self, rhs: i64) -> (r: Vec3)
        requires
            vbnd(self, VEC_BOUND as int),
            bnd(rhs, VEC_BOUND as int),
        ensures
            r == sv_scale(self, rhs),
            vbnd(r, 0x1_0000_0000_0000),
    {
        proof {
            lemma_fxm_bound(self.0 as int, rhs as int, VEC_BOUND as int, VEC_BOUND as int);
            lemma_fxm_bound(self.1 as int, rhs as int, VEC_BOUND as int, VEC_BOUND as int);
            lemma_fxm_bound(self.2 as int, rhs as int, VEC_BOUND as int, VEC_BOUND as int);
        }
        Vec3(fx_mul(self.0, rhs), fx_mul(self.1, rhs), fx_mul(self.2, rhs))
    }

    /// Component-wise quotient.
    pub fn div(self, rhs: Vec3) -> (r: Vec3)
        requires
            vbnd(self, 0x40_0000_0000),
            rhs.0 != 0,
            rhs.1 != 0,
            rhs.2 != 0,
        ensures
            r == sv_div(self, rhs),
            vbnd(r, 0x40_0000_0000_0000),
    {
        proof {
            lemma_tdiv_any(self.0 as int * 65536, 0x40_0000_0000_0000, rhs.0 as int);
            lemma_tdiv_any(self.1 as int * 65536, 0x40_0000_0000_0000, rhs.1 as int);
            lemma_tdiv_any(self.2 as int * 65536, 0x40_0000_0000_0000, rhs.2 as int);
        }
        Vec3(fx_div(self.0, rhs.0), fx_div(self.1, rhs.1), fx_div(self.2, rhs.2))
    }

    /// Quotient by a scalar.
    pub fn div_scale(self, rhs: i64) -> (r: Vec3)
        requires
            vbnd(self, 0x40_0000_0000),
            rhs != 0,
        ensures
            r == sv_div_scale(self, rhs),
            vbnd(r, 0x40_0000_0000_0000),
    {
        proof {
            lemma_tdiv_any(self.0 as int * 65536, 0x40_0000_0000_0000, rhs as int);
            lemma_tdiv_any(self.1 as int * 65536, 0x40_0000_0000_0000, rhs as int);
            lemma_tdiv_any(self.2 as int * 65536, 0x40_0000_0000_0000, rhs as int);
        }
        Vec3(fx_div(self.0, rhs), fx_div(self.1, rhs), fx_div(self.2, rhs))
    }

    /// Dot product.
    pub fn dot(&self, rhs: &Vec3) -> (r: i64)
        requires
            vbnd(*self, VEC_BOUND as int),
            vbnd(*rhs, VEC_BOUND as int),
        ensures
            r as int == sv_dot(*self, *rhs),
            -0x3_0000_0000_0000 <= r as int <= 0x3_0000_0000_0000,
    {
        proof {
            lemma_fxm_bound(self.0 as int, rhs.0 as int, VEC_BOUND as int, VEC_BOUND as int);
            lemma_fxm_bound(self.1 as int, rhs.1 as int, VEC_BOUND as int, VEC_BOUND as int);
            lemma_fxm_bound(self.2 as int, rhs.2 as int, VEC_BOUND as int, VEC_BOUND as int);
        }
        fx_mul(self.0, rhs.0) + fx_mul(self.1, rhs.1) + fx_mul(self.2, rhs.2)
    }

    /// Squared length; never negative.
    pub fn len_squared(&self) -> (r: i64)
        requires
            vbnd(*self, VEC_BOUND as int),
        ensures
            r as int == sv_len_sq(*self),
            0 <= r as int <= 0x3_0000_0000_0000,
    {
        proof {
            lemma_sq_nonneg(self.0 as int);
            lemma_sq_nonneg(self.1 as int);
            lemma_sq_nonneg(self.2 as int);
        }
        self.dot(self)
    }

    /// Length: the fixed-point square root of the squared length.
    pub fn len(&self) -> (r: i64)
        requires
            vbnd(*self, VEC_BOUND as int),
        ensures
            r as int == sv_len(*self),
            0 <= r,
    {
        fx_sqrt(self.len_squared())
    }

    /// Right-handed cross product.
    pub fn cross(&self, rhs: Vec3) -> (r: Vec3)
        requires
            vbnd(*self, VEC_BOUND as int),
            vbnd(rhs, VEC_BOUND as int),
        ensures
            r == sv_cross(*self, rhs),
            vbnd(r, 0x2_0000_0000_0000),
    {
        proof {
            lemma_fxm_bound(self.1 as int, rhs.2 as int, VEC_BOUND as int, VEC_BOUND as int);
            lemma_fxm_bound(self.2 as int, rhs.1 as int, VEC_BOUND as int, VEC_BOUND as int);
            lemma_fxm_bound(self.0 as int, rhs.2 as int, VEC_BOUND as int, VEC_BOUND as int);
            lemma_fxm_bound(self.2 as int, rhs.0 as int, VEC_BOUND as int, VEC_BOUND as int);
            lemma_fxm_bound(self.0 as int, rhs.1 as int, VEC_BOUND as int, VEC_BOUND as int);
            lemma_fxm_bound(self.1 as int, rhs.0 as int, VEC_BOUND as int, VEC_BOUND as int);
        }
        Vec3(
            fx_mul(self.1, rhs.2) - fx_mul(self.2, rhs.1),
            -(fx_mul(self.0, rhs.2) - fx_mul(self.2, rhs.0)),
            fx_mul(self.0, rhs.1) - fx_mul(self.1, rhs.0),
        )
    }

    /// Normalization: the vector scaled by the reciprocal of its length.
    /// The length must be nonzero; the caller guarantees it, as the
    /// zero-length case has no defined direction.  The result's
    /// components never exceed two (in fixed-point units).
    pub fn to_unit(&self) -> (r: Vec3)
        requires
            vbnd(*self, VEC_BOUND as int),
            sv_len_sq(*self) > 0,
        ensures
            r == sv_to_unit(*self),
            vbnd(r, 2 * FX_ONE as int),
    {
        let q = self.len_squared();
        let l = fx_sqrt(q);
        proof {
            lemma_len_at_least_one(q as int, l as int);
            lemma_tdiv_bound(0x1_0000_0000, 0x1_0000_0000, l as int);
        }
        let k = fx_div(FX_ONE, l);
        proof {
            lemma_sq_lower(self.0 as int);
            lemma_sq_lower(self.1 as int);
            lemma_sq_lower(self.2 as int);
            lemma_sq_nonneg(self.0 as int);
            lemma_sq_nonneg(self.1 as int);
            lemma_sq_nonneg(self.2 as int);
            lemma_unit_comp(self.0 as int, q as int, l as int, k as int);
            lemma_unit_comp(self.1 as int, q as int, l as int, k as int);
            lemma_unit_comp(self.2 as int, q as int, l as int, k as int);
        }
        Vec3(fx_mul(self.0, k), fx_mul(self.1, k), fx_mul(self.2, k))
    }
}

/// Squares are never negative.
proof fn lemma_sq_nonneg(x: int)
    ensures
        0 <= fxm(x, x),
{
    assert(0 <= x * x) by (nonlinear_arith);
}

/// The rounded square underestimates the true square by less than one unit.
proof fn lemma_sq_lower(x: int)
    ensures
        fxm(x, x) * (FX_ONE as int) > x * x - (FX_ONE as int),
{
    assert(0 <= x * x) by (nonlinear_arith);
    vstd::arithmetic::div_mod::lemma_fundamental_div_mod(x * x, FX_ONE as int);
}

/// A vector of nonzero squared length has fixed-point length at least
/// `1/256` (raw 256).
proof fn lemma_len_at_least_one(q: int, l: int)
    requires
        1 <= q,
        is_sqrt(q * (FX_ONE as int), l),
    ensures
        256 <= l,
{
    assert(256 <= l) by (nonlinear_arith)
        requires 1 <= q, is_sqrt(q * 65536, l)
    {
        assert((l + 1) * (l + 1) > 65536);
    }
}

/// Bound on a normalized component: scaling a component by the
/// reciprocal of the vector's length yields at most two.
proof fn lemma_unit_comp(x: int, q: int, l: int, k: int)
    requires
        q * (FX_ONE as int) > x * x - (FX_ONE as int),
        is_sqrt(q * (FX_ONE as int), l),
        256 <= l,
        k == tdiv((FX_ONE as int) * (FX_ONE as int), l),
    ensures
        -(2 * (FX_ONE as int)) <= fxm(x, k) <= 2 * (FX_ONE as int),
        0 <= k,
{
    vstd::arithmetic::div_mod::lemma_fundamental_div_mod(65536int * 65536, l as int);
    assert(k * l <= 65536 * 65536 && 0 <= k) by (nonlinear_arith)
        requires k == (65536int * 65536) / l, 256 <= l, (65536int * 65536) == l * ((65536int * 65536) / l) + (65536int * 65536) % l
    {
    }
    assert(x * x < 4 * (l * l)) by (nonlinear_arith)
        requires q * 65536 > x * x - 65536, q * 65536 < (l + 1) * (l + 1), 256 <= l
    {
    }
    assert(-(2 * l) <= x <= 2 * l) by (nonlinear_arith)
        requires x * x < 4 * (l * l), 0 <= l
    {
    }
    assert(-(2 * (65536int * 65536)) <= x * k <= 2 * (65536int * 65536)) by (nonlinear_arith)
        requires -(2 * l) <= x <= 2 * l, 0 <= k, k * l <= 65536int * 65536
    {
    }
    lemma_tdiv_bound(x * k, 2 * (65536int * 65536), 65536);
    assert((2 * (65536int * 65536)) / 65536 == 2 * 65536);
}

/// Bound on a truncating quotient for any nonzero divisor: the
/// magnitude of the quotient never exceeds the magnitude of the
/// dividend.
pub proof fn lemma_tdiv_any(n: int, p: int, d: int)
    by (nonlinear_arith)
    requires
        d != 0,
        0 <= p,
        -p <= n <= p,
    ensures
        -p <= tdiv(n, d) <= p,
{
}

/// Adding a vector and subtracting it again returns the original
/// exactly: fixed-point addition and subtraction do not round.
pub proof fn lemma_add_sub_cancel(a: Vec3, b: Vec3)
    requires
        i64::MIN <= a.0 + b.0 <= i64::MAX,
        i64::MIN <= a.1 + b.1 <= i64::MAX,
        i64::MIN <= a.2 + b.2 <= i64::MAX,
    ensures
        sv_sub(sv_add(a, b), b) == a,
{
}

/// The cross product is antisymmetric exactly, rounding included:
/// swapping the arguments negates the result.
pub proof fn lemma_cross_antisym(a: Vec3, b: Vec3)
    requires
        vbnd(a, VEC_BOUND as int),
        vbnd(b, VEC_BOUND as int),
    ensures
        sv_cross(a, b) == sv_neg(sv_cross(b, a)),
{
    lemma_fxm_comm(a.0 as int, b.0 as int);
    lemma_fxm_comm(a.0 as int, b.1 as int);
    lemma_fxm_comm(a.0 as int, b.2 as int);
    lemma_fxm_comm(a.1 as int, b.0 as int);
    lemma_fxm_comm(a.1 as int, b.1 as int);
    lemma_fxm_comm(a.1 as int, b.2 as int);
    lemma_fxm_comm(a.2 as int, b.0 as int);
    lemma_fxm_comm(a.2 as int, b.1 as int);
    lemma_fxm_comm(a.2 as int, b.2 as int);
    lemma_fxm_bound(a.0 as int, b.0 as int, VEC_BOUND as int, VEC_BOUND as int);
    lemma_fxm_bound(a.0 as int, b.1 as int, VEC_BOUND as int, VEC_BOUND as int);
    lemma_fxm_bound(a.0 as int, b.2 as int, VEC_BOUND as int, VEC_BOUND as int);
    lemma_fxm_bound(a.1 as int, b.0 as int, VEC_BOUND as int, VEC_BOUND as int);
    lemma_fxm_bound(a.1 as int, b.1 as int, VEC_BOUND as int, VEC_BOUND as int);
    lemma_fxm_bound(a.1 as int, b.2 as int, VEC_BOUND as int, VEC_BOUND as int);
    lemma_fxm_bound(a.2 as int, b.0 as int, VEC_BOUND as int, VEC_BOUND as int);
    lemma_fxm_bound(a.2 as int, b.1 as int, VEC_BOUND as int, VEC_BOUND as int);
    lemma_fxm_bound(a.2 as int, b.2 as int, VEC_BOUND as int, VEC_BOUND as int);
}

/// Fixed-point multiplication is commutative.
pub proof fn lemma_fxm_comm(a: int, b: int)
    ensures
        fxm(a, b) == fxm(b, a),
{
    assert(a * b == b * a) by (nonlinear_arith);
}

/// Whether every component of `v` lies within `[-b, b]`.
pub fn in_bounds(v: &Vec3, b: i64) -> (r: bool)
    requires
        0 <= b,
    ensures
        r == vbnd(*v, b as int),
{
    -b <= v.0 && v.0 <= b && -b <= v.1 && v.1 <= b && -b <= v.2 && v.2 <= b
}

/// An origin and a direction.
#[derive(Clone, Copy, Debug)]
pub struct Ray {
    pub origin: Vec3,
    pub direction: Vec3,
}

/// Mirror of a point on a ray: the origin advanced along the direction.
pub open spec fn sv_point_at(r: Ray, t: i64) -> Vec3 {
    sv_add(r.origin, sv_scale(r.direction, t))
}

impl Ray {
    /// The point reached by travelling `magnitude` along the ray.
    pub fn point_at_param(&self, magnitude: i64) -> (r: Vec3)
        requires
            vbnd(self.direction, VEC_BOUND as int),
            bnd(magnitude, VEC_BOUND as int),
            vbnd(self.origin, 0x4000_0000_0000_0000),
        ensures
            r == sv_point_at(*self, magnitude),
    {
        self.origin.add(self.direction.scale(magnitude))
    }
}

} // verus!
