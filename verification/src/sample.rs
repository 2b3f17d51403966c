//! Rejection samplers for scattering and lens offsets.
//!
//! Both samplers draw uniform points in a cube (or square) and retry
//! until the point falls inside the unit ball (or disk).  Each retry
//! succeeds with a fixed probability well above one half, so a cap of
//! 128 attempts is reached only with vanishing probability; the cap
//! keeps the loop provably terminating, and its fallback — the center
//! point — lies inside the ball like every other accepted sample.

use vstd::prelude::*;
use crate::fx::FX_ONE;
use crate::rng::rand_fx;
use crate::vec3::{sv_len_sq, vbnd, Vec3};

verus! {

/// A point drawn from the open unit ball.
pub fn random_in_unit_sphere(rng: &mut rand::rngs::StdRng) -> (r: Vec3)
    ensures
        sv_len_sq(r) < FX_ONE as int,
        vbnd(r, FX_ONE as int),
{
    let mut tries: u64 = 128;
    while tries > 0
        decreases tries,
    {
        let x = rand_fx(rng, -FX_ONE, FX_ONE);
        let y = rand_fx(rng, -FX_ONE, FX_ONE);
        let z = rand_fx(rng, -FX_ONE, FX_ONE);
        let p = Vec3(x, y, z);
        if p.len_squared() < FX_ONE {
            return p;
        }
        tries = tries - 1;
    }
    Vec3(0, 0, 0)
}

/// A point drawn from the open unit disk in the x-y plane.
pub fn random_in_unit_disk(rng: &mut rand::rngs::StdRng) -> (r: Vec3)
    ensures
        sv_len_sq(r) < FX_ONE as int,
        vbnd(r, FX_ONE as int),
        r.2 == 0,
{
    let mut tries: u64 = 128;
    while tries > 0
        decreases tries,
    {
        let x = rand_fx(rng, -FX_ONE, FX_ONE);
        let y = rand_fx(rng, -FX_ONE, FX_ONE);
        let p = Vec3(x, y, 0);
        if p.len_squared() < FX_ONE {
            return p;
        }
        tries = tries - 1;
    }
    Vec3(0, 0, 0)
}

} // verus!
