//! Scene construction: the demo scene of random small spheres around
//! three large ones on a huge ground sphere.

use vstd::prelude::*;
use crate::fx::{fx_mul, lemma_fxm_bound, FX_ONE};
use crate::geometry::{Solid, SolidGroup, Sphere};
use crate::material::{mat_ok, Dielectric, Lambertian, Material, Metal};
use crate::rng::rand_fx;
use crate::vec3::Vec3;

verus! {

/// A material drawn at random: diffuse with probability 0.8, metal
/// with probability 0.15, glass with the rest; parameters drawn as the
/// variant prescribes.  Always well-formed.
pub fn random_mat(rng: &mut rand::rngs::StdRng) -> (m: Material)
    ensures
        mat_ok(m),
{
    let choose_mat = rand_fx(rng, 0, FX_ONE);

    if choose_mat < 52429 {
        Material::Lambertian(Lambertian { albedo: Vec3::random(rng, 0, FX_ONE) })
    } else if choose_mat < 62259 {
        Material::Metal(
            Metal { albedo: Vec3::random(rng, FX_ONE / 2, FX_ONE), fuzz: rand_fx(rng, 0, FX_ONE / 2) },
        )
    } else {
        Material::Dielectric(Dielectric { ref_idx: 98304 })
    }
}

/// The demo scene: a huge grey ground sphere, a grid of small spheres
/// with random materials (skipping those too close to the metal
/// sphere's spot), and three unit spheres — glass, diffuse and metal.
/// Every sphere is well-formed, so the group is.
pub fn random_scene(rng: &mut rand::rngs::StdRng) -> (g: SolidGroup<Sphere>)
    ensures
        g.wf(),
{
    let mut scene: Vec<Sphere> = Vec::new();
    scene.push(
        Sphere {
            center: Vec3(0, -1000 * FX_ONE, 0),
            radius: 1000 * FX_ONE,
            material: Material::Lambertian(Lambertian { albedo: Vec3(FX_ONE / 2, FX_ONE / 2, FX_ONE / 2) }),
        },
    );
    assert(forall|k: int| 0 <= k < scene@.len() ==> #[trigger] scene@[k].wf());

    let mut a: i64 = -11;
    while a < 11
        invariant
            -11 <= a <= 11,
            forall|k: int| 0 <= k < scene@.len() ==> #[trigger] scene@[k].wf(),
        decreases 11 - a,
    {
        let mut b: i64 = -11;
        while b < 11
            invariant
                -11 <= a < 11,
                -11 <= b <= 11,
                forall|k: int| 0 <= k < scene@.len() ==> #[trigger] scene@[k].wf(),
            decreases 11 - b,
        {
            let ra = rand_fx(rng, 0, FX_ONE);
            let rb = rand_fx(rng, 0, FX_ONE);
            proof {
                lemma_fxm_bound(ra as int, 58982, 0x1_0000, 58982);
                lemma_fxm_bound(rb as int, 58982, 0x1_0000, 58982);
            }
            let center = Vec3(
                a * FX_ONE + fx_mul(ra, 58982),
                13107,
                b * FX_ONE + fx_mul(rb, 58982),
            );
            let radius: i64 = 13107;

            if center.sub(Vec3(4 * FX_ONE, 13107, 0)).len() > 58982 {
                let material = random_mat(rng);
                scene.push(Sphere { center, radius, material });
            }
            b = b + 1;
        }
        a = a + 1;
    }

    scene.push(
        Sphere {
            center: Vec3(0, FX_ONE, 0),
            radius: FX_ONE,
            material: Material::Dielectric(Dielectric { ref_idx: 98304 }),
        },
    );
    scene.push(
        Sphere {
            center: Vec3(-4 * FX_ONE, FX_ONE, 0),
            radius: FX_ONE,
            material: Material::Lambertian(Lambertian { albedo: Vec3(26214, 13107, 6554) }),
        },
    );
    scene.push(
        Sphere {
            center: Vec3(4 * FX_ONE, FX_ONE, 0),
            radius: FX_ONE,
            material: Material::Metal(Metal { albedo: Vec3(45875, 39322, 0), fuzz: 0 }),
        },
    );

    SolidGroup { solids: scene }
}

} // verus!
