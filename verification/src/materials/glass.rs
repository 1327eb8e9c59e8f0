//! Clear surfaces: light is bent on its way through, or mirrored.
use vstd::prelude::*;
use crate::data::{Face, Ray, RayHit, ScatterResult};
use crate::kernels::Shading;
use crate::scalar::{less, lt, Scalar, ONE};

verus! {

/// Whether light must be mirrored although `bend`, the refraction ratio times
/// the sine of the angle of incidence, allows it through: the reflectance of
/// the surface exceeds the number drawn.
pub open spec fn mirrored_by_chance(reflectance: Scalar, draw: Scalar) -> bool {
    less(draw, reflectance)
}

/// Whether `ratio` is a possible refraction ratio for a hit on `face`: the
/// index itself from inside, one over the index from outside.
pub open spec fn ratio_of<S: Shading>(
    refraction_index: Scalar,
    face: Face,
    shading: S,
    ratio: Scalar,
) -> bool {
    match face {
        Face::Front => call_ensures(S::reciprocal, (&shading, refraction_index), ratio),
        Face::Back => ratio == refraction_index,
    }
}

/// Whether the surface may mirror the ray: the bend is above one, which
/// leaves no refracted ray, or chance has it so.
pub open spec fn may_mirror<S: Shading>(
    ray: Ray,
    ray_hit: RayHit,
    shading: S,
    ratio: Scalar,
) -> bool {
    exists|bend: Scalar| #[trigger]
        call_ensures(S::bend, (&shading, &ray.direction, &ray_hit.normal, ratio), bend) && (less(
            ONE,
            bend,
        ) || exists|reflectance: Scalar, draw: Scalar|
            call_ensures(
                S::reflectance,
                (&shading, &ray.direction, &ray_hit.normal, ratio),
                reflectance,
            ) && call_ensures(S::uniform, (&shading,), draw) && #[trigger] mirrored_by_chance(
                reflectance,
                draw,
            ))
}

/// Whether the surface may let the ray through: the bend is not above one
/// and chance has it so.
pub open spec fn may_refract<S: Shading>(
    ray: Ray,
    ray_hit: RayHit,
    shading: S,
    ratio: Scalar,
) -> bool {
    exists|bend: Scalar| #[trigger]
        call_ensures(S::bend, (&shading, &ray.direction, &ray_hit.normal, ratio), bend) && !less(
            ONE,
            bend,
        ) && exists|reflectance: Scalar, draw: Scalar|
            call_ensures(
                S::reflectance,
                (&shading, &ray.direction, &ray_hit.normal, ratio),
                reflectance,
            ) && call_ensures(S::uniform, (&shading,), draw) && !#[trigger] mirrored_by_chance(
                reflectance,
                draw,
            )
}

/// Whether `result` is a possible outcome of scattering at a clear surface.
pub open spec fn scattering<S: Shading>(
    refraction_index: Scalar,
    ray: Ray,
    ray_hit: RayHit,
    shading: S,
    result: Option<ScatterResult>,
) -> bool {
    &&& result matches Some(scatter)
    &&& scatter.scattered.origin == ray_hit.point
    &&& scatter.attenuation[0] == ONE
    &&& scatter.attenuation[1] == ONE
    &&& scatter.attenuation[2] == ONE
    &&& exists|ratio: Scalar| #[trigger]
        ratio_of(refraction_index, ray_hit.face, shading, ratio) && {
            ||| may_mirror(ray, ray_hit, shading, ratio) && call_ensures(
                S::reflected,
                (&shading, &ray.direction, &ray_hit.normal),
                scatter.scattered.direction,
            )
            ||| may_refract(ray, ray_hit, shading, ratio) && call_ensures(
                S::refracted,
                (&shading, &ray.direction, &ray_hit.normal, ratio),
                scatter.scattered.direction,
            )
        }
}

/// Scatters at a clear surface: always, and without loss of colour. The ray
/// is mirrored where it cannot be bent, and otherwise as often as the
/// reflectance of the surface says.
pub fn scatter<S: Shading>(
    refraction_index: Scalar,
    ray: Ray,
    ray_hit: &RayHit,
    shading: &S,
) -> (result: Option<ScatterResult>)
    ensures
        scattering(refraction_index, ray, *ray_hit, *shading, result),
{
    let refraction_ratio: Scalar = match ray_hit.face {
        Face::Front => shading.reciprocal(refraction_index),
        Face::Back => refraction_index,
    };
    assert(ratio_of(refraction_index, ray_hit.face, *shading, refraction_ratio));
    let bend: Scalar = shading.bend(&ray.direction, &ray_hit.normal, refraction_ratio);
    let mut cannot_refract: bool = lt(ONE, bend);
    if !cannot_refract {
        let reflectance: Scalar = shading.reflectance(
            &ray.direction,
            &ray_hit.normal,
            refraction_ratio,
        );
        let draw: Scalar = shading.uniform();
        cannot_refract = lt(draw, reflectance);
        assert(cannot_refract == mirrored_by_chance(reflectance, draw));
    }
    let direction: [Scalar; 3] = if cannot_refract {
        shading.reflected(&ray.direction, &ray_hit.normal)
    } else {
        shading.refracted(&ray.direction, &ray_hit.normal, refraction_ratio)
    };
    let scattered: Ray = Ray::new(ray_hit.point, direction);
    let attenuation: [Scalar; 3] = [ONE, ONE, ONE];
    Some(ScatterResult { scattered, attenuation })
}

} // verus!
