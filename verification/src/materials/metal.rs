//! Polished surfaces: light is mirrored, more or less sharply.
use vstd::prelude::*;
use crate::data::{Ray, RayHit, ScatterResult};
use crate::kernels::Shading;
use crate::scalar::{less, lt, Scalar, ZERO};
use crate::texture::{color_of, Texture};

verus! {

/// The scattered ray, kept only where it leaves the surface: `facing`, its
/// direction's dot product with the normal, is a number above zero.
pub open spec fn leaving(scatter: ScatterResult, facing: Scalar) -> Option<ScatterResult> {
    if less(ZERO, facing) {
        Some(scatter)
    } else {
        None
    }
}

/// Whether `result` is a possible outcome of scattering at a polished
/// surface.
pub open spec fn scattering<S: Shading>(
    albedo: Texture,
    fuzz: Scalar,
    ray: Ray,
    ray_hit: RayHit,
    shading: S,
    result: Option<ScatterResult>,
) -> bool {
    exists|scatter: ScatterResult, facing: Scalar|
        {
            &&& scatter.scattered.origin == ray_hit.point
            &&& call_ensures(
                S::metal_direction,
                (&shading, &ray.direction, &ray_hit.normal, fuzz),
                scatter.scattered.direction,
            )
            &&& color_of(albedo, ray_hit.uv, ray_hit.point, shading, scatter.attenuation)
            &&& call_ensures(
                S::dot,
                (&shading, &scatter.scattered.direction, &ray_hit.normal),
                facing,
            )
            &&& result == #[trigger] leaving(scatter, facing)
        }
}

/// Scatters at a polished surface: along the mirrored direction, blurred by
/// `fuzz`, unless that points into the surface.
pub fn scatter<S: Shading>(
    albedo: &Texture,
    fuzz: Scalar,
    ray: Ray,
    ray_hit: &RayHit,
    shading: &S,
) -> (result: Option<ScatterResult>)
    ensures
        scattering(*albedo, fuzz, ray, *ray_hit, *shading, result),
{
    let direction: [Scalar; 3] = shading.metal_direction(&ray.direction, &ray_hit.normal, fuzz);
    let scattered: Ray = Ray::new(ray_hit.point, direction);
    let attenuation: [Scalar; 3] = albedo.color_at(ray_hit.uv, ray_hit.point, shading);
    let facing: Scalar = shading.dot(&scattered.direction, &ray_hit.normal);
    let scatter: ScatterResult = ScatterResult { scattered, attenuation };
    let result: Option<ScatterResult> = if lt(ZERO, facing) {
        Some(scatter)
    } else {
        None
    };
    assert(result == leaving(scatter, facing));
    result
}

} // verus!
