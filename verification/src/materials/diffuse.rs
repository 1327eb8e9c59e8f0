//! Matte surfaces: light leaves in a random direction about the normal.
use vstd::prelude::*;
use crate::data::{Ray, RayHit, ScatterResult};
use crate::kernels::Shading;
use crate::scalar::Scalar;
use crate::texture::{color_of, Texture};

verus! {

/// The direction in which a matte surface sends a ray on: the candidate that
/// was drawn, or the normal where the candidate is as good as zero.
pub open spec fn settled(candidate: [Scalar; 3], degenerate: bool, normal: [Scalar; 3]) -> [
    Scalar;
    3
] {
    if degenerate {
        normal
    } else {
        candidate
    }
}

/// Whether `result` is a possible outcome of scattering at a matte surface.
pub open spec fn scattering<S: Shading>(
    albedo: Texture,
    ray_hit: RayHit,
    shading: S,
    result: Option<ScatterResult>,
) -> bool {
    &&& result matches Some(scatter)
    &&& scatter.scattered.origin == ray_hit.point
    &&& color_of(albedo, ray_hit.uv, ray_hit.point, shading, scatter.attenuation)
    &&& exists|candidate: [Scalar; 3], degenerate: bool|
        call_ensures(S::diffuse_direction, (&shading, &ray_hit.normal), candidate) && call_ensures(
            S::is_approx_zero,
            (&shading, &candidate),
            degenerate,
        ) && scatter.scattered.direction == #[trigger] settled(
            candidate,
            degenerate,
            ray_hit.normal,
        )
}

/// Scatters at a matte surface: always, along the normal plus a random unit
/// vector, or along the normal itself where the two nearly cancel.
pub fn scatter<S: Shading>(albedo: &Texture, ray_hit: &RayHit, shading: &S) -> (result: Option<
    ScatterResult,
>)
    ensures
        scattering(*albedo, *ray_hit, *shading, result),
{
    let candidate: [Scalar; 3] = shading.diffuse_direction(&ray_hit.normal);
    // Catch a degenerate scatter direction.
    let degenerate: bool = shading.is_approx_zero(&candidate);
    let scatter_direction: [Scalar; 3] = if degenerate {
        ray_hit.normal
    } else {
        candidate
    };
    assert(scatter_direction == settled(candidate, degenerate, ray_hit.normal));
    let scattered: Ray = Ray::new(ray_hit.point, scatter_direction);
    let attenuation: [Scalar; 3] = albedo.color_at(ray_hit.uv, ray_hit.point, shading);
    Some(ScatterResult { scattered, attenuation })
}

} // verus!
