//! The integrator: what light arrives along a ray.
use vstd::prelude::*;
use crate::data::{Hittable, Ray, RayHit, ScatterResult};
use crate::interval::Interval;
use crate::kernels::{Geometry, Shading};
use crate::materials::is_black;
use crate::scalar::{Scalar, EPSILON, INFINITY, ZERO};
use crate::world::World;

verus! {

/// The distances at which a traced ray may hit: from a little off its origin,
/// so that a scattered ray does not meet the surface it left, to infinity.
pub open spec fn reach() -> Interval {
    Interval { min: EPSILON, max: INFINITY }
}

/// Whether `color` is a possible colour of the light that leaves the surface
/// at `ray_hit` against `ray`, with `depth_left` surfaces still allowed after
/// this one: what the material emits where it does not scatter, else what
/// arrives along the scattered ray, seen through the attenuation.
pub open spec fn shaded<A: Hittable, B: Hittable, G: Geometry, S: Shading>(
    ray: Ray,
    ray_hit: RayHit,
    world: World<A, B>,
    depth_left: nat,
    geometry: G,
    shading: S,
    color: [Scalar; 3],
) -> bool
    decreases depth_left, 2nat,
{
    exists|scattered: Option<ScatterResult>| #[trigger]
        ray_hit.material.scattering(ray, ray_hit, shading, scattered) && match scattered {
            None => ray_hit.material.emission(ray_hit.uv, ray_hit.point, shading, color),
            Some(scatter) => exists|arriving: [Scalar; 3]|
                traced(
                    scatter.scattered,
                    world,
                    depth_left,
                    geometry,
                    shading,
                    arriving,
                ) && #[trigger] call_ensures(
                    S::tint,
                    (&shading, &scatter.attenuation, &arriving),
                    color,
                ),
        }
}

/// Whether `color` is a possible colour of the light that arrives along
/// `ray` with `depth_left` bounces allowed: black with none left, the
/// background in the direction of the ray where it hits nothing within reach,
/// else the light that leaves the nearest surface.
pub open spec fn traced<A: Hittable, B: Hittable, G: Geometry, S: Shading>(
    ray: Ray,
    world: World<A, B>,
    depth_left: nat,
    geometry: G,
    shading: S,
    color: [Scalar; 3],
) -> bool
    decreases depth_left, 1nat,
{
    if depth_left == 0 {
        is_black(color)
    } else {
        exists|found: Option<RayHit>| #[trigger]
            world.search(ray, reach(), geometry, found) && match found {
                None => call_ensures(S::background, (&shading, &ray.direction), color),
                Some(ray_hit) => shaded(
                    ray,
                    ray_hit,
                    world,
                    (depth_left - 1) as nat,
                    geometry,
                    shading,
                    color,
                ),
            }
    }
}

/// The colour of the light that arrives along `ray`, followed through at
/// most `depth_left` surfaces. A ray that hits nothing brings what the
/// background gives in its own direction, be it the first ray or one that a
/// surface scattered.
pub fn ray_color<A: Hittable, B: Hittable, G: Geometry, S: Shading>(
    ray: Ray,
    world: &World<A, B>,
    depth_left: u32,
    geometry: &G,
    shading: &S,
) -> (color: [Scalar; 3])
    ensures
        traced(ray, *world, depth_left as nat, *geometry, *shading, color),
    decreases depth_left,
{
    if depth_left == 0 {
        let black: [Scalar; 3] = [ZERO, ZERO, ZERO];
        assert(is_black(black));
        return black;
    }
    let interval: Interval = Interval::new(EPSILON, INFINITY);
    assert(interval == reach());
    let found: Option<RayHit> = world.raycast(ray, interval, geometry);
    if let Some(ray_hit) = found {
        let emission_color: [Scalar; 3] = ray_hit.material.emit(ray_hit.uv, ray_hit.point, shading);
        let scattered: Option<ScatterResult> = ray_hit.material.scatter(ray, &ray_hit, shading);
        if let Some(scatter_result) = scattered {
            let arriving: [Scalar; 3] = ray_color(
                scatter_result.scattered,
                world,
                depth_left - 1,
                geometry,
                shading,
            );
            let color: [Scalar; 3] = shading.tint(&scatter_result.attenuation, &arriving);
            assert(shaded(
                ray,
                ray_hit,
                *world,
                (depth_left - 1) as nat,
                *geometry,
                *shading,
                color,
            ));
            color
        } else {
            assert(shaded(
                ray,
                ray_hit,
                *world,
                (depth_left - 1) as nat,
                *geometry,
                *shading,
                emission_color,
            ));
            emission_color
        }
    } else {
        // Didn't hit anything.
        shading.background(&ray.direction)
    }
}

/// With no bounce left a ray brings black, whatever lies along it.
pub proof fn lemma_spent_depth_is_black<A: Hittable, B: Hittable, G: Geometry, S: Shading>(
    ray: Ray,
    world: World<A, B>,
    geometry: G,
    shading: S,
    color: [Scalar; 3],
)
    requires
        traced(ray, world, 0, geometry, shading, color),
    ensures
        is_black(color),
{
}

/// A ray that hits nothing within reach brings exactly what the background
/// gives in its direction: no material is asked and no further ray is traced.
pub proof fn lemma_miss_is_background<A: Hittable, B: Hittable, G: Geometry, S: Shading>(
    ray: Ray,
    world: World<A, B>,
    depth_left: nat,
    geometry: G,
    shading: S,
    color: [Scalar; 3],
)
    requires
        depth_left > 0,
        forall|found: Option<RayHit>| #[trigger]
            world.search(ray, reach(), geometry, found) ==> found is None,
        traced(ray, world, depth_left, geometry, shading, color),
    ensures
        call_ensures(S::background, (&shading, &ray.direction), color),
{
}

/// A ray whose nearest surface does not scatter brings what that surface
/// emits: black unless the surface is a light.
pub proof fn lemma_unscattered_is_emission<A: Hittable, B: Hittable, G: Geometry, S: Shading>(
    ray: Ray,
    ray_hit: RayHit,
    world: World<A, B>,
    depth_left: nat,
    geometry: G,
    shading: S,
    color: [Scalar; 3],
)
    requires
        forall|scattered: Option<ScatterResult>| #[trigger]
            ray_hit.material.scattering(ray, ray_hit, shading, scattered) ==> scattered is None,
        shaded(ray, ray_hit, world, depth_left, geometry, shading, color),
    ensures
        ray_hit.material.emission(ray_hit.uv, ray_hit.point, shading, color),
{
}

} // verus!
