//! The values that pass between the tracer and its numeric kernels.
use vstd::prelude::*;
use crate::bvh::Aabb;
use crate::interval::Interval;
use crate::kernels::Geometry;
use crate::materials::Material;
use crate::scalar::{less, lt, negate, opposite, Scalar, ZERO};

verus! {

/// A ray: where it starts and where it heads (not necessarily unit length).
#[derive(Debug, Clone, Copy)]
pub struct Ray {
    pub origin: [Scalar; 3],
    pub direction: [Scalar; 3],
}

impl Ray {
    /// The ray from `origin` along `direction`.
    pub fn new(origin: [Scalar; 3], direction: [Scalar; 3]) -> (ray: Self)
        ensures
            ray.origin == origin,
            ray.direction == direction,
    {
        Self { origin, direction }
    }

    /// The face that the ray strikes where the surface has the outward normal
    /// `outward_normal`.
    pub fn get_face<G: Geometry>(self, outward_normal: [Scalar; 3], geometry: &G) -> (face: Face)
        ensures
            struck(self, outward_normal, *geometry, face),
    {
        let direction: Scalar = geometry.dot(&self.direction, &outward_normal);
        if lt(direction, ZERO) {
            Face::Front
        } else {
            Face::Back
        }
    }
}

/// The face that a ray strikes when `facing` is the dot product of its
/// direction and the outward normal: the front face when the two oppose each
/// other, which a dot product that is no number does not show.
pub open spec fn side_of(facing: Scalar) -> Face {
    if less(facing, ZERO) {
        Face::Front
    } else {
        Face::Back
    }
}

/// Whether `face` is a possible face for `ray` to strike where the outward
/// normal is `outward`.
pub open spec fn struck<G: Geometry>(
    ray: Ray,
    outward: [Scalar; 3],
    geometry: G,
    face: Face,
) -> bool {
    exists|facing: Scalar| #[trigger]
        call_ensures(G::dot, (&geometry, &ray.direction, &outward), facing) && face == side_of(
            facing,
        )
}

/// Whether `normal` is `outward` turned against the ray: itself for a hit on
/// the front face, its opposite for a hit on the back face.
pub open spec fn turned(face: Face, outward: [Scalar; 3], normal: [Scalar; 3]) -> bool {
    match face {
        Face::Front => normal == outward,
        Face::Back => normal[0] == opposite(outward[0]) && normal[1] == opposite(outward[1])
            && normal[2] == opposite(outward[2]),
    }
}

/// Turns the outward normal against the ray.
pub fn orient(face: Face, outward: [Scalar; 3]) -> (normal: [Scalar; 3])
    ensures
        turned(face, outward, normal),
{
    match face {
        Face::Front => outward,
        Face::Back => [negate(outward[0]), negate(outward[1]), negate(outward[2])],
    }
}

/// A shape that a ray can strike. The library asks a shape two things and
/// promises nothing about the answers: its contracts speak of whatever the
/// calls returned.
pub trait Hittable {
    /// The box that encloses the shape.
    fn bounding_box(&self) -> Aabb;

    /// The intersection with `ray` whose distance lies in `interval`, if any.
    fn raycast(&self, ray: Ray, interval: Interval) -> Option<RayHit>;
}

/// A face and an outward normal leave one normal turned against the ray.
pub proof fn lemma_turned_is_one(face: Face, outward: [Scalar; 3], a: [Scalar; 3], b: [Scalar; 3])
    requires
        turned(face, outward, a),
        turned(face, outward, b),
    ensures
        a == b,
{
    assert(a =~= b);
}

/// The side of a surface that a ray struck.
#[derive(Debug, Clone, Copy, PartialEq, Eq, Structural)]
pub enum Face {
    Front,
    Back,
}

/// One intersection of a ray with a surface.
#[derive(Debug, Clone, Copy)]
pub struct RayHit {
    /// Distance to the hit along the ray.
    pub distance: Scalar,
    /// The point where the ray hit.
    pub point: [Scalar; 3],
    /// Which face was struck.
    pub face: Face,
    /// Unit normal, turned against the incoming ray.
    pub normal: [Scalar; 3],
    /// Surface coordinate.
    pub uv: [Scalar; 2],
    /// The material of the struck shape.
    pub material: Material,
}

/// What scattering makes of a ray.
#[derive(Debug, Clone, Copy)]
pub struct ScatterResult {
    /// The new ray.
    pub scattered: Ray,
    /// The colour that scattering lets through.
    pub attenuation: [Scalar; 3],
}

} // verus!
