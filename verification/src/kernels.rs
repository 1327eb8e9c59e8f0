//! The arithmetic that the tracer leaves to its caller.
//!
//! The library decides; it does not calculate. Whatever takes arithmetic on
//! the numbers behind the keys is asked of one of the two traits here, one
//! numeric kernel per method. The library promises nothing about what a
//! kernel returns, and its contracts speak of whatever the calls returned, so
//! that they hold for every implementation. Each method says what the kernel
//! is to compute.
use vstd::prelude::*;
use crate::bvh::{Aabb, Slab};
use crate::data::{side_of, struck, Face, Ray};
use crate::interval::Interval;
use crate::scalar::{less, Scalar, ZERO};

verus! {

/// What the quadratic of a sphere gives for a ray: its discriminant and, where
/// that is not negative, the two ray parameters at which the ray meets the
/// sphere, the smaller first.
#[derive(Debug, Clone, Copy)]
pub struct SphereRoots {
    pub discriminant: Scalar,
    pub near: Scalar,
    pub far: Scalar,
}

/// What a quad derives from its corner and edges: the unit normal of its
/// plane, the vector that decodes plane coordinates, the signed distance of
/// the plane from the origin, and its three other corners.
#[derive(Debug, Clone, Copy)]
pub struct QuadFrame {
    pub normal: [Scalar; 3],
    pub w: [Scalar; 3],
    pub distance: Scalar,
    /// The corner at the end of the first edge.
    pub along_u: [Scalar; 3],
    /// The corner at the end of the second edge.
    pub along_v: [Scalar; 3],
    /// The corner opposite to the given one.
    pub opposite: [Scalar; 3],
}

/// The arithmetic of rays, boxes and shapes.
pub trait Geometry {
    /// Where `ray` crosses the two planes that bound `bounds` along `axis`
    /// (0, 1 or 2). With `inv` for one over the direction of the ray along the
    /// axis and `o` for its origin there: `t0 = (min - o) * inv`,
    /// `t1 = (max - o) * inv`, and `inv` itself. A direction of zero makes
    /// `inv` infinite, and the crossings with it, or no numbers at all where
    /// the ray starts in the plane.
    fn crossing(&self, ray: &Ray, bounds: &Aabb, axis: usize) -> Slab;

    /// The width of `interval`: `max - min`.
    fn size(&self, interval: &Interval) -> Scalar;

    /// `interval` widened by `delta`, half of it at either end.
    fn expand(&self, interval: &Interval, delta: Scalar) -> Interval;

    /// The point of `ray` at parameter `t`: `origin + direction * t`.
    fn at(&self, ray: &Ray, t: Scalar) -> [Scalar; 3];

    /// The dot product of `a` and `b`.
    fn dot(&self, a: &[Scalar; 3], b: &[Scalar; 3]) -> Scalar;

    /// Two opposite corners of the cube around a sphere: the center less the
    /// radius along every axis, and the center plus the radius.
    fn sphere_corners(&self, center: &[Scalar; 3], radius: Scalar) -> ([Scalar; 3], [Scalar; 3]);

    /// The quadratic `|O + t D - C|^2 = r^2` of the sphere for the ray with
    /// origin `O` and direction `D`. With `a = D.D`, `h = (O - C).D` and
    /// `c = |O - C|^2 - r^2`: the discriminant `h^2 - a c`, and the roots
    /// `(-h - s) / a` and `(-h + s) / a`, where `s` is the square root of the
    /// discriminant.
    fn sphere_roots(&self, center: &[Scalar; 3], radius: Scalar, ray: &Ray) -> SphereRoots;

    /// The outward unit normal of the sphere at `point`:
    /// `(point - center) / radius`.
    fn sphere_normal(
        &self,
        point: &[Scalar; 3],
        center: &[Scalar; 3],
        radius: Scalar,
    ) -> [Scalar; 3];

    /// The surface coordinate of the point `(x, y, z)` of the unit sphere:
    /// `u = (atan2(-z, x) + pi) / (2 pi)` and `v = acos(-y) / pi`.
    fn sphere_uv(&self, normal: &[Scalar; 3]) -> [Scalar; 2];

    /// The frame of the quad with corner `origin` and edges `u` and `v`. With
    /// `n` for the cross product of `u` and `v`: the normal `n` scaled to unit
    /// length, `w = n / (n.n)`, the distance `normal.origin`, and the corners
    /// `origin + u`, `origin + v` and `origin + u + v`.
    fn quad_frame(&self, origin: &[Scalar; 3], u: &[Scalar; 3], v: &[Scalar; 3]) -> QuadFrame;

    /// The ray parameter at which `ray` meets the plane with unit `normal` at
    /// signed `distance`: `(distance - normal.origin) / denominator`, where
    /// `denominator` is the dot product of the normal and the direction of
    /// the ray.
    fn plane_parameter(
        &self,
        distance: Scalar,
        normal: &[Scalar; 3],
        ray: &Ray,
        denominator: Scalar,
    ) -> Scalar;

    /// The coordinates of `point` along the edges `u` and `v` of the quad at
    /// `origin`. With `p = point - origin`: `alpha = w.(p x v)` and
    /// `beta = w.(u x p)`.
    fn plane_coordinates(
        &self,
        point: &[Scalar; 3],
        origin: &[Scalar; 3],
        u: &[Scalar; 3],
        v: &[Scalar; 3],
        w: &[Scalar; 3],
    ) -> [Scalar; 2];
}

/// The arithmetic of surfaces and light, with the random draws that it takes.
pub trait Shading {
    /// The dot product of `a` and `b`.
    fn dot(&self, a: &[Scalar; 3], b: &[Scalar; 3]) -> Scalar;

    /// One divided by `value`.
    fn reciprocal(&self, value: Scalar) -> Scalar;

    /// The lattice cell of `point`: each component of `point * inverse_scale`
    /// rounded down to an integer.
    fn cell(&self, point: &[Scalar; 3], inverse_scale: Scalar) -> [i32; 3];

    /// The grey of the noise field with handle `noise` at `point * scale`:
    /// the value of the field there, brought from between minus one and one to
    /// between zero and one, in all three channels.
    fn noise(&self, noise: usize, scale: Scalar, point: &[Scalar; 3]) -> [Scalar; 3];

    /// Where the surface coordinate `uv`, both of whose components lie between
    /// zero and one, falls in an image of `width` by `height` pixels whose
    /// first row is its top: column `u * width` and row `(1 - v) * height`,
    /// each rounded down. A coordinate of one falls just beyond the image.
    fn texel(&self, uv: &[Scalar; 2], width: u32, height: u32) -> [u32; 2];

    /// The pixel of the image with handle `image` in `column` and `row`, as it
    /// is stored.
    fn pixel(&self, image: usize, column: u32, row: u32) -> [Scalar; 3];

    /// `normal` plus a random unit vector.
    fn diffuse_direction(&self, normal: &[Scalar; 3]) -> [Scalar; 3];

    /// Whether `vector` is too close to zero to serve as a direction.
    fn is_approx_zero(&self, vector: &[Scalar; 3]) -> bool;

    /// `direction`, scaled to unit length and mirrored at `normal`, plus
    /// `fuzz` times a random unit vector.
    fn metal_direction(
        &self,
        direction: &[Scalar; 3],
        normal: &[Scalar; 3],
        fuzz: Scalar,
    ) -> [Scalar; 3];

    /// `ratio` times the sine of the angle between `normal` and the opposite
    /// of `direction`. The cosine of that angle is their dot product, with
    /// `direction` scaled to unit length, or one if that is less.
    fn bend(&self, direction: &[Scalar; 3], normal: &[Scalar; 3], ratio: Scalar) -> Scalar;

    /// The share of the light along `direction` that a surface with the
    /// refraction `ratio` mirrors: `r0 + (1 - r0) (1 - cos)^5`, where `cos`
    /// is the cosine of the angle of incidence and `r0` is the square of
    /// `(1 - ratio) / (1 + ratio)`.
    fn reflectance(&self, direction: &[Scalar; 3], normal: &[Scalar; 3], ratio: Scalar) -> Scalar;

    /// A random scalar from zero up to, but not including, one.
    fn uniform(&self) -> Scalar;

    /// `direction`, scaled to unit length and mirrored at `normal`.
    fn reflected(&self, direction: &[Scalar; 3], normal: &[Scalar; 3]) -> [Scalar; 3];

    /// `direction`, scaled to unit length and bent at `normal` by the
    /// refraction `ratio`.
    fn refracted(
        &self,
        direction: &[Scalar; 3],
        normal: &[Scalar; 3],
        ratio: Scalar,
    ) -> [Scalar; 3];

    /// The light that comes from the background of the scene along
    /// `direction`, for a ray that hits nothing.
    fn background(&self, direction: &[Scalar; 3]) -> [Scalar; 3];

    /// `color` as it shows through `attenuation`: the product of the two,
    /// channel by channel.
    fn tint(&self, attenuation: &[Scalar; 3], color: &[Scalar; 3]) -> [Scalar; 3];
}

/// Whether the kernels of `G` that shapes are intersected with give one answer
/// each: whatever two calls with the same arguments return is the same.
pub open spec fn repeats<G: Geometry>() -> bool {
    &&& forall|g: G, ray: Ray, t: Scalar, a: [Scalar; 3], b: [Scalar; 3]|
        #[trigger] call_ensures(G::at, (&g, &ray, t), a) && #[trigger] call_ensures(
            G::at,
            (&g, &ray, t),
            b,
        ) ==> a == b
    &&& forall|g: G, u: [Scalar; 3], v: [Scalar; 3], a: Scalar, b: Scalar|
        #[trigger] call_ensures(G::dot, (&g, &u, &v), a) && #[trigger] call_ensures(
            G::dot,
            (&g, &u, &v),
            b,
        ) ==> a == b
    &&& forall|g: G, center: [Scalar; 3], radius: Scalar, ray: Ray, a: SphereRoots, b: SphereRoots|
        #[trigger] call_ensures(G::sphere_roots, (&g, &center, radius, &ray), a)
            && #[trigger] call_ensures(G::sphere_roots, (&g, &center, radius, &ray), b) ==> a == b
    &&& forall|
        g: G,
        point: [Scalar; 3],
        center: [Scalar; 3],
        radius: Scalar,
        a: [Scalar; 3],
        b: [Scalar; 3],
    |
        #[trigger] call_ensures(G::sphere_normal, (&g, &point, &center, radius), a)
            && #[trigger] call_ensures(G::sphere_normal, (&g, &point, &center, radius), b) ==> a
            == b
    &&& forall|g: G, normal: [Scalar; 3], a: [Scalar; 2], b: [Scalar; 2]|
        #[trigger] call_ensures(G::sphere_uv, (&g, &normal), a) && #[trigger] call_ensures(
            G::sphere_uv,
            (&g, &normal),
            b,
        ) ==> a == b
    &&& forall|
        g: G,
        distance: Scalar,
        normal: [Scalar; 3],
        ray: Ray,
        denominator: Scalar,
        a: Scalar,
        b: Scalar,
    |
        #[trigger] call_ensures(G::plane_parameter, (&g, distance, &normal, &ray, denominator), a)
            && #[trigger] call_ensures(
            G::plane_parameter,
            (&g, distance, &normal, &ray, denominator),
            b,
        ) ==> a == b
    &&& forall|
        g: G,
        point: [Scalar; 3],
        origin: [Scalar; 3],
        u: [Scalar; 3],
        v: [Scalar; 3],
        w: [Scalar; 3],
        a: [Scalar; 2],
        b: [Scalar; 2],
    |
        #[trigger] call_ensures(G::plane_coordinates, (&g, &point, &origin, &u, &v, &w), a)
            && #[trigger] call_ensures(G::plane_coordinates, (&g, &point, &origin, &u, &v, &w), b)
            ==> a == b
}

/// Whether `G` gives the two roots of a sphere in order wherever the
/// discriminant is not below zero: the nearer one first.
pub open spec fn orders_roots<G: Geometry>() -> bool {
    forall|g: G, center: [Scalar; 3], radius: Scalar, ray: Ray, roots: SphereRoots| #[trigger]
        call_ensures(G::sphere_roots, (&g, &center, radius, &ray), roots) && !less(
            roots.discriminant,
            ZERO,
        ) ==> roots.near <= roots.far
}

/// With kernels that give one answer each, a ray strikes one face.
pub proof fn lemma_struck_is_one<G: Geometry>(
    ray: Ray,
    outward: [Scalar; 3],
    geometry: G,
    a: Face,
    b: Face,
)
    requires
        repeats::<G>(),
        struck(ray, outward, geometry, a),
        struck(ray, outward, geometry, b),
    ensures
        a == b,
{
    let x = choose|facing: Scalar| #[trigger]
        call_ensures(G::dot, (&geometry, &ray.direction, &outward), facing) && a == side_of(facing);
    let y = choose|facing: Scalar| #[trigger]
        call_ensures(G::dot, (&geometry, &ray.direction, &outward), facing) && b == side_of(facing);
    assert(x == y);
}

} // verus!
