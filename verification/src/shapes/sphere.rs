//! Spheres.
use vstd::prelude::*;
use crate::bvh::Aabb;
use crate::data::{lemma_turned_is_one, orient, struck, turned, Face, Hittable, Ray, RayHit};
use crate::interval::Interval;
use crate::kernels::{lemma_struck_is_one, orders_roots, repeats, Geometry, SphereRoots};
use crate::materials::Material;
use crate::nearest::{answers, answers_as_first_in_range, below};
use crate::scalar::{less, lt, Scalar, ZERO};

verus! {

/// A sphere, with the box around it worked out once.
#[derive(Debug, Clone, Copy)]
pub struct Sphere<G> {
    pub center: [Scalar; 3],
    pub radius: Scalar,
    pub bounding_box: Aabb,
    pub material: Material,
    /// The arithmetic that the sphere is intersected with.
    pub geometry: G,
}

/// The root at which the ray is taken to hit: none where the discriminant is
/// a number below zero, else the smaller root if the interval holds it, else
/// the larger root if the interval holds that, else none.
pub open spec fn chosen_root(roots: SphereRoots, interval: Interval) -> Option<Scalar> {
    if less(roots.discriminant, ZERO) {
        None
    } else if interval.holds(roots.near as int) {
        Some(roots.near)
    } else if interval.holds(roots.far as int) {
        Some(roots.far)
    } else {
        None
    }
}

/// Picks the root at which the ray hits.
pub fn choose_root(roots: SphereRoots, interval: Interval) -> (root: Option<Scalar>)
    ensures
        root == chosen_root(roots, interval),
{
    if lt(roots.discriminant, ZERO) {
        return None;
    }
    // Find the nearest root that lies in the acceptable interval.
    let mut root: Scalar = roots.near;
    if !interval.contains(root) {
        root = roots.far;
        if !interval.contains(root) {
            return None;
        }
    }
    Some(root)
}

impl<G: Geometry> Sphere<G> {
    /// Whether `hit` describes the surface of this sphere where `ray` meets
    /// it at `distance`.
    pub open spec fn surface_at(self, ray: Ray, distance: Scalar, hit: RayHit) -> bool {
        &&& hit.distance == distance
        &&& hit.material == self.material
        &&& call_ensures(G::at, (&self.geometry, &ray, distance), hit.point)
        &&& exists|outward: [Scalar; 3]|
            {
                &&& call_ensures(
                    G::sphere_normal,
                    (&self.geometry, &hit.point, &self.center, self.radius),
                    outward,
                )
                &&& call_ensures(G::sphere_uv, (&self.geometry, &outward), hit.uv)
                &&& struck(ray, outward, self.geometry, hit.face)
                &&& #[trigger] turned(hit.face, outward, hit.normal)
            }
    }

    /// Whether `hit` is a possible outcome of intersecting `ray` with this
    /// sphere within `interval`.
    pub open spec fn intersection(self, ray: Ray, interval: Interval, hit: Option<RayHit>) -> bool {
        exists|roots: SphereRoots| #[trigger]
            call_ensures(G::sphere_roots, (&self.geometry, &self.center, self.radius, &ray), roots)
                && match chosen_root(roots, interval) {
                None => hit is None,
                Some(distance) => hit is Some && self.surface_at(ray, distance, hit->0),
            }
    }

    /// The sphere around `center` with `radius`.
    pub fn new(
        center: [Scalar; 3],
        radius: Scalar,
        material: Material,
        geometry: G,
    ) -> (sphere: Self)
        ensures
            sphere.center == center,
            sphere.radius == radius,
            sphere.material == material,
            sphere.geometry == geometry,
            exists|corners: ([Scalar; 3], [Scalar; 3])| #[trigger]
                call_ensures(G::sphere_corners, (&geometry, &center, radius), corners)
                    && sphere.bounding_box == Aabb::around(corners.0, corners.1),
    {
        let corners: ([Scalar; 3], [Scalar; 3]) = geometry.sphere_corners(&center, radius);
        let bounding_box: Aabb = Aabb::from_extremes(corners.0, corners.1);
        Self { center, radius, bounding_box, material, geometry }
    }
}

impl<G: Geometry> Hittable for Sphere<G> {
    /// The box worked out when the sphere was made.
    fn bounding_box(&self) -> (bounds: Aabb)
        ensures
            bounds == self.bounding_box,
    {
        self.bounding_box
    }

    /// Intersects `ray` with the sphere: no hit where the ray passes it by or
    /// neither of the two roots lies in `interval`.
    fn raycast(&self, ray: Ray, interval: Interval) -> (hit: Option<RayHit>)
        ensures
            self.intersection(ray, interval, hit),
    {
        let geometry: &G = &self.geometry;
        let roots: SphereRoots = geometry.sphere_roots(&self.center, self.radius, &ray);
        let distance: Scalar = match choose_root(roots, interval) {
            Some(root) => root,
            None => {
                return None;
            },
        };
        let point: [Scalar; 3] = geometry.at(&ray, distance);
        let outward_normal: [Scalar; 3] = geometry.sphere_normal(&point, &self.center, self.radius);
        let face: Face = ray.get_face(outward_normal, geometry);
        let normal: [Scalar; 3] = orient(face, outward_normal);
        let uv: [Scalar; 2] = geometry.sphere_uv(&outward_normal);
        let material: Material = self.material;
        let ray_hit: RayHit = RayHit { distance, point, face, normal, uv, material };
        assert(self.surface_at(ray, distance, ray_hit)) by {
            assert(call_ensures(G::at, (&self.geometry, &ray, distance), ray_hit.point));
            assert(call_ensures(
                    G::sphere_normal,
                    (&self.geometry, &ray_hit.point, &self.center, self.radius),
                    outward_normal,
                ));
            assert(call_ensures(G::sphere_uv, (&self.geometry, &outward_normal), ray_hit.uv));
            assert(struck(ray, outward_normal, self.geometry, ray_hit.face));
            assert(turned(ray_hit.face, outward_normal, ray_hit.normal));
        }
        Some(ray_hit)
    }
}

/// A sphere reports a hit only at a distance within the interval asked.
pub proof fn lemma_sphere_hit_in_range<G: Geometry>(
    sphere: Sphere<G>,
    ray: Ray,
    interval: Interval,
    hit: RayHit,
)
    requires
        sphere.intersection(ray, interval, Some(hit)),
    ensures
        interval.holds(hit.distance as int),
{
}

/// With kernels that give one answer each, one hit describes the surface of
/// a sphere where a ray meets it at a given distance.
pub proof fn lemma_sphere_surface_is_one<G: Geometry>(
    sphere: Sphere<G>,
    ray: Ray,
    distance: Scalar,
    a: RayHit,
    b: RayHit,
)
    requires
        repeats::<G>(),
        sphere.surface_at(ray, distance, a),
        sphere.surface_at(ray, distance, b),
    ensures
        a == b,
{
    assert(a.point == b.point);
    let outward_a = choose|outward: [Scalar; 3]|
        {
            &&& call_ensures(
                G::sphere_normal,
                (&sphere.geometry, &a.point, &sphere.center, sphere.radius),
                outward,
            )
            &&& call_ensures(G::sphere_uv, (&sphere.geometry, &outward), a.uv)
            &&& struck(ray, outward, sphere.geometry, a.face)
            &&& #[trigger] turned(a.face, outward, a.normal)
        };
    let outward_b = choose|outward: [Scalar; 3]|
        {
            &&& call_ensures(
                G::sphere_normal,
                (&sphere.geometry, &b.point, &sphere.center, sphere.radius),
                outward,
            )
            &&& call_ensures(G::sphere_uv, (&sphere.geometry, &outward), b.uv)
            &&& struck(ray, outward, sphere.geometry, b.face)
            &&& #[trigger] turned(b.face, outward, b.normal)
        };
    assert(outward_a == outward_b);
    assert(a.uv == b.uv);
    lemma_struck_is_one(ray, outward_a, sphere.geometry, a.face, b.face);
    lemma_turned_is_one(a.face, outward_a, a.normal, b.normal);
}

/// With kernels that give one answer each and roots in order, a sphere that
/// is asked again with a lower upper bound keeps its hit where that lies
/// below the new bound and has none to report otherwise.
pub proof fn lemma_sphere_answers_narrow<G: Geometry>(
    sphere: Sphere<G>,
    ray: Ray,
    wide: Interval,
    tight: Interval,
    found: Option<RayHit>,
    kept: Option<RayHit>,
)
    requires
        repeats::<G>(),
        orders_roots::<G>(),
        wide.min == tight.min,
        tight.max <= wide.max,
        sphere.intersection(ray, wide, found),
        sphere.intersection(ray, tight, kept),
    ensures
        kept == below(found, tight.max as int),
{
    let roots = choose|roots: SphereRoots| #[trigger]
        call_ensures(
            G::sphere_roots,
            (&sphere.geometry, &sphere.center, sphere.radius, &ray),
            roots,
        ) && match chosen_root(roots, wide) {
            None => found is None,
            Some(distance) => found is Some && sphere.surface_at(ray, distance, found->0),
        };
    let again = choose|roots: SphereRoots| #[trigger]
        call_ensures(
            G::sphere_roots,
            (&sphere.geometry, &sphere.center, sphere.radius, &ray),
            roots,
        ) && match chosen_root(roots, tight) {
            None => kept is None,
            Some(distance) => kept is Some && sphere.surface_at(ray, distance, kept->0),
        };
    assert(roots == again);
    if kept is Some {
        lemma_sphere_surface_is_one(sphere, ray, kept->0.distance, found->0, kept->0);
    }
}

/// Spheres meet what the search of a hierarchy asks of its shapes: with
/// kernels that give one answer each and roots in order, spheres that answer
/// at all answer as first-in-range searches.
pub proof fn lemma_spheres_answer_as_first_in_range<G: Geometry>(ray: Ray)
    requires
        repeats::<G>(),
        orders_roots::<G>(),
        forall|sphere: Sphere<G>, interval: Interval| #[trigger] answers(sphere, ray, interval),
    ensures
        answers_as_first_in_range::<Sphere<G>>(ray),
{
    assert forall|
        shape: Sphere<G>,
        wide: Interval,
        tight: Interval,
        found: Option<RayHit>,
        kept: Option<RayHit>,
    |
        #[trigger] call_ensures(Sphere::<G>::raycast, (&shape, ray, wide), found)
            && #[trigger] call_ensures(Sphere::<G>::raycast, (&shape, ray, tight), kept)
            && wide.min == tight.min && tight.max <= wide.max implies kept == below(
        found,
        tight.max as int,
    ) by {
        lemma_sphere_answers_narrow(shape, ray, wide, tight, found, kept);
    }
}

} // verus!
