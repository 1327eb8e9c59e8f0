//! The scene as the tracer searches it: one hierarchy per kind of shape.
use vstd::prelude::*;
use rand::rngs::SmallRng;
use crate::bvh::{reported, Aabb, Bounded, BvhNode};
use crate::data::{Hittable, Ray, RayHit};
use crate::interval::Interval;
use crate::kernels::Geometry;
use crate::nearest::{answers_as_first_in_range, lemma_traversal_finds_nearest, nearest};

verus! {

/// The spheres and the quads of a scene, each kind in a hierarchy of its own,
/// and the box around all of them.
pub struct World<S, Q> {
    pub spheres: Option<BvhNode<S>>,
    pub quads: Option<BvhNode<Q>>,
    pub bounding_box: Aabb,
}

/// The closer of two answers; the first one where they are equally far.
pub open spec fn closer(first: Option<RayHit>, second: Option<RayHit>) -> Option<RayHit> {
    match (first, second) {
        (Some(a), Some(b)) => if b.distance < a.distance {
            second
        } else {
            first
        },
        (Some(_), None) => first,
        (None, _) => second,
    }
}

/// Whether `hit` is a possible outcome of searching `group`, none where there
/// is no hierarchy.
pub open spec fn group_search<T: Hittable, G: Geometry>(
    group: Option<BvhNode<T>>,
    ray: Ray,
    interval: Interval,
    geometry: G,
    hit: Option<RayHit>,
) -> bool {
    match group {
        Some(node) => node.traversal(ray, interval, geometry, hit),
        None => hit is None,
    }
}

/// Whether `group` is what `BvhNode::new` makes of `objects`.
pub open spec fn group_of<T: Hittable>(group: Option<BvhNode<T>>, objects: Seq<T>) -> bool {
    &&& group is None <==> objects.len() == 0
    &&& group matches Some(node) ==> exists|entries: Seq<Bounded<T>>| #[trigger]
        reported(objects, entries) && node.arranges(entries)
}

/// The box around what is there of two groups.
pub open spec fn box_around<S, Q>(spheres: Option<BvhNode<S>>, quads: Option<BvhNode<Q>>) -> Aabb
    recommends
        spheres is Some || quads is Some,
{
    match (spheres, quads) {
        (Some(s), Some(q)) => Aabb::hull(s.spec_bounding_box(), q.spec_bounding_box()),
        (Some(s), None) => s.spec_bounding_box(),
        (None, Some(q)) => q.spec_bounding_box(),
        (None, None) => arbitrary(),
    }
}

impl<S: Hittable, Q: Hittable> World<S, Q> {
    /// Whether `hit` is a possible outcome of searching both hierarchies
    /// within `interval` and keeping the closer answer.
    pub open spec fn search<G: Geometry>(
        self,
        ray: Ray,
        interval: Interval,
        geometry: G,
        hit: Option<RayHit>,
    ) -> bool {
        exists|on_sphere: Option<RayHit>, on_quad: Option<RayHit>|
            group_search(self.spheres, ray, interval, geometry, on_sphere) && group_search(
                self.quads,
                ray,
                interval,
                geometry,
                on_quad,
            ) && hit == #[trigger] closer(on_sphere, on_quad)
    }

    /// Builds a hierarchy over each kind of shape. A scene without any shape
    /// has no box around it and is not accepted.
    pub fn new(spheres: Vec<S>, quads: Vec<Q>, rng: &mut SmallRng) -> (world: Self)
        requires
            spheres@.len() + quads@.len() > 0,
        ensures
            group_of(world.spheres, spheres@),
            group_of(world.quads, quads@),
            world.bounding_box == box_around(world.spheres, world.quads),
    {
        let spheres: Option<BvhNode<S>> = BvhNode::new(spheres, rng);
        let quads: Option<BvhNode<Q>> = BvhNode::new(quads, rng);
        let bounding_box: Aabb = match (&spheres, &quads) {
            (Some(s), Some(q)) => Aabb::combine(s.bounding_box(), q.bounding_box()),
            (Some(s), None) => s.bounding_box(),
            (None, Some(q)) => q.bounding_box(),
            (None, None) => {
                assert(false);
                Aabb::from_extremes([0, 0, 0], [0, 0, 0])
            },
        };
        Self { spheres, quads, bounding_box }
    }

    /// The box around every shape of the scene.
    pub fn bounding_box(&self) -> (bounds: Aabb)
        ensures
            bounds == self.bounding_box,
    {
        self.bounding_box
    }

    /// Searches both hierarchies for the nearest hit of `ray` within
    /// `interval`.
    pub fn raycast<G: Geometry>(
        &self,
        ray: Ray,
        interval: Interval,
        geometry: &G,
    ) -> (hit: Option<RayHit>)
        ensures
            self.search(ray, interval, *geometry, hit),
    {
        let on_sphere: Option<RayHit> = match &self.spheres {
            Some(spheres) => spheres.raycast(ray, interval, geometry),
            None => None,
        };
        let on_quad: Option<RayHit> = match &self.quads {
            Some(quads) => quads.raycast(ray, interval, geometry),
            None => None,
        };
        let hit: Option<RayHit> = match (on_sphere, on_quad) {
            (Some(a), Some(b)) => if b.distance < a.distance {
                on_quad
            } else {
                on_sphere
            },
            (Some(_), None) => on_sphere,
            (None, _) => on_quad,
        };
        assert(hit == closer(on_sphere, on_quad));
        hit
    }
}

/// The shapes of a group, none where there is no hierarchy.
pub open spec fn group_items<T>(group: Option<BvhNode<T>>) -> Seq<T> {
    match group {
        Some(node) => node.items(),
        None => Seq::empty(),
    }
}

/// Whether the boxes of a group bound its shapes as far as `ray` can tell.
pub open spec fn group_encloses<T: Hittable, G: Geometry>(
    group: Option<BvhNode<T>>,
    ray: Ray,
    geometry: G,
) -> bool {
    group matches Some(node) ==> node.encloses(ray, geometry)
}

/// Searching the world finds the nearest answer of all its shapes: what
/// `raycast` returns is the answer of a sphere or of a quad, and no sphere and
/// no quad answers nearer, provided that both kinds answer as first-in-range
/// searches and that the boxes bound the shapes.
pub proof fn lemma_world_finds_nearest<
    S: Hittable,
    Q: Hittable,
    G: Geometry,
>(world: World<S, Q>, ray: Ray, interval: Interval, geometry: G, hit: Option<RayHit>)
    requires
        answers_as_first_in_range::<S>(ray),
        answers_as_first_in_range::<Q>(ray),
        group_encloses(world.spheres, ray, geometry),
        group_encloses(world.quads, ray, geometry),
        world.search(ray, interval, geometry, hit),
    ensures
        hit is Some ==> {
            ||| nearest(group_items(world.spheres), ray, interval, hit)
            ||| nearest(group_items(world.quads), ray, interval, hit)
        },
        forall|i: int, other: RayHit|
            0 <= i < group_items(world.spheres).len() && #[trigger] call_ensures(
                S::raycast,
                (&group_items(world.spheres)[i], ray, interval),
                Some(other),
            ) ==> hit is Some && hit->0.distance <= other.distance,
        forall|i: int, other: RayHit|
            0 <= i < group_items(world.quads).len() && #[trigger] call_ensures(
                Q::raycast,
                (&group_items(world.quads)[i], ray, interval),
                Some(other),
            ) ==> hit is Some && hit->0.distance <= other.distance,
{
    let (on_sphere, on_quad) = choose|on_sphere: Option<RayHit>, on_quad: Option<RayHit>|
        group_search(world.spheres, ray, interval, geometry, on_sphere) && group_search(
            world.quads,
            ray,
            interval,
            geometry,
            on_quad,
        ) && hit == #[trigger] closer(on_sphere, on_quad);
    if world.spheres is Some {
        lemma_traversal_finds_nearest(world.spheres->0, ray, interval, geometry, on_sphere);
    }
    if world.quads is Some {
        lemma_traversal_finds_nearest(world.quads->0, ray, interval, geometry, on_quad);
    }
    assert(nearest(group_items(world.spheres), ray, interval, on_sphere));
    assert(nearest(group_items(world.quads), ray, interval, on_quad));
}

} // verus!
