//! Quads: parallelograms given by a corner and two edges.
use vstd::prelude::*;
use crate::bvh::{lemma_around_covers_its_corners, lemma_covers_is_transitive};
use crate::bvh::{lemma_hull_is_least_cover, lemma_padded_box_is_thick, padding, Aabb};
use crate::data::{lemma_turned_is_one, orient, struck, turned, Face, Hittable, Ray, RayHit};
use crate::interval::Interval;
use crate::kernels::{lemma_struck_is_one, repeats, Geometry, QuadFrame};
use crate::materials::Material;
use crate::nearest::{answers, answers_as_first_in_range, below};
use crate::scalar::{abs, is_number, less, lt, magnitude, Scalar, ONE, TINY, ZERO};

verus! {

/// A quad, with the frame of its plane and the box around it worked out once.
#[derive(Debug, Clone, Copy)]
pub struct Quad<G> {
    pub origin: [Scalar; 3],
    pub u: [Scalar; 3],
    pub v: [Scalar; 3],
    pub normal: [Scalar; 3],
    pub w: [Scalar; 3],
    pub distance: Scalar,
    pub bounding_box: Aabb,
    pub material: Material,
    /// The arithmetic that the quad is intersected with.
    pub geometry: G,
}

/// Whether the plane coordinates `alpha` and `beta` belong to a point of the
/// quad: both lie between zero and one, the ends included. Coordinates that
/// are no numbers, as a quad without area gives, belong to no point.
pub open spec fn interior(alpha: Scalar, beta: Scalar) -> bool {
    ZERO <= alpha <= ONE && ZERO <= beta <= ONE
}

/// Whether a ray whose direction has the dot product `denominator` with the
/// normal of a plane runs too nearly along the plane to meet it: the
/// absolute value of the dot product is a number below the least that counts.
pub open spec fn parallel(denominator: Scalar) -> bool {
    less(magnitude(denominator), TINY)
}

/// Whether the plane coordinates belong to a point of the quad.
pub fn is_interior(alpha: Scalar, beta: Scalar) -> (inside: bool)
    ensures
        inside == interior(alpha, beta),
{
    let is_outerior: bool = (alpha < ZERO) || (ONE < alpha) || (beta < ZERO) || (ONE < beta);
    !is_outerior
}

impl<G: Geometry> Quad<G> {
    /// Whether `hit` describes the surface of this quad where `ray` meets it
    /// at `distance` and at the plane coordinates `uv`.
    pub open spec fn surface_at(self, ray: Ray, distance: Scalar, hit: RayHit) -> bool {
        &&& hit.distance == distance
        &&& hit.material == self.material
        &&& interior(hit.uv[0], hit.uv[1])
        &&& call_ensures(G::at, (&self.geometry, &ray, distance), hit.point)
        &&& call_ensures(
            G::plane_coordinates,
            (&self.geometry, &hit.point, &self.origin, &self.u, &self.v, &self.w),
            hit.uv,
        )
        &&& struck(ray, self.normal, self.geometry, hit.face)
        &&& turned(hit.face, self.normal, hit.normal)
    }

    /// Whether the point of `ray` at `distance` lies in the plane of this quad
    /// but outside the quad itself.
    pub open spec fn passes_by(self, ray: Ray, distance: Scalar) -> bool {
        exists|point: [Scalar; 3], coordinates: [Scalar; 2]|
            call_ensures(G::at, (&self.geometry, &ray, distance), point) && #[trigger] call_ensures(
                G::plane_coordinates,
                (&self.geometry, &point, &self.origin, &self.u, &self.v, &self.w),
                coordinates,
            ) && !interior(coordinates[0], coordinates[1])
    }

    /// Whether `hit` is a possible outcome of intersecting `ray` with this
    /// quad within `interval`, once the ray is known to meet the plane of the
    /// quad at `distance`.
    pub open spec fn meeting(
        self,
        ray: Ray,
        interval: Interval,
        distance: Scalar,
        hit: Option<RayHit>,
    ) -> bool {
        if !interval.holds(distance as int) {
            hit is None
        } else {
            ||| hit is None && self.passes_by(ray, distance)
            ||| hit is Some && self.surface_at(ray, distance, hit->0)
        }
    }

    /// Whether `hit` is a possible outcome of intersecting `ray` with this
    /// quad within `interval`.
    pub open spec fn intersection(self, ray: Ray, interval: Interval, hit: Option<RayHit>) -> bool {
        exists|denominator: Scalar| #[trigger]
            call_ensures(G::dot, (&self.geometry, &self.normal, &ray.direction), denominator) && if parallel(
                denominator,
            ) {
                hit is None
            } else {
                exists|distance: Scalar| #[trigger]
                    call_ensures(
                        G::plane_parameter,
                        (&self.geometry, self.distance, &self.normal, &ray, denominator),
                        distance,
                    ) && self.meeting(ray, interval, distance, hit)
            }
    }

    /// The box around the four corners of the quad, before it is padded.
    pub open spec fn corner_box(self, frame: QuadFrame) -> Aabb {
        Aabb::hull(
            Aabb::around(self.origin, frame.opposite),
            Aabb::around(frame.along_u, frame.along_v),
        )
    }

    /// Whether the quad has `frame` for its frame, and the padded box around
    /// its four corners for its box.
    pub open spec fn framed_by(self, frame: QuadFrame) -> bool {
        &&& call_ensures(G::quad_frame, (&self.geometry, &self.origin, &self.u, &self.v), frame)
        &&& self.normal == frame.normal
        &&& self.w == frame.w
        &&& self.distance == frame.distance
        &&& padding(self.corner_box(frame), self.geometry, self.bounding_box)
    }

    /// Whether the quad has the frame and the box that `new` gives it.
    pub open spec fn framed(self) -> bool {
        exists|frame: QuadFrame| #[trigger] self.framed_by(frame)
    }

    /// The quad with corner `origin` and edges `u` and `v`. Its box goes
    /// around all four corners and is padded, since a quad that lies in a
    /// plane of an axis has no thickness there.
    pub fn new(
        origin: [Scalar; 3],
        u: [Scalar; 3],
        v: [Scalar; 3],
        material: Material,
        geometry: G,
    ) -> (quad: Self)
        ensures
            quad.origin == origin,
            quad.u == u,
            quad.v == v,
            quad.material == material,
            quad.geometry == geometry,
            quad.framed(),
    {
        let frame: QuadFrame = geometry.quad_frame(&origin, &u, &v);
        // The box goes around all four corners: the two ends of one diagonal
        // bound a quad only where its edges run along the axes.
        let bounding_box: Aabb = Aabb::combine(
            Aabb::from_extremes(origin, frame.opposite),
            Aabb::from_extremes(frame.along_u, frame.along_v),
        ).padded(&geometry);
        let quad: Self = Self {
            origin,
            u,
            v,
            normal: frame.normal,
            w: frame.w,
            distance: frame.distance,
            bounding_box,
            material,
            geometry,
        };
        assert(quad.framed_by(frame));
        quad
    }
}

/// The box of a quad bounds the quad as far as its corners tell: it covers
/// all four of them, whatever the directions of the edges, and it is thick
/// along every axis on which the corners are keys of numbers.
pub proof fn lemma_quad_box_covers_corners<G: Geometry>(quad: Quad<G>, frame: QuadFrame)
    requires
        quad.framed_by(frame),
    ensures
        quad.bounding_box.covers(Aabb::around(quad.origin, quad.origin)),
        quad.bounding_box.covers(Aabb::around(frame.along_u, frame.along_u)),
        quad.bounding_box.covers(Aabb::around(frame.along_v, frame.along_v)),
        quad.bounding_box.covers(Aabb::around(frame.opposite, frame.opposite)),
        forall|axis: int|
            0 <= axis < 3 && is_number(quad.origin[axis]) && is_number(frame.along_u[axis])
                && is_number(frame.along_v[axis]) && is_number(frame.opposite[axis])
                ==> (#[trigger] quad.bounding_box.spec_axis(axis)).min
                < quad.bounding_box.spec_axis(axis).max,
{
    let corners = quad.corner_box(frame);
    let padded = quad.bounding_box;
    lemma_padded_box_is_thick(corners, quad.geometry, padded);
    let diagonal = Aabb::around(quad.origin, frame.opposite);
    let other = Aabb::around(frame.along_u, frame.along_v);
    lemma_hull_is_least_cover(diagonal, other, padded);
    assert(corners.covers(diagonal) && corners.covers(other));
    lemma_covers_is_transitive(padded, corners, diagonal);
    lemma_covers_is_transitive(padded, corners, other);
    assert(diagonal.covers(Aabb::around(quad.origin, quad.origin))) by {
        lemma_around_covers_its_corners(quad.origin, frame.opposite);
    }
    assert(diagonal.covers(Aabb::around(frame.opposite, frame.opposite))) by {
        lemma_around_covers_its_corners(quad.origin, frame.opposite);
    }
    assert(other.covers(Aabb::around(frame.along_u, frame.along_u))) by {
        lemma_around_covers_its_corners(frame.along_u, frame.along_v);
    }
    assert(other.covers(Aabb::around(frame.along_v, frame.along_v))) by {
        lemma_around_covers_its_corners(frame.along_u, frame.along_v);
    }
    lemma_covers_is_transitive(padded, diagonal, Aabb::around(quad.origin, quad.origin));
    lemma_covers_is_transitive(padded, diagonal, Aabb::around(frame.opposite, frame.opposite));
    lemma_covers_is_transitive(padded, other, Aabb::around(frame.along_u, frame.along_u));
    lemma_covers_is_transitive(padded, other, Aabb::around(frame.along_v, frame.along_v));
    assert forall|axis: int|
        0 <= axis < 3 && is_number(quad.origin[axis]) && is_number(frame.along_u[axis])
            && is_number(frame.along_v[axis]) && is_number(
            frame.opposite[axis],
        ) implies (#[trigger] padded.spec_axis(axis)).min < padded.spec_axis(axis).max by {
        let before = corners.spec_axis(axis);
        assert(before.min <= before.max);
        assert(is_number(before.min) && is_number(before.max));
    }
}

impl<G: Geometry> Hittable for Quad<G> {
    /// The box worked out when the quad was made.
    fn bounding_box(&self) -> (bounds: Aabb)
        ensures
            bounds == self.bounding_box,
    {
        self.bounding_box
    }

    /// Intersects `ray` with the quad: no hit where the ray runs along the
    /// plane, meets it outside `interval`, or meets it outside the quad.
    fn raycast(&self, ray: Ray, interval: Interval) -> (hit: Option<RayHit>)
        ensures
            self.intersection(ray, interval, hit),
    {
        let outward_normal: [Scalar; 3] = self.normal;
        let denominator: Scalar = self.geometry.dot(&self.normal, &ray.direction);
        if lt(abs(denominator), TINY) {
            return None;
        }
        let distance: Scalar = self.geometry.plane_parameter(
            self.distance,
            &self.normal,
            &ray,
            denominator,
        );
        if !interval.contains(distance) {
            assert(self.meeting(ray, interval, distance, None));
            return None;
        }
        let point: [Scalar; 3] = self.geometry.at(&ray, distance);
        let coordinates: [Scalar; 2] = self.geometry.plane_coordinates(
            &point,
            &self.origin,
            &self.u,
            &self.v,
            &self.w,
        );
        if !is_interior(coordinates[0], coordinates[1]) {
            assert(self.passes_by(ray, distance));
            assert(self.meeting(ray, interval, distance, None));
            return None;
        }
        let uv: [Scalar; 2] = coordinates;
        let face: Face = ray.get_face(outward_normal, &self.geometry);
        let normal: [Scalar; 3] = orient(face, outward_normal);
        let material: Material = self.material;
        let ray_hit: RayHit = RayHit { distance, point, face, normal, uv, material };
        assert(self.surface_at(ray, distance, ray_hit));
        assert(self.meeting(ray, interval, distance, Some(ray_hit)));
        Some(ray_hit)
    }
}

/// A quad reports a hit only at a distance within the interval asked and at
/// plane coordinates between zero and one.
pub proof fn lemma_quad_hit_is_interior<G: Geometry>(
    quad: Quad<G>,
    ray: Ray,
    interval: Interval,
    hit: RayHit,
)
    requires
        quad.intersection(ray, interval, Some(hit)),
    ensures
        interval.holds(hit.distance as int),
        ZERO <= hit.uv[0] <= ONE,
        ZERO <= hit.uv[1] <= ONE,
{
}

/// With kernels that give one answer each, one hit describes the surface of
/// a quad where a ray meets it at a given distance.
pub proof fn lemma_quad_surface_is_one<G: Geometry>(
    quad: Quad<G>,
    ray: Ray,
    distance: Scalar,
    a: RayHit,
    b: RayHit,
)
    requires
        repeats::<G>(),
        quad.surface_at(ray, distance, a),
        quad.surface_at(ray, distance, b),
    ensures
        a == b,
{
    assert(a.point == b.point);
    assert(a.uv == b.uv);
    lemma_struck_is_one(ray, quad.normal, quad.geometry, a.face, b.face);
    lemma_turned_is_one(a.face, quad.normal, a.normal, b.normal);
}

/// With kernels that give one answer each, a quad that is asked again with a
/// lower upper bound keeps its hit where that lies below the new bound and
/// has none to report otherwise.
pub proof fn lemma_quad_answers_narrow<G: Geometry>(
    quad: Quad<G>,
    ray: Ray,
    wide: Interval,
    tight: Interval,
    found: Option<RayHit>,
    kept: Option<RayHit>,
)
    requires
        repeats::<G>(),
        wide.min == tight.min,
        tight.max <= wide.max,
        quad.intersection(ray, wide, found),
        quad.intersection(ray, tight, kept),
    ensures
        kept == below(found, tight.max as int),
{
    let denominator = choose|denominator: Scalar| #[trigger]
        call_ensures(G::dot, (&quad.geometry, &quad.normal, &ray.direction), denominator)
            && if parallel(denominator) {
            found is None
        } else {
            exists|distance: Scalar| #[trigger]
                call_ensures(
                    G::plane_parameter,
                    (&quad.geometry, quad.distance, &quad.normal, &ray, denominator),
                    distance,
                ) && quad.meeting(ray, wide, distance, found)
        };
    let again = choose|denominator: Scalar| #[trigger]
        call_ensures(G::dot, (&quad.geometry, &quad.normal, &ray.direction), denominator)
            && if parallel(denominator) {
            kept is None
        } else {
            exists|distance: Scalar| #[trigger]
                call_ensures(
                    G::plane_parameter,
                    (&quad.geometry, quad.distance, &quad.normal, &ray, denominator),
                    distance,
                ) && quad.meeting(ray, tight, distance, kept)
        };
    assert(denominator == again);
    if !parallel(denominator) {
        let far = choose|distance: Scalar| #[trigger]
            call_ensures(
                G::plane_parameter,
                (&quad.geometry, quad.distance, &quad.normal, &ray, denominator),
                distance,
            ) && quad.meeting(ray, wide, distance, found);
        let near = choose|distance: Scalar| #[trigger]
            call_ensures(
                G::plane_parameter,
                (&quad.geometry, quad.distance, &quad.normal, &ray, denominator),
                distance,
            ) && quad.meeting(ray, tight, distance, kept);
        assert(far == near);
        if wide.holds(far as int) && tight.holds(far as int) {
            lemma_quad_meets_or_passes(quad, ray, far, found, kept);
        }
    }
}

/// With kernels that give one answer each, a ray that meets the plane of a
/// quad at a given distance either passes the quad by or hits it in one way.
pub proof fn lemma_quad_meets_or_passes<G: Geometry>(
    quad: Quad<G>,
    ray: Ray,
    distance: Scalar,
    a: Option<RayHit>,
    b: Option<RayHit>,
)
    requires
        repeats::<G>(),
        a is None && quad.passes_by(ray, distance) || a is Some && quad.surface_at(
            ray,
            distance,
            a->0,
        ),
        b is None && quad.passes_by(ray, distance) || b is Some && quad.surface_at(
            ray,
            distance,
            b->0,
        ),
    ensures
        a == b,
{
    if a is Some && b is Some {
        lemma_quad_surface_is_one(quad, ray, distance, a->0, b->0);
    } else if a is Some || b is Some {
        let hit = if a is Some {
            a->0
        } else {
            b->0
        };
        let (point, coordinates) = choose|point: [Scalar; 3], coordinates: [Scalar; 2]|
            call_ensures(G::at, (&quad.geometry, &ray, distance), point) && #[trigger] call_ensures(
                G::plane_coordinates,
                (&quad.geometry, &point, &quad.origin, &quad.u, &quad.v, &quad.w),
                coordinates,
            ) && !interior(coordinates[0], coordinates[1]);
        assert(point == hit.point);
        assert(coordinates == hit.uv);
    }
}

/// Quads meet what the search of a hierarchy asks of its shapes: with kernels
/// that give one answer each, quads that answer at all answer as
/// first-in-range searches.
pub proof fn lemma_quads_answer_as_first_in_range<G: Geometry>(ray: Ray)
    requires
        repeats::<G>(),
        forall|quad: Quad<G>, interval: Interval| #[trigger] answers(quad, ray, interval),
    ensures
        answers_as_first_in_range::<Quad<G>>(ray),
{
    assert forall|
        shape: Quad<G>,
        wide: Interval,
        tight: Interval,
        found: Option<RayHit>,
        kept: Option<RayHit>,
    |
        #[trigger] call_ensures(Quad::<G>::raycast, (&shape, ray, wide), found)
            && #[trigger] call_ensures(Quad::<G>::raycast, (&shape, ray, tight), kept)
            && wide.min == tight.min && tight.max <= wide.max implies kept == below(
        found,
        tight.max as int,
    ) by {
        lemma_quad_answers_narrow(shape, ray, wide, tight, found, kept);
    }
}

} // verus!
