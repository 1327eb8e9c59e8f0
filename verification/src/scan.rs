//! The plain search that asks every shape in turn, and what it shares with
//! the search of a hierarchy.
use vstd::prelude::*;
use crate::bvh::{Bounded, BvhNode};
use crate::bvh::{lemma_arranged_holds_all, narrowed, preferred, reported, shapes_of};
use crate::data::{Hittable, Ray, RayHit};
use crate::interval::Interval;
use crate::kernels::Geometry;
use crate::nearest::{answers_as_first_in_range, bounds_own_shape, misses_what_lies_within};
use crate::nearest::{lemma_arranged_encloses, lemma_nearest_of_one, lemma_nearest_of_two_groups};
use crate::nearest::{lemma_traversal_finds_nearest, nearest};

verus! {

/// Whether `hit` is a possible outcome of asking the shapes of `items` in
/// order, each within what the hits before it leave of `range`.
pub open spec fn scanned<T: Hittable>(
    items: Seq<T>,
    ray: Ray,
    range: Interval,
    hit: Option<RayHit>,
) -> bool
    decreases items.len(),
{
    if items.len() == 0 {
        hit is None
    } else {
        exists|before: Option<RayHit>, found: Option<RayHit>|
            scanned(items.drop_last(), ray, range, before) && call_ensures(
                T::raycast,
                (&items.last(), ray, narrowed(range, before)),
                found,
            ) && hit == #[trigger] preferred(found, before)
    }
}

/// Asks every shape of `items` in turn and keeps the closest hit: each shape
/// is asked only below the distance of the closest hit so far.
pub fn hit<T: Hittable>(items: &Vec<T>, ray: Ray, range: Interval) -> (closest: Option<RayHit>)
    ensures
        scanned(items@, ray, range, closest),
{
    let mut closest_hit: Option<RayHit> = None;
    let mut rest: Interval = range;
    let mut index: usize = 0;
    while index < items.len()
        invariant
            index <= items.len(),
            scanned(items@.take(index as int), ray, range, closest_hit),
            rest == narrowed(range, closest_hit),
        decreases items.len() - index,
    {
        let found: Option<RayHit> = items[index].raycast(ray, rest);
        let ghost before = closest_hit;
        if let Some(ray_hit) = found {
            closest_hit = Some(ray_hit);
            rest = Interval::new(range.min, ray_hit.distance);
        }
        proof {
            let longer = items@.take(index as int + 1);
            assert(longer.drop_last() =~= items@.take(index as int));
            assert(longer.last() == items@[index as int]);
            assert(closest_hit == preferred(found, before));
        }
        index = index + 1;
    }
    assert(items@.take(items@.len() as int) =~= items@);
    closest_hit
}

/// The plain search finds the nearest answer among the shapes it asked,
/// provided that they answer as first-in-range searches.
pub proof fn lemma_scan_finds_nearest<T: Hittable>(
    items: Seq<T>,
    ray: Ray,
    range: Interval,
    hit: Option<RayHit>,
)
    requires
        answers_as_first_in_range::<T>(ray),
        scanned(items, ray, range, hit),
    ensures
        nearest(items, ray, range, hit),
    decreases items.len(),
{
    if items.len() > 0 {
        let (before, found) = choose|before: Option<RayHit>, found: Option<RayHit>|
            scanned(items.drop_last(), ray, range, before) && call_ensures(
                T::raycast,
                (&items.last(), ray, narrowed(range, before)),
                found,
            ) && hit == #[trigger] preferred(found, before);
        lemma_scan_finds_nearest(items.drop_last(), ray, range, before);
        lemma_nearest_of_one(items.last(), ray, narrowed(range, before), found);
        lemma_nearest_of_two_groups(
            items.drop_last(),
            seq![items.last()],
            ray,
            range,
            before,
            found,
        );
        assert(items =~= items.drop_last() + seq![items.last()]);
    }
}

/// The nearest answer among the same shapes is at one distance, in whatever
/// order the shapes stand: two nearest answers over sequences that hold the
/// same shapes are both none, or both hits at the same distance.
pub proof fn lemma_nearest_is_one_distance<T: Hittable>(
    items: Seq<T>,
    others: Seq<T>,
    ray: Ray,
    interval: Interval,
    hit: Option<RayHit>,
    other: Option<RayHit>,
)
    requires
        items.to_multiset() == others.to_multiset(),
        nearest(items, ray, interval, hit),
        nearest(others, ray, interval, other),
    ensures
        hit is Some <==> other is Some,
        hit is Some ==> hit->0.distance == other->0.distance,
{
    broadcast use vstd::seq_lib::to_multiset_contains;

    if hit is Some {
        let i = choose|i: int|
            0 <= i < items.len() && #[trigger] call_ensures(
                T::raycast,
                (&items[i], ray, interval),
                hit,
            );
        assert(items.contains(items[i]));
        assert(items.to_multiset().count(items[i]) > 0);
        assert(others.contains(items[i]));
        let j = choose|j: int| 0 <= j < others.len() && others[j] == items[i];
        assert(call_ensures(T::raycast, (&others[j], ray, interval), Some(hit->0)));
    }
    if other is Some {
        let i = choose|i: int|
            0 <= i < others.len() && #[trigger] call_ensures(
                T::raycast,
                (&others[i], ray, interval),
                other,
            );
        assert(others.contains(others[i]));
        assert(others.to_multiset().count(others[i]) > 0);
        assert(items.contains(others[i]));
        let j = choose|j: int| 0 <= j < items.len() && items[j] == others[i];
        assert(call_ensures(T::raycast, (&items[j], ray, interval), Some(other->0)));
    }
}

/// The search of a hierarchy and the plain search over the same shapes agree:
/// both miss, or both hit at the same distance. This holds for every ray and
/// interval and for every hierarchy over those shapes whose boxes bound them,
/// so for every choice of axes made when it was built.
pub proof fn lemma_search_agrees_with_scan<T: Hittable, G: Geometry>(
    node: BvhNode<T>,
    objects: Seq<T>,
    ray: Ray,
    interval: Interval,
    geometry: G,
    found: Option<RayHit>,
    closest: Option<RayHit>,
)
    requires
        answers_as_first_in_range::<T>(ray),
        node.encloses(ray, geometry),
        node.items().to_multiset() == objects.to_multiset(),
        node.traversal(ray, interval, geometry, found),
        scanned(objects, ray, interval, closest),
    ensures
        found is Some <==> closest is Some,
        found is Some ==> found->0.distance == closest->0.distance,
{
    lemma_traversal_finds_nearest(node, ray, interval, geometry, found);
    lemma_scan_finds_nearest(objects, ray, interval, closest);
    lemma_nearest_is_one_distance(node.items(), objects, ray, interval, found, closest);
}

/// The nearest answer among some shapes is the nearest answer among the same
/// shapes in any other order.
pub proof fn lemma_nearest_in_any_order<T: Hittable>(
    items: Seq<T>,
    others: Seq<T>,
    ray: Ray,
    interval: Interval,
    hit: Option<RayHit>,
)
    requires
        items.to_multiset() == others.to_multiset(),
        nearest(items, ray, interval, hit),
    ensures
        nearest(others, ray, interval, hit),
{
    broadcast use vstd::seq_lib::to_multiset_contains;

    if hit is Some {
        let i = choose|i: int|
            0 <= i < items.len() && #[trigger] call_ensures(
                T::raycast,
                (&items[i], ray, interval),
                hit,
            );
        assert(items.contains(items[i]));
        assert(items.to_multiset().count(items[i]) > 0);
        assert(others.contains(items[i]));
        let j = choose|j: int| 0 <= j < others.len() && others[j] == items[i];
        assert(call_ensures(T::raycast, (&others[j], ray, interval), hit));
    }
    assert forall|j: int, other: RayHit|
        0 <= j < others.len() && #[trigger] call_ensures(
            T::raycast,
            (&others[j], ray, interval),
            Some(other),
        ) implies hit is Some && hit->0.distance <= other.distance by {
        assert(others.contains(others[j]));
        assert(others.to_multiset().count(others[j]) > 0);
        assert(items.contains(others[j]));
        let i = choose|i: int| 0 <= i < items.len() && items[i] == others[j];
        assert(call_ensures(T::raycast, (&items[i], ray, interval), Some(other)));
    }
}

/// A search that finds the nearest answer misses exactly when every shape
/// misses: it never loses a hit and never comes up with one of its own.
pub proof fn lemma_nearest_misses_with_all<T: Hittable>(
    items: Seq<T>,
    ray: Ray,
    interval: Interval,
    hit: Option<RayHit>,
)
    requires
        nearest(items, ray, interval, hit),
    ensures
        hit is None <==> forall|i: int, found: Option<RayHit>|
            0 <= i < items.len() && #[trigger] call_ensures(
                T::raycast,
                (&items[i], ray, interval),
                found,
            ) ==> found is None,
{
    if hit is None {
        assert forall|i: int, found: Option<RayHit>|
            0 <= i < items.len() && #[trigger] call_ensures(
                T::raycast,
                (&items[i], ray, interval),
                found,
            ) implies found is None by {
            if found is Some {
                assert(call_ensures(T::raycast, (&items[i], ray, interval), Some(found->0)));
            }
        }
    }
}

/// Whether no two answers of the shapes of `items` along `ray` within
/// `interval` lie at the same distance without being the same hit.
pub open spec fn without_ties<T: Hittable>(items: Seq<T>, ray: Ray, interval: Interval) -> bool {
    forall|i: int, j: int, a: RayHit, b: RayHit|
        0 <= i < items.len() && 0 <= j < items.len() && #[trigger] call_ensures(
            T::raycast,
            (&items[i], ray, interval),
            Some(a),
        ) && #[trigger] call_ensures(T::raycast, (&items[j], ray, interval), Some(b))
            && a.distance == b.distance ==> a == b
}

/// Where no two shapes are hit at the same distance, the nearest answer is
/// one hit, in whatever order the shapes stand: two nearest answers over
/// sequences that hold the same shapes are the same in every part, point,
/// normal, face, surface coordinate and material.
pub proof fn lemma_nearest_is_one_hit<T: Hittable>(
    items: Seq<T>,
    others: Seq<T>,
    ray: Ray,
    interval: Interval,
    hit: Option<RayHit>,
    other: Option<RayHit>,
)
    requires
        items.to_multiset() == others.to_multiset(),
        without_ties(items, ray, interval),
        nearest(items, ray, interval, hit),
        nearest(others, ray, interval, other),
    ensures
        hit == other,
{
    lemma_nearest_in_any_order(others, items, ray, interval, other);
    lemma_nearest_is_one_distance(items, items, ray, interval, hit, other);
    if hit is Some {
        let i = choose|i: int|
            0 <= i < items.len() && #[trigger] call_ensures(
                T::raycast,
                (&items[i], ray, interval),
                hit,
            );
        let j = choose|j: int|
            0 <= j < items.len() && #[trigger] call_ensures(
                T::raycast,
                (&items[j], ray, interval),
                other,
            );
        assert(call_ensures(T::raycast, (&items[i], ray, interval), Some(hit->0)));
        assert(call_ensures(T::raycast, (&items[j], ray, interval), Some(other->0)));
    }
}

/// What `BvhNode::new` builds finds what the plain search finds. Whichever
/// axes were drawn, the search of a hierarchy built over `objects` finds the
/// nearest answer among `objects`, which is the answer of one of them; it
/// and the plain search over `objects` both miss or both hit at the same
/// distance. This holds provided that the shapes answer as first-in-range
/// searches, that each lies within the box it reported as far as `ray` can
/// tell, and that the slab test respects the nesting of boxes.
pub proof fn lemma_built_hierarchy_agrees_with_scan<T: Hittable, G: Geometry>(
    node: BvhNode<T>,
    objects: Seq<T>,
    entries: Seq<Bounded<T>>,
    ray: Ray,
    interval: Interval,
    geometry: G,
    found: Option<RayHit>,
    closest: Option<RayHit>,
)
    requires
        reported(objects, entries),
        node.arranges(entries),
        answers_as_first_in_range::<T>(ray),
        bounds_own_shape(entries, ray, geometry),
        misses_what_lies_within(ray, geometry),
        node.traversal(ray, interval, geometry, found),
        scanned(objects, ray, interval, closest),
    ensures
        nearest(objects, ray, interval, found),
        found is Some <==> closest is Some,
        found is Some ==> found->0.distance == closest->0.distance,
        without_ties(objects, ray, interval) ==> found == closest,
{
    lemma_arranged_encloses(node, entries, ray, geometry);
    lemma_arranged_holds_all(node, entries);
    assert(shapes_of(entries) =~= objects);
    lemma_search_agrees_with_scan(node, objects, ray, interval, geometry, found, closest);
    lemma_traversal_finds_nearest(node, ray, interval, geometry, found);
    lemma_nearest_in_any_order(node.items(), objects, ray, interval, found);
    lemma_scan_finds_nearest(objects, ray, interval, closest);
    if without_ties(objects, ray, interval) {
        lemma_nearest_is_one_hit(objects, objects, ray, interval, found, closest);
    }
}

/// Two hierarchies over the same shapes find the same hit, whichever axes
/// were drawn for either and in whatever order the shapes were given, as long
/// as no two shapes are hit at the same distance; with ties they still agree
/// on whether anything is hit, and at what distance.
pub proof fn lemma_built_hierarchies_agree<T: Hittable, G: Geometry>(
    first: BvhNode<T>,
    second: BvhNode<T>,
    entries: Seq<Bounded<T>>,
    others: Seq<Bounded<T>>,
    ray: Ray,
    interval: Interval,
    geometry: G,
    found: Option<RayHit>,
    other: Option<RayHit>,
)
    requires
        first.arranges(entries),
        second.arranges(others),
        shapes_of(entries).to_multiset() == shapes_of(others).to_multiset(),
        answers_as_first_in_range::<T>(ray),
        bounds_own_shape(entries, ray, geometry),
        bounds_own_shape(others, ray, geometry),
        misses_what_lies_within(ray, geometry),
        first.traversal(ray, interval, geometry, found),
        second.traversal(ray, interval, geometry, other),
    ensures
        found is Some <==> other is Some,
        found is Some ==> found->0.distance == other->0.distance,
        without_ties(first.items(), ray, interval) ==> found == other,
{
    lemma_arranged_encloses(first, entries, ray, geometry);
    lemma_arranged_encloses(second, others, ray, geometry);
    lemma_arranged_holds_all(first, entries);
    lemma_arranged_holds_all(second, others);
    lemma_traversal_finds_nearest(first, ray, interval, geometry, found);
    lemma_traversal_finds_nearest(second, ray, interval, geometry, other);
    lemma_nearest_is_one_distance(first.items(), second.items(), ray, interval, found, other);
    if without_ties(first.items(), ray, interval) {
        lemma_nearest_is_one_hit(first.items(), second.items(), ray, interval, found, other);
    }
}

} // verus!
