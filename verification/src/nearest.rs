//! What a search finds: the nearest answer among the shapes that it covers.
use vstd::prelude::*;
use crate::bvh::{leaf_search, narrowed, preferred, slab_test, Aabb, Bounded, BvhNode, Slab};
use crate::bvh::{lemma_arranged_holds_all, lemma_branch_halves, lower_half, shapes_of, upper_half};
use crate::data::{Hittable, Ray, RayHit};
use crate::interval::Interval;
use crate::kernels::Geometry;

verus! {

/// What is left of the answer `found` once only distances below `bound` count.
pub open spec fn below(found: Option<RayHit>, bound: int) -> Option<RayHit> {
    match found {
        Some(hit) => if hit.distance < bound {
            found
        } else {
            None
        },
        None => None,
    }
}

/// Whether `shape` has an answer to give along `ray` within `interval`.
pub open spec fn answers<T: Hittable>(shape: T, ray: Ray, interval: Interval) -> bool {
    exists|found: Option<RayHit>| #[trigger]
        call_ensures(T::raycast, (&shape, ray, interval), found)
}

/// Whether shapes of type `T` answer along `ray` as a search for their first
/// intersection within the interval does: every question has an answer, an
/// answer lies in the interval that was asked, and lowering the upper bound of
/// the interval keeps an answer that lies below the new bound and turns any
/// other into none.
pub open spec fn answers_as_first_in_range<T: Hittable>(ray: Ray) -> bool {
    &&& forall|shape: T, interval: Interval| #[trigger] answers(shape, ray, interval)
    &&& forall|shape: T, interval: Interval, hit: RayHit| #[trigger]
        call_ensures(T::raycast, (&shape, ray, interval), Some(hit)) ==> interval.holds(
            hit.distance as int,
        )
    &&& forall|
        shape: T,
        wide: Interval,
        tight: Interval,
        found: Option<RayHit>,
        kept: Option<RayHit>,
    |
        #[trigger] call_ensures(T::raycast, (&shape, ray, wide), found) && #[trigger] call_ensures(
            T::raycast,
            (&shape, ray, tight),
            kept,
        ) && wide.min == tight.min && tight.max <= wide.max ==> kept == below(
            found,
            tight.max as int,
        )
}

/// Whether `hit` is the nearest answer that the shapes of `items` give along
/// `ray` within `interval`: it is the answer of one of them, and no answer of
/// any of them is nearer. None stands for no answer at all.
pub open spec fn nearest<T: Hittable>(
    items: Seq<T>,
    ray: Ray,
    interval: Interval,
    hit: Option<RayHit>,
) -> bool {
    &&& hit is Some ==> exists|i: int|
        0 <= i < items.len() && #[trigger] call_ensures(
            T::raycast,
            (&items[i], ray, interval),
            hit,
        )
    &&& forall|i: int, other: RayHit|
        0 <= i < items.len() && #[trigger] call_ensures(
            T::raycast,
            (&items[i], ray, interval),
            Some(other),
        ) ==> hit is Some && hit->0.distance <= other.distance
}

impl<T: Hittable> BvhNode<T> {
    /// Whether every box of this subtree bounds the shapes below it as far as
    /// `ray` can tell: wherever one of them answers with a hit, the slab test
    /// of the box does not report a miss for the same interval.
    pub open spec fn encloses<G: Geometry>(self, ray: Ray, geometry: G) -> bool
        decreases self,
    {
        &&& forall|i: int, interval: Interval, hit: RayHit|
            0 <= i < self.items().len() && #[trigger] call_ensures(
                T::raycast,
                (&self.items()[i], ray, interval),
                Some(hit),
            ) ==> !slab_test(self.spec_bounding_box(), ray, interval, geometry, 0, false)
        &&& match self {
            BvhNode::Leaf { .. } => true,
            BvhNode::Branch { left, right, .. } => left.encloses(ray, geometry) && right.encloses(
                ray,
                geometry,
            ),
        }
    }
}

/// Two answers of one shape to one question are the same answer.
pub proof fn lemma_one_answer<T: Hittable>(
    shape: T,
    ray: Ray,
    interval: Interval,
    a: Option<RayHit>,
    b: Option<RayHit>,
)
    requires
        answers_as_first_in_range::<T>(ray),
        call_ensures(T::raycast, (&shape, ray, interval), a),
        call_ensures(T::raycast, (&shape, ray, interval), b),
    ensures
        a == b,
{
    assert(b == below(a, interval.max as int));
    if a is Some {
        assert(call_ensures(T::raycast, (&shape, ray, interval), Some(a->0)));
    }
}

/// A hit found within a lowered upper bound is the answer for the whole
/// interval too.
pub proof fn lemma_answer_widens<T: Hittable>(
    shape: T,
    ray: Ray,
    wide: Interval,
    tight: Interval,
    hit: RayHit,
)
    requires
        answers_as_first_in_range::<T>(ray),
        wide.min == tight.min,
        tight.max <= wide.max,
        call_ensures(T::raycast, (&shape, ray, tight), Some(hit)),
    ensures
        call_ensures(T::raycast, (&shape, ray, wide), Some(hit)),
{
    assert(answers(shape, ray, wide));
    let found = choose|found: Option<RayHit>| #[trigger]
        call_ensures(T::raycast, (&shape, ray, wide), found);
    assert(Some(hit) == below(found, tight.max as int));
}

/// An answer for the whole interval that lies below a lowered upper bound is
/// the answer within that bound too; one that does not lie below it leaves
/// no answer there.
pub proof fn lemma_answer_narrows<T: Hittable>(
    shape: T,
    ray: Ray,
    wide: Interval,
    tight: Interval,
    found: Option<RayHit>,
)
    requires
        answers_as_first_in_range::<T>(ray),
        wide.min == tight.min,
        tight.max <= wide.max,
        call_ensures(T::raycast, (&shape, ray, wide), found),
    ensures
        call_ensures(T::raycast, (&shape, ray, tight), below(found, tight.max as int)),
{
    assert(answers(shape, ray, tight));
    let kept = choose|kept: Option<RayHit>| #[trigger]
        call_ensures(T::raycast, (&shape, ray, tight), kept);
    assert(kept == below(found, tight.max as int));
}

/// A search of two groups of shapes, the second only below what the first
/// found, finds the nearest of both groups when it prefers the second.
pub proof fn lemma_nearest_of_two_groups<T: Hittable>(
    head: Seq<T>,
    tail: Seq<T>,
    ray: Ray,
    interval: Interval,
    first: Option<RayHit>,
    second: Option<RayHit>,
)
    requires
        answers_as_first_in_range::<T>(ray),
        nearest(head, ray, interval, first),
        nearest(tail, ray, narrowed(interval, first), second),
    ensures
        nearest(head + tail, ray, interval, preferred(second, first)),
{
    let all = head + tail;
    let rest = narrowed(interval, first);
    let hit = preferred(second, first);
    assert forall|i: int| 0 <= i < head.len() implies all[i] == head[i] by {}
    assert forall|i: int| 0 <= i < tail.len() implies all[head.len() + i] == tail[i] by {}
    if first is Some {
        let i = choose|i: int|
            0 <= i < head.len() && #[trigger] call_ensures(
                T::raycast,
                (&head[i], ray, interval),
                first,
            );
        assert(call_ensures(T::raycast, (&head[i], ray, interval), Some(first->0)));
        assert(interval.holds(first->0.distance as int));
    }
    assert(rest.min == interval.min && rest.max <= interval.max);
    // The preferred answer is the answer of some shape.
    if second is Some {
        let i = choose|i: int|
            0 <= i < tail.len() && #[trigger] call_ensures(T::raycast, (&tail[i], ray, rest), second);
        lemma_answer_widens(tail[i], ray, interval, rest, second->0);
        assert(call_ensures(T::raycast, (&all[head.len() + i], ray, interval), hit));
    } else if first is Some {
        let i = choose|i: int|
            0 <= i < head.len() && #[trigger] call_ensures(
                T::raycast,
                (&head[i], ray, interval),
                first,
            );
        assert(call_ensures(T::raycast, (&all[i], ray, interval), hit));
    }
    // No shape answers nearer.
    assert forall|i: int, other: RayHit|
        0 <= i < all.len() && #[trigger] call_ensures(
            T::raycast,
            (&all[i], ray, interval),
            Some(other),
        ) implies hit is Some && hit->0.distance <= other.distance by {
        if i < head.len() {
            assert(call_ensures(T::raycast, (&head[i], ray, interval), Some(other)));
            if second is Some {
                let k = choose|k: int|
                    0 <= k < tail.len() && #[trigger] call_ensures(
                        T::raycast,
                        (&tail[k], ray, rest),
                        second,
                    );
                assert(call_ensures(T::raycast, (&tail[k], ray, rest), Some(second->0)));
                assert(rest.holds(second->0.distance as int));
            }
        } else {
            let k = i - head.len();
            assert(all[head.len() + k] == tail[k]);
            lemma_answer_narrows(tail[k], ray, interval, rest, Some(other));
            if other.distance < rest.max {
                assert(call_ensures(T::raycast, (&tail[k], ray, rest), Some(other)));
            }
        }
    }
}

/// Searching the hierarchy finds what asking every shape would find: if the
/// shapes answer as first-in-range searches and every box bounds the shapes
/// below it, then whatever `raycast` returns is the nearest answer among all
/// the shapes of the hierarchy, whichever axes were drawn when it was built.
pub proof fn lemma_traversal_finds_nearest<T: Hittable, G: Geometry>(
    node: BvhNode<T>,
    ray: Ray,
    interval: Interval,
    geometry: G,
    hit: Option<RayHit>,
)
    requires
        answers_as_first_in_range::<T>(ray),
        node.encloses(ray, geometry),
        node.traversal(ray, interval, geometry, hit),
    ensures
        nearest(node.items(), ray, interval, hit),
    decreases node,
{
    let items = node.items();
    if slab_test(node.spec_bounding_box(), ray, interval, geometry, 0, false) && hit is None {
        // A box that may be missed bounds no shape that answers.
    } else {
        match node {
            BvhNode::Leaf { bounding_box, left, right } => {
                assert(leaf_search(left, right, ray, interval, hit));
                let first = choose|first: Option<RayHit>| #[trigger]
                    call_ensures(T::raycast, (&left, ray, interval), first) && match right {
                        None => hit == first,
                        Some(right) => exists|second: Option<RayHit>| #[trigger]
                            call_ensures(
                                T::raycast,
                                (&right, ray, narrowed(interval, first)),
                                second,
                            ) && hit == preferred(second, first),
                    };
                lemma_nearest_of_one(left, ray, interval, first);
                match right {
                    None => {
                        assert(items =~= seq![left]);
                    },
                    Some(right) => {
                        let rest = narrowed(interval, first);
                        let second = choose|second: Option<RayHit>| #[trigger]
                            call_ensures(T::raycast, (&right, ray, rest), second) && hit
                                == preferred(second, first);
                        lemma_nearest_of_one(right, ray, rest, second);
                        lemma_nearest_of_two_groups(
                            seq![left],
                            seq![right],
                            ray,
                            interval,
                            first,
                            second,
                        );
                        assert(items =~= seq![left] + seq![right]);
                    },
                }
            },
            BvhNode::Branch { bounding_box, left, right } => {
                let (first, second) = choose|first: Option<RayHit>, second: Option<RayHit>|
                    left.traversal(ray, interval, geometry, first) && right.traversal(
                        ray,
                        narrowed(interval, first),
                        geometry,
                        second,
                    ) && hit == #[trigger] preferred(second, first);
                lemma_traversal_finds_nearest(*left, ray, interval, geometry, first);
                lemma_traversal_finds_nearest(
                    *right,
                    ray,
                    narrowed(interval, first),
                    geometry,
                    second,
                );
                lemma_nearest_of_two_groups(
                    left.items(),
                    right.items(),
                    ray,
                    interval,
                    first,
                    second,
                );
            },
        }
    }
}

/// The answer of a shape is the nearest answer among that shape alone.
pub proof fn lemma_nearest_of_one<T: Hittable>(
    shape: T,
    ray: Ray,
    interval: Interval,
    found: Option<RayHit>,
)
    requires
        answers_as_first_in_range::<T>(ray),
        call_ensures(T::raycast, (&shape, ray, interval), found),
    ensures
        nearest(seq![shape], ray, interval, found),
{
    let items = seq![shape];
    assert(items[0] == shape);
    assert forall|i: int, other: RayHit|
        0 <= i < items.len() && #[trigger] call_ensures(
            T::raycast,
            (&items[i], ray, interval),
            Some(other),
        ) implies found is Some && found->0.distance <= other.distance by {
        lemma_one_answer(shape, ray, interval, found, Some(other));
    }
}

/// Whether the slab test of `bounds` may report a miss for `interval`.
pub open spec fn may_miss<G: Geometry>(
    bounds: Aabb,
    ray: Ray,
    interval: Interval,
    geometry: G,
) -> bool {
    slab_test(bounds, ray, interval, geometry, 0, false)
}

/// Whether each of `entries` has a box that bounds its shape as far as `ray`
/// can tell: where the shape answers with a hit, the slab test of its box does
/// not report a miss for the same interval.
pub open spec fn bounds_own_shape<T: Hittable, G: Geometry>(
    entries: Seq<Bounded<T>>,
    ray: Ray,
    geometry: G,
) -> bool {
    forall|k: int, interval: Interval, hit: RayHit|
        0 <= k < entries.len() && #[trigger] call_ensures(
            T::raycast,
            (&entries[k].item, ray, interval),
            Some(hit),
        ) ==> !may_miss(entries[k].bounds, ray, interval, geometry)
}

/// Whether the slab test respects the nesting of boxes: where it may miss a
/// box, it may miss every box that lies within it.
pub open spec fn misses_what_lies_within<G: Geometry>(ray: Ray, geometry: G) -> bool {
    forall|outer: Aabb, inner: Aabb, interval: Interval|
        #[trigger] outer.covers(inner) && #[trigger] may_miss(outer, ray, interval, geometry)
            ==> may_miss(inner, ray, interval, geometry)
}

/// Whether `geometry` has crossings to give for `bounds` along `axis`.
pub open spec fn crosses<G: Geometry>(bounds: Aabb, ray: Ray, geometry: G, axis: usize) -> bool {
    exists|slab: Slab| #[trigger] call_ensures(G::crossing, (&geometry, &ray, &bounds, axis), slab)
}

/// Whether the crossings that `geometry` gives respect the nesting of boxes:
/// it has crossings for every box, and a ray comes between the planes of a
/// box no later, and leaves them no earlier, than it does for a box within.
pub open spec fn crossings_nest<G: Geometry>(ray: Ray, geometry: G) -> bool {
    &&& forall|bounds: Aabb, axis: usize| axis < 3 ==> #[trigger] crosses(bounds, ray, geometry, axis)
    &&& forall|outer: Aabb, inner: Aabb, axis: usize, wide: Slab, tight: Slab|
        axis < 3 && outer.covers(inner) && #[trigger] call_ensures(
            G::crossing,
            (&geometry, &ray, &outer, axis),
            wide,
        ) && #[trigger] call_ensures(G::crossing, (&geometry, &ray, &inner, axis), tight)
            ==> wide.entry() <= tight.entry() && tight.exit() <= wide.exit()
}

/// With crossings that respect the nesting of boxes, a slab test that may
/// miss a box from some axis on may miss a box within it from that axis on,
/// whatever is left of the interval for the box within, as long as that lies
/// within what is left for the other.
pub proof fn lemma_slab_test_nests<G: Geometry>(
    outer: Aabb,
    inner: Aabb,
    ray: Ray,
    geometry: G,
    wide: Interval,
    tight: Interval,
    axis: int,
)
    requires
        crossings_nest(ray, geometry),
        outer.covers(inner),
        wide.min <= tight.min,
        tight.max <= wide.max,
        0 <= axis <= 3,
        slab_test(outer, ray, wide, geometry, axis, false),
    ensures
        slab_test(inner, ray, tight, geometry, axis, false),
    decreases 3 - axis,
{
    if axis < 3 {
        let along = axis as usize;
        let far = choose|slab: Slab| #[trigger]
            call_ensures(G::crossing, (&geometry, &ray, &outer, along), slab) && {
                let rest = wide.clipped(slab);
                if rest.is_empty() {
                    true
                } else {
                    slab_test(outer, ray, rest, geometry, axis + 1, false)
                }
            };
        assert(crosses(inner, ray, geometry, along));
        let near = choose|slab: Slab| #[trigger]
            call_ensures(G::crossing, (&geometry, &ray, &inner, along), slab);
        let wide_rest = wide.clipped(far);
        let tight_rest = tight.clipped(near);
        assert(wide_rest.min <= tight_rest.min && tight_rest.max <= wide_rest.max);
        if !tight_rest.is_empty() {
            lemma_slab_test_nests(outer, inner, ray, geometry, wide_rest, tight_rest, axis + 1);
        }
    }
}

/// Crossings that respect the nesting of boxes make a slab test that does.
pub proof fn lemma_nested_boxes_miss_together<G: Geometry>(ray: Ray, geometry: G)
    requires
        crossings_nest(ray, geometry),
    ensures
        misses_what_lies_within(ray, geometry),
{
    assert forall|outer: Aabb, inner: Aabb, interval: Interval|
        #[trigger] outer.covers(inner) && #[trigger] may_miss(
            outer,
            ray,
            interval,
            geometry,
        ) implies may_miss(inner, ray, interval, geometry) by {
        lemma_slab_test_nests(outer, inner, ray, geometry, interval, interval, 0);
    }
}

/// A hierarchy bounds its shapes if their own boxes do: where every shape
/// was given a box that bounds it, and the slab test respects the nesting of
/// boxes, every box of the hierarchy built over them bounds the shapes below
/// it, whichever axes were drawn.
pub proof fn lemma_arranged_encloses<T: Hittable, G: Geometry>(
    node: BvhNode<T>,
    entries: Seq<Bounded<T>>,
    ray: Ray,
    geometry: G,
)
    requires
        node.arranges(entries),
        bounds_own_shape(entries, ray, geometry),
        misses_what_lies_within(ray, geometry),
    ensures
        node.encloses(ray, geometry),
    decreases node,
{
    broadcast use vstd::seq_lib::to_multiset_contains;

    lemma_arranged_holds_all(node, entries);
    let items = node.items();
    let shapes = shapes_of(entries);
    let root = node.spec_bounding_box();
    assert forall|i: int, interval: Interval, hit: RayHit|
        0 <= i < items.len() && #[trigger] call_ensures(
            T::raycast,
            (&items[i], ray, interval),
            Some(hit),
        ) implies !slab_test(root, ray, interval, geometry, 0, false) by {
        assert(items.contains(items[i]));
        assert(items.to_multiset().count(items[i]) > 0);
        assert(shapes.contains(items[i]));
        let k = choose|k: int| 0 <= k < shapes.len() && shapes[k] == items[i];
        assert(entries[k].item == items[i]);
        assert(root.covers(entries[k].bounds));
        assert(!may_miss(entries[k].bounds, ray, interval, geometry));
        assert(!may_miss(root, ray, interval, geometry));
    }
    match node {
        BvhNode::Leaf { .. } => {},
        BvhNode::Branch { bounding_box, left, right } => {
            let sorted = lemma_branch_halves(node, entries);
            let middle = sorted.len() as int / 2;
            let lower = lower_half(sorted);
            let upper = upper_half(sorted);
            assert(bounds_own_shape(lower, ray, geometry)) by {
                assert forall|k: int, interval: Interval, hit: RayHit|
                    0 <= k < lower.len() && #[trigger] call_ensures(
                        T::raycast,
                        (&lower[k].item, ray, interval),
                        Some(hit),
                    ) implies !may_miss(lower[k].bounds, ray, interval, geometry) by {
                    assert(lower[k] == sorted[k]);
                    let j = choose|j: int| 0 <= j < entries.len() && entries[j] == sorted[k];
                    assert(call_ensures(T::raycast, (&entries[j].item, ray, interval), Some(hit)));
                }
            }
            assert(bounds_own_shape(upper, ray, geometry)) by {
                assert forall|k: int, interval: Interval, hit: RayHit|
                    0 <= k < upper.len() && #[trigger] call_ensures(
                        T::raycast,
                        (&upper[k].item, ray, interval),
                        Some(hit),
                    ) implies !may_miss(upper[k].bounds, ray, interval, geometry) by {
                    assert(upper[k] == sorted[middle + k]);
                    let j = choose|j: int|
                        0 <= j < entries.len() && entries[j] == sorted[middle + k];
                    assert(call_ensures(T::raycast, (&entries[j].item, ray, interval), Some(hit)));
                }
            }
            lemma_arranged_encloses(*left, lower, ray, geometry);
            lemma_arranged_encloses(*right, upper, ray, geometry);
        },
    }
}

} // verus!
