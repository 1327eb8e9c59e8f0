//! Axis-aligned bounding boxes and the bounding-volume hierarchy over them.
use vstd::prelude::*;
use vstd::arithmetic::power2::{lemma2_to64, lemma_pow2_strictly_increases, lemma_pow2_unfold, pow2};
use rand::rngs::SmallRng;
use rand::Rng;
use crate::data::{Hittable, Ray, RayHit};
use crate::interval::Interval;
use crate::kernels::Geometry;
use crate::scalar::{is_number, less, number, Scalar, DELTA, ZERO};

verus! {

/// Where a ray crosses the two planes that bound a box along one axis.
#[derive(Debug, Clone, Copy)]
pub struct Slab {
    /// Ray parameter at the plane of the lower bound.
    pub t0: Scalar,
    /// Ray parameter at the plane of the upper bound.
    pub t1: Scalar,
    /// Inverse of the ray direction's component along the axis.
    pub inverse_direction: Scalar,
}

impl Slab {
    /// Whether the ray runs against the axis, so that it meets the upper
    /// plane first: the inverse direction is a number below zero.
    pub open spec fn reversed(self) -> bool {
        less(self.inverse_direction, ZERO)
    }

    /// The ray parameter from which on the ray lies between the two planes:
    /// the crossing of the plane that the ray meets first. A crossing that is
    /// no number limits nothing, and stands here as the least of all keys.
    pub open spec fn entry(self) -> Scalar {
        let first = if self.reversed() { self.t1 } else { self.t0 };
        if is_number(first) {
            first
        } else {
            i32::MIN
        }
    }

    /// The ray parameter up to which the ray lies between the two planes: the
    /// crossing of the plane that the ray meets last. A crossing that is no
    /// number limits nothing, and stands here as the greatest of all keys.
    pub open spec fn exit(self) -> Scalar {
        let last = if self.reversed() { self.t0 } else { self.t1 };
        if is_number(last) {
            last
        } else {
            i32::MAX
        }
    }
}

/// An axis-aligned box: one interval per axis.
#[derive(Debug, Clone, Copy, PartialEq, Eq, Structural)]
pub struct Aabb {
    pub x: Interval,
    pub y: Interval,
    pub z: Interval,
}

/// The outcome `hit` of the slab test of `bounds`, from `axis` on, with
/// `interval` as the part of the ray still in play.
pub open spec fn slab_test<G: Geometry>(
    bounds: Aabb,
    ray: Ray,
    interval: Interval,
    geometry: G,
    axis: int,
    hit: bool,
) -> bool
    decreases 3 - axis,
{
    if axis < 0 || axis >= 3 {
        hit
    } else {
        exists|slab: Slab| #[trigger]
            call_ensures(G::crossing, (&geometry, &ray, &bounds, axis as usize), slab) && {
                let rest = interval.clipped(slab);
                if rest.is_empty() {
                    !hit
                } else {
                    slab_test(bounds, ray, rest, geometry, axis + 1, hit)
                }
            }
    }
}

/// The key next below `key`, or `key` itself where there is none.
pub open spec fn step_down(key: Scalar) -> Scalar {
    if key > i32::MIN {
        (key - 1) as i32
    } else {
        key
    }
}

/// The key next above `key`, or `key` itself where there is none.
pub open spec fn step_up(key: Scalar) -> Scalar {
    if key < i32::MAX {
        (key + 1) as i32
    } else {
        key
    }
}

/// Whether an interval of width `size` counts as thick enough: its width is a
/// number, at least the least thickness, and it is not empty.
pub open spec fn thick(interval: Interval, size: Scalar) -> bool {
    is_number(size) && size >= DELTA && interval.min < interval.max
}

/// What padding makes of the thin interval `before` when widening it gave
/// `expanded`: each end of `expanded` that is a number beyond the end of
/// `before`, and else the key next beyond the end of `before`, so that the
/// outcome is wider at both ends even where the widening was lost in
/// rounding.
pub open spec fn widened(before: Interval, expanded: Interval) -> Interval {
    Interval {
        min: if is_number(expanded.min) && expanded.min < before.min {
            expanded.min
        } else {
            step_down(before.min)
        },
        max: if is_number(expanded.max) && expanded.max > before.max {
            expanded.max
        } else {
            step_up(before.max)
        },
    }
}

/// Whether `after` is a possible outcome of padding `before`: the interval
/// itself where it is thick enough, else the interval widened by the least
/// thickness, and by one key at either end at the least.
pub open spec fn padded_axis<G: Geometry>(before: Interval, geometry: G, after: Interval) -> bool {
    exists|size: Scalar| #[trigger]
        call_ensures(G::size, (&geometry, &before), size) && if thick(before, size) {
            after == before
        } else {
            exists|expanded: Interval| #[trigger]
                call_ensures(G::expand, (&geometry, &before, DELTA), expanded) && after == widened(
                    before,
                    expanded,
                )
        }
}

/// Whether `after` is a possible outcome of padding the box `before`.
pub open spec fn padding<G: Geometry>(before: Aabb, geometry: G, after: Aabb) -> bool {
    &&& padded_axis(before.x, geometry, after.x)
    &&& padded_axis(before.y, geometry, after.y)
    &&& padded_axis(before.z, geometry, after.z)
}

/// Pads one axis of a box.
pub fn pad<G: Geometry>(axis: Interval, geometry: &G) -> (padded: Interval)
    ensures
        padded_axis(axis, *geometry, padded),
{
    let size: Scalar = geometry.size(&axis);
    if number(size) && size >= DELTA && axis.min < axis.max {
        axis
    } else {
        let expanded: Interval = geometry.expand(&axis, DELTA);
        let min: Scalar = if number(expanded.min) && expanded.min < axis.min {
            expanded.min
        } else if axis.min > i32::MIN {
            axis.min - 1
        } else {
            axis.min
        };
        let max: Scalar = if number(expanded.max) && expanded.max > axis.max {
            expanded.max
        } else if axis.max < i32::MAX {
            axis.max + 1
        } else {
            axis.max
        };
        Interval { min, max }
    }
}

/// Padding changes a box only along the axes that are not thick enough: an
/// axis that never measures less than the least thickness, and is not empty,
/// comes out as it went in.
pub proof fn lemma_padding_keeps_thick_axes<G: Geometry>(
    before: Aabb,
    geometry: G,
    after: Aabb,
    axis: int,
)
    requires
        0 <= axis < 3,
        padding(before, geometry, after),
        before.spec_axis(axis).min < before.spec_axis(axis).max,
        forall|size: Scalar| #[trigger]
            call_ensures(G::size, (&geometry, &before.spec_axis(axis)), size) ==> is_number(size)
                && size >= DELTA,
    ensures
        after.spec_axis(axis) == before.spec_axis(axis),
{
}

/// Padding never narrows an interval, and what it changes it makes strictly
/// wider at both ends. An interval that holds at most its lower bound, as
/// that of a flat shape does, comes out holding more than one key. (The two
/// extreme integers, which are no keys of numbers, have nothing beyond them.)
pub proof fn lemma_padding_widens<G: Geometry>(before: Interval, geometry: G, after: Interval)
    requires
        padded_axis(before, geometry, after),
    ensures
        after.min <= before.min,
        before.max <= after.max,
        after != before && before.min > i32::MIN ==> after.min < before.min,
        after != before && before.max < i32::MAX ==> before.max < after.max,
        before.min <= before.max && before.min > i32::MIN && before.max < i32::MAX ==> after.min
            < after.max,
{
}

/// A padded box covers the box that was padded, and is thick along every
/// axis: none of its intervals is empty, as long as none was turned round
/// before or reaches an extreme integer.
pub proof fn lemma_padded_box_is_thick<G: Geometry>(before: Aabb, geometry: G, after: Aabb)
    requires
        padding(before, geometry, after),
    ensures
        after.covers(before),
        forall|axis: int|
            0 <= axis < 3 && (#[trigger] before.spec_axis(axis)).min <= before.spec_axis(axis).max
                && before.spec_axis(axis).min > i32::MIN && before.spec_axis(axis).max < i32::MAX
                ==> after.spec_axis(axis).min < after.spec_axis(axis).max,
{
    lemma_padding_widens(before.x, geometry, after.x);
    lemma_padding_widens(before.y, geometry, after.y);
    lemma_padding_widens(before.z, geometry, after.z);
}

impl Aabb {
    /// The interval along `axis`: 0 for x, 1 for y, anything else for z.
    pub open spec fn spec_axis(self, axis: int) -> Interval {
        if axis == 0 {
            self.x
        } else if axis == 1 {
            self.y
        } else {
            self.z
        }
    }

    /// The smallest box that covers both `a` and `b`.
    pub open spec fn hull(a: Aabb, b: Aabb) -> Aabb {
        Aabb {
            x: Interval::hull(a.x, b.x),
            y: Interval::hull(a.y, b.y),
            z: Interval::hull(a.z, b.z),
        }
    }

    /// Whether every axis of `inner` lies within that axis of `self`.
    pub open spec fn covers(self, inner: Aabb) -> bool {
        forall|axis: int|
            #![trigger self.spec_axis(axis)]
            #![trigger inner.spec_axis(axis)]
            0 <= axis < 3 ==> self.spec_axis(axis).min <= inner.spec_axis(axis).min
                && inner.spec_axis(axis).max <= self.spec_axis(axis).max
    }

    /// The interval along `axis`: 0 for x, 1 for y, anything else for z.
    pub fn axis(&self, axis: usize) -> (interval: Interval)
        ensures
            interval == self.spec_axis(axis as int),
    {
        if axis == 0 {
            self.x
        } else if axis == 1 {
            self.y
        } else {
            self.z
        }
    }

    /// The box with the opposite corners `a` and `b`, whichever way round
    /// they are given.
    pub open spec fn around(a: [Scalar; 3], b: [Scalar; 3]) -> Aabb {
        Aabb {
            x: Interval::hull(Interval { min: a[0], max: a[0] }, Interval { min: b[0], max: b[0] }),
            y: Interval::hull(Interval { min: a[1], max: a[1] }, Interval { min: b[1], max: b[1] }),
            z: Interval::hull(Interval { min: a[2], max: a[2] }, Interval { min: b[2], max: b[2] }),
        }
    }

    /// The box with the opposite corners `a` and `b`.
    pub fn from_extremes(a: [Scalar; 3], b: [Scalar; 3]) -> (bounds: Self)
        ensures
            bounds == Aabb::around(a, b),
    {
        let x: Interval = Interval::combine(Interval::new(a[0], a[0]), Interval::new(b[0], b[0]));
        let y: Interval = Interval::combine(Interval::new(a[1], a[1]), Interval::new(b[1], b[1]));
        let z: Interval = Interval::combine(Interval::new(a[2], a[2]), Interval::new(b[2], b[2]));
        Self { x, y, z }
    }

    /// The smallest box that covers both `a` and `b`.
    pub fn combine(a: Self, b: Self) -> (bounds: Self)
        ensures
            bounds == Aabb::hull(a, b),
    {
        let x: Interval = Interval::combine(a.x, b.x);
        let y: Interval = Interval::combine(a.y, b.y);
        let z: Interval = Interval::combine(a.z, b.z);
        Self { x, y, z }
    }

    /// The box with every axis that measures less than the least thickness
    /// widened by that thickness, so that a flat shape gets a box with a
    /// volume. A widening that is lost in rounding is made up for by one key
    /// at either end: a thin axis always comes out strictly wider.
    pub fn padded<G: Geometry>(self, geometry: &G) -> (bounds: Self)
        ensures
            padding(self, *geometry, bounds),
    {
        let x: Interval = pad(self.x, geometry);
        let y: Interval = pad(self.y, geometry);
        let z: Interval = pad(self.z, geometry);
        Self { x, y, z }
    }

    /// The slab test: whether `ray` passes through the box within `interval`.
    /// Axis by axis the interval is clipped to where the ray lies between the
    /// two planes of the box; the box is missed as soon as nothing is left.
    pub fn ray_hits<G: Geometry>(
        self,
        ray: Ray,
        interval: Interval,
        geometry: &G,
    ) -> (hit: bool)
        ensures
            slab_test(self, ray, interval, *geometry, 0, hit),
    {
        let mut rest: Interval = interval;
        let mut axis: usize = 0;
        while axis < 3
            invariant
                axis <= 3,
                forall|h: bool|
                    slab_test(self, ray, rest, *geometry, axis as int, h) ==> slab_test(
                        self,
                        ray,
                        interval,
                        *geometry,
                        0,
                        h,
                    ),
            decreases 3 - axis,
        {
            let slab: Slab = geometry.crossing(&ray, &self, axis);
            let next: Interval = rest.clip(slab);
            if next.max <= next.min {
                return false;
            }
            rest = next;
            axis = axis + 1;
        }
        true
    }
}

/// The hull of two boxes covers each of them, and every box that covers both
/// covers the hull.
pub proof fn lemma_hull_is_least_cover(a: Aabb, b: Aabb, c: Aabb)
    ensures
        Aabb::hull(a, b).covers(a),
        Aabb::hull(a, b).covers(b),
        c.covers(a) && c.covers(b) ==> c.covers(Aabb::hull(a, b)),
{
    let h = Aabb::hull(a, b);
    assert(h.spec_axis(0) == Interval::hull(a.spec_axis(0), b.spec_axis(0)));
    assert(h.spec_axis(1) == Interval::hull(a.spec_axis(1), b.spec_axis(1)));
    assert(h.spec_axis(2) == Interval::hull(a.spec_axis(2), b.spec_axis(2)));
    if c.covers(a) && c.covers(b) {
        assert(c.covers(h)) by {
            assert(c.spec_axis(0).min <= a.spec_axis(0).min);
            assert(c.spec_axis(1).min <= a.spec_axis(1).min);
            assert(c.spec_axis(2).min <= a.spec_axis(2).min);
            assert(c.spec_axis(0).min <= b.spec_axis(0).min);
            assert(c.spec_axis(1).min <= b.spec_axis(1).min);
            assert(c.spec_axis(2).min <= b.spec_axis(2).min);
        }
    }
}

/// The generator `rand::rngs::SmallRng`, from which the split axes are drawn.
/// The library only hands it on: nothing is claimed of what it holds.
#[verifier::external_type_specification]
#[verifier::external_body]
pub struct ExSmallRng(SmallRng);

/// Draws a split axis with `rand::Rng::gen_range` over `0..=2`, which samples
/// the closed range uniformly. Of the draw only its range is claimed: the
/// axis is 0, 1 or 2.
#[verifier::external_body]
fn random_axis(rng: &mut SmallRng) -> (axis: usize)
    ensures
        axis < 3,
{
    rng.gen_range(0..=2)
}

/// A shape together with the box that it reported.
#[derive(Debug)]
pub struct Bounded<T> {
    pub bounds: Aabb,
    pub item: T,
}

/// Whether the lower bounds along `axis` never decrease from one entry of
/// `entries` to the next.
pub open spec fn sorted_on<T>(entries: Seq<Bounded<T>>, axis: int) -> bool {
    forall|i: int, j: int|
        0 <= i <= j < entries.len() ==> entries[i].bounds.spec_axis(axis).min
            <= entries[j].bounds.spec_axis(axis).min
}

/// Whether `sorted` holds the entries of `entries`, each as often, in the
/// order of their lower bounds along `axis`, one of the three axes.
pub open spec fn sorts<T>(sorted: Seq<Bounded<T>>, entries: Seq<Bounded<T>>, axis: int) -> bool {
    &&& 0 <= axis < 3
    &&& sorted_on(sorted, axis)
    &&& sorted.to_multiset() == entries.to_multiset()
}

/// The first half of `sorted`, which goes to the left of a branch: `len / 2`
/// entries.
pub open spec fn lower_half<T>(sorted: Seq<Bounded<T>>) -> Seq<Bounded<T>> {
    sorted.subrange(0, sorted.len() as int / 2)
}

/// The rest of `sorted`, which goes to the right of a branch.
pub open spec fn upper_half<T>(sorted: Seq<Bounded<T>>) -> Seq<Bounded<T>> {
    sorted.subrange(sorted.len() as int / 2, sorted.len() as int)
}

/// Sorts `entries` by their lower bound along `axis` with the slice method
/// `sort_unstable_by_key` of the standard library. Claimed of it: what comes
/// back holds the same entries, each as often as before, in ascending order of
/// that bound; nothing is claimed on the order of entries with equal bounds,
/// which the method is free to choose.
#[verifier::external_body]
fn sort_on_axis<T>(entries: &mut Vec<Bounded<T>>, axis: usize)
    ensures
        final(entries)@.to_multiset() == old(entries)@.to_multiset(),
        sorted_on(final(entries)@, axis as int),
{
    entries.sort_unstable_by_key(|entry| entry.bounds.axis(axis).min);
}

/// The two shapes of `entries` in the order in which a leaf holds them when
/// `axis` decides: as given if the first has the strictly lower bound,
/// exchanged otherwise.
pub open spec fn pair_in_order<T>(entries: Seq<Bounded<T>>, axis: int) -> Seq<T> {
    if entries[0].bounds.spec_axis(axis).min < entries[1].bounds.spec_axis(axis).min {
        seq![entries[0].item, entries[1].item]
    } else {
        seq![entries[1].item, entries[0].item]
    }
}

/// A node of the hierarchy: a leaf with one or two shapes, or a branch with
/// two subtrees.
#[derive(Debug)]
#[allow(inconsistent_fields)]
pub enum BvhNode<T> {
    Leaf { bounding_box: Aabb, left: T, right: Option<T> },
    Branch { bounding_box: Aabb, left: Box<BvhNode<T>>, right: Box<BvhNode<T>> },
}

impl<T> BvhNode<T> {
    /// The box stored at the root of this subtree.
    pub open spec fn spec_bounding_box(self) -> Aabb {
        match self {
            BvhNode::Leaf { bounding_box, .. } => bounding_box,
            BvhNode::Branch { bounding_box, .. } => bounding_box,
        }
    }

    /// The shapes of this subtree, in the order in which a search visits them.
    pub open spec fn items(self) -> Seq<T>
        decreases self,
    {
        match self {
            BvhNode::Leaf { left, right, .. } => match right {
                Some(right) => seq![left, right],
                None => seq![left],
            },
            BvhNode::Branch { left, right, .. } => left.items() + right.items(),
        }
    }

    /// The number of nodes on the longest way from the root of this subtree
    /// down to a leaf.
    pub open spec fn depth(self) -> nat
        decreases self,
    {
        match self {
            BvhNode::Leaf { .. } => 1,
            BvhNode::Branch { left, right, .. } => if left.depth() >= right.depth() {
                1 + left.depth()
            } else {
                1 + right.depth()
            },
        }
    }

    /// Whether this subtree is a hierarchy over exactly `entries`, built by
    /// the rule of construction: one entry makes a leaf, two make a leaf that
    /// holds first the one with the strictly lower bound along some axis (the
    /// second entry, if neither is), and more are sorted along some axis and
    /// halved, the lower half going left. Every box is that of the entry, or
    /// the hull of the two boxes below it.
    pub open spec fn arranges(self, entries: Seq<Bounded<T>>) -> bool
        decreases self,
    {
        match self {
            BvhNode::Leaf { bounding_box, left, right: None } => {
                &&& entries.len() == 1
                &&& left == entries[0].item
                &&& bounding_box == entries[0].bounds
            },
            BvhNode::Leaf { bounding_box, left, right: Some(right) } => {
                &&& entries.len() == 2
                &&& bounding_box == Aabb::hull(entries[0].bounds, entries[1].bounds)
                &&& exists|axis: int|
                    0 <= axis < 3 && #[trigger] pair_in_order(entries, axis) == seq![left, right]
            },
            BvhNode::Branch { bounding_box, left, right } => {
                &&& entries.len() > 2
                &&& bounding_box == Aabb::hull(left.spec_bounding_box(), right.spec_bounding_box())
                &&& exists|axis: int, sorted: Seq<Bounded<T>>|
                    #[trigger] sorts(sorted, entries, axis) && left.arranges(lower_half(sorted))
                        && right.arranges(upper_half(sorted))
            },
        }
    }

    /// The box around all the shapes of this subtree.
    pub fn bounding_box(&self) -> (bounds: Aabb)
        ensures
            bounds == self.spec_bounding_box(),
    {
        match self {
            BvhNode::Leaf { bounding_box, .. } => *bounding_box,
            BvhNode::Branch { bounding_box, .. } => *bounding_box,
        }
    }

    /// Makes the leaf for two entries: `first` goes left if its lower bound
    /// along `axis` is strictly below that of `second`, else `second` does.
    pub fn pair(first: Bounded<T>, second: Bounded<T>, axis: usize) -> (node: Self)
        ensures
            node matches BvhNode::Leaf { bounding_box, left, right: Some(right) }
                && bounding_box == Aabb::hull(first.bounds, second.bounds) && seq![left, right]
                == pair_in_order(seq![first, second], axis as int),
    {
        let bounding_box: Aabb = Aabb::combine(first.bounds, second.bounds);
        if first.bounds.axis(axis).min < second.bounds.axis(axis).min {
            BvhNode::Leaf { bounding_box, left: first.item, right: Some(second.item) }
        } else {
            BvhNode::Leaf { bounding_box, left: second.item, right: Some(first.item) }
        }
    }

    /// Sorts `entries` along `axis` and halves them: the first part holds the
    /// `len / 2` entries with the lowest bounds.
    pub fn split(entries: Vec<Bounded<T>>, axis: usize) -> (halves: (
        Vec<Bounded<T>>,
        Vec<Bounded<T>>,
    ))
        ensures
            sorted_on(halves.0@ + halves.1@, axis as int),
            (halves.0@ + halves.1@).to_multiset() == entries@.to_multiset(),
            halves.0@.len() == entries@.len() / 2,
    {
        let mut lower: Vec<Bounded<T>> = entries;
        sort_on_axis(&mut lower, axis);
        proof {
            lower@.to_multiset_ensures();
            entries@.to_multiset_ensures();
        }
        let middle: usize = lower.len() / 2;
        let ghost sorted = lower@;
        let upper: Vec<Bounded<T>> = lower.split_off(middle);
        assert(lower@ + upper@ =~= sorted);
        (lower, upper)
    }

    /// Builds the hierarchy over `entries`, drawing one axis per node from
    /// `rng`. No entries make no hierarchy.
    pub fn from_bounded(entries: Vec<Bounded<T>>, rng: &mut SmallRng) -> (node: Option<Self>)
        ensures
            node is None <==> entries@.len() == 0,
            node matches Some(node) ==> node.arranges(entries@),
        decreases entries@.len(),
    {
        let axis: usize = random_axis(rng);
        let mut entries: Vec<Bounded<T>> = entries;
        let ghost given = entries@;
        let count: usize = entries.len();
        if count == 0 {
            None
        } else if count == 1 {
            let only: Bounded<T> = entries.pop().unwrap();
            Some(BvhNode::Leaf { bounding_box: only.bounds, left: only.item, right: None })
        } else if count == 2 {
            let second: Bounded<T> = entries.pop().unwrap();
            let first: Bounded<T> = entries.pop().unwrap();
            assert(given =~= seq![first, second]);
            Some(Self::pair(first, second, axis))
        } else {
            let (lower, upper) = Self::split(entries, axis);
            let ghost sorted = lower@ + upper@;
            proof {
                sorted.to_multiset_ensures();
                given.to_multiset_ensures();
            }
            assert(lower_half(sorted) =~= lower@);
            assert(upper_half(sorted) =~= upper@);
            let left: Self = Self::from_bounded(lower, rng).unwrap();
            let right: Self = Self::from_bounded(upper, rng).unwrap();
            let bounding_box: Aabb = Aabb::combine(left.bounding_box(), right.bounding_box());
            assert(sorts(sorted, given, axis as int));
            Some(BvhNode::Branch { bounding_box, left: Box::new(left), right: Box::new(right) })
        }
    }
}

/// Whether `entries` holds the shapes of `objects`, in their order, each with a
/// box that its `bounding_box` reported.
pub open spec fn reported<T: Hittable>(objects: Seq<T>, entries: Seq<Bounded<T>>) -> bool {
    &&& entries.len() == objects.len()
    &&& forall|i: int|
        0 <= i < objects.len() ==> (#[trigger] entries[i]).item == objects[i] && call_ensures(
            T::bounding_box,
            (&objects[i],),
            entries[i].bounds,
        )
}

/// The interval that remains to be searched once `found` is known: a hit
/// lowers the upper bound to its distance.
pub open spec fn narrowed(interval: Interval, found: Option<RayHit>) -> Interval {
    match found {
        Some(hit) => Interval { min: interval.min, max: hit.distance },
        None => interval,
    }
}

/// The later of two searches wins whenever it found anything.
pub open spec fn preferred(second: Option<RayHit>, first: Option<RayHit>) -> Option<RayHit> {
    if second is Some {
        second
    } else {
        first
    }
}

/// Whether `hit` is a possible outcome of asking `left` and then, within what
/// its answer leaves of `interval`, `right`.
pub open spec fn leaf_search<T: Hittable>(
    left: T,
    right: Option<T>,
    ray: Ray,
    interval: Interval,
    hit: Option<RayHit>,
) -> bool {
    exists|first: Option<RayHit>| #[trigger]
        call_ensures(T::raycast, (&left, ray, interval), first) && match right {
            None => hit == first,
            Some(right) => exists|second: Option<RayHit>| #[trigger]
                call_ensures(T::raycast, (&right, ray, narrowed(interval, first)), second)
                    && hit == preferred(second, first),
        }
}

impl<T: Hittable> BvhNode<T> {
    /// Whether `hit` is a possible outcome of searching this subtree along
    /// `ray` within `interval`: a box that the slab test misses ends the
    /// search of its subtree; otherwise the left side is searched first, the
    /// right side only below the distance found on the left, and what the
    /// right side finds is preferred.
    pub open spec fn traversal<G: Geometry>(
        self,
        ray: Ray,
        interval: Interval,
        geometry: G,
        hit: Option<RayHit>,
    ) -> bool
        decreases self,
    {
        match self {
            BvhNode::Leaf { bounding_box, left, right } => {
                ||| slab_test(bounding_box, ray, interval, geometry, 0, false) && hit is None
                ||| slab_test(bounding_box, ray, interval, geometry, 0, true) && leaf_search(
                    left,
                    right,
                    ray,
                    interval,
                    hit,
                )
            },
            BvhNode::Branch { bounding_box, left, right } => {
                ||| slab_test(bounding_box, ray, interval, geometry, 0, false) && hit is None
                ||| slab_test(bounding_box, ray, interval, geometry, 0, true) && exists|
                    first: Option<RayHit>,
                    second: Option<RayHit>,
                |
                    left.traversal(ray, interval, geometry, first) && right.traversal(
                        ray,
                        narrowed(interval, first),
                        geometry,
                        second,
                    ) && hit == #[trigger] preferred(second, first)
            },
        }
    }

    /// Builds the hierarchy over `objects`, asking each for its box once and
    /// drawing one axis per node from `rng`. No objects make no hierarchy.
    pub fn new(objects: Vec<T>, rng: &mut SmallRng) -> (node: Option<Self>)
        ensures
            node is None <==> objects@.len() == 0,
            node matches Some(node) ==> exists|entries: Seq<Bounded<T>>| #[trigger]
                reported(objects@, entries) && node.arranges(entries),
    {
        let mut entries: Vec<Bounded<T>> = Vec::new();
        for item in it: objects
            invariant
                it.seq() == objects@,
                reported(objects@.take(it.index() as int), entries@),
        {
            let bounds: Aabb = item.bounding_box();
            entries.push(Bounded { bounds, item });
        }
        assert(objects@.take(objects@.len() as int) =~= objects@);
        Self::from_bounded(entries, rng)
    }

    /// Searches this subtree for the nearest hit of `ray` within `interval`.
    /// What the right side reports is taken without comparing distances: it was
    /// searched only below the distance of the hit on the left.
    pub fn raycast<G: Geometry>(
        &self,
        ray: Ray,
        interval: Interval,
        geometry: &G,
    ) -> (hit: Option<RayHit>)
        ensures
            self.traversal(ray, interval, *geometry, hit),
        decreases self,
    {
        match self {
            BvhNode::Leaf { bounding_box, left, right } => {
                if !bounding_box.ray_hits(ray, interval, geometry) {
                    return None;
                }
                let hit_left: Option<RayHit> = left.raycast(ray, interval);
                let rest: Interval = match &hit_left {
                    Some(ray_hit) => Interval::new(interval.min, ray_hit.distance),
                    None => interval,
                };
                assert(rest == narrowed(interval, hit_left));
                let hit_right: Option<RayHit> = match right {
                    Some(right) => right.raycast(ray, rest),
                    None => None,
                };
                // What the right side found lies below the left hit.
                let hit: Option<RayHit> = if hit_right.is_some() {
                    hit_right
                } else {
                    hit_left
                };
                assert(leaf_search(*left, *right, ray, interval, hit)) by {
                    assert(call_ensures(T::raycast, (left, ray, interval), hit_left));
                    if right is Some {
                        assert(call_ensures(T::raycast, (&right->0, ray, rest), hit_right));
                    }
                }
                hit
            },
            BvhNode::Branch { bounding_box, left, right } => {
                if !bounding_box.ray_hits(ray, interval, geometry) {
                    return None;
                }
                let hit_left: Option<RayHit> = left.raycast(ray, interval, geometry);
                let rest: Interval = match &hit_left {
                    Some(ray_hit) => Interval::new(interval.min, ray_hit.distance),
                    None => interval,
                };
                assert(rest == narrowed(interval, hit_left));
                let hit_right: Option<RayHit> = right.raycast(ray, rest, geometry);
                // What the right side found lies below the left hit.
                let hit: Option<RayHit> = if hit_right.is_some() {
                    hit_right
                } else {
                    hit_left
                };
                assert(hit == preferred(hit_right, hit_left));
                hit
            },
        }
    }
}

/// What a branch was made of: the entries of `entries` in the sorted order in
/// which they were halved between its two sides. It holds as many entries,
/// and none but those of `entries`.
pub proof fn lemma_branch_halves<T>(node: BvhNode<T>, entries: Seq<Bounded<T>>) -> (sorted: Seq<
    Bounded<T>,
>)
    requires
        node is Branch,
        node.arranges(entries),
    ensures
        exists|axis: int| #[trigger] sorts(sorted, entries, axis),
        node matches BvhNode::Branch { left, right, .. } && left.arranges(lower_half(sorted))
            && right.arranges(upper_half(sorted)),
        sorted.len() == entries.len(),
        sorted.len() > 2,
        forall|k: int| 0 <= k < sorted.len() ==> entries.contains(#[trigger] sorted[k]),
        forall|k: int| 0 <= k < entries.len() ==> sorted.contains(#[trigger] entries[k]),
{
    broadcast use vstd::seq_lib::to_multiset_contains;

    match node {
        BvhNode::Leaf { .. } => Seq::empty(),
        BvhNode::Branch { bounding_box, left, right } => {
            let (axis, sorted) = choose|axis: int, sorted: Seq<Bounded<T>>|
                #[trigger] sorts(sorted, entries, axis) && left.arranges(lower_half(sorted))
                    && right.arranges(upper_half(sorted));
            vstd::seq_lib::to_multiset_len(sorted);
            vstd::seq_lib::to_multiset_len(entries);
            assert forall|k: int| 0 <= k < sorted.len() implies entries.contains(
                #[trigger] sorted[k],
            ) by {
                assert(sorted.contains(sorted[k]));
                assert(sorted.to_multiset().count(sorted[k]) > 0);
            }
            assert forall|k: int| 0 <= k < entries.len() implies sorted.contains(
                #[trigger] entries[k],
            ) by {
                assert(entries.contains(entries[k]));
                assert(entries.to_multiset().count(entries[k]) > 0);
            }
            sorted
        },
    }
}

/// The shapes of `entries`, in their order.
pub open spec fn shapes_of<T>(entries: Seq<Bounded<T>>) -> Seq<T> {
    Seq::new(entries.len(), |i: int| entries[i].item)
}

/// Entries that are a rearrangement of one another hold shapes that are a
/// rearrangement of one another.
pub proof fn lemma_shapes_follow_entries<T>(a: Seq<Bounded<T>>, b: Seq<Bounded<T>>)
    requires
        a.to_multiset() == b.to_multiset(),
    ensures
        shapes_of(a).to_multiset() == shapes_of(b).to_multiset(),
    decreases a.len(),
{
    broadcast use vstd::seq_lib::to_multiset_len;
    broadcast use vstd::seq_lib::to_multiset_contains;

    assert(a.len() == a.to_multiset().len());
    assert(b.len() == b.to_multiset().len());
    if a.len() == 0 {
        assert(shapes_of(a) =~= shapes_of(b));
    } else {
        let last = a.last();
        assert(a.contains(last));
        assert(a.to_multiset().count(last) > 0);
        assert(b.contains(last));
        let j = choose|j: int| 0 <= j < b.len() && b[j] == last;
        let shorter_a = a.drop_last();
        let shorter_b = b.remove(j);
        assert(shorter_a =~= a.remove(a.len() - 1));
        vstd::seq_lib::to_multiset_remove(a, a.len() - 1);
        vstd::seq_lib::to_multiset_remove(b, j);
        lemma_shapes_follow_entries(shorter_a, shorter_b);
        assert(shapes_of(a) =~= shapes_of(shorter_a).push(last.item));
        assert(shapes_of(b) =~= shapes_of(shorter_b).insert(j, last.item));
        vstd::seq_lib::to_multiset_build(shapes_of(shorter_a), last.item);
        vstd::seq_lib::to_multiset_insert(shapes_of(shorter_b), j, last.item);
    }
}

/// A hierarchy holds exactly the shapes that it was built over, each as often
/// as it was given, and its root box covers the box of every one of them.
pub proof fn lemma_arranged_holds_all<T>(node: BvhNode<T>, entries: Seq<Bounded<T>>)
    requires
        node.arranges(entries),
    ensures
        node.items().to_multiset() == shapes_of(entries).to_multiset(),
        node.items().len() == entries.len(),
        forall|i: int|
            0 <= i < entries.len() ==> node.spec_bounding_box().covers(
                (#[trigger] entries[i]).bounds,
            ),
    decreases node,
{
    broadcast use vstd::seq_lib::to_multiset_len;

    match node {
        BvhNode::Leaf { bounding_box, left, right: None } => {
            assert(node.items() =~= shapes_of(entries));
        },
        BvhNode::Leaf { bounding_box, left, right: Some(right) } => {
            lemma_hull_is_least_cover(entries[0].bounds, entries[1].bounds, bounding_box);
            assert(seq![left, right][0] == left);
            assert(seq![left, right][1] == right);
            let given = shapes_of(entries);
            assert(given =~= seq![entries[0].item] + seq![entries[1].item]);
            if !(node.items() =~= given) {
                // The leaf holds the two the other way round.
                assert(node.items() =~= seq![entries[1].item] + seq![entries[0].item]);
                vstd::seq_lib::lemma_multiset_commutative(
                    seq![entries[0].item],
                    seq![entries[1].item],
                );
                vstd::seq_lib::lemma_multiset_commutative(
                    seq![entries[1].item],
                    seq![entries[0].item],
                );
            }
        },
        BvhNode::Branch { bounding_box, left, right } => {
            let sorted = lemma_branch_halves(node, entries);
            let middle = sorted.len() as int / 2;
            let lower = lower_half(sorted);
            let upper = upper_half(sorted);
            lemma_arranged_holds_all(*left, lower);
            lemma_arranged_holds_all(*right, upper);
            assert(sorted.len() == sorted.to_multiset().len());
            assert(entries.len() == entries.to_multiset().len());
            assert(node.items() == left.items() + right.items());
            lemma_shapes_follow_entries(sorted, entries);
            assert(shapes_of(sorted) =~= shapes_of(lower) + shapes_of(upper));
            vstd::seq_lib::lemma_multiset_commutative(left.items(), right.items());
            vstd::seq_lib::lemma_multiset_commutative(shapes_of(lower), shapes_of(upper));
            assert(node.items().to_multiset() =~= left.items().to_multiset().add(
                right.items().to_multiset(),
            ));
            assert(shapes_of(sorted).to_multiset() =~= shapes_of(lower).to_multiset().add(
                shapes_of(upper).to_multiset(),
            ));
            assert(node.items().to_multiset() == shapes_of(entries).to_multiset());
            lemma_hull_is_least_cover(
                left.spec_bounding_box(),
                right.spec_bounding_box(),
                bounding_box,
            );
            assert forall|i: int| 0 <= i < entries.len() implies bounding_box.covers(
                (#[trigger] entries[i]).bounds,
            ) by {
                broadcast use vstd::seq_lib::to_multiset_contains;

                assert(entries.contains(entries[i]));
                assert(entries.to_multiset().count(entries[i]) > 0);
                assert(sorted.contains(entries[i]));
                let k = choose|k: int| 0 <= k < sorted.len() && sorted[k] == entries[i];
                if k < middle {
                    assert(lower[k] == sorted[k]);
                    lemma_covers_is_transitive(
                        bounding_box,
                        left.spec_bounding_box(),
                        entries[i].bounds,
                    );
                } else {
                    assert(upper[k - middle] == sorted[k]);
                    lemma_covers_is_transitive(
                        bounding_box,
                        right.spec_bounding_box(),
                        entries[i].bounds,
                    );
                }
            }
        },
    }
}

/// A hierarchy is as shallow as halving allows: one of depth `d` holds at
/// most two to the power of `d` shapes, and, unless it holds a single shape,
/// more than two to the power of `d - 1`.
pub proof fn lemma_arranged_is_shallow<T>(node: BvhNode<T>, entries: Seq<Bounded<T>>)
    requires
        node.arranges(entries),
    ensures
        entries.len() <= pow2(node.depth()),
        entries.len() >= 2 ==> pow2((node.depth() - 1) as nat) < entries.len(),
    decreases node,
{
    lemma2_to64();
    match node {
        BvhNode::Leaf { .. } => {},
        BvhNode::Branch { bounding_box, left, right } => {
            let sorted = lemma_branch_halves(node, entries);
            vstd::seq_lib::to_multiset_len(sorted);
            vstd::seq_lib::to_multiset_len(entries);
            let lower = lower_half(sorted);
            let upper = upper_half(sorted);
            lemma_arranged_is_shallow(*left, lower);
            lemma_arranged_is_shallow(*right, upper);
            let deeper = (node.depth() - 1) as nat;
            lemma_pow2_unfold(node.depth());
            if left.depth() < deeper {
                lemma_pow2_strictly_increases(left.depth(), deeper);
            }
            if right.depth() < deeper {
                lemma_pow2_strictly_increases(right.depth(), deeper);
            }
            assert(lower.len() <= pow2(deeper));
            assert(upper.len() <= pow2(deeper));
            // The deeper side holds at least two shapes, or the node has
            // depth two and more than two shapes.
            if deeper == 1 {
            } else {
                lemma_pow2_unfold(deeper);
                if left.depth() == deeper {
                    assert(lower.len() >= 2);
                    assert(pow2((deeper - 1) as nat) <= lower.len() - 1);
                } else {
                    assert(upper.len() >= 2);
                    assert(pow2((deeper - 1) as nat) <= upper.len() - 1);
                }
            }
        },
    }
}

/// The box with two opposite corners covers either corner.
pub proof fn lemma_around_covers_its_corners(a: [Scalar; 3], b: [Scalar; 3])
    ensures
        Aabb::around(a, b).covers(Aabb::around(a, a)),
        Aabb::around(a, b).covers(Aabb::around(b, b)),
{
    let bounds = Aabb::around(a, b);
    assert(bounds.spec_axis(0) == bounds.x && bounds.spec_axis(1) == bounds.y && bounds.spec_axis(2)
        == bounds.z);
    let first = Aabb::around(a, a);
    let second = Aabb::around(b, b);
    assert(first.spec_axis(0) == first.x && first.spec_axis(1) == first.y && first.spec_axis(2)
        == first.z);
    assert(second.spec_axis(0) == second.x && second.spec_axis(1) == second.y && second.spec_axis(
        2,
    ) == second.z);
}

/// A box that covers a box covers what that box covers.
pub proof fn lemma_covers_is_transitive(outer: Aabb, middle: Aabb, inner: Aabb)
    requires
        outer.covers(middle),
        middle.covers(inner),
    ensures
        outer.covers(inner),
{
    assert forall|axis: int| 0 <= axis < 3 implies outer.spec_axis(axis).min <= inner.spec_axis(
        axis,
    ).min && inner.spec_axis(axis).max <= outer.spec_axis(axis).max by {
        assert(outer.spec_axis(axis).min <= middle.spec_axis(axis).min);
        assert(middle.spec_axis(axis).min <= inner.spec_axis(axis).min);
    }
}

} // verus!
