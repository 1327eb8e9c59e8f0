//! Half-open scalar ranges.
use vstd::prelude::*;
use crate::bvh::Slab;
use crate::scalar::{lt, number, Scalar, ZERO};

verus! {

/// The range `[min, max)` of a ray parameter or of a box along one axis.
#[derive(Debug, Clone, Copy, PartialEq, Eq, Structural)]
pub struct Interval {
    pub min: Scalar,
    pub max: Scalar,
}

impl Interval {
    /// Whether `value` lies in `[min, max)`.
    pub open spec fn holds(self, value: int) -> bool {
        self.min <= value < self.max
    }

    /// The smallest interval that covers both `a` and `b`.
    pub open spec fn hull(a: Interval, b: Interval) -> Interval {
        Interval {
            min: if a.min <= b.min { a.min } else { b.min },
            max: if a.max >= b.max { a.max } else { b.max },
        }
    }

    /// The interval from `start` up to, but not including, `end`.
    pub fn new(start: Scalar, end: Scalar) -> (interval: Self)
        ensures
            interval == (Interval { min: start, max: end }),
    {
        Self { min: start, max: end }
    }

    /// The smallest interval that covers both `a` and `b`.
    pub fn combine(a: Self, b: Self) -> (interval: Self)
        ensures
            interval == Interval::hull(a, b),
    {
        let min: Scalar = if a.min <= b.min { a.min } else { b.min };
        let max: Scalar = if a.max >= b.max { a.max } else { b.max };
        Self::new(min, max)
    }

    /// Whether `value` lies in the interval.
    pub fn contains(self, value: Scalar) -> (inside: bool)
        ensures
            inside == self.holds(value as int),
    {
        value >= self.min && value < self.max
    }

    /// Whether the interval holds no value.
    pub open spec fn is_empty(self) -> bool {
        self.max <= self.min
    }

    /// The part of the interval that lies between the two crossings of `slab`,
    /// taken in the order in which the ray meets them. A crossing that is no
    /// number leaves its end of the interval as it is.
    pub open spec fn clipped(self, slab: Slab) -> Interval {
        Interval {
            min: if slab.entry() >= self.min { slab.entry() } else { self.min },
            max: if slab.exit() <= self.max { slab.exit() } else { self.max },
        }
    }

    /// Clips the interval to where the ray lies between the two planes of
    /// `slab`: the crossings are exchanged for a ray that runs against the
    /// axis, then the later start and the earlier end are kept. A crossing
    /// that is no number, as comes of a ray that runs within one of the
    /// planes, is passed over.
    pub fn clip(self, slab: Slab) -> (interval: Self)
        ensures
            interval == self.clipped(slab),
    {
        let mut t0: Scalar = slab.t0;
        let mut t1: Scalar = slab.t1;
        if lt(slab.inverse_direction, ZERO) {
            t0 = slab.t1;
            t1 = slab.t0;
        }
        let min: Scalar = if number(t0) && t0 >= self.min { t0 } else { self.min };
        let max: Scalar = if number(t1) && t1 <= self.max { t1 } else { self.max };
        Interval { min, max }
    }
}

/// Clipping only ever shrinks an interval: what is left lies within it, and
/// within the two crossings.
pub proof fn lemma_clip_shrinks(interval: Interval, slab: Slab, value: int)
    ensures
        interval.min <= interval.clipped(slab).min,
        interval.clipped(slab).max <= interval.max,
        interval.clipped(slab).holds(value) <==> interval.holds(value) && slab.entry() <= value
            < slab.exit(),
{
}

/// The hull of two intervals holds what either of them holds, and lies within
/// every interval that covers both.
pub proof fn lemma_hull_is_least_interval(a: Interval, b: Interval, c: Interval, value: int)
    ensures
        a.holds(value) || b.holds(value) ==> Interval::hull(a, b).holds(value),
        c.min <= a.min && c.min <= b.min && a.max <= c.max && b.max <= c.max ==> c.min
            <= Interval::hull(a, b).min && Interval::hull(a, b).max <= c.max,
{
}

} // verus!
