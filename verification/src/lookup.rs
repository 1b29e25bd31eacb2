//! Lookup of source ranges by position.

use rust_lapper::{Interval, Lapper};
use vstd::prelude::*;

verus! {

/// Half-open ranges with a number each, kept in a `rust_lapper::Lapper`.
#[verifier::external_body]
#[derive(Debug)]
pub struct Intervals {
    lapper: Lapper<usize, usize>,
}

/// The start, the stop and the number of each range, in the order in which the collection
/// holds them.
pub uninterp spec fn intervals_in(intervals: Intervals) -> Seq<(usize, usize, usize)>;

/// The ranges are ordered by start, and by stop where they start together.
pub open spec fn ordered(ranges: Seq<(usize, usize, usize)>) -> bool {
    forall|i: int, j: int|
        0 <= i < j < ranges.len() ==> {
            ||| (#[trigger] ranges[i]).0 < (#[trigger] ranges[j]).0
            ||| ranges[i].0 == ranges[j].0 && ranges[i].1 <= ranges[j].1
        }
}

/// Those of the ranges that go from `start` to `stop`, in order.
pub open spec fn alike(ranges: Seq<(usize, usize, usize)>, start: usize, stop: usize) -> Seq<
    (usize, usize, usize),
> {
    ranges.filter(|r: (usize, usize, usize)| r.0 == start && r.1 == stop)
}

/// Those of the ranges that share a position with the range from `start` to `stop`, in order.
pub open spec fn overlapping(ranges: Seq<(usize, usize, usize)>, start: usize, stop: usize) -> Seq<
    (usize, usize, usize),
> {
    ranges.filter(|r: (usize, usize, usize)| r.0 < stop && r.1 > start)
}

/// `a` holds the ranges of `b`, ordered, where ranges with one start and one stop keep
/// their order.
pub open spec fn sorted_from(a: Seq<(usize, usize, usize)>, b: Seq<(usize, usize, usize)>) -> bool {
    &&& a.to_multiset() == b.to_multiset()
    &&& ordered(a)
    &&& forall|start: usize, stop: usize| #[trigger] alike(a, start, stop) == alike(b, start, stop)
}

impl Intervals {
    /// Calls `rust_lapper::Lapper::new`, which sorts the ranges, by start and then by stop, with
    /// a stable sort, and keeps them all.
    #[verifier::external_body]
    pub(crate) fn new(ranges: Vec<(usize, usize, usize)>) -> (r: Intervals)
        ensures
            sorted_from(intervals_in(r), ranges@),
    {
        let convert = |r: (usize, usize, usize)| Interval { start: r.0, stop: r.1, val: r.2 };
        Intervals { lapper: Lapper::new(ranges.into_iter().map(convert).collect()) }
    }

    /// Calls `rust_lapper::Lapper::find`, which hands out, in the order in which they are held,
    /// the ranges that share a position with the one from `start` to `stop`.
    #[verifier::external_body]
    pub(crate) fn find(&self, start: usize, stop: usize) -> (r: Vec<(usize, usize, usize)>)
        ensures
            r@ == overlapping(intervals_in(*self), start, stop),
    {
        self.lapper.find(start, stop).map(|i| (i.start, i.stop, i.val)).collect()
    }

    /// Calls `rust_lapper::Lapper::iter`, which hands out all ranges in the order in which they
    /// are held.
    #[verifier::external_body]
    pub(crate) fn all(&self) -> (r: Vec<(usize, usize, usize)>)
        ensures
            r@ == intervals_in(*self),
    {
        self.lapper.iter().map(|i| (i.start, i.stop, i.val)).collect()
    }
}

} // verus!
