//! A match of a query in a candidate, with the ranges that matched.

use vstd::prelude::*;

use std::ops::Range;

use crate::matched_ranges::MatchedRanges;

verus! {

/// A match: its distance and the byte ranges of the candidate that matched.
#[derive(Default)]
pub struct Match<D: Copy> {
    distance: D,
    matched_ranges: MatchedRanges,
}

impl<D: Copy> Match<D> {
    /// The distance of the match.
    pub closed spec fn spec_distance(&self) -> D {
        self.distance
    }

    /// The byte ranges that matched.
    pub closed spec fn spec_ranges(&self) -> Seq<Range<usize>> {
        self.matched_ranges.all()
    }

    /// A match with the given distance and ranges.
    pub fn new(distance: D, matched_ranges: MatchedRanges) -> (r: Self)
        ensures
            r.spec_distance() == distance,
            r.spec_ranges() == matched_ranges.all(),
    {
        Match { distance, matched_ranges }
    }

    /// The distance of the match.
    pub fn distance(&self) -> (r: D)
        ensures
            r == self.spec_distance(),
    {
        self.distance
    }

    /// The byte ranges of the candidate that matched the query.
    pub fn matched_ranges(&self) -> (r: &[Range<usize>])
        ensures
            r@ == self.spec_ranges(),
    {
        self.matched_ranges.as_slice()
    }
}

} // verus!
