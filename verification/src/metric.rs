//! The trait of distance metrics on strings.

use vstd::prelude::*;

use std::ops::Range;

use crate::matched_ranges::sorted_disjoint;

verus! {

/// A distance metric on strings.
///
/// A metric compares a query with a candidate string: it filters out the
/// candidates that do not match the query, and ranks the others by how well
/// they match it, a lower distance meaning a better match.
pub trait Metric {
    /// The type of query to be found in the candidate.
    type Query;

    /// The type that expresses how closely a candidate matches the query.
    type Distance;

    /// Whether the metric can compare the query with the candidate.
    spec fn accepts(query: &Self::Query, candidate: &str) -> bool;

    /// The distance that the metric, as it is set up, gives to the
    /// candidate for the query.
    spec fn spec_distance(&self, query: &Self::Query, candidate: &str) -> Option<Self::Distance>;

    /// The distance between the query and the candidate: `Some` when the
    /// candidate matches the query, the better the match the lower the
    /// distance; `None` when it does not match.
    fn distance(&mut self, query: &Self::Query, candidate: &str) -> (r: Option<Self::Distance>)
        requires
            Self::accepts(query, candidate),
        ensures
            r == old(self).spec_distance(query, candidate),
    ;

    /// The same distance as [`Metric::distance`]; in the case of a match, the
    /// **byte** ranges of the candidate that matched the query are appended to
    /// `ranges`, sorted and not overlapping. When the candidate does not
    /// match, `ranges` is left untouched.
    fn distance_and_ranges(
        &mut self,
        query: &Self::Query,
        candidate: &str,
        ranges: &mut Vec<Range<usize>>,
    ) -> (r: Option<Self::Distance>)
        requires
            Self::accepts(query, candidate),
        ensures
            r == old(self).spec_distance(query, candidate),
            final(ranges)@.len() >= old(ranges)@.len(),
            final(ranges)@.take(old(ranges)@.len() as int) == old(ranges)@,
            sorted_disjoint(final(ranges)@.skip(old(ranges)@.len() as int)),
            r is None ==> final(ranges)@ == old(ranges)@,
    ;
}

} // verus!
