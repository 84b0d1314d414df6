//! The distance that the fzf metrics give to a match.

use vstd::prelude::*;

use std::cmp::Ordering;

use vstd::std_specs::cmp::PartialOrdSpec;

verus! {

/// The fzf distance type: the higher the score of a match, the lower its
/// distance, so that sorting distances in ascending order puts the best
/// matches first.
#[derive(Clone, Copy, Debug, PartialEq, Eq, Ord, Hash, Structural)]
pub struct FzfDistance {
    negated_score: i128,
}

impl FzfDistance {
    /// The negated score is that of an `i64` score.
    #[verifier::type_invariant]
    spec fn inv(self) -> bool {
        i64::MIN <= -self.negated_score <= i64::MAX
    }

    /// The score that this distance stands for.
    pub closed spec fn score(self) -> int {
        -(self.negated_score as int)
    }

    /// The distance of a match with the given score.
    pub closed spec fn spec_from_score(score: int) -> FzfDistance {
        FzfDistance { negated_score: (-score) as i128 }
    }

    /// The distance of a score stands for that score.
    pub proof fn lemma_from_score(score: int)
        requires
            i64::MIN <= score <= i64::MAX,
        ensures
            FzfDistance::spec_from_score(score).score() == score,
    {
    }

    /// The distance of a match with the given score.
    pub fn from_score(score: i64) -> (r: FzfDistance)
        ensures
            r.score() == score,
            r == FzfDistance::spec_from_score(score as int),
    {
        FzfDistance { negated_score: -(score as i128) }
    }

    /// The score that this distance stands for.
    pub fn into_score(self) -> (r: i64)
        ensures
            r == self.score(),
    {
        proof {
            use_type_invariant(&self);
        }
        (-self.negated_score) as i64
    }
}

impl PartialOrd for FzfDistance {
    fn partial_cmp(&self, other: &Self) -> (r: Option<Ordering>) {
        if self.negated_score < other.negated_score {
            Some(Ordering::Less)
        } else if self.negated_score == other.negated_score {
            Some(Ordering::Equal)
        } else {
            Some(Ordering::Greater)
        }
    }
}

impl vstd::std_specs::cmp::PartialOrdSpecImpl for FzfDistance {
    open spec fn obeys_partial_cmp_spec() -> bool {
        true
    }

    closed spec fn partial_cmp_spec(&self, other: &Self) -> Option<Ordering> {
        if self.negated_score < other.negated_score {
            Some(Ordering::Less)
        } else if self.negated_score == other.negated_score {
            Some(Ordering::Equal)
        } else {
            Some(Ordering::Greater)
        }
    }
}

/// Distances are ordered by decreasing score: a distance is smaller than
/// another exactly when its score is higher, and equal when the scores are.
pub proof fn lemma_distance_order(a: FzfDistance, b: FzfDistance)
    ensures
        (a.partial_cmp_spec(&b) == Some(Ordering::Less)) <==> a.score() > b.score(),
        (a.partial_cmp_spec(&b) == Some(Ordering::Equal)) <==> a.score() == b.score(),
        (a.partial_cmp_spec(&b) == Some(Ordering::Greater)) <==> a.score() < b.score(),
        a.score() == b.score() <==> a == b,
{
}

impl Default for FzfDistance {
    fn default() -> (r: Self)
        ensures
            r.score() == 0,
    {
        FzfDistance::from_score(0)
    }
}

} // verus!
