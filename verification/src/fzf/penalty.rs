//! Penalties taken for gaps between matched characters.

use vstd::prelude::*;

verus! {

/// Penalty for the first unmatched character of a gap.
pub const GAP_START: i64 = 3;

/// Penalty for every further unmatched character of a gap.
pub const GAP_EXTENSION: i64 = 1;

} // verus!
