//! Distance metrics on strings ("fuzzy matching").
//!
//! Given a query and a candidate string, a metric decides whether the
//! candidate matches the query and, if it does, how good the match is.
#![allow(unused_imports)]

pub mod case_sensitivity;

pub use case_sensitivity::CaseSensitivity;
pub mod normalize;
pub mod chars;
pub mod matched_ranges;
pub mod candidate;
pub mod fzf;
pub mod metric;
pub mod matched;
pub mod tiny_vec;
pub mod text;

pub use matched::Match;
pub use matched_ranges::MatchedRanges;
pub use metric::Metric;
