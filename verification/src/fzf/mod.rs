//! Metrics implementing fzf's fuzzy search algorithm.
//!
//! Both [`FzfV1`] and [`FzfV2`] support fzf's extended-search mode by parsing
//! the query with [`FzfParser::parse`]: spaces in the query act as a logical
//! AND, the pipe character `|` as a logical OR.
//!
//! The submodules hold, besides the code, the mathematical statement of what
//! it computes: [`engine`] for queries, [`v1`] and [`v2_spec`] for the two
//! algorithms, [`common`] for exact patterns, [`parser`] for query strings;
//! [`laws`], [`ranges_law`] and [`choice_laws`] state what holds of every
//! query and candidate.

pub mod bonus;
pub mod penalty;
pub mod scoring;
pub mod query;
pub mod parser;
pub mod common;
pub mod greedy;
pub mod slab;
pub mod distance;
pub mod engine;
pub mod v1;
pub mod candidate_v2;
pub mod v2_spec;
pub mod v2;
pub mod laws;
pub mod ranges_law;
pub mod choice_laws;
pub mod matrix_text;

pub use candidate_v2::CandidateV2;
pub use common::{equal_match, exact_match, prefix_match, suffix_match};
pub use distance::FzfDistance;
pub use engine::{Algorithm, CandidateOpts, Fzf, FzfSettings};
pub use parser::{conditions, parse, word_pattern, words, FzfParser, Words};
pub use query::{Condition, FzfQuery, MatchType, Pattern, SearchMode};
pub use scoring::{char_class, CharClass, Delimiters, FzfScheme, Scheme};
pub use slab::{
    Bonus, BonusSlab, CandidateSlab, MatchedIndicesSlab, Matrix, MatrixCell, MatrixItem, MatrixSlab,
    V2Slab,
};
pub use v1::FzfV1;
pub use v2::FzfV2;
