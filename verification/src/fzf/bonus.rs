//! Bonus points awarded to matched characters.

use vstd::prelude::*;



verus! {

/// Points awarded for every matched character.
pub const MATCH: i64 = 16;

/// Points for a character that follows a word boundary (half of [`MATCH`]).
pub const BOUNDARY: i64 = 8;

/// Points for a non-word character (half of [`MATCH`]).
pub const NON_WORD: i64 = 8;

/// Points for a camel-case transition or the start of a number
/// ([`BOUNDARY`] less one gap extension).
pub const CAMEL_123: i64 = 7;

/// Minimum points for a character that extends a run of consecutive matches
/// (a gap start plus a gap extension).
pub const CONSECUTIVE: i64 = 4;

/// Factor applied to the bonus of the first character of the pattern.
pub const FIRST_QUERY_CHAR_MULTIPLIER: i64 = 2;

} // verus!
