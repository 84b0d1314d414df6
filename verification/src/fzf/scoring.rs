//! Character classes, scoring schemes and the bonus of a character.

use vstd::prelude::*;

use super::bonus;
use crate::chars::{spec_is_ascii, spec_is_ascii_whitespace};

verus! {

/// The class of a character, which decides the bonus it gets.
#[derive(Clone, Copy, Debug, PartialEq, Eq, Structural)]
pub enum CharClass {
    /// Whitespace.
    WhiteSpace,
    /// A character that is not part of a word.
    NonWord,
    /// A delimiter of the scoring scheme.
    Delimiter,
    /// A lowercase letter.
    Lower,
    /// An uppercase letter.
    Upper,
    /// A letter that is neither lowercase nor uppercase.
    Letter,
    /// A digit.
    Number,
}

/// The characters that a scoring scheme treats as delimiters.
#[derive(Clone, Copy, Debug, PartialEq, Eq, Structural)]
pub enum Delimiters {
    /// `/`, `,`, `:`, `;` and `|`.
    Default,
    /// The path separator `/`.
    Path,
}

/// Whether `ch` is a delimiter of the given set.
pub open spec fn spec_is_delimiter(delimiters: Delimiters, ch: char) -> bool {
    match delimiters {
        Delimiters::Default => ch == '/' || ch == ',' || ch == ':' || ch == ';' || ch == '|',
        Delimiters::Path => ch == '/',
    }
}

/// Whether `ch` is a delimiter of the given set.
pub fn is_delimiter(delimiters: Delimiters, ch: char) -> (r: bool)
    ensures
        r == spec_is_delimiter(delimiters, ch),
{
    match delimiters {
        Delimiters::Default => ch == '/' || ch == ',' || ch == ':' || ch == ';' || ch == '|',
        Delimiters::Path => ch == '/',
    }
}

/// The parameters of a scoring scheme.
#[derive(Clone, Copy, Debug, PartialEq, Eq, Structural)]
pub struct Scheme {
    /// Bonus of a character that follows whitespace.
    pub bonus_boundary_white: i64,
    /// Bonus of a character that follows a delimiter.
    pub bonus_boundary_delimiter: i64,
    /// The class assumed before the first character of a candidate.
    pub initial_char_class: CharClass,
    /// The characters that count as delimiters.
    pub delimiters: Delimiters,
}

/// The default scheme.
pub open spec fn spec_default_scheme() -> Scheme {
    Scheme {
        bonus_boundary_white: 10,
        bonus_boundary_delimiter: 9,
        initial_char_class: CharClass::WhiteSpace,
        delimiters: Delimiters::Default,
    }
}

/// The scheme for file paths.
pub open spec fn spec_path_scheme() -> Scheme {
    Scheme {
        bonus_boundary_white: 8,
        bonus_boundary_delimiter: 9,
        initial_char_class: CharClass::Delimiter,
        delimiters: Delimiters::Path,
    }
}

/// The scheme for shell command history.
pub open spec fn spec_history_scheme() -> Scheme {
    Scheme {
        bonus_boundary_white: 8,
        bonus_boundary_delimiter: 8,
        initial_char_class: CharClass::WhiteSpace,
        delimiters: Delimiters::Default,
    }
}

impl Scheme {
    /// The scheme holds one of the three predefined parameter sets.
    pub open spec fn is_predefined(self) -> bool {
        self == spec_default_scheme() || self == spec_path_scheme() || self == spec_history_scheme()
    }
}

impl Default for Scheme {
    fn default() -> (r: Self)
        ensures
            r == spec_default_scheme(),
    {
        FzfScheme::Default.into_inner()
    }
}

/// A distance scheme to tweak the distance algorithm.
#[derive(Clone, Copy, Debug, PartialEq, Eq, Structural)]
pub enum FzfScheme {
    /// A generic scheme that works well for any type of input.
    Default,
    /// A scheme tailored for searching file paths: characters right after a
    /// path separator get more points.
    Path,
    /// A scheme tailored for searching shell command history.
    History,
}

impl Default for FzfScheme {
    fn default() -> (r: Self)
        ensures
            r == FzfScheme::Default,
    {
        FzfScheme::Default
    }
}

impl FzfScheme {
    /// The parameters of this scheme.
    pub open spec fn spec_into_inner(self) -> Scheme {
        match self {
            FzfScheme::Default => spec_default_scheme(),
            FzfScheme::Path => spec_path_scheme(),
            FzfScheme::History => spec_history_scheme(),
        }
    }

    /// The parameters of this scheme.
    pub fn into_inner(self) -> (r: Scheme)
        ensures
            r == self.spec_into_inner(),
    {
        match self {
            FzfScheme::Default => Scheme {
                bonus_boundary_white: bonus::BOUNDARY + 2,
                bonus_boundary_delimiter: bonus::BOUNDARY + 1,
                initial_char_class: CharClass::WhiteSpace,
                delimiters: Delimiters::Default,
            },
            FzfScheme::Path => Scheme {
                bonus_boundary_white: bonus::BOUNDARY,
                bonus_boundary_delimiter: bonus::BOUNDARY + 1,
                initial_char_class: CharClass::Delimiter,
                delimiters: Delimiters::Path,
            },
            FzfScheme::History => Scheme {
                bonus_boundary_white: bonus::BOUNDARY,
                bonus_boundary_delimiter: bonus::BOUNDARY,
                initial_char_class: CharClass::WhiteSpace,
                delimiters: Delimiters::Default,
            },
        }
    }

    /// Which predefined scheme a set of parameters is, told apart by its
    /// whitespace bonus and initial class, or `None` when the whitespace
    /// bonus is neither of the predefined ones.
    pub open spec fn spec_from_inner(scheme: Scheme) -> Option<FzfScheme> {
        if scheme.bonus_boundary_white == bonus::BOUNDARY + 2 {
            Some(FzfScheme::Default)
        } else if scheme.bonus_boundary_white == bonus::BOUNDARY {
            if scheme.initial_char_class == CharClass::Delimiter {
                Some(FzfScheme::Path)
            } else {
                Some(FzfScheme::History)
            }
        } else {
            None
        }
    }

    /// The name of the scheme.
    pub open spec fn spec_name(self) -> Seq<char> {
        match self {
            FzfScheme::Default => "Default"@,
            FzfScheme::Path => "Path"@,
            FzfScheme::History => "History"@,
        }
    }

    /// The name of the scheme.
    pub fn name(&self) -> (r: &'static str)
        ensures
            r@ == self.spec_name(),
    {
        match self {
            FzfScheme::Default => "Default",
            FzfScheme::Path => "Path",
            FzfScheme::History => "History",
        }
    }

    /// Which predefined scheme a set of parameters is: see
    /// [`FzfScheme::spec_from_inner`].
    pub fn from_inner(scheme: &Scheme) -> (r: Option<FzfScheme>)
        ensures
            r == FzfScheme::spec_from_inner(*scheme),
    {
        if scheme.bonus_boundary_white == bonus::BOUNDARY + 2 {
            Some(FzfScheme::Default)
        } else if scheme.bonus_boundary_white == bonus::BOUNDARY {
            if scheme.initial_char_class == CharClass::Delimiter {
                Some(FzfScheme::Path)
            } else {
                Some(FzfScheme::History)
            }
        } else {
            None
        }
    }
}

/// Turning a scheme into its parameters and back gives the same scheme.
pub proof fn lemma_scheme_round_trip(s: FzfScheme)
    ensures
        FzfScheme::spec_from_inner(s.spec_into_inner()) == Some(s),
{
}

/// Whether `ch` has the Unicode `Lowercase` property.
pub uninterp spec fn unicode_is_lowercase(ch: char) -> bool;

/// Whether `ch` has the Unicode `Uppercase` property.
pub uninterp spec fn unicode_is_uppercase(ch: char) -> bool;

/// Whether `ch` is numeric in the sense of `char::is_numeric`.
pub uninterp spec fn unicode_is_numeric(ch: char) -> bool;

/// Whether `ch` has the Unicode `Alphabetic` property.
pub uninterp spec fn unicode_is_alphabetic(ch: char) -> bool;

/// Whether `ch` has the Unicode `White_Space` property.
pub uninterp spec fn unicode_is_whitespace(ch: char) -> bool;

/// Calls `char::is_lowercase`, which looks `ch` up in the standard library's
/// tables of the Unicode `Lowercase` property. Taken on trust: the result is
/// [`unicode_is_lowercase`] of `ch`, a function of the character alone; what
/// the tables hold is not stated.
#[verifier::external_body]
pub(crate) fn is_lowercase(ch: char) -> (r: bool)
    ensures
        r == unicode_is_lowercase(ch),
{
    ch.is_lowercase()
}

/// Calls `char::is_uppercase`, which looks `ch` up in the standard library's
/// tables of the Unicode `Uppercase` property. Taken on trust: the result is
/// [`unicode_is_uppercase`] of `ch`, a function of the character alone; what
/// the tables hold is not stated.
#[verifier::external_body]
pub(crate) fn is_uppercase(ch: char) -> (r: bool)
    ensures
        r == unicode_is_uppercase(ch),
{
    ch.is_uppercase()
}

/// Calls `char::is_numeric`, which looks `ch` up in the standard library's
/// tables of the numeric categories of `char::is_numeric`. Taken on trust: the result is
/// [`unicode_is_numeric`] of `ch`, a function of the character alone; what
/// the tables hold is not stated.
#[verifier::external_body]
fn is_numeric(ch: char) -> (r: bool)
    ensures
        r == unicode_is_numeric(ch),
{
    ch.is_numeric()
}

/// Calls `char::is_alphabetic`, which looks `ch` up in the standard library's
/// tables of the Unicode `Alphabetic` property. Taken on trust: the result is
/// [`unicode_is_alphabetic`] of `ch`, a function of the character alone; what
/// the tables hold is not stated.
#[verifier::external_body]
fn is_alphabetic(ch: char) -> (r: bool)
    ensures
        r == unicode_is_alphabetic(ch),
{
    ch.is_alphabetic()
}

/// Calls `char::is_whitespace`, which looks `ch` up in the standard library's
/// tables of the Unicode `White_Space` property. Taken on trust: the result is
/// [`unicode_is_whitespace`] of `ch`, a function of the character alone; what
/// the tables hold is not stated.
#[verifier::external_body]
fn is_whitespace(ch: char) -> (r: bool)
    ensures
        r == unicode_is_whitespace(ch),
{
    ch.is_whitespace()
}

/// The class of a character under a scheme. ASCII characters are classified
/// by their ASCII category, the others by their Unicode properties.
pub open spec fn spec_char_class(ch: char, scheme: Scheme) -> CharClass {
    if spec_is_ascii(ch) {
        if 'a' <= ch && ch <= 'z' {
            CharClass::Lower
        } else if 'A' <= ch && ch <= 'Z' {
            CharClass::Upper
        } else if '0' <= ch && ch <= '9' {
            CharClass::Number
        } else if spec_is_ascii_whitespace(ch) {
            CharClass::WhiteSpace
        } else if spec_is_delimiter(scheme.delimiters, ch) {
            CharClass::Delimiter
        } else {
            CharClass::NonWord
        }
    } else {
        if unicode_is_lowercase(ch) {
            CharClass::Lower
        } else if unicode_is_uppercase(ch) {
            CharClass::Upper
        } else if unicode_is_numeric(ch) {
            CharClass::Number
        } else if unicode_is_alphabetic(ch) {
            CharClass::Letter
        } else if unicode_is_whitespace(ch) {
            CharClass::WhiteSpace
        } else if spec_is_delimiter(scheme.delimiters, ch) {
            CharClass::Delimiter
        } else {
            CharClass::NonWord
        }
    }
}

/// The class of a character under a scheme.
pub fn char_class(ch: char, scheme: &Scheme) -> (r: CharClass)
    ensures
        r == spec_char_class(ch, *scheme),
{
    if (ch as u32) < 128 {
        if 'a' <= ch && ch <= 'z' {
            CharClass::Lower
        } else if 'A' <= ch && ch <= 'Z' {
            CharClass::Upper
        } else if '0' <= ch && ch <= '9' {
            CharClass::Number
        } else if ch == ' ' || ch == '\t' || ch == '\n' || ch == '\x0C' || ch == '\r' {
            CharClass::WhiteSpace
        } else if is_delimiter(scheme.delimiters, ch) {
            CharClass::Delimiter
        } else {
            CharClass::NonWord
        }
    } else {
        if is_lowercase(ch) {
            CharClass::Lower
        } else if is_uppercase(ch) {
            CharClass::Upper
        } else if is_numeric(ch) {
            CharClass::Number
        } else if is_alphabetic(ch) {
            CharClass::Letter
        } else if is_whitespace(ch) {
            CharClass::WhiteSpace
        } else if is_delimiter(scheme.delimiters, ch) {
            CharClass::Delimiter
        } else {
            CharClass::NonWord
        }
    }
}

/// The bonus of a character of class `next_class` that follows one of class
/// `prev_class`.
pub open spec fn spec_bonus(prev_class: CharClass, next_class: CharClass, scheme: Scheme) -> i64 {
    match next_class {
        CharClass::NonWord => bonus::NON_WORD,
        CharClass::WhiteSpace => scheme.bonus_boundary_white,
        CharClass::Upper if prev_class == CharClass::Lower => bonus::CAMEL_123,
        CharClass::Number if prev_class != CharClass::Number => bonus::CAMEL_123,
        _ => if prev_class == CharClass::WhiteSpace {
            scheme.bonus_boundary_white
        } else if prev_class == CharClass::Delimiter {
            scheme.bonus_boundary_delimiter
        } else if prev_class == CharClass::NonWord {
            bonus::BOUNDARY
        } else {
            0
        },
    }
}

/// The bonus of a character of class `next_class` that follows one of class
/// `prev_class`.
pub fn compute_bonus(prev_class: CharClass, next_class: CharClass, scheme: &Scheme) -> (r: i64)
    ensures
        r == spec_bonus(prev_class, next_class, *scheme),
{
    match next_class {
        CharClass::NonWord => bonus::NON_WORD,
        CharClass::WhiteSpace => scheme.bonus_boundary_white,
        CharClass::Upper if prev_class == CharClass::Lower => bonus::CAMEL_123,
        CharClass::Number if prev_class != CharClass::Number => bonus::CAMEL_123,
        _ => if prev_class == CharClass::WhiteSpace {
            scheme.bonus_boundary_white
        } else if prev_class == CharClass::Delimiter {
            scheme.bonus_boundary_delimiter
        } else if prev_class == CharClass::NonWord {
            bonus::BOUNDARY
        } else {
            0
        },
    }
}

/// Under a predefined scheme every bonus lies between 0 and 10.
pub proof fn lemma_bonus_bounds(prev_class: CharClass, next_class: CharClass, scheme: Scheme)
    requires
        scheme.is_predefined(),
    ensures
        0 <= spec_bonus(prev_class, next_class, scheme) <= 10,
{
}

} // verus!
