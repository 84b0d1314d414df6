use vstd::prelude::*;

verus! {

/// Case sensitivity modes for search.
///
/// This defines the different types of case sensitivity that can be used when
/// searching for the characters of a query in a candidate string.
#[derive(Copy, Clone, Debug, PartialEq, Eq, Structural)]
pub enum CaseSensitivity {
    /// The search is case-sensitive.
    Sensitive,
    /// The search is case-insensitive: ASCII letters match regardless of case.
    Insensitive,
    /// The search is case-sensitive if and only if the pattern contains an
    /// uppercase letter.
    Smart,
}

impl Default for CaseSensitivity {
    fn default() -> (r: Self)
        ensures
            r == CaseSensitivity::Smart,
    {
        CaseSensitivity::Smart
    }
}

impl CaseSensitivity {
    /// Whether a pattern is matched case-sensitively under this mode, given
    /// whether the pattern contains an uppercase character.
    pub open spec fn spec_is_sensitive(self, pattern_has_uppercase: bool) -> bool {
        match self {
            CaseSensitivity::Sensitive => true,
            CaseSensitivity::Insensitive => false,
            CaseSensitivity::Smart => pattern_has_uppercase,
        }
    }

    /// Resolves this mode for a pattern.
    pub fn is_sensitive(&self, pattern_has_uppercase: bool) -> (r: bool)
        ensures
            r == self.spec_is_sensitive(pattern_has_uppercase),
    {
        match self {
            CaseSensitivity::Sensitive => true,
            CaseSensitivity::Insensitive => false,
            CaseSensitivity::Smart => pattern_has_uppercase,
        }
    }

    /// The name of the mode.
    pub open spec fn spec_name(self) -> Seq<char> {
        match self {
            CaseSensitivity::Sensitive => "Sensitive"@,
            CaseSensitivity::Insensitive => "Insensitive"@,
            CaseSensitivity::Smart => "Smart"@,
        }
    }

    /// The name of the mode.
    pub fn name(&self) -> (r: &'static str)
        ensures
            r@ == self.spec_name(),
    {
        match self {
            CaseSensitivity::Sensitive => "Sensitive",
            CaseSensitivity::Insensitive => "Insensitive",
            CaseSensitivity::Smart => "Smart",
        }
    }
}

} // verus!
