//! Parsed fzf queries: patterns, conditions and search modes.

use vstd::prelude::*;

use crate::chars::{push_char, spec_is_ascii};
use crate::text::{debug_quoted, debug_string, push_str};

use crate::candidate::{lemma_leading_spaces, lemma_trailing_spaces, spec_leading_spaces, spec_trailing_spaces};
use super::scoring::{is_uppercase, unicode_is_uppercase};

verus! {

/// How a pattern is looked for in a candidate.
#[derive(Clone, Copy, Debug, PartialEq, Eq, Structural)]
pub enum MatchType {
    /// The characters of the pattern appear in order, not necessarily next
    /// to each other.
    Fuzzy,
    /// The pattern appears as a substring.
    Exact,
    /// The candidate starts with the pattern.
    PrefixExact,
    /// The candidate ends with the pattern.
    SuffixExact,
    /// The candidate is the pattern.
    EqualExact,
}

impl Default for MatchType {
    fn default() -> (r: Self)
        ensures
            r == MatchType::Fuzzy,
    {
        MatchType::Fuzzy
    }
}

/// What a pattern is, as a mathematical value.
pub struct PatternView {
    /// The characters to look for.
    pub text: Seq<char>,
    /// How they are looked for.
    pub match_type: MatchType,
    /// Whether the pattern matches the candidates that the text does not.
    pub is_inverse: bool,
}

/// Whether `ch` is uppercase, as `char::is_uppercase` says: an ASCII
/// character is uppercase exactly when it is one of `'A'` to `'Z'`, as std
/// documents; any other character has the Unicode `Uppercase` property.
pub open spec fn spec_is_uppercase(ch: char) -> bool {
    if spec_is_ascii(ch) {
        'A' <= ch && ch <= 'Z'
    } else {
        unicode_is_uppercase(ch)
    }
}

/// Whether some character of `s` is uppercase.
pub open spec fn spec_has_uppercase(s: Seq<char>) -> bool {
    exists|i: int| 0 <= i < s.len() && spec_is_uppercase(#[trigger] s[i])
}

/// Whether `ch` is uppercase: [`spec_is_uppercase`]. An ASCII character is
/// tested directly; any other is looked up in std's tables.
pub fn char_is_uppercase(ch: char) -> (r: bool)
    ensures
        r == spec_is_uppercase(ch),
{
    if (ch as u32) < 128 {
        'A' <= ch && ch <= 'Z'
    } else {
        is_uppercase(ch)
    }
}

/// The pattern that a word of a query stands for in extended-search mode,
/// when it stands for one: a leading `!` inverts it, a trailing `$` (on a
/// word of more than one character) anchors it at the end, and a leading `'`
/// or `^` (after the `!`) makes it exact or anchors it at the start.
pub open spec fn spec_parse_pattern(t: Seq<char>) -> Option<PatternView> {
    let is_inverse = t.len() > 0 && t[0] == '!';
    let t1 = if is_inverse { t.drop_first() } else { t };
    let mt1 = if is_inverse { MatchType::Exact } else { MatchType::Fuzzy };
    let suffix = t1.len() > 1 && t1.last() == '$';
    let t2 = if suffix { t1.drop_last() } else { t1 };
    let mt2 = if suffix { MatchType::SuffixExact } else { mt1 };
    let (t3, mt3) = if t2.len() > 0 && t2[0] == '\'' {
        (t2.drop_first(), if !is_inverse { MatchType::Exact } else { MatchType::Fuzzy })
    } else if t2.len() > 0 && t2[0] == '^' {
        (
            t2.drop_first(),
            if mt2 == MatchType::SuffixExact { MatchType::EqualExact } else { MatchType::PrefixExact },
        )
    } else {
        (t2, mt2)
    };
    if t3.len() == 0 {
        None
    } else {
        Some(PatternView { text: t3, match_type: mt3, is_inverse })
    }
}

/// A pattern that fuzzy-matches its text as is.
pub open spec fn spec_raw_pattern(t: Seq<char>) -> PatternView {
    PatternView { text: t, match_type: MatchType::Fuzzy, is_inverse: false }
}

/// A pattern of a query.
#[derive(Clone, Debug, PartialEq, Eq)]
pub struct Pattern {
    /// The characters to look for.
    pub text: Vec<char>,
    /// Whether any of the characters of the text is uppercase.
    pub has_uppercase: bool,
    /// How the text is looked for.
    pub match_type: MatchType,
    /// Whether the pattern matches the candidates that the text does not.
    pub is_inverse: bool,
    /// The number of spaces the text starts with.
    pub leading_spaces: usize,
    /// The number of spaces the text ends with.
    pub trailing_spaces: usize,
}

impl Pattern {
    /// The pattern as a mathematical value.
    pub open spec fn view(&self) -> PatternView {
        PatternView { text: self.text@, match_type: self.match_type, is_inverse: self.is_inverse }
    }

    /// The derived fields agree with the text.
    pub open spec fn wf(&self) -> bool {
        &&& self.has_uppercase == spec_has_uppercase(self.text@)
        &&& self.leading_spaces == spec_leading_spaces(self.text@)
        &&& self.trailing_spaces == spec_trailing_spaces(self.text@)
    }

    /// A pattern with the given text, match type and inversion, with its
    /// derived fields computed.
    fn build(text: Vec<char>, match_type: MatchType, is_inverse: bool) -> (r: Pattern)
        ensures
            r.wf(),
            r.text@ == text@,
            r.match_type == match_type,
            r.is_inverse == is_inverse,
    {
        let len = text.len();
        let mut has_uppercase = false;
        let mut i: usize = 0;
        while i < len
            invariant
                i <= len == text@.len(),
                has_uppercase == exists|j: int| 0 <= j < i && spec_is_uppercase(#[trigger] text@[j]),
            decreases len - i,
        {
            if char_is_uppercase(text[i]) {
                has_uppercase = true;
            }
            i += 1;
        }
        let mut leading: usize = 0;
        while leading < len && text[leading] == ' '
            invariant
                leading <= len == text@.len(),
                forall|j: int| 0 <= j < leading ==> text@[j] == ' ',
            decreases len - leading,
        {
            leading += 1;
        }
        let mut trailing: usize = 0;
        while trailing < len && text[len - trailing - 1] == ' '
            invariant
                trailing <= len == text@.len(),
                forall|j: int| len - trailing <= j < len ==> text@[j] == ' ',
            decreases len - trailing,
        {
            trailing += 1;
        }
        proof {
            lemma_leading_spaces(text@, leading as int);
            lemma_trailing_spaces(text@, trailing as int);
        }
        Pattern {
            text,
            has_uppercase,
            match_type,
            is_inverse,
            leading_spaces: leading,
            trailing_spaces: trailing,
        }
    }

    /// A pattern that fuzzy-matches the given characters as they are.
    pub fn raw(text: &[char]) -> (r: Pattern)
        ensures
            r.wf(),
            r@ == spec_raw_pattern(text@),
    {
        let v = copy_chars(text, 0, text.len());
        assert(v@ =~= text@);
        Pattern::build(v, MatchType::Fuzzy, false)
    }

    /// Parses a word of an extended-search query, or gives `None` when the
    /// word is only made of operators.
    pub fn parse(text: &[char]) -> (r: Option<Pattern>)
        ensures
            match r {
                Some(p) => p.wf() && spec_parse_pattern(text@) == Some(p@),
                None => spec_parse_pattern(text@).is_none(),
            },
    {
        let mut start: usize = 0;
        let mut end: usize = text.len();
        let mut is_inverse = false;
        let mut match_type = MatchType::Fuzzy;
        if end > 0 && text[0] == '!' {
            is_inverse = true;
            match_type = MatchType::Exact;
            start = 1;
        }
        if end - start > 1 && text[end - 1] == '$' {
            match_type = MatchType::SuffixExact;
            end = end - 1;
        }
        if end - start > 0 && text[start] == '\'' {
            match_type = if !is_inverse {
                MatchType::Exact
            } else {
                MatchType::Fuzzy
            };
            start = start + 1;
        } else if end - start > 0 && text[start] == '^' {
            match_type = if match_type == MatchType::SuffixExact {
                MatchType::EqualExact
            } else {
                MatchType::PrefixExact
            };
            start = start + 1;
        }
        proof {
            let t = text@;
            let s0: int = if t.len() > 0 && t[0] == '!' { 1int } else { 0int };
            let t1 = if t.len() > 0 && t[0] == '!' { t.drop_first() } else { t };
            let suffix = t1.len() > 1 && t1.last() == '$';
            let t2 = if suffix { t1.drop_last() } else { t1 };
            assert(t1 =~= t.subrange(s0, t.len() as int));
            assert(t2 =~= t.subrange(s0, end as int));
            assert(t2.len() > 0 ==> t2.drop_first() =~= t.subrange(s0 + 1, end as int));
        }
        if start >= end {
            return None;
        }
        let v = copy_chars(text, start, end);
        Some(Pattern::build(v, match_type, is_inverse))
    }

    /// The number of characters of the text.
    pub fn char_len(&self) -> (r: usize)
        ensures
            r == self.text@.len(),
    {
        self.text.len()
    }

    /// The character of the text at index `idx`.
    pub fn char(&self, idx: usize) -> (r: char)
        requires
            idx < self.text@.len(),
        ensures
            r == self.text@[idx as int],
    {
        self.text[idx]
    }

    /// Whether the text is empty.
    pub fn is_empty(&self) -> (r: bool)
        ensures
            r == (self.text@.len() == 0),
    {
        self.text.len() == 0
    }

    /// The text, as a string.
    pub fn into_string(&self) -> (r: String)
        ensures
            r@ == self.text@,
    {
        string_of(self.text.as_slice())
    }

    /// The characters of the text.
    pub fn chars(&self) -> (r: &[char])
        ensures
            r@ == self.text@,
    {
        self.text.as_slice()
    }
}

/// The string made of the given characters.
pub fn string_of(chars: &[char]) -> (r: String)
    ensures
        r@ == chars@,
{
    let mut out = String::new();
    let mut i: usize = 0;
    while i < chars.len()
        invariant
            i <= chars@.len(),
            out@ == chars@.take(i as int),
        decreases chars@.len() - i,
    {
        push_char(&mut out, chars[i]);
        assert(chars@.take(i as int).push(chars@[i as int]) =~= chars@.take(i + 1));
        i += 1;
    }
    assert(chars@.take(chars@.len() as int) =~= chars@);
    out
}

/// Copies the characters of `text` between two indices.
pub fn copy_chars(text: &[char], start: usize, end: usize) -> (r: Vec<char>)
    requires
        start <= end <= text@.len(),
    ensures
        r@ == text@.subrange(start as int, end as int),
{
    let mut v: Vec<char> = Vec::new();
    let mut i = start;
    while i < end
        invariant
            start <= i <= end <= text@.len(),
            v@ == text@.subrange(start as int, i as int),
        decreases end - i,
    {
        v.push(text[i]);
        i += 1;
    }
    v
}

/// A disjunction of patterns: it holds if any of its patterns matches.
#[derive(Clone, Debug)]
pub struct Condition {
    /// The patterns, in the order they are tried.
    pub or_patterns: Vec<Pattern>,
}

impl Condition {
    /// The patterns as mathematical values.
    pub open spec fn view(&self) -> Seq<PatternView> {
        Seq::new(self.or_patterns@.len(), |i: int| self.or_patterns@[i]@)
    }

    /// Every pattern is well-formed.
    pub open spec fn wf(&self) -> bool {
        forall|i: int| 0 <= i < self.or_patterns@.len() ==> (#[trigger] self.or_patterns@[i]).wf()
    }

    /// A condition made of the given patterns.
    pub fn new(or_patterns: Vec<Pattern>) -> (r: Condition)
        ensures
            r.or_patterns@ == or_patterns@,
    {
        Condition { or_patterns }
    }

    /// The condition as printed: see [`condition_text`].
    pub fn to_text(&self) -> (r: String)
        ensures
            r@ == condition_text(self@),
    {
        let n = self.or_patterns.len();
        if n == 0 {
            return String::new();
        }
        if n == 1 {
            let text = self.or_patterns[0].into_string();
            return debug_string(text.as_str());
        }
        let mut out = String::new();
        push_char(&mut out, '(');
        let mut i: usize = 0;
        while i < n
            invariant
                n == self@.len() >= 2,
                i <= n,
                out@ == seq!['('] + or_text(self@, i as int),
            decreases n - i,
        {
            if i > 0 {
                push_char(&mut out, ' ');
                push_char(&mut out, '|');
                push_char(&mut out, '|');
                push_char(&mut out, ' ');
            }
            let text = self.or_patterns[i].into_string();
            let quoted = debug_string(text.as_str());
            push_str(&mut out, quoted.as_str());
            i += 1;
        }
        push_char(&mut out, ')');
        out
    }

    /// The patterns of the condition.
    pub fn or_patterns(&self) -> (r: &[Pattern])
        ensures
            r@ == self.or_patterns@,
    {
        self.or_patterns.as_slice()
    }
}

/// The texts of the first `k` patterns, each in quotes, separated by
/// ` || `.
pub open spec fn or_text(ps: Seq<PatternView>, k: int) -> Seq<char>
    decreases k,
{
    if k <= 0 {
        Seq::empty()
    } else if k == 1 {
        debug_quoted(ps[0].text)
    } else {
        or_text(ps, k - 1) + seq![' ', '|', '|', ' '] + debug_quoted(ps[k - 1].text)
    }
}

/// A condition as printed: nothing without patterns, the text of its
/// pattern in quotes, or the texts of its patterns in quotes, separated by
/// ` || ` and put in parentheses.
pub open spec fn condition_text(ps: Seq<PatternView>) -> Seq<char> {
    if ps.len() == 0 {
        Seq::empty()
    } else if ps.len() == 1 {
        debug_quoted(ps[0].text)
    } else {
        seq!['('] + or_text(ps, ps.len() as int) + seq![')']
    }
}

/// The first `k` conditions as printed, separated by ` && `.
pub open spec fn and_text(cs: Seq<Seq<PatternView>>, k: int) -> Seq<char>
    decreases k,
{
    if k <= 0 {
        Seq::empty()
    } else if k == 1 {
        condition_text(cs[0])
    } else {
        and_text(cs, k - 1) + seq![' ', '&', '&', ' '] + condition_text(cs[k - 1])
    }
}

/// A query as printed: `FzfQuery(` and `)` around, in quotes, the
/// conditions as printed, separated by ` && `, or the text of the pattern
/// of a query that is not extended.
pub open spec fn query_text(q: QueryView) -> Seq<char> {
    seq!['F', 'z', 'f', 'Q', 'u', 'e', 'r', 'y', '('] + debug_quoted(
        match q {
            QueryView::Extended(cs) => and_text(cs, cs.len() as int),
            QueryView::NotExtended(p) => p.text,
        },
    ) + seq![')']
}

/// How a query is matched.
#[derive(Clone, Debug)]
pub enum SearchMode {
    /// A conjunction of conditions.
    Extended(Vec<Condition>),
    /// A single fuzzy pattern.
    NotExtended(Pattern),
}

/// A query, as a mathematical value.
pub enum QueryView {
    /// A conjunction of disjunctions of patterns.
    Extended(Seq<Seq<PatternView>>),
    /// A single fuzzy pattern.
    NotExtended(PatternView),
}

/// A parsed fzf query.
#[derive(Clone, Debug)]
pub struct FzfQuery {
    /// How the query is matched.
    pub search_mode: SearchMode,
}

/// The query that a list of conditions makes: a single condition made of a
/// single fuzzy pattern is searched for on its own, any other list in
/// extended mode.
pub open spec fn spec_query_of(conditions: Seq<Seq<PatternView>>) -> QueryView {
    if conditions.len() == 1 && conditions[0].len() == 1 && conditions[0][0].match_type
        == MatchType::Fuzzy {
        QueryView::NotExtended(conditions[0][0])
    } else {
        QueryView::Extended(conditions)
    }
}

impl FzfQuery {
    /// The query as a mathematical value.
    pub open spec fn view(&self) -> QueryView {
        match self.search_mode {
            SearchMode::Extended(cs) => QueryView::Extended(
                Seq::new(cs@.len(), |i: int| cs@[i]@),
            ),
            SearchMode::NotExtended(p) => QueryView::NotExtended(p@),
        }
    }

    /// Every pattern of the query is well-formed, and every condition has a
    /// pattern.
    pub open spec fn wf(&self) -> bool {
        match self.search_mode {
            SearchMode::Extended(cs) => forall|i: int|
                0 <= i < cs@.len() ==> (#[trigger] cs@[i]).wf() && cs@[i].or_patterns@.len() > 0,
            SearchMode::NotExtended(p) => p.wf(),
        }
    }

    /// Whether the query has nothing to look for.
    pub open spec fn spec_is_empty(&self) -> bool {
        match self@ {
            QueryView::Extended(cs) => cs.len() == 0,
            QueryView::NotExtended(p) => p.text.len() == 0,
        }
    }

    /// The query as printed: see [`query_text`].
    pub fn to_text(&self) -> (r: String)
        ensures
            r@ == query_text(self@),
    {
        let inner = match &self.search_mode {
            SearchMode::Extended(conditions) => {
                let ghost cs = Seq::new(conditions@.len(), |i: int| conditions@[i]@);
                let n = conditions.len();
                let mut text = String::new();
                let mut i: usize = 0;
                while i < n
                    invariant
                        n == conditions@.len(),
                        cs == Seq::new(conditions@.len(), |i: int| conditions@[i]@),
                        i <= n,
                        text@ == and_text(cs, i as int),
                    decreases n - i,
                {
                    if i > 0 {
                        push_char(&mut text, ' ');
                        push_char(&mut text, '&');
                        push_char(&mut text, '&');
                        push_char(&mut text, ' ');
                    }
                    let part = conditions[i].to_text();
                    assert(cs[i as int] == conditions@[i as int]@);
                    push_str(&mut text, part.as_str());
                    i += 1;
                }
                text
            },
            SearchMode::NotExtended(pattern) => pattern.into_string(),
        };
        let mut out = String::new();
        push_char(&mut out, 'F');
        push_char(&mut out, 'z');
        push_char(&mut out, 'f');
        push_char(&mut out, 'Q');
        push_char(&mut out, 'u');
        push_char(&mut out, 'e');
        push_char(&mut out, 'r');
        push_char(&mut out, 'y');
        push_char(&mut out, '(');
        let quoted = debug_string(inner.as_str());
        push_str(&mut out, quoted.as_str());
        push_char(&mut out, ')');
        out
    }

    /// Whether the query has nothing to look for.
    pub fn is_empty(&self) -> (r: bool)
        ensures
            r == self.spec_is_empty(),
    {
        match &self.search_mode {
            SearchMode::Extended(conditions) => conditions.len() == 0,
            SearchMode::NotExtended(pattern) => pattern.text.len() == 0,
        }
    }

    /// The query made of the given conditions.
    pub fn new_extended(conditions: Vec<Condition>) -> (r: FzfQuery)
        requires
            forall|i: int|
                0 <= i < conditions@.len() ==> (#[trigger] conditions@[i]).wf()
                    && conditions@[i].or_patterns@.len() > 0,
        ensures
            r.wf(),
            r@ == spec_query_of(Seq::new(conditions@.len(), |i: int| conditions@[i]@)),
    {
        let ghost cv = Seq::new(conditions@.len(), |i: int| conditions@[i]@);
        if conditions.len() == 1 && conditions[0].or_patterns.len() == 1
            && conditions[0].or_patterns[0].match_type == MatchType::Fuzzy {
            let mut conditions = conditions;
            let mut condition = conditions.pop().unwrap();
            let pattern = condition.or_patterns.pop().unwrap();
            proof {
                assert(cv[0][0] == pattern@);
            }
            return FzfQuery { search_mode: SearchMode::NotExtended(pattern) };
        }
        let r = FzfQuery { search_mode: SearchMode::Extended(conditions) };
        assert(r@ == spec_query_of(cv)) by {
            if let QueryView::Extended(x) = r@ {
                assert(x =~= cv);
            }
        }
        r
    }

    /// The query that fuzzy-matches the given characters as they are.
    pub fn new_not_extended(chars: &[char]) -> (r: FzfQuery)
        ensures
            r.wf(),
            r@ == QueryView::NotExtended(spec_raw_pattern(chars@)),
    {
        FzfQuery { search_mode: SearchMode::NotExtended(Pattern::raw(chars)) }
    }
}

} // verus!
