//! Parsing of query strings into [`FzfQuery`]s.

use vstd::prelude::*;

use super::common::max_chars;
use super::engine::within_limits;
use super::query::{
    copy_chars, string_of, MatchType, spec_parse_pattern, spec_query_of, spec_raw_pattern, Condition, FzfQuery, Pattern,
    PatternView, QueryView,
};

verus! {

/// The words that a scan of `s` yields, `cur` being the word being read, if
/// any. Words are separated by spaces; a backslash followed by a space stands
/// for a space inside a word.
pub open spec fn spec_words_from(s: Seq<char>, cur: Option<Seq<char>>) -> Seq<Seq<char>>
    decreases s.len(),
{
    if s.len() == 0 {
        match cur {
            Some(w) => seq![w],
            None => Seq::empty(),
        }
    } else if s[0] == ' ' {
        match cur {
            Some(w) => seq![w] + spec_words_from(s.skip(1), None),
            None => spec_words_from(s.skip(1), None),
        }
    } else if s[0] == '\\' && s.len() > 1 && s[1] == ' ' {
        spec_words_from(s.skip(2), Some(cur.unwrap_or(Seq::empty()).push(' ')))
    } else {
        spec_words_from(s.skip(1), Some(cur.unwrap_or(Seq::empty()).push(s[0])))
    }
}

/// The words of `s`: the maximal runs of characters other than unescaped
/// spaces, with each escaped space (`\ `) read as a space.
pub open spec fn spec_words(s: Seq<char>) -> Seq<Seq<char>> {
    spec_words_from(s, None)
}

/// The pattern a word of an extended-search query stands for: the word as
/// parsed, or, when it is made of operators only, the word itself as a fuzzy
/// pattern.
pub open spec fn spec_word_pattern(w: Seq<char>) -> PatternView {
    match spec_parse_pattern(w) {
        Some(p) => p,
        None => spec_raw_pattern(w),
    }
}

/// Whether a word is the OR operator `|`.
pub open spec fn is_or_word(w: Seq<char>) -> bool {
    w.len() == 1 && w[0] == '|'
}

/// One step of the grouping of words into conditions. The state is the list
/// of conditions so far and whether a pattern was just read (so that the next
/// pattern starts a new condition unless a `|` comes first).
pub open spec fn group_step(
    state: (Seq<Seq<PatternView>>, bool),
    w: Seq<char>,
) -> (Seq<Seq<PatternView>>, bool) {
    let (groups, looking_for_or) = state;
    if is_or_word(w) {
        (groups, false)
    } else if looking_for_or || groups.len() == 0 {
        (groups.push(seq![spec_word_pattern(w)]), true)
    } else {
        (groups.update(groups.len() - 1, groups.last().push(spec_word_pattern(w))), true)
    }
}

/// The state after grouping the words of `ws`.
pub open spec fn group_state(ws: Seq<Seq<char>>) -> (Seq<Seq<PatternView>>, bool)
    decreases ws.len(),
{
    if ws.len() == 0 {
        (Seq::empty(), false)
    } else {
        group_step(group_state(ws.drop_last()), ws.last())
    }
}

/// The conditions that the words `ws` make: words separated by `|` form one
/// condition (a disjunction), other consecutive words separate conditions.
pub open spec fn spec_group(ws: Seq<Seq<char>>) -> Seq<Seq<PatternView>> {
    group_state(ws).0
}

/// The query that `s` stands for in extended-search mode.
pub open spec fn spec_parse_query(s: Seq<char>) -> QueryView {
    spec_query_of(spec_group(spec_words(s)))
}

/// The views of a list of words.
pub open spec fn word_views(ws: Seq<Vec<char>>) -> Seq<Seq<char>> {
    Seq::new(ws.len(), |i: int| ws[i]@)
}

/// The views of a list of conditions.
pub open spec fn condition_views(cs: Seq<Condition>) -> Seq<Seq<PatternView>> {
    Seq::new(cs.len(), |i: int| cs[i]@)
}

/// The characters of a string.
pub fn collect_chars(s: &str) -> (r: Vec<char>)
    ensures
        r@ == s@,
{
    let mut out: Vec<char> = Vec::new();
    for ch in it: s.chars()
        invariant
            out@ == it.seq().take(it.index() as int),
            it.seq() == s@,
    {
        proof {
            assert(it.seq().take(it.index() + 1) =~= it.seq().take(it.index() as int).push(ch));
        }
        out.push(ch);
    }
    assert(out@ =~= s@);
    out
}

/// The scan of the words of a sequence of characters, one word at a time.
pub struct Words {
    chars: Vec<char>,
    pos: usize,
}

impl Words {
    /// The scan has not gone past the end of the characters.
    pub closed spec fn wf(&self) -> bool {
        self.pos <= self.chars@.len()
    }

    /// The words not read yet.
    pub closed spec fn rest(&self) -> Seq<Seq<char>> {
        spec_words_from(self.chars@.skip(self.pos as int), None)
    }

    /// The scan of the words of `chars`, none read yet.
    pub fn new(chars: &[char]) -> (r: Words)
        ensures
            r.wf(),
            r.rest() == spec_words(chars@),
    {
        let v = copy_chars(chars, 0, chars.len());
        assert(v@.skip(0) =~= chars@);
        Words { chars: v, pos: 0 }
    }

    /// The next word, or `None` when every word was read.
    pub fn next(&mut self) -> (r: Option<Vec<char>>)
        requires
            old(self).wf(),
        ensures
            final(self).wf(),
            match r {
                None => old(self).rest().len() == 0 && final(self).rest() == old(self).rest(),
                Some(w) => old(self).rest().len() > 0 && w@ == old(self).rest()[0] && final(self).rest()
                    == old(self).rest().drop_first(),
            },
    {
        let n = self.chars.len();
        let ghost all = self.rest();
        while self.pos < n && self.chars[self.pos] == ' '
            invariant
                n == self.chars@.len(),
                self.pos <= n,
                self.rest() == all,
            decreases n - self.pos,
        {
            assert(self.chars@.skip(self.pos as int).skip(1) =~= self.chars@.skip(self.pos + 1));
            self.pos += 1;
        }
        if self.pos == n {
            assert(self.chars@.skip(n as int) =~= Seq::<char>::empty());
            return None;
        }
        let mut cur: Vec<char> = Vec::new();
        loop
            invariant_except_break
                n == self.chars@.len(),
                self.pos <= n,
                cur@.len() > 0 ==> all == spec_words_from(self.chars@.skip(self.pos as int), Some(cur@)),
                cur@.len() == 0 ==> all == spec_words_from(self.chars@.skip(self.pos as int), None)
                    && self.pos < n && self.chars@[self.pos as int] != ' ',
            ensures
                self.pos <= n == self.chars@.len(),
                all.len() > 0,
                cur@ == all[0],
                self.rest() == all.drop_first(),
            decreases n - self.pos,
        {
            let ghost rest = self.chars@.skip(self.pos as int);
            if self.pos == n {
                assert(rest =~= Seq::<char>::empty());
                assert(all == seq![cur@]);
                assert(self.chars@.skip(self.pos as int) =~= Seq::<char>::empty());
                break;
            }
            assert(rest[0] == self.chars@[self.pos as int]);
            assert(rest.skip(1) =~= self.chars@.skip(self.pos + 1));
            let ch = self.chars[self.pos];
            let ghost prev = if cur@.len() > 0 {
                Some(cur@)
            } else {
                None::<Seq<char>>
            };
            assert(all == spec_words_from(rest, prev));
            assert(prev.unwrap_or(Seq::empty()) == cur@);
            if ch == ' ' {
                assert(all == seq![cur@] + spec_words_from(rest.skip(1), None));
                self.pos += 1;
                break;
            } else if ch == '\\' && self.pos + 1 < n && self.chars[self.pos + 1] == ' ' {
                assert(rest[1] == self.chars@[self.pos + 1]);
                assert(rest.skip(2) =~= self.chars@.skip(self.pos + 2));
                assert(all == spec_words_from(rest.skip(2), Some(cur@.push(' '))));
                cur.push(' ');
                self.pos += 2;
            } else {
                assert(all == spec_words_from(rest.skip(1), Some(cur@.push(ch))));
                cur.push(ch);
                self.pos += 1;
            }
        }
        Some(cur)
    }
}

/// Splits a sequence of characters into its words.
pub fn split_words(chars: &[char]) -> (r: Vec<Vec<char>>)
    ensures
        word_views(r@) == spec_words(chars@),
{
    let mut words = Words::new(chars);
    let mut out: Vec<Vec<char>> = Vec::new();
    assert(word_views(out@) + words.rest() =~= spec_words(chars@));
    loop
        invariant
            words.wf(),
            word_views(out@) + words.rest() == spec_words(chars@),
        ensures
            word_views(out@) == spec_words(chars@),
        decreases words.rest().len(),
    {
        let ghost r0 = words.rest();
        match words.next() {
            None => {
                assert(word_views(out@) + words.rest() =~= word_views(out@));
                break;
            },
            Some(w) => {
                let ghost before = word_views(out@);
                assert(r0 =~= seq![w@] + words.rest());
                out.push(w);
                assert(word_views(out@) =~= before.push(w@));
                assert(word_views(out@) + words.rest() =~= before + r0);
            },
        }
    }
    out
}

/// The pattern that a word of an extended-search query stands for.
pub fn word_pattern(w: &[char]) -> (r: Pattern)
    ensures
        r.wf(),
        r@ == spec_word_pattern(w@),
{
    match Pattern::parse(w) {
        Some(p) => p,
        None => Pattern::raw(w),
    }
}

/// Whether a word is the OR operator `|`.
fn is_or(w: &Vec<char>) -> (r: bool)
    ensures
        r == is_or_word(w@),
{
    w.len() == 1 && w[0] == '|'
}

/// Groups words into conditions: words separated by `|` make up one
/// condition, other consecutive words separate conditions.
pub fn group_words(words: &Vec<Vec<char>>) -> (r: Vec<Condition>)
    ensures
        condition_views(r@) == spec_group(word_views(words@)),
        forall|i: int|
            0 <= i < r@.len() ==> (#[trigger] r@[i]).wf() && r@[i].or_patterns@.len() > 0,
{
    let ghost ws = word_views(words@);
    let mut groups: Vec<Condition> = Vec::new();
    let mut looking_for_or = false;
    let mut i: usize = 0;
    assert(condition_views(groups@) =~= Seq::<Seq<PatternView>>::empty());
    assert(ws.take(0) =~= Seq::<Seq<char>>::empty());
    while i < words.len()
        invariant
            ws == word_views(words@),
            i <= words@.len(),
            group_state(ws.take(i as int)) == (condition_views(groups@), looking_for_or),
            forall|j: int|
                0 <= j < groups@.len() ==> (#[trigger] groups@[j]).wf()
                    && groups@[j].or_patterns@.len() > 0,
        decreases words@.len() - i,
    {
        let ghost old_groups = groups@;
        assert(ws.take(i + 1).drop_last() =~= ws.take(i as int));
        assert(ws.take(i + 1).last() == words@[i as int]@);
        let w = &words[i];
        if is_or(w) {
            looking_for_or = false;
        } else {
            let p = word_pattern(w.as_slice());
            if looking_for_or || groups.len() == 0 {
                let mut ps: Vec<Pattern> = Vec::new();
                ps.push(p);
                let c = Condition::new(ps);
                proof {
                    assert(c@ =~= seq![p@]);
                }
                groups.push(c);
                proof {
                    assert(condition_views(groups@) =~= condition_views(old_groups).push(seq![p@]));
                }
            } else {
                let mut g = groups.pop().unwrap();
                let ghost old_g = g;
                g.or_patterns.push(p);
                proof {
                    assert(g@ =~= old_g@.push(p@));
                }
                groups.push(g);
                proof {
                    let cv = condition_views(old_groups);
                    assert(old_g == old_groups.last());
                    assert(condition_views(groups@) =~= cv.update(
                        cv.len() - 1,
                        cv.last().push(p@),
                    ));
                }
            }
            looking_for_or = true;
        }
        i += 1;
    }
    assert(ws.take(words@.len() as int) =~= ws);
    groups
}

/// The conditions that a query string makes in extended-search mode.
pub fn conditions(s: &str) -> (r: Vec<Condition>)
    ensures
        condition_views(r@) == spec_group(spec_words(s@)),
        forall|i: int|
            0 <= i < r@.len() ==> (#[trigger] r@[i]).wf() && r@[i].or_patterns@.len() > 0,
{
    let chars = collect_chars(s);
    let ws = split_words(chars.as_slice());
    group_words(&ws)
}

/// The words of a string: the maximal runs of characters other than
/// unescaped spaces, each escaped space (`\ `) standing for a space.
pub fn words(s: &str) -> (r: Vec<String>)
    ensures
        r@.len() == spec_words(s@).len(),
        forall|i: int| 0 <= i < r@.len() ==> #[trigger] r@[i]@ == spec_words(s@)[i],
{
    let chars = collect_chars(s);
    let ws = split_words(chars.as_slice());
    let mut out: Vec<String> = Vec::new();
    let mut i: usize = 0;
    while i < ws.len()
        invariant
            i <= ws@.len(),
            word_views(ws@) == spec_words(s@),
            out@.len() == i,
            forall|k: int| 0 <= k < i ==> #[trigger] out@[k]@ == spec_words(s@)[k],
        decreases ws@.len() - i,
    {
        let w = string_of(ws[i].as_slice());
        assert(word_views(ws@)[i as int] == ws@[i as int]@);
        out.push(w);
        i += 1;
    }
    out
}

/// The parser of query strings into [`FzfQuery`]s.
///
/// [`parse`](FzfParser::parse) follows fzf's extended-search mode;
/// [`parse_not_extended`](FzfParser::parse_not_extended) treats every
/// character of the query as one to fuzzy-match.
#[derive(Clone, Debug, Default)]
pub struct FzfParser {}

impl FzfParser {
    /// Creates a new `FzfParser`.
    pub fn new() -> (r: FzfParser) {
        FzfParser {}
    }

    /// Parses the given query string according to fzf's extended-search
    /// mode.
    ///
    /// | Pattern | Matches                                      |
    /// | ------- | -------------------------------------------- |
    /// | `foo`   | candidates that fuzzy-match `"foo"`          |
    /// | `'foo`  | candidates that include `"foo"`              |
    /// | `^foo`  | candidates that start with `"foo"`           |
    /// | `foo$`  | candidates that end with `"foo"`             |
    /// | `!foo`  | candidates that **don't** include `"foo"`    |
    /// | `!^foo` | candidates that **don't** start with `"foo"` |
    /// | `!foo$` | candidates that **don't**  end with `"foo"`  |
    ///
    /// Patterns are separated by spaces, which act as a logical AND, or by
    /// the pipe character `|`, which acts as a logical OR and binds tighter:
    /// `"foo bar | baz"` means `foo && (bar || baz)`. A space preceded by a
    /// backslash is part of a pattern.
    pub fn parse(&mut self, query: &str) -> (r: FzfQuery)
        ensures
            r.wf(),
            r@ == spec_parse_query(query@),
    {
        let cs = conditions(query);
        FzfQuery::new_extended(cs)
    }

    /// Parses the given query string without extended-search mode: every
    /// character of the query is fuzzy-matched, none has a special meaning.
    pub fn parse_not_extended(&mut self, query: &str) -> (r: FzfQuery)
        ensures
            r.wf(),
            r@ == QueryView::NotExtended(spec_raw_pattern(query@)),
    {
        let chars = collect_chars(query);
        FzfQuery::new_not_extended(chars.as_slice())
    }
}

/// Parses a query string in extended-search mode.
pub fn parse(s: &str) -> (r: FzfQuery)
    ensures
        r.wf(),
        r@ == spec_parse_query(s@),
{
    let mut parser = FzfParser::new();
    parser.parse(s)
}

impl FzfQuery {
    /// The query that fuzzy-matches the characters of `s` as they are.
    pub fn new(s: &str) -> (r: FzfQuery)
        ensures
            r.wf(),
            r@ == QueryView::NotExtended(spec_raw_pattern(s@)),
    {
        let chars = collect_chars(s);
        FzfQuery::new_not_extended(chars.as_slice())
    }

    /// The query that fuzzy-matches the characters of `s` as they are.
    pub fn from_str(s: &str) -> (r: FzfQuery)
        ensures
            r.wf(),
            r@ == QueryView::NotExtended(spec_raw_pattern(s@)),
    {
        FzfQuery::new(s)
    }
}

/// The words read from `s` after the word `cur` number at most the
/// characters of `s`, plus one for `cur`, and none is longer than `bound`
/// when `cur` and `s` together are not.
pub proof fn lemma_words_bounded(s: Seq<char>, cur: Option<Seq<char>>, bound: int)
    requires
        s.len() + cur.unwrap_or(Seq::empty()).len() <= bound,
    ensures
        spec_words_from(s, cur).len() <= s.len() + if cur is Some {
            1int
        } else {
            0int
        },
        forall|i: int|
            0 <= i < spec_words_from(s, cur).len() ==> (#[trigger] spec_words_from(s, cur)[i]).len()
                <= bound,
    decreases s.len(),
{
    let ws = spec_words_from(s, cur);
    if s.len() == 0 {
    } else if s[0] == ' ' {
        let rest = spec_words_from(s.skip(1), None);
        lemma_words_bounded(s.skip(1), None, bound);
        if let Some(w) = cur {
            assert(ws == seq![w] + rest);
            assert forall|i: int| 0 <= i < ws.len() implies (#[trigger] ws[i]).len() <= bound by {
                if i > 0 {
                    assert(ws[i] == rest[i - 1]);
                }
            }
        }
    } else if s[0] == '\\' && s.len() > 1 && s[1] == ' ' {
        lemma_words_bounded(s.skip(2), Some(cur.unwrap_or(Seq::empty()).push(' ')), bound);
    } else {
        lemma_words_bounded(s.skip(1), Some(cur.unwrap_or(Seq::empty()).push(s[0])), bound);
    }
}

/// The conditions made of the words `ws` number at most the words, and none
/// of their patterns is longer than `bound` when no word is.
pub proof fn lemma_group_bounded(ws: Seq<Seq<char>>, bound: int)
    requires
        forall|i: int| 0 <= i < ws.len() ==> (#[trigger] ws[i]).len() <= bound,
    ensures
        group_state(ws).0.len() <= ws.len(),
        forall|i: int, j: int|
            0 <= i < group_state(ws).0.len() && 0 <= j < group_state(ws).0[i].len() ==> (
            #[trigger] group_state(ws).0[i][j]).text.len() <= bound,
    decreases ws.len(),
{
    if ws.len() > 0 {
        let prev = ws.drop_last();
        assert forall|i: int| 0 <= i < prev.len() implies (#[trigger] prev[i]).len() <= bound by {
            assert(prev[i] == ws[i]);
        }
        lemma_group_bounded(prev, bound);
        let w = ws.last();
        assert(spec_word_pattern(w).text.len() <= w.len());
        let g0 = group_state(prev).0;
        let g1 = group_state(ws).0;
        assert forall|i: int, j: int| 0 <= i < g1.len() && 0 <= j < g1[i].len() implies (
        #[trigger] g1[i][j]).text.len() <= bound by {
            if !is_or_word(w) && !(group_state(prev).1 || g0.len() == 0) && i == g0.len() - 1 {
                if j < g0[i].len() {
                    assert(g1[i][j] == g0[i][j]);
                }
            } else if i < g0.len() {
                assert(g1[i] == g0[i]);
            }
        }
    }
}

/// Parsing a query string of at most [`max_chars`] characters gives a
/// query within the limits that the metrics accept.
pub proof fn lemma_parse_within_limits(s: Seq<char>)
    requires
        s.len() <= max_chars(),
    ensures
        within_limits(spec_parse_query(s)),
{
    let ws = spec_words(s);
    lemma_words_bounded(s, None, s.len() as int);
    lemma_group_bounded(ws, s.len() as int);
    let cs = spec_group(ws);
    if cs.len() == 1 && cs[0].len() == 1 && cs[0][0].match_type == MatchType::Fuzzy {
        assert(cs[0][0].text.len() <= s.len());
    }
}

} // verus!
