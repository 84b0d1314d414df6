//! The search of a parsed query in a candidate, shared by both fzf metrics:
//! inverse patterns, OR conditions, AND of conditions, and the byte ranges of
//! what matched.

use vstd::prelude::*;

use std::ops::Range;

use super::common::{
    equal_match, exact_match, insert_all, lemma_exact_match_iff, lemma_score_upto, max_chars,
    outcome_ranges, outcome_score, prefix_match, range_outcome, spec_equal_match, spec_exact_match,
    spec_ignored_leading, spec_ignored_trailing, spec_prefix_match, spec_suffix_match,
    suffix_match, exact_scan,
};
use super::distance::FzfDistance;
use super::greedy::{backward_start, forward_end, greedy, lemma_backward_finds, lemma_greedy};
use super::query::{
    spec_has_uppercase, Condition, FzfQuery, MatchType, Pattern, PatternView, QueryView, SearchMode,
};
use super::scoring::{FzfScheme, Scheme};
use crate::text::push_str;
use super::common::spec_compute_score;
use super::slab::{candidate_of, CandidateSlab};
use super::v1::spec_fuzzy_v1;
use super::v2_spec::{lemma_v2_problem_valid, single_best, spec_fuzzy_v2, v2_problem};
use crate::candidate::{lemma_spaces_facts, Candidate};
use crate::case_sensitivity::CaseSensitivity;
use crate::chars::{char_eq, CharEq};
use crate::matched_ranges::{sorted_disjoint, spec_insert, MatchedRanges};

verus! {

/// The fzf algorithms.
#[derive(Clone, Copy, Debug, PartialEq, Eq, Structural)]
pub enum Algorithm {
    /// The first fuzzy match, shortened from its end.
    V1,
    /// The best alignment, found by dynamic programming.
    V2,
}

/// What decides how a metric matches: its algorithm and its options.
#[derive(Clone, Copy, Debug)]
pub struct FzfSettings {
    /// The algorithm of fuzzy patterns.
    pub algorithm: Algorithm,
    /// Whether matches keep the byte ranges that matched.
    pub matched_ranges: bool,
    /// How the case of letters is compared.
    pub case_sensitivity: CaseSensitivity,
    /// Whether candidate characters are normalized before comparing.
    pub candidate_normalization: bool,
    /// The scoring scheme.
    pub scheme: Scheme,
}

/// How the characters of a pattern are compared with those of a candidate.
#[derive(Clone, Copy, Debug)]
pub struct CandidateOpts {
    /// The comparison of a pattern character with a candidate character.
    pub char_eq: CharEq,
    /// Whether the comparison is case-sensitive.
    pub is_case_sensitive: bool,
}

impl CandidateOpts {
    /// The options for the given case sensitivity and normalization.
    pub fn new(is_case_sensitive: bool, is_normalized: bool) -> (r: CandidateOpts)
        ensures
            r.is_case_sensitive == is_case_sensitive,
            r.char_eq == (CharEq { is_case_sensitive, normalize_candidate: is_normalized }),
    {
        CandidateOpts { char_eq: char_eq(is_case_sensitive, is_normalized), is_case_sensitive }
    }
}

impl Default for CandidateOpts {
    fn default() -> (r: Self)
        ensures
            !r.is_case_sensitive,
            r.char_eq == (CharEq { is_case_sensitive: false, normalize_candidate: false }),
    {
        CandidateOpts::new(false, false)
    }
}

/// How the characters of a pattern with the given text are compared: case
/// sensitivity follows the settings (the smart mode being sensitive when the
/// text has an uppercase character), and normalization too.
pub open spec fn pattern_char_eq(settings: FzfSettings, text: Seq<char>) -> CharEq {
    CharEq {
        is_case_sensitive: settings.case_sensitivity.spec_is_sensitive(spec_has_uppercase(text)),
        normalize_candidate: settings.candidate_normalization,
    }
}

/// The fuzzy match of a pattern under the settings' algorithm.
pub open spec fn spec_fuzzy(settings: FzfSettings, p: Seq<char>, c: Seq<char>) -> Option<
    (int, Seq<Range<usize>>),
> {
    let eq = pattern_char_eq(settings, p);
    match settings.algorithm {
        Algorithm::V1 => spec_fuzzy_v1(p, c, eq, settings.scheme),
        Algorithm::V2 => spec_fuzzy_v2(p, c, eq, settings.scheme),
    }
}

/// The outcome of a pattern: the match of its type, turned into a match of
/// score 0 with no ranges when the pattern is inverse and there is no match,
/// and into no match when the pattern is inverse and there is one.
pub open spec fn spec_pattern_outcome(settings: FzfSettings, p: PatternView, c: Seq<char>) -> Option<
    (int, Seq<Range<usize>>),
> {
    let eq = pattern_char_eq(settings, p.text);
    let r = match p.match_type {
        MatchType::Fuzzy => spec_fuzzy(settings, p.text, c),
        MatchType::Exact => spec_exact_match(p.text, c, eq, settings.scheme),
        MatchType::PrefixExact => spec_prefix_match(p.text, c, eq, settings.scheme),
        MatchType::SuffixExact => spec_suffix_match(p.text, c, eq, settings.scheme),
        MatchType::EqualExact => spec_equal_match(p.text, c, eq, settings.scheme),
    };
    if p.is_inverse {
        match r {
            Some(_) => None,
            None => Some((0, Seq::empty())),
        }
    } else {
        r
    }
}

/// The outcome of a condition: that of its first pattern that matches.
pub open spec fn spec_condition_outcome(
    settings: FzfSettings,
    ps: Seq<PatternView>,
    c: Seq<char>,
) -> Option<(int, Seq<Range<usize>>)>
    decreases ps.len(),
{
    if ps.len() == 0 {
        None
    } else {
        match spec_pattern_outcome(settings, ps[0], c) {
            Some(o) => Some(o),
            None => spec_condition_outcome(settings, ps.drop_first(), c),
        }
    }
}

/// The outcome of the first `k` conditions: every one must match; the
/// scores add up and the ranges follow one another.
pub open spec fn conditions_upto(
    settings: FzfSettings,
    cs: Seq<Seq<PatternView>>,
    c: Seq<char>,
    k: int,
) -> Option<(int, Seq<Range<usize>>)>
    decreases k,
{
    if k <= 0 {
        Some((0, Seq::empty()))
    } else {
        match (conditions_upto(settings, cs, c, k - 1), spec_condition_outcome(settings, cs[k - 1], c)) {
            (Some(a), Some(b)) => Some((a.0 + b.0, a.1 + b.1)),
            _ => None,
        }
    }
}

/// The outcome of a query: an empty query matches every candidate with score
/// 0; a query that is not extended is one fuzzy pattern; an extended query
/// is the conjunction of its conditions.
pub open spec fn spec_query_outcome(settings: FzfSettings, q: QueryView, c: Seq<char>) -> Option<
    (int, Seq<Range<usize>>),
> {
    match q {
        QueryView::NotExtended(p) => if p.text.len() == 0 {
            Some((0, Seq::empty()))
        } else {
            spec_fuzzy(settings, p.text, c)
        },
        QueryView::Extended(cs) => conditions_upto(settings, cs, c, cs.len() as int),
    }
}

/// The query is within the limits that keep scores far from overflowing: at
/// most [`max_chars`] conditions, and patterns of at most [`max_chars`]
/// characters.
pub open spec fn within_limits(q: QueryView) -> bool {
    match q {
        QueryView::NotExtended(p) => p.text.len() <= max_chars(),
        QueryView::Extended(cs) => cs.len() <= max_chars() && forall|i: int, j: int|
            0 <= i < cs.len() && 0 <= j < cs[i].len() ==> (#[trigger] cs[i][j]).text.len()
                <= max_chars(),
    }
}

/// The memory the algorithm of `F` needs for each pattern of the query and
/// a candidate of `clen` characters can be addressed.
pub open spec fn query_fits<F: Fzf>(q: QueryView, clen: nat) -> bool {
    match q {
        QueryView::NotExtended(p) => F::fits(p.text.len(), clen),
        QueryView::Extended(cs) => forall|i: int, j: int|
            0 <= i < cs.len() && 0 <= j < cs[i].len() ==> F::fits((#[trigger] cs[i][j]).text.len(), clen),
    }
}

/// The score of an outcome lies between -3 per candidate character and 36 per
/// pattern character.
pub open spec fn outcome_bounded(o: Option<(int, Seq<Range<usize>>)>, plen: int, clen: int) -> bool {
    o matches Some(x) ==> -3 * clen <= x.0 <= 36 * plen
}

/// `true` or `false`.
pub open spec fn bool_text(b: bool) -> Seq<char> {
    if b {
        "true"@
    } else {
        "false"@
    }
}

/// A metric as printed: its name, then its options between braces, or
/// nothing when its scheme is not a predefined one.
pub open spec fn metric_text(name: Seq<char>, settings: FzfSettings) -> Seq<char> {
    match FzfScheme::spec_from_inner(settings.scheme) {
        None => Seq::empty(),
        Some(scheme) => name + " { candidate_normalization: "@ + bool_text(settings.candidate_normalization)
            + ", case_sensitivity: "@ + settings.case_sensitivity.spec_name() + ", scoring_scheme: "@
            + scheme.spec_name() + ", .. }"@,
    }
}

/// Prints a metric with the given name and settings: see [`metric_text`].
pub fn settings_text(name: &str, settings: &FzfSettings) -> (r: String)
    ensures
        r@ == metric_text(name@, *settings),
{
    let mut out = String::new();
    let scheme = match FzfScheme::from_inner(&settings.scheme) {
        Some(scheme) => scheme,
        None => return out,
    };
    push_str(&mut out, name);
    push_str(&mut out, " { candidate_normalization: ");
    push_str(&mut out, if settings.candidate_normalization {
        "true"
    } else {
        "false"
    });
    push_str(&mut out, ", case_sensitivity: ");
    push_str(&mut out, settings.case_sensitivity.name());
    push_str(&mut out, ", scoring_scheme: ");
    push_str(&mut out, scheme.name());
    push_str(&mut out, ", .. }");
    out
}

/// A metric that implements one of fzf's algorithms.
pub trait Fzf {
    /// The settings the metric matches with.
    spec fn spec_settings(&self) -> FzfSettings;

    /// Whether the memory the algorithm needs for a pattern of `plen`
    /// characters and a candidate of `clen` characters can be addressed.
    spec fn fits(plen: nat, clen: nat) -> bool;

    /// The settings the metric matches with.
    fn settings(&self) -> (r: FzfSettings)
        ensures
            r == self.spec_settings(),
            r.scheme.is_predefined(),
    ;

    /// The fuzzy match of a pattern; with `with_ranges`, the byte ranges of the
    /// matched characters are inserted in `ranges`.
    fn fuzzy(
        &mut self,
        pattern: &Pattern,
        candidate: Candidate,
        with_ranges: bool,
        ranges: &mut MatchedRanges,
    ) -> (r: Option<i64>)
        requires
            pattern.wf(),
            candidate.wf(),
            candidate@.len() <= max_chars(),
            pattern.text@.len() <= max_chars(),
            Self::fits(pattern.text@.len(), candidate@.len()),
            old(ranges).wf(),
            old(self).spec_settings().scheme.is_predefined(),
        ensures
            final(self).spec_settings() == old(self).spec_settings(),
            r == outcome_score(spec_fuzzy(old(self).spec_settings(), pattern.text@, candidate@)),
            final(ranges).wf(),
            final(ranges).initial() == old(ranges).initial(),
            final(ranges).inserted() == outcome_ranges(
                old(ranges).inserted(),
                spec_fuzzy(old(self).spec_settings(), pattern.text@, candidate@),
                with_ranges,
            ),
    ;
}

/// Inserting the ranges of `a` then those of `b` is inserting those of
/// `a + b`.
pub proof fn lemma_insert_all_concat(rs: Seq<Range<usize>>, a: Seq<Range<usize>>, b: Seq<Range<usize>>)
    ensures
        insert_all(insert_all(rs, a), b) == insert_all(rs, a + b),
    decreases b.len(),
{
    if b.len() == 0 {
        assert(a + b =~= a);
    } else {
        lemma_insert_all_concat(rs, a, b.drop_last());
        assert((a + b).drop_last() =~= a + b.drop_last());
        assert((a + b).last() == b.last());
    }
}

/// Scores a pattern of a query.
pub fn pattern_score<F: Fzf>(
    f: &mut F,
    pattern: &Pattern,
    candidate: Candidate,
    with_ranges: bool,
    ranges: &mut MatchedRanges,
) -> (r: Option<i64>)
    requires
        pattern.wf(),
        candidate.wf(),
        candidate@.len() <= max_chars(),
        pattern.text@.len() <= max_chars(),
        F::fits(pattern.text@.len(), candidate@.len()),
        old(ranges).wf(),
    ensures
        final(f).spec_settings() == old(f).spec_settings(),
        r == outcome_score(spec_pattern_outcome(old(f).spec_settings(), pattern@, candidate@)),
        final(ranges).wf(),
        final(ranges).initial() == old(ranges).initial(),
        final(ranges).inserted() == outcome_ranges(
            old(ranges).inserted(),
            spec_pattern_outcome(old(f).spec_settings(), pattern@, candidate@),
            with_ranges,
        ),
{
    let settings = f.settings();
    let is_sensitive = settings.case_sensitivity.is_sensitive(pattern.has_uppercase);
    let eq = char_eq(is_sensitive, settings.candidate_normalization);
    let wr = with_ranges && !pattern.is_inverse;
    let score = match pattern.match_type {
        MatchType::Fuzzy => f.fuzzy(pattern, candidate, wr, ranges),
        MatchType::Exact => exact_match(pattern, candidate, eq, &settings.scheme, wr, ranges),
        MatchType::PrefixExact => prefix_match(pattern, candidate, eq, &settings.scheme, wr, ranges),
        MatchType::SuffixExact => suffix_match(pattern, candidate, eq, &settings.scheme, wr, ranges),
        MatchType::EqualExact => equal_match(pattern, candidate, eq, &settings.scheme, wr, ranges),
    };
    if pattern.is_inverse {
        assert(insert_all(ranges.inserted(), Seq::<Range<usize>>::empty()) == ranges.inserted());
        if score.is_some() {
            None
        } else {
            Some(0)
        }
    } else {
        score
    }
}

/// Scores a condition: the score of its first pattern that matches.
pub fn condition_score<F: Fzf>(
    f: &mut F,
    condition: &Condition,
    candidate: Candidate,
    with_ranges: bool,
    ranges: &mut MatchedRanges,
) -> (r: Option<i64>)
    requires
        condition.wf(),
        forall|j: int| 0 <= j < condition@.len() ==> (#[trigger] condition@[j]).text.len() <= max_chars(),
        forall|j: int| 0 <= j < condition@.len() ==> F::fits((#[trigger] condition@[j]).text.len(), candidate@.len()),
        candidate.wf(),
        candidate@.len() <= max_chars(),
        old(ranges).wf(),
    ensures
        final(f).spec_settings() == old(f).spec_settings(),
        r == outcome_score(spec_condition_outcome(old(f).spec_settings(), condition@, candidate@)),
        final(ranges).wf(),
        final(ranges).initial() == old(ranges).initial(),
        final(ranges).inserted() == outcome_ranges(
            old(ranges).inserted(),
            spec_condition_outcome(old(f).spec_settings(), condition@, candidate@),
            with_ranges,
        ),
{
    let ghost settings = f.spec_settings();
    let ghost ps = condition@;
    let n = condition.or_patterns.len();
    let mut i: usize = 0;
    assert(ps.skip(0) =~= ps);
    while i < n
        invariant
            ps == condition@,
            n == ps.len(),
            condition.wf(),
            forall|j: int| 0 <= j < ps.len() ==> (#[trigger] ps[j]).text.len() <= max_chars(),
            forall|j: int| 0 <= j < ps.len() ==> F::fits((#[trigger] ps[j]).text.len(), candidate@.len()),
            candidate.wf(),
            candidate@.len() <= max_chars(),
            i <= n,
            f.spec_settings() == settings,
            settings == old(f).spec_settings(),
            spec_condition_outcome(settings, ps.skip(i as int), candidate@) == spec_condition_outcome(
                settings,
                ps,
                candidate@,
            ),
            ranges.wf(),
            ranges.initial() == old(ranges).initial(),
            ranges.inserted() == old(ranges).inserted(),
        decreases n - i,
    {
        let pattern = &condition.or_patterns[i];
        assert(ps.skip(i as int)[0] == pattern@);
        assert(ps.skip(i as int).drop_first() =~= ps.skip(i + 1));
        let r = pattern_score(f, pattern, candidate, with_ranges, ranges);
        if r.is_some() {
            return r;
        }
        i = i + 1;
    }
    None
}

/// A score of the pattern on a range within the candidate lies between -3
/// per candidate character and 36 per pattern character.
pub proof fn lemma_range_bounded(
    p: Seq<char>,
    c: Seq<char>,
    st: int,
    en: int,
    eq: CharEq,
    scheme: Scheme,
)
    requires
        scheme.is_predefined(),
        0 <= st <= en <= c.len(),
    ensures
        outcome_bounded(Some(range_outcome(p, c, st, en, eq, scheme)), p.len() as int, c.len() as int),
{
    lemma_score_upto(p, c, st, en, eq, scheme);
}

/// The outcome of a pattern is bounded by the lengths of the pattern and of
/// the candidate.
pub proof fn lemma_pattern_bounded(settings: FzfSettings, p: PatternView, c: Seq<char>)
    requires
        settings.scheme.is_predefined(),
        p.text.len() <= max_chars(),
        c.len() <= max_chars(),
    ensures
        outcome_bounded(spec_pattern_outcome(settings, p, c), p.text.len() as int, c.len() as int),
{
    let t = p.text;
    let eq = pattern_char_eq(settings, t);
    let scheme = settings.scheme;
    lemma_spaces_facts(t);
    lemma_spaces_facts(c);
    if t.len() > 0 {
        match p.match_type {
            MatchType::Fuzzy => {
                match settings.algorithm {
                    Algorithm::V1 => {
                        if let Some(end) = forward_end(t, c, eq) {
                            lemma_greedy(t, c, t.len() - 1, eq);
                            lemma_backward_finds(t, c, t.len() as int, end, eq);
                            let start = backward_start(t, c, t.len() as int, end, eq);
                            lemma_score_upto(t, c, start, end, eq, scheme);
                        }
                    },
                    Algorithm::V2 => {
                        if t.len() == 1 {
                            lemma_single_bounded(c, t[0], eq, scheme, c.len() as int);
                        } else if greedy(t, c, t.len() - 1, eq) is Some {
                            lemma_v2_problem_valid(t, c, eq, scheme);
                            let pr = v2_problem(t, c, eq, scheme);
                            pr.lemma_scan_best(pr.height() - 1, pr.width());
                        }
                    },
                }
            },
            MatchType::Exact => {
                lemma_exact_match_iff(t, c, eq, scheme);
                if let Some(b) = exact_scan(t, c, 0, scheme.initial_char_class, None, eq, scheme) {
                    lemma_range_bounded(t, c, b.1, b.2, eq, scheme);
                }
            },
            MatchType::PrefixExact => {
                if let Some(lead) = spec_ignored_leading(t, c) {
                    if lead + t.len() <= c.len() {
                        lemma_range_bounded(t, c, lead, lead + t.len(), eq, scheme);
                    }
                }
            },
            MatchType::SuffixExact => {
                if let Some(tr) = spec_ignored_trailing(t, c) {
                    let end = c.len() - tr;
                    if end - t.len() >= 0 {
                        lemma_range_bounded(t, c, end - t.len(), end, eq, scheme);
                    }
                }
            },
            MatchType::EqualExact => {
                if let Some(lead) = spec_ignored_leading(t, c) {
                    if let Some(tr) = spec_ignored_trailing(t, c) {
                        if c.len() - tr - lead == t.len() {
                            lemma_range_bounded(t, c, lead, c.len() - tr, eq, scheme);
                        }
                    }
                }
            },
        }
    }
}

/// The best single-character match scores between 0 and 36.
pub proof fn lemma_single_bounded(c: Seq<char>, ch: char, eq: CharEq, scheme: Scheme, k: int)
    requires
        scheme.is_predefined(),
    ensures
        0 <= single_best(c, ch, eq, scheme, k).0 <= 36,
    decreases k,
{
    if k > 0 {
        lemma_single_bounded(c, ch, eq, scheme, k - 1);
        super::scoring::lemma_bonus_bounds(
            super::common::initial_class(c, k - 1, scheme),
            super::scoring::spec_char_class(c[k - 1], scheme),
            scheme,
        );
    }
}

/// The bound on the work of scoring an extended query: [`work_fits`].
pub open spec fn work_bound() -> int {
    0x0200_0000_0000_0000
}

/// Scoring an extended query against a candidate of `clen` characters goes
/// through the candidate and a pattern once for each condition; the query
/// fits when, for each of its patterns, the number of conditions times the
/// characters of the candidate and the pattern is at most 2^57. No query and
/// candidate held in memory and scored in practical time come near it, and
/// it keeps the running sum of the condition scores within `i64`.
pub open spec fn work_fits(q: QueryView, clen: nat) -> bool {
    match q {
        QueryView::NotExtended(_) => true,
        QueryView::Extended(cs) => forall|i: int, j: int|
            0 <= i < cs.len() && 0 <= j < cs[i].len() ==> cs.len() * (clen + (
            #[trigger] cs[i][j]).text.len()) <= work_bound(),
    }
}

/// Scaling a score bound by the number of conditions.
proof fn lemma_scaled_bound(n: int, x: int, l: int, c: int, w: int)
    by (nonlinear_arith)
    requires
        n >= 1,
        x <= 36 * l,
        l >= 0,
        c >= 0,
        n * (c + l) <= w,
    ensures
        n * x <= 36 * w,
        n * c <= w,
{
}

/// One more condition in a running sum of scores.
proof fn lemma_sum_step(n: int, a: int, b: int, c: int, w: int, k: int)
    by (nonlinear_arith)
    requires
        k >= 1,
        n * a <= 36 * w * (k - 1),
        n * b <= 36 * w,
        -3 * c * (k - 1) <= a,
        -3 * c <= b,
    ensures
        n * (a + b) <= 36 * w * k,
        -3 * c * k <= a + b,
{
}

/// A running sum of scores within the work bound.
proof fn lemma_sum_within(n: int, s: int, c: int, w: int, k: int)
    by (nonlinear_arith)
    requires
        1 <= k <= n,
        c >= 0,
        n * s <= 36 * w * k,
        -3 * c * k <= s,
        n * c <= w,
    ensures
        -3 * w <= s <= 36 * w,
{
}

/// The outcome of a condition scores at least -3 per candidate character,
/// and, times the number of conditions `n`, at most 36 times the work bound.
pub proof fn lemma_condition_bounded(settings: FzfSettings, ps: Seq<PatternView>, c: Seq<char>, n: int)
    requires
        settings.scheme.is_predefined(),
        c.len() <= max_chars(),
        n >= 1,
        forall|j: int| 0 <= j < ps.len() ==> (#[trigger] ps[j]).text.len() <= max_chars(),
        forall|j: int| 0 <= j < ps.len() ==> n * (c.len() + (#[trigger] ps[j]).text.len()) <= work_bound(),
    ensures
        spec_condition_outcome(settings, ps, c) matches Some(x) ==> -3 * c.len() <= x.0 && n * x.0 <= 36
            * work_bound() && n * c.len() <= work_bound(),
    decreases ps.len(),
{
    if ps.len() > 0 {
        lemma_pattern_bounded(settings, ps[0], c);
        if let Some(x) = spec_pattern_outcome(settings, ps[0], c) {
            lemma_scaled_bound(n, x.0, ps[0].text.len() as int, c.len() as int, work_bound());
        }
        assert forall|j: int| 0 <= j < ps.drop_first().len() implies (#[trigger] ps.drop_first()[j]).text.len()
            <= max_chars() && n * (c.len() + ps.drop_first()[j].text.len()) <= work_bound() by {
            assert(ps.drop_first()[j] == ps[j + 1]);
        }
        lemma_condition_bounded(settings, ps.drop_first(), c, n);
    }
}

/// The outcome of the first `k` conditions of a query within its limits and
/// the work bound scores between -3 and 36 times the work bound.
pub proof fn lemma_conditions_bounded(
    settings: FzfSettings,
    cs: Seq<Seq<PatternView>>,
    c: Seq<char>,
    k: int,
)
    requires
        settings.scheme.is_predefined(),
        c.len() <= max_chars(),
        0 <= k <= cs.len(),
        within_limits(QueryView::Extended(cs)),
        work_fits(QueryView::Extended(cs), c.len()),
    ensures
        conditions_upto(settings, cs, c, k) matches Some(x) ==> -3 * work_bound() <= x.0 <= 36
            * work_bound(),
{
    lemma_conditions_sum(settings, cs, c, k);
    if let Some(x) = conditions_upto(settings, cs, c, k) {
        if k >= 1 {
            lemma_sum_within(cs.len() as int, x.0, c.len() as int, work_bound(), k);
        }
    }
}

/// The running sum of the first `k` condition scores, scaled by the number
/// of conditions.
proof fn lemma_conditions_sum(settings: FzfSettings, cs: Seq<Seq<PatternView>>, c: Seq<char>, k: int)
    requires
        settings.scheme.is_predefined(),
        c.len() <= max_chars(),
        0 <= k <= cs.len(),
        within_limits(QueryView::Extended(cs)),
        work_fits(QueryView::Extended(cs), c.len()),
    ensures
        conditions_upto(settings, cs, c, k) matches Some(x) ==> cs.len() * x.0 <= 36 * work_bound() * k
            && -3 * c.len() * k <= x.0 && (k >= 1 ==> cs.len() * c.len() <= work_bound()),
    decreases k,
{
    if k == 0 {
        assert(cs.len() * 0int == 0 && -3 * c.len() * 0int == 0) by (nonlinear_arith);
    } else {
        lemma_conditions_sum(settings, cs, c, k - 1);
        let n = cs.len() as int;
        assert forall|j: int| 0 <= j < cs[k - 1].len() implies (#[trigger] cs[k - 1][j]).text.len()
            <= max_chars() && n * (c.len() + cs[k - 1][j].text.len()) <= work_bound() by {}
        lemma_condition_bounded(settings, cs[k - 1], c, n);
        if let Some(a) = conditions_upto(settings, cs, c, k - 1) {
            if let Some(b) = spec_condition_outcome(settings, cs[k - 1], c) {
                lemma_sum_step(n, a.0, b.0, c.len() as int, work_bound(), k);
            }
        }
    }
}

/// Once a condition fails, the conjunction of the conditions up to any later
/// one fails.
pub proof fn lemma_conditions_none(
    settings: FzfSettings,
    cs: Seq<Seq<PatternView>>,
    c: Seq<char>,
    k: int,
    n: int,
)
    requires
        0 <= k <= n,
        conditions_upto(settings, cs, c, k) is None,
    ensures
        conditions_upto(settings, cs, c, n) is None,
    decreases n - k,
{
    if n > k {
        lemma_conditions_none(settings, cs, c, k, n - 1);
    }
}

/// Scores a query: an empty query scores 0; a query that is not extended is
/// one fuzzy pattern; an extended query scores the sum of its conditions,
/// and does not match when one of them does not.
pub fn query_score<F: Fzf>(
    f: &mut F,
    query: &FzfQuery,
    candidate: Candidate,
    with_ranges: bool,
    ranges: &mut MatchedRanges,
) -> (r: Option<i64>)
    requires
        query.wf(),
        within_limits(query@),
        work_fits(query@, candidate@.len()),
        query_fits::<F>(query@, candidate@.len()),
        candidate.wf(),
        candidate@.len() <= max_chars(),
        old(ranges).wf(),
    ensures
        final(f).spec_settings() == old(f).spec_settings(),
        r == outcome_score(spec_query_outcome(old(f).spec_settings(), query@, candidate@)),
        r matches Some(s) ==> (spec_query_outcome(old(f).spec_settings(), query@, candidate@) matches Some(
            x,
        ) && x.0 == s),
        final(ranges).wf(),
        final(ranges).initial() == old(ranges).initial(),
        r is Some ==> final(ranges).inserted() == outcome_ranges(
            old(ranges).inserted(),
            spec_query_outcome(old(f).spec_settings(), query@, candidate@),
            with_ranges,
        ),
{
    let ghost settings = f.spec_settings();
    let ghost c = candidate@;
    let ghost old_ins = ranges.inserted();
    let s0 = f.settings();
    if query.is_empty() {
        assert(insert_all(old_ins, Seq::<Range<usize>>::empty()) == old_ins);
        return Some(0);
    }
    match &query.search_mode {
        SearchMode::NotExtended(pattern) => {
            let r = f.fuzzy(pattern, candidate, with_ranges, ranges);
            proof {
                let pv = PatternView {
                    text: pattern.text@,
                    match_type: MatchType::Fuzzy,
                    is_inverse: false,
                };
                lemma_pattern_bounded(settings, pv, c);
                assert(spec_pattern_outcome(settings, pv, c) == spec_fuzzy(settings, pattern.text@, c));
            }
            r
        },
        SearchMode::Extended(conditions) => {
            let ghost cs = Seq::new(conditions@.len(), |i: int| conditions@[i]@);
            let n = conditions.len();
            let mut total: i64 = 0;
            let mut k: usize = 0;
            let ghost mut list: Seq<Range<usize>> = Seq::empty();
            while k < n
                invariant
                    n == conditions@.len() == cs.len(),
                    cs == Seq::new(conditions@.len(), |i: int| conditions@[i]@),
                    query@ == QueryView::Extended(cs),
                    query.wf(),
                    within_limits(query@),
                    work_fits(query@, c.len()),
                    query_fits::<F>(query@, c.len()),
                    query.search_mode == SearchMode::Extended(*conditions),
                    settings.scheme.is_predefined(),
                    candidate.wf(),
                    c == candidate@,
                    c.len() <= max_chars(),
                    k <= n,
                    f.spec_settings() == settings,
                    settings == old(f).spec_settings(),
                    conditions_upto(settings, cs, c, k as int) == Some((total as int, list)),
                    ranges.wf(),
                    ranges.initial() == old(ranges).initial(),
                    old_ins == old(ranges).inserted(),
                    ranges.inserted() == if with_ranges {
                        insert_all(old_ins, list)
                    } else {
                        old_ins
                    },
                decreases n - k,
            {
                proof {
                    assert(cs[k as int] == conditions@[k as int]@);
                    assert forall|j: int| 0 <= j < conditions@[k as int]@.len() implies (
                    #[trigger] conditions@[k as int]@[j]).text.len() <= max_chars() by {
                        assert(cs[k as int][j] == conditions@[k as int]@[j]);
                    }
                    assert forall|j: int| 0 <= j < conditions@[k as int]@.len() implies F::fits(
                        (#[trigger] conditions@[k as int]@[j]).text.len(),
                        c.len(),
                    ) by {
                        assert(cs[k as int][j] == conditions@[k as int]@[j]);
                    }
                }
                let condition = &conditions[k];
                match condition_score(f, condition, candidate, with_ranges, ranges) {
                    None => {
                        proof {
                            lemma_conditions_none(settings, cs, c, k + 1, n as int);
                        }
                        return None;
                    },
                    Some(s) => {
                        let ghost b = spec_condition_outcome(settings, cs[k as int], c)->0;
                        proof {
                            lemma_conditions_bounded(settings, cs, c, k as int);
                            lemma_conditions_bounded(settings, cs, c, k + 1);
                            assert(conditions_upto(settings, cs, c, k + 1) == Some((total + b.0, list + b.1)));
                        }
                        assert(s == b.0);
                        proof {
                            lemma_insert_all_concat(old_ins, list, b.1);
                            list = list + b.1;
                        }
                        total = total + s;
                    },
                }
                k = k + 1;
            }
            Some(total)
        },
    }
}

/// The distance of an outcome: that of its score when it matched.
pub open spec fn outcome_distance(o: Option<(int, Seq<Range<usize>>)>) -> Option<FzfDistance> {
    match o {
        Some(x) => Some(FzfDistance::spec_from_score(x.0)),
        None => None,
    }
}

/// The ranges a buffer holds after an outcome: the ranges of a match are
/// appended, sorted and merged, when they are asked for; otherwise the buffer
/// is left as it was.
pub open spec fn ranges_after(
    old_ranges: Seq<Range<usize>>,
    o: Option<(int, Seq<Range<usize>>)>,
    with_ranges: bool,
) -> Seq<Range<usize>> {
    match o {
        Some(x) => if with_ranges {
            old_ranges + insert_all(Seq::empty(), x.1)
        } else {
            old_ranges
        },
        None => old_ranges,
    }
}

/// The distance between a query and a candidate string; with `with_ranges`,
/// the byte ranges of the candidate that matched are appended to `ranges`.
/// When the candidate does not match, `ranges` is left as it was.
pub fn fzf_distance<F: Fzf>(
    f: &mut F,
    slab: &mut CandidateSlab,
    query: &FzfQuery,
    candidate: &str,
    with_ranges: bool,
    ranges: &mut Vec<Range<usize>>,
) -> (r: Option<FzfDistance>)
    requires
        query.wf(),
        within_limits(query@),
        work_fits(query@, candidate@.len()),
        query_fits::<F>(query@, candidate@.len()),
        candidate@.len() <= max_chars(),
    ensures
        final(f).spec_settings() == old(f).spec_settings(),
        r == outcome_distance(spec_query_outcome(old(f).spec_settings(), query@, candidate@)),
        final(ranges)@ == ranges_after(
            old(ranges)@,
            spec_query_outcome(old(f).spec_settings(), query@, candidate@),
            with_ranges,
        ),
        final(ranges)@.len() >= old(ranges)@.len(),
        final(ranges)@.take(old(ranges)@.len() as int) == old(ranges)@,
        sorted_disjoint(final(ranges)@.skip(old(ranges)@.len() as int)),
{
    let cand = candidate_of(candidate, slab);
    let mut v: Vec<Range<usize>> = Vec::new();
    std::mem::swap(&mut v, ranges);
    let ghost old_v = v@;
    let old_len = v.len();
    let mut buf = MatchedRanges::from_vec(v);
    let score = query_score(f, query, cand, with_ranges, &mut buf);
    proof {
        buf.lemma_all();
        buf.lemma_sorted();
        assert(buf.all().skip(old_len as int) =~= buf.inserted());
        assert(buf.all().take(old_len as int) =~= old_v);
    }
    let mut out = buf.into_vec();
    let result = match score {
        Some(s) => Some(FzfDistance::from_score(s)),
        None => {
            out.truncate(old_len);
            assert(out@ =~= old_v);
            assert(out@.skip(old_len as int) =~= Seq::<Range<usize>>::empty());
            None
        },
    };
    std::mem::swap(&mut out, ranges);
    result
}

} // verus!
