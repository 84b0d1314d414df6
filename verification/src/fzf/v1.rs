//! fzf's v1 algorithm: the first fuzzy match, shortened from its end.

use vstd::prelude::*;

use std::ops::Range;

use super::common::{
    char_ranges, compute_score, lemma_score_upto, max_chars, opt_usize, outcome_ranges,
    outcome_score, score_matched, spec_compute_score,
};
use super::engine::{
    outcome_distance, fzf_distance, ranges_after, spec_fuzzy, spec_query_outcome, within_limits, work_fits,
    Algorithm, CandidateOpts, Fzf, FzfSettings,
};
use crate::matched::Match;
use crate::metric::Metric;
use crate::matched_ranges::sorted_disjoint;
use super::slab::candidate_of;
use super::common::chars_byte_range;
use super::greedy::{
    backward_start, forward_end, greedy, lemma_backward_finds, lemma_first_match_is,
    lemma_first_match_none, lemma_greedy, lemma_greedy_none, lemma_last_match_is,
};
use super::query::{FzfQuery, Pattern};
use super::scoring::{FzfScheme, Scheme};
use super::slab::CandidateSlab;
use super::distance::FzfDistance;
use crate::candidate::Candidate;
use crate::case_sensitivity::CaseSensitivity;
use crate::chars::CharEq;
use crate::matched_ranges::MatchedRanges;

verus! {

/// The v1 match of a pattern: the greedy left-to-right search finds where the
/// first fuzzy match ends, the greedy right-to-left search from there finds
/// the shortest match ending there, and that range is scored.
pub open spec fn spec_fuzzy_v1(p: Seq<char>, c: Seq<char>, eq: CharEq, scheme: Scheme) -> Option<
    (int, Seq<Range<usize>>),
> {
    if p.len() == 0 {
        Some((0, Seq::empty()))
    } else {
        match forward_end(p, c, eq) {
            None => None,
            Some(end) => {
                let start = backward_start(p, c, p.len() as int, end, eq);
                Some(
                    (
                        spec_compute_score(p, c, start, end, eq, scheme),
                        char_ranges(c, score_matched(p, c, start, end, eq, scheme)),
                    ),
                )
            },
        }
    }
}

/// The greedy left-to-right search: one past the candidate index where the
/// last pattern character is found, each character being looked for after
/// the previous one.
pub fn forward_pass(pattern: &Pattern, candidate: Candidate, opts: CandidateOpts) -> (r: Option<usize>)
    requires
        candidate.wf(),
        pattern.text@.len() > 0,
        opts.char_eq.is_case_sensitive == opts.is_case_sensitive,
    ensures
        match r {
            Some(e) => forward_end(pattern.text@, candidate@, opts.char_eq) == Some(e as int),
            None => forward_end(pattern.text@, candidate@, opts.char_eq) is None,
        },
{
    let ghost p = pattern.text@;
    let ghost c = candidate@;
    let plen = pattern.char_len();
    let len = candidate.char_len();
    let mut end_offset: usize = 0;
    let mut i: usize = 0;
    while i < plen
        invariant
            p == pattern.text@,
            c == candidate@,
            candidate.wf(),
            plen == p.len() > 0,
            len == c.len(),
            opts.char_eq.is_case_sensitive == opts.is_case_sensitive,
            i <= plen,
            end_offset <= len,
            i == 0 ==> end_offset == 0,
            i > 0 ==> greedy(p, c, i - 1, opts.char_eq) == Some(end_offset - 1),
        decreases plen - i,
    {
        match candidate.find_first_from(
            end_offset,
            pattern.char(i),
            opts.is_case_sensitive,
            opts.char_eq,
        ) {
            None => {
                proof {
                    lemma_first_match_none(c, end_offset as int, p[i as int], opts.char_eq);
                    assert(greedy(p, c, i as int, opts.char_eq) is None);
                    lemma_greedy_none(p, c, i as int, plen - 1, opts.char_eq);
                }
                return None;
            },
            Some(k) => {
                proof {
                    lemma_first_match_is(c, end_offset as int, p[i as int], opts.char_eq, k as int);
                }
                end_offset = k + 1;
            },
        }
        i = i + 1;
    }
    Some(end_offset)
}

/// The greedy right-to-left search from `end_offset`: the candidate index
/// where the first pattern character is found, each character being looked
/// for before the next one.
pub fn backward_pass(
    pattern: &Pattern,
    candidate: Candidate,
    end_offset: usize,
    opts: CandidateOpts,
) -> (r: usize)
    requires
        candidate.wf(),
        pattern.text@.len() > 0,
        opts.char_eq.is_case_sensitive == opts.is_case_sensitive,
        forward_end(pattern.text@, candidate@, opts.char_eq) == Some(end_offset as int),
    ensures
        r == backward_start(pattern.text@, candidate@, pattern.text@.len() as int, end_offset as int, opts.char_eq),
        r < end_offset,
{
    let ghost p = pattern.text@;
    let ghost c = candidate@;
    let plen = pattern.char_len();
    proof {
        lemma_greedy(p, c, plen - 1, opts.char_eq);
        lemma_backward_finds(p, c, plen as int, end_offset as int, opts.char_eq);
    }
    let mut start_offset = end_offset;
    let mut i = plen;
    while i > 0
        invariant
            p == pattern.text@,
            c == candidate@,
            candidate.wf(),
            plen == p.len() > 0,
            opts.char_eq.is_case_sensitive == opts.is_case_sensitive,
            i <= plen,
            start_offset <= end_offset <= c.len(),
            backward_start(p, c, i as int, start_offset as int, opts.char_eq) == backward_start(
                p,
                c,
                plen as int,
                end_offset as int,
                opts.char_eq,
            ),
            i > 0 ==> (greedy(p, c, i - 1, opts.char_eq) matches Some(g) && g < start_offset),
        decreases i,
    {
        proof {
            lemma_backward_finds(p, c, i as int, start_offset as int, opts.char_eq);
            lemma_greedy(p, c, i - 1, opts.char_eq);
        }
        let found = candidate.find_last_from(
            start_offset,
            pattern.char(i - 1),
            opts.is_case_sensitive,
            opts.char_eq,
        );
        let k = found.unwrap();
        proof {
            lemma_last_match_is(c, start_offset as int, p[i - 1], opts.char_eq, k as int);
        }
        start_offset = k;
        i = i - 1;
    }
    start_offset
}

/// A metric that implements fzf's v1 algorithm.
///
/// It looks for the first fuzzy match of the query in the candidate, then
/// goes backwards from the end of that match to find a shorter one ending at
/// the same place. It runs in time linear in the length of the candidate,
/// but its matches are often worse than those of [`FzfV2`](super::FzfV2).
#[derive(Clone, Debug)]
pub struct FzfV1 {
    candidate_slab: CandidateSlab,
    case_sensitivity: CaseSensitivity,
    candidate_normalization: bool,
    scoring_scheme: FzfScheme,
    with_matched_ranges: bool,
}

impl Fzf for FzfV1 {
    closed spec fn spec_settings(&self) -> FzfSettings {
        FzfSettings {
            algorithm: Algorithm::V1,
            matched_ranges: self.with_matched_ranges,
            case_sensitivity: self.case_sensitivity,
            candidate_normalization: self.candidate_normalization,
            scheme: self.scoring_scheme.spec_into_inner(),
        }
    }

    open spec fn fits(plen: nat, clen: nat) -> bool {
        true
    }

    fn settings(&self) -> (r: FzfSettings) {
        FzfSettings {
            algorithm: Algorithm::V1,
            matched_ranges: self.with_matched_ranges,
            case_sensitivity: self.case_sensitivity,
            candidate_normalization: self.candidate_normalization,
            scheme: self.scoring_scheme.into_inner(),
        }
    }

    fn fuzzy(
        &mut self,
        pattern: &Pattern,
        candidate: Candidate,
        with_ranges: bool,
        ranges: &mut MatchedRanges,
    ) -> (r: Option<i64>) {
        if pattern.is_empty() {
            assert(super::common::insert_all(ranges.inserted(), Seq::<Range<usize>>::empty()) == ranges.inserted());
            return Some(0);
        }
        let is_sensitive = self.case_sensitivity.is_sensitive(pattern.has_uppercase);
        let opts = CandidateOpts::new(is_sensitive, self.candidate_normalization);
        let scheme = self.scoring_scheme.into_inner();
        let end_forward = match forward_pass(pattern, candidate, opts) {
            Some(end) => end,
            None => return None,
        };
        let start_backward = backward_pass(pattern, candidate, end_forward, opts);
        let score = compute_score(
            pattern,
            candidate,
            start_backward..end_forward,
            opts.char_eq,
            &scheme,
            with_ranges,
            ranges,
        );
        Some(score)
    }
}

/// The settings of a new metric of the given algorithm: smart case, no
/// normalization, the default scheme.
pub open spec fn default_settings(algorithm: Algorithm) -> FzfSettings {
    FzfSettings {
        algorithm,
        matched_ranges: false,
        case_sensitivity: CaseSensitivity::Smart,
        candidate_normalization: false,
        scheme: FzfScheme::Default.spec_into_inner(),
    }
}

impl FzfV1 {
    /// Creates a new `FzfV1`, with smart case sensitivity, no candidate
    /// normalization and the default scoring scheme.
    pub fn new() -> (r: FzfV1)
        ensures
            r.spec_settings() == default_settings(Algorithm::V1),
    {
        FzfV1 {
            candidate_slab: CandidateSlab::new(),
            case_sensitivity: CaseSensitivity::Smart,
            candidate_normalization: false,
            scoring_scheme: FzfScheme::Default,
            with_matched_ranges: false,
        }
    }

    /// The metric as printed: see [`metric_text`](super::engine::metric_text).
    pub fn to_text(&self) -> (r: String)
        ensures
            r@ == super::engine::metric_text("FzfV1"@, self.spec_settings()),
    {
        super::engine::settings_text("FzfV1", &self.settings())
    }

    /// The current scoring scheme.
    pub fn scheme(&self) -> (r: Scheme)
        ensures
            r == self.spec_settings().scheme,
    {
        self.scoring_scheme.into_inner()
    }

    /// The buffers the metric reuses from one call to the next.
    pub closed spec fn spec_buffers(&self) -> CandidateSlab {
        self.candidate_slab
    }

    /// Sets whether multi-byte latin characters in the candidate are
    /// normalized to ASCII before comparing them to the query. The query is
    /// never normalized.
    pub fn set_candidate_normalization(&mut self, normalization: bool) -> (r: &mut FzfV1)
        ensures
            r.spec_settings() == (FzfSettings {
                candidate_normalization: normalization,
                ..old(self).spec_settings()
            }),
            *final(self) == *final(r),
            r.spec_buffers() == old(self).spec_buffers(),
    {
        self.candidate_normalization = normalization;
        self
    }

    /// Sets the case sensitivity used to compare the characters of the query
    /// and of the candidate.
    pub fn set_case_sensitivity(&mut self, case_sensitivity: CaseSensitivity) -> (r: &mut FzfV1)
        ensures
            r.spec_settings() == (FzfSettings { case_sensitivity, ..old(self).spec_settings() }),
            *final(self) == *final(r),
            r.spec_buffers() == old(self).spec_buffers(),
    {
        self.case_sensitivity = case_sensitivity;
        self
    }

    /// Sets the scoring scheme used to compute distances.
    pub fn set_scoring_scheme(&mut self, scheme: FzfScheme) -> (r: &mut FzfV1)
        ensures
            r.spec_settings() == (FzfSettings {
                scheme: scheme.spec_into_inner(),
                ..old(self).spec_settings()
            }),
            *final(self) == *final(r),
            r.spec_buffers() == old(self).spec_buffers(),
    {
        self.scoring_scheme = scheme;
        self
    }

    /// Sets the case sensitivity, as [`FzfV1::set_case_sensitivity`] does.
    pub fn with_case_sensitivity(&mut self, case_sensitivity: CaseSensitivity) -> (r: &mut FzfV1)
        ensures
            r.spec_settings() == (FzfSettings { case_sensitivity, ..old(self).spec_settings() }),
            *final(self) == *final(r),
            r.spec_buffers() == old(self).spec_buffers(),
    {
        self.case_sensitivity = case_sensitivity;
        self
    }

    /// Sets whether [`FzfV1::match_candidate`] collects the byte ranges that
    /// matched.
    pub fn with_matched_ranges(&mut self, matched_ranges: bool) -> (r: &mut FzfV1)
        ensures
            r.spec_settings() == (FzfSettings { matched_ranges, ..old(self).spec_settings() }),
            *final(self) == *final(r),
            r.spec_buffers() == old(self).spec_buffers(),
    {
        self.with_matched_ranges = matched_ranges;
        self
    }

    /// Sets candidate normalization, as
    /// [`FzfV1::set_candidate_normalization`] does.
    pub fn with_normalization(&mut self, normalization: bool) -> (r: &mut FzfV1)
        ensures
            r.spec_settings() == (FzfSettings {
                candidate_normalization: normalization,
                ..old(self).spec_settings()
            }),
            *final(self) == *final(r),
            r.spec_buffers() == old(self).spec_buffers(),
    {
        self.candidate_normalization = normalization;
        self
    }

    /// Sets the scoring scheme, as [`FzfV1::set_scoring_scheme`] does.
    pub fn with_scoring_scheme(&mut self, scheme: FzfScheme) -> (r: &mut FzfV1)
        ensures
            r.spec_settings() == (FzfSettings {
                scheme: scheme.spec_into_inner(),
                ..old(self).spec_settings()
            }),
            *final(self) == *final(r),
            r.spec_buffers() == old(self).spec_buffers(),
    {
        self.scoring_scheme = scheme;
        self
    }

    /// Matches the query against the candidate: the distance of the match,
    /// with the byte ranges that matched when the metric collects them.
    pub fn match_candidate(&mut self, query: &FzfQuery, candidate: &str) -> (r: Option<Match<FzfDistance>>)
        requires
            query.wf(),
            within_limits(query@),
            work_fits(query@, candidate@.len()),
            candidate@.len() <= max_chars(),
        ensures
            final(self).spec_settings() == old(self).spec_settings(),
            match (r, spec_query_outcome(old(self).spec_settings(), query@, candidate@)) {
                (Some(m), Some(o)) => m.spec_distance() == FzfDistance::spec_from_score(o.0) && m.spec_ranges() == if old(
                    self,
                ).spec_settings().matched_ranges {
                    super::common::insert_all(Seq::empty(), o.1)
                } else {
                    Seq::empty()
                },
                (None, None) => true,
                _ => false,
            },
    {
        let mut ranges: Vec<Range<usize>> = Vec::new();
        let with_ranges = self.with_matched_ranges;
        match self.distance_with(query, candidate, with_ranges, &mut ranges) {
            Some(d) => {
                assert(ranges@ =~= Seq::<Range<usize>>::empty() + ranges@);
                Some(Match::new(d, MatchedRanges::from_vec(ranges)))
            },
            None => None,
        }
    }

    /// The distance, with the matched ranges appended to `ranges` when
    /// `with_ranges` is set.
    fn distance_with(
        &mut self,
        query: &FzfQuery,
        candidate: &str,
        with_ranges: bool,
        ranges: &mut Vec<Range<usize>>,
    ) -> (r: Option<FzfDistance>)
        requires
            query.wf(),
            within_limits(query@),
            work_fits(query@, candidate@.len()),
            candidate@.len() <= max_chars(),
        ensures
            final(self).spec_settings() == old(self).spec_settings(),
            r == outcome_distance(spec_query_outcome(old(self).spec_settings(), query@, candidate@)),
            final(ranges)@ == ranges_after(
                old(ranges)@,
                spec_query_outcome(old(self).spec_settings(), query@, candidate@),
                with_ranges,
            ),
            final(ranges)@.len() >= old(ranges)@.len(),
            final(ranges)@.take(old(ranges)@.len() as int) == old(ranges)@,
            sorted_disjoint(final(ranges)@.skip(old(ranges)@.len() as int)),
    {
        let mut slab = CandidateSlab::new();
        std::mem::swap(&mut slab, &mut self.candidate_slab);
        let r = fzf_distance(self, &mut slab, query, candidate, with_ranges, ranges);
        std::mem::swap(&mut slab, &mut self.candidate_slab);
        r
    }

    /// The byte range of the first fuzzy match of `query` in `candidate`,
    /// shortened from its end. Unless the metric is case-sensitive, the
    /// candidate's ASCII letters are lowercased before they are compared and
    /// the query's are not, so a query with an ASCII uppercase letter then
    /// matches nothing. Candidates are not normalized.
    pub fn fuzzy_match(&self, query: &str, candidate: &str) -> (r: Option<Range<usize>>)
        requires
            query@.len() > 0,
        ensures
            ({
                let sensitive = self.spec_settings().case_sensitivity == CaseSensitivity::Sensitive;
                let eq = CharEq { is_case_sensitive: sensitive, normalize_candidate: false };
                if !sensitive && has_ascii_uppercase(query@) {
                    r is None
                } else {
                    match forward_end(query@, candidate@, eq) {
                        None => r is None,
                        Some(end) => r == Some(
                            chars_byte_range(
                                candidate@,
                                backward_start(query@, candidate@, query@.len() as int, end, eq),
                                end,
                            ),
                        ),
                    }
                }
            }),
    {
        let chars = super::parser::collect_chars(query);
        let is_sensitive = match self.case_sensitivity {
            CaseSensitivity::Sensitive => true,
            _ => false,
        };
        if !is_sensitive {
            let len = chars.len();
            let mut i: usize = 0;
            while i < len
                invariant
                    i <= len == chars@.len(),
                    chars@ == query@,
                    self.spec_settings().case_sensitivity != CaseSensitivity::Sensitive,
                    forall|j: int| 0 <= j < i ==> !('A' <= #[trigger] chars@[j] && chars@[j] <= 'Z'),
                decreases len - i,
            {
                if 'A' <= chars[i] && chars[i] <= 'Z' {
                    assert('A' <= query@[i as int] && query@[i as int] <= 'Z');
                    return None;
                }
                i += 1;
            }
        }
        let pattern = Pattern::raw(chars.as_slice());
        let mut slab = CandidateSlab::new();
        let cand = candidate_of(candidate, &mut slab);
        let opts = CandidateOpts::new(is_sensitive, false);
        let end = match forward_pass(&pattern, cand, opts) {
            Some(end) => end,
            None => return None,
        };
        let start = backward_pass(&pattern, cand, end, opts);
        proof {
            lemma_greedy(query@, candidate@, query@.len() - 1, opts.char_eq);
            super::common::lemma_byte_offset_fits(candidate@, start as int);
            super::common::lemma_byte_offset_fits(candidate@, end as int);
        }
        Some(cand.to_byte_range(start..end))
    }
}

/// Whether `s` holds an ASCII uppercase letter.
pub open spec fn has_ascii_uppercase(s: Seq<char>) -> bool {
    exists|i: int| 0 <= i < s.len() && 'A' <= #[trigger] s[i] && s[i] <= 'Z'
}

impl Default for FzfV1 {
    fn default() -> (r: Self)
        ensures
            r.spec_settings() == default_settings(Algorithm::V1),
    {
        FzfV1::new()
    }
}

impl Metric for FzfV1 {
    type Query = FzfQuery;

    type Distance = FzfDistance;

    open spec fn spec_distance(&self, query: &FzfQuery, candidate: &str) -> Option<FzfDistance> {
        outcome_distance(spec_query_outcome(self.spec_settings(), query@, candidate@))
    }

    open spec fn accepts(query: &FzfQuery, candidate: &str) -> bool {
        &&& query.wf()
        &&& within_limits(query@)
        &&& work_fits(query@, candidate@.len())
        &&& candidate@.len() <= max_chars()
    }

    fn distance(&mut self, query: &FzfQuery, candidate: &str) -> (r: Option<FzfDistance>)
        ensures
            final(self).spec_settings() == old(self).spec_settings(),
            r == outcome_distance(spec_query_outcome(old(self).spec_settings(), query@, candidate@)),
    {
        let mut ranges: Vec<Range<usize>> = Vec::new();
        self.distance_with(query, candidate, false, &mut ranges)
    }

    fn distance_and_ranges(
        &mut self,
        query: &FzfQuery,
        candidate: &str,
        ranges: &mut Vec<Range<usize>>,
    ) -> (r: Option<FzfDistance>)
        ensures
            final(self).spec_settings() == old(self).spec_settings(),
            r == outcome_distance(spec_query_outcome(old(self).spec_settings(), query@, candidate@)),
            final(ranges)@ == ranges_after(
                old(ranges)@,
                spec_query_outcome(old(self).spec_settings(), query@, candidate@),
                true,
            ),
    {
        self.distance_with(query, candidate, true, ranges)
    }
}

} // verus!
