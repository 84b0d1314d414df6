//! Scoring of a matched range, and the exact, prefix, suffix and equal
//! matches shared by both fzf algorithms.

use vstd::prelude::*;

use std::ops::Range;

use super::bonus;
use super::penalty;
use super::query::Pattern;
use super::scoring::{char_class, compute_bonus, lemma_bonus_bounds, spec_bonus, spec_char_class, CharClass, Scheme};
use crate::candidate::{spec_leading_spaces, spec_trailing_spaces, Candidate};
use crate::chars::{byte_len, byte_offset, len_utf8, lemma_byte_offset_mono, lemma_byte_offset_step, utf8_len, CharEq};
use crate::matched_ranges::{mk_range, spec_insert, MatchedRanges};

verus! {

/// The largest number of characters of a pattern or of a candidate: 2^56,
/// or `usize::MAX` where that is smaller. Strings that long need more memory
/// than a machine addresses, and the bound keeps the score of a pattern far
/// from the bounds of `i64`.
pub open spec fn max_chars() -> int {
    if usize::MAX < 0x0100_0000_0000_0000 {
        usize::MAX as int
    } else {
        0x0100_0000_0000_0000
    }
}

/// The state of the scoring of a range, after some of its characters.
pub struct ScoreState {
    /// The score so far.
    pub score: int,
    /// The candidate indices of the characters matched so far, one for each
    /// pattern character matched.
    pub matched: Seq<int>,
    /// Whether the last character was not matched.
    pub in_gap: bool,
    /// The bonus of the first character of the current run of consecutive
    /// matches.
    pub first_bonus: i64,
    /// The length of the current run of consecutive matches.
    pub consecutive: int,
    /// The class of the last character.
    pub prev_class: CharClass,
}

/// The class of the character before index `start`, or the scheme's initial
/// class at the start of the candidate.
pub open spec fn initial_class(cand: Seq<char>, start: int, scheme: Scheme) -> CharClass {
    if start == 0 {
        scheme.initial_char_class
    } else {
        spec_char_class(cand[start - 1], scheme)
    }
}

/// The state before the first character of a range starting at `start`.
pub open spec fn score_start(cand: Seq<char>, start: int, scheme: Scheme) -> ScoreState {
    ScoreState {
        score: 0,
        matched: Seq::empty(),
        in_gap: false,
        first_bonus: 0,
        consecutive: 0,
        prev_class: initial_class(cand, start, scheme),
    }
}

/// The larger of two integers.
pub open spec fn max_i64(a: i64, b: i64) -> i64 {
    if a >= b {
        a
    } else {
        b
    }
}

/// The state after the candidate character at index `k`: a character that
/// matches the next pattern character scores [`bonus::MATCH`] plus its bonus
/// (doubled for the first pattern character, and raised inside a run of
/// consecutive matches); any other character costs a gap penalty. Once every
/// pattern character is matched the state no longer changes.
pub open spec fn score_step(
    st: ScoreState,
    p: Seq<char>,
    cand: Seq<char>,
    k: int,
    eq: CharEq,
    scheme: Scheme,
) -> ScoreState {
    if st.matched.len() >= p.len() {
        st
    } else {
        let c = cand[k];
        let cls = spec_char_class(c, scheme);
        if eq.spec_eq(p[st.matched.len() as int], c) {
            let b0 = spec_bonus(st.prev_class, cls, scheme);
            let fb = if st.consecutive == 0 {
                b0
            } else if b0 >= bonus::BOUNDARY && b0 > st.first_bonus {
                b0
            } else {
                st.first_bonus
            };
            let b = if st.consecutive == 0 {
                b0
            } else {
                max_i64(max_i64(b0, fb), bonus::CONSECUTIVE)
            };
            ScoreState {
                score: st.score + bonus::MATCH + if st.matched.len() == 0 {
                    b * bonus::FIRST_QUERY_CHAR_MULTIPLIER
                } else {
                    b as int
                },
                matched: st.matched.push(k),
                in_gap: false,
                first_bonus: fb,
                consecutive: st.consecutive + 1,
                prev_class: cls,
            }
        } else {
            ScoreState {
                score: st.score - if st.in_gap {
                    penalty::GAP_EXTENSION as int
                } else {
                    penalty::GAP_START as int
                },
                matched: st.matched,
                in_gap: true,
                first_bonus: 0,
                consecutive: 0,
                prev_class: cls,
            }
        }
    }
}

/// The state after the candidate characters of indices `start..k`.
pub open spec fn score_upto(
    p: Seq<char>,
    cand: Seq<char>,
    start: int,
    k: int,
    eq: CharEq,
    scheme: Scheme,
) -> ScoreState
    decreases k - start,
{
    if k <= start {
        score_start(cand, start, scheme)
    } else {
        score_step(score_upto(p, cand, start, k - 1, eq, scheme), p, cand, k - 1, eq, scheme)
    }
}

/// The score of the pattern `p` on the candidate range `start..end`.
pub open spec fn spec_compute_score(
    p: Seq<char>,
    cand: Seq<char>,
    start: int,
    end: int,
    eq: CharEq,
    scheme: Scheme,
) -> int {
    score_upto(p, cand, start, end, eq, scheme).score
}

/// The candidate indices that the scoring of `start..end` matches.
pub open spec fn score_matched(
    p: Seq<char>,
    cand: Seq<char>,
    start: int,
    end: int,
    eq: CharEq,
    scheme: Scheme,
) -> Seq<int> {
    score_upto(p, cand, start, end, eq, scheme).matched
}

/// The byte range of the character of index `k`.
pub open spec fn char_byte_range(cand: Seq<char>, k: int) -> Range<usize> {
    mk_range(byte_offset(cand, k) as usize, byte_offset(cand, k + 1) as usize)
}

/// The byte range of the characters of indices `start..end`.
pub open spec fn chars_byte_range(cand: Seq<char>, start: int, end: int) -> Range<usize> {
    mk_range(byte_offset(cand, start) as usize, byte_offset(cand, end) as usize)
}

/// The byte ranges of the characters at the given indices.
pub open spec fn char_ranges(cand: Seq<char>, ms: Seq<int>) -> Seq<Range<usize>> {
    Seq::new(ms.len(), |i: int| char_byte_range(cand, ms[i]))
}

/// The ranges that inserting every range of `list`, in order, into `rs`
/// gives.
pub open spec fn insert_all(rs: Seq<Range<usize>>, list: Seq<Range<usize>>) -> Seq<Range<usize>>
    decreases list.len(),
{
    if list.len() == 0 {
        rs
    } else {
        spec_insert(insert_all(rs, list.drop_last()), list.last())
    }
}

/// What the scoring of a range keeps track of, step by step.
pub proof fn lemma_score_upto(
    p: Seq<char>,
    cand: Seq<char>,
    start: int,
    k: int,
    eq: CharEq,
    scheme: Scheme,
)
    requires
        scheme.is_predefined(),
        0 <= start <= k <= cand.len(),
    ensures
        ({
            let s = score_upto(p, cand, start, k, eq, scheme);
            &&& s.matched.len() <= k - start
            &&& s.matched.len() <= p.len()
            &&& -3 * (k - start) <= s.score <= 36 * s.matched.len()
            &&& 0 <= s.first_bonus <= 10
            &&& 0 <= s.consecutive <= k - start
            &&& forall|i: int|
                0 <= i < s.matched.len() ==> start <= #[trigger] s.matched[i] < k && eq.spec_eq(
                    p[i],
                    cand[s.matched[i]],
                )
            &&& forall|i: int, j: int|
                0 <= i < j < s.matched.len() ==> #[trigger] s.matched[i] < #[trigger] s.matched[j]
        }),
    decreases k - start,
{
    if k > start {
        lemma_score_upto(p, cand, start, k - 1, eq, scheme);
        let s = score_upto(p, cand, start, k - 1, eq, scheme);
        lemma_bonus_bounds(s.prev_class, spec_char_class(cand[k - 1], scheme), scheme);
    }
}

/// Once every pattern character is matched the state no longer changes.
pub proof fn lemma_score_done(
    p: Seq<char>,
    cand: Seq<char>,
    start: int,
    k1: int,
    k2: int,
    eq: CharEq,
    scheme: Scheme,
)
    requires
        start <= k1 <= k2,
        score_upto(p, cand, start, k1, eq, scheme).matched.len() >= p.len(),
    ensures
        score_upto(p, cand, start, k2, eq, scheme) == score_upto(p, cand, start, k1, eq, scheme),
    decreases k2 - k1,
{
    if k2 > k1 {
        lemma_score_done(p, cand, start, k1, k2 - 1, eq, scheme);
    }
}

/// The byte offsets of a well-formed candidate fit in `usize`.
pub proof fn lemma_byte_offset_fits(cand: Seq<char>, k: int)
    requires
        0 <= k <= cand.len(),
        byte_len(cand) <= usize::MAX,
    ensures
        byte_offset(cand, k) <= usize::MAX,
        k < cand.len() ==> byte_offset(cand, k + 1) == byte_offset(cand, k) + utf8_len(cand[k]),
        k < cand.len() ==> byte_offset(cand, k + 1) <= usize::MAX,
{
    lemma_byte_offset_mono(cand, k, cand.len() as int);
    assert(cand.take(cand.len() as int) =~= cand);
    if k < cand.len() {
        lemma_byte_offset_step(cand, k);
        lemma_byte_offset_mono(cand, k + 1, cand.len() as int);
    }
}

/// Scores the pattern on a range of candidate characters, and, when
/// `with_ranges` is set, inserts the byte range of every matched character.
pub fn compute_score(
    pattern: &Pattern,
    candidate: Candidate,
    candidate_char_range: Range<usize>,
    char_eq: CharEq,
    scheme: &Scheme,
    with_ranges: bool,
    ranges: &mut MatchedRanges,
) -> (r: i64)
    requires
        candidate.wf(),
        old(ranges).wf(),
        candidate_char_range.start <= candidate_char_range.end <= candidate@.len(),
        candidate@.len() <= max_chars(),
        pattern.text@.len() > 0,
        scheme.is_predefined(),
    ensures
        r == spec_compute_score(
            pattern.text@,
            candidate@,
            candidate_char_range.start as int,
            candidate_char_range.end as int,
            char_eq,
            *scheme,
        ),
        final(ranges).wf(),
        final(ranges).initial() == old(ranges).initial(),
        final(ranges).inserted() == if with_ranges {
            insert_all(
                old(ranges).inserted(),
                char_ranges(
                    candidate@,
                    score_matched(
                        pattern.text@,
                        candidate@,
                        candidate_char_range.start as int,
                        candidate_char_range.end as int,
                        char_eq,
                        *scheme,
                    ),
                ),
            )
        } else {
            old(ranges).inserted()
        },
{
    let ghost p = pattern.text@;
    let ghost cand = candidate@;
    let ghost old_inserted = ranges.inserted();
    let start = candidate_char_range.start;
    let end = candidate_char_range.end;
    let plen = pattern.char_len();
    let mut is_in_gap = false;
    let mut first_bonus: i64 = 0;
    let mut consecutive: usize = 0;
    let mut prev_class = if start == 0 {
        scheme.initial_char_class
    } else {
        char_class(candidate.char(start - 1), scheme)
    };
    let mut idx: usize = 0;
    let mut score: i64 = 0;
    let mut byte_pos: usize = if with_ranges {
        candidate.to_byte_offset(start)
    } else {
        0
    };
    let mut k = start;
    assert(char_ranges(cand, Seq::<int>::empty()) =~= Seq::<Range<usize>>::empty());
    while k < end
        invariant
            p == pattern.text@,
            cand == candidate@,
            candidate.wf(),
            scheme.is_predefined(),
            plen == p.len() > 0,
            start <= k <= end <= cand.len() <= max_chars(),
            start == candidate_char_range.start,
            end == candidate_char_range.end,
            ({
                let s = score_upto(p, cand, start as int, k as int, char_eq, *scheme);
                &&& score == s.score
                &&& idx == s.matched.len()
                &&& is_in_gap == s.in_gap
                &&& first_bonus == s.first_bonus
                &&& consecutive == s.consecutive
                &&& prev_class == s.prev_class
                &&& ranges.inserted() == if with_ranges {
                    insert_all(old_inserted, char_ranges(cand, s.matched))
                } else {
                    old_inserted
                }
            }),
            idx < plen,
            with_ranges ==> byte_pos == byte_offset(cand, k as int),
            ranges.wf(),
            ranges.initial() == old(ranges).initial(),
            old_inserted == old(ranges).inserted(),
        decreases end - k,
    {
        let ghost s = score_upto(p, cand, start as int, k as int, char_eq, *scheme);
        proof {
            lemma_score_upto(p, cand, start as int, k as int, char_eq, *scheme);
            lemma_bonus_bounds(s.prev_class, spec_char_class(cand[k as int], *scheme), *scheme);
            lemma_byte_offset_fits(cand, k as int);
        }
        let ch = candidate.char(k);
        let ch_class = char_class(ch, scheme);
        if char_eq.eq(pattern.char(idx), ch) {
            score = score + bonus::MATCH;
            let mut bonus = compute_bonus(prev_class, ch_class, scheme);
            if consecutive == 0 {
                first_bonus = bonus;
            } else {
                if bonus >= bonus::BOUNDARY && bonus > first_bonus {
                    first_bonus = bonus;
                }
                if first_bonus > bonus {
                    bonus = first_bonus;
                }
                if bonus::CONSECUTIVE > bonus {
                    bonus = bonus::CONSECUTIVE;
                }
            }
            score = score + if idx == 0 {
                bonus * bonus::FIRST_QUERY_CHAR_MULTIPLIER
            } else {
                bonus
            };
            if with_ranges {
                let byte_end = byte_pos + len_utf8(ch);
                proof {
                    let ms = s.matched.push(k as int);
                    assert(char_ranges(cand, ms).drop_last() =~= char_ranges(cand, s.matched));
                    assert(char_ranges(cand, ms).last() == char_byte_range(cand, k as int));
                }
                ranges.insert(byte_pos..byte_end);
                assert(ranges.inserted() == insert_all(
                    old_inserted,
                    char_ranges(cand, s.matched.push(k as int)),
                ));
            }
            is_in_gap = false;
            consecutive = consecutive + 1;
            idx = idx + 1;
            if idx == plen {
                proof {
                    let s1 = score_upto(p, cand, start as int, k + 1, char_eq, *scheme);
                    assert(s1 == score_step(s, p, cand, k as int, char_eq, *scheme));
                    assert(score == s1.score);
                    assert(s1.matched == s.matched.push(k as int));
                    assert(ranges.inserted() == if with_ranges {
                        insert_all(old_inserted, char_ranges(cand, s1.matched))
                    } else {
                        old_inserted
                    });
                    lemma_score_done(p, cand, start as int, k + 1, end as int, char_eq, *scheme);
                }
                return score;
            }
        } else {
            score = score - if is_in_gap {
                penalty::GAP_EXTENSION
            } else {
                penalty::GAP_START
            };
            is_in_gap = true;
            consecutive = 0;
            first_bonus = 0;
        }
        prev_class = ch_class;
        if with_ranges {
            byte_pos = byte_pos + len_utf8(ch);
        }
        k = k + 1;
    }
    score
}

/// The number of leading candidate spaces that a pattern skips: the spaces the
/// candidate starts with beyond those the pattern starts with, or `None` when
/// the pattern starts with more spaces than the candidate.
pub open spec fn spec_ignored_leading(p: Seq<char>, c: Seq<char>) -> Option<int> {
    if spec_leading_spaces(p) > spec_leading_spaces(c) {
        None
    } else {
        Some(spec_leading_spaces(c) - spec_leading_spaces(p))
    }
}

/// The number of trailing candidate spaces that a pattern skips.
pub open spec fn spec_ignored_trailing(p: Seq<char>, c: Seq<char>) -> Option<int> {
    if spec_trailing_spaces(p) > spec_trailing_spaces(c) {
        None
    } else {
        Some(spec_trailing_spaces(c) - spec_trailing_spaces(p))
    }
}

/// Whether the characters of `p` match those of `c` from index `at` on.
pub open spec fn matches_at(p: Seq<char>, c: Seq<char>, at: int, eq: CharEq) -> bool {
    &&& 0 <= at
    &&& at + p.len() <= c.len()
    &&& forall|i: int| 0 <= i < p.len() ==> eq.spec_eq(p[i], #[trigger] c[at + i])
}

/// The outcome of a match of `p` on the characters `start..end` of `c`: the
/// score of the range, and its byte range as the one range to insert.
pub open spec fn range_outcome(
    p: Seq<char>,
    c: Seq<char>,
    start: int,
    end: int,
    eq: CharEq,
    scheme: Scheme,
) -> (int, Seq<Range<usize>>) {
    (spec_compute_score(p, c, start, end, eq, scheme), seq![chars_byte_range(c, start, end)])
}

/// A prefix match: the candidate, past the leading spaces that the pattern
/// does not have, starts with the pattern.
pub open spec fn spec_prefix_match(p: Seq<char>, c: Seq<char>, eq: CharEq, scheme: Scheme) -> Option<
    (int, Seq<Range<usize>>),
> {
    if p.len() == 0 {
        Some((0, Seq::empty()))
    } else {
        match spec_ignored_leading(p, c) {
            None => None,
            Some(lead) => if matches_at(p, c, lead, eq) {
                Some(range_outcome(p, c, lead, lead + p.len(), eq, scheme))
            } else {
                None
            },
        }
    }
}

/// A suffix match: the candidate, before the trailing spaces that the
/// pattern does not have, ends with the pattern.
pub open spec fn spec_suffix_match(p: Seq<char>, c: Seq<char>, eq: CharEq, scheme: Scheme) -> Option<
    (int, Seq<Range<usize>>),
> {
    if p.len() == 0 {
        Some((0, Seq::empty()))
    } else {
        match spec_ignored_trailing(p, c) {
            None => None,
            Some(t) => {
                let end = c.len() - t;
                if matches_at(p, c, end - p.len(), eq) {
                    Some(range_outcome(p, c, end - p.len(), end, eq, scheme))
                } else {
                    None
                }
            },
        }
    }
}

/// An equal match: the candidate, without the leading and trailing spaces
/// that the pattern does not have, is the pattern. A candidate made only of
/// spaces never matches.
pub open spec fn spec_equal_match(p: Seq<char>, c: Seq<char>, eq: CharEq, scheme: Scheme) -> Option<
    (int, Seq<Range<usize>>),
> {
    if p.len() == 0 {
        Some((0, Seq::empty()))
    } else {
        match spec_ignored_leading(p, c) {
            None => None,
            Some(lead) => if lead == c.len() {
                None
            } else {
                match spec_ignored_trailing(p, c) {
                    None => None,
                    Some(t) => if c.len() - t - lead == p.len() && matches_at(p, c, lead, eq) {
                        Some(range_outcome(p, c, lead, c.len() - t, eq, scheme))
                    } else {
                        None
                    },
                }
            },
        }
    }
}

/// An optional count as a `usize`.
pub open spec fn opt_usize(o: Option<int>) -> Option<usize> {
    match o {
        Some(n) => Some(n as usize),
        None => None,
    }
}

/// The score of a match outcome.
pub open spec fn outcome_score(o: Option<(int, Seq<Range<usize>>)>) -> Option<i64> {
    match o {
        Some(x) => Some(x.0 as i64),
        None => None,
    }
}

/// The inserted ranges after a match outcome: the ranges of a match are
/// inserted when `with_ranges` is set; nothing changes otherwise.
pub open spec fn outcome_ranges(
    rs: Seq<Range<usize>>,
    o: Option<(int, Seq<Range<usize>>)>,
    with_ranges: bool,
) -> Seq<Range<usize>> {
    match o {
        Some(x) => if with_ranges {
            insert_all(rs, x.1)
        } else {
            rs
        },
        None => rs,
    }
}

/// The leading spaces of a candidate that the pattern skips.
pub fn ignored_candidate_leading_spaces(pattern: &Pattern, candidate: Candidate) -> (r: Option<usize>)
    requires
        pattern.wf(),
    ensures
        r == opt_usize(spec_ignored_leading(pattern.text@, candidate@)),
{
    let candidate_leading_spaces = candidate.leading_spaces();
    if pattern.leading_spaces > candidate_leading_spaces {
        None
    } else {
        Some(candidate_leading_spaces - pattern.leading_spaces)
    }
}

/// The trailing spaces of a candidate that the pattern skips.
pub fn ignored_candidate_trailing_spaces(pattern: &Pattern, candidate: Candidate) -> (r: Option<usize>)
    requires
        pattern.wf(),
    ensures
        r == opt_usize(spec_ignored_trailing(pattern.text@, candidate@)),
{
    let candidate_trailing_spaces = candidate.trailing_spaces();
    if pattern.trailing_spaces > candidate_trailing_spaces {
        None
    } else {
        Some(candidate_trailing_spaces - pattern.trailing_spaces)
    }
}

/// Whether the pattern matches the candidate from `at` on, character by
/// character.
fn matches_from(pattern: &Pattern, candidate: Candidate, at: usize, char_eq: CharEq) -> (r: bool)
    requires
        at + pattern.text@.len() <= candidate@.len(),
    ensures
        r == matches_at(pattern.text@, candidate@, at as int, char_eq),
{
    let plen = pattern.char_len();
    let len = candidate.char_len();
    let mut i: usize = 0;
    while i < plen
        invariant
            plen == pattern.text@.len(),
            len == candidate@.len(),
            at + plen <= candidate@.len(),
            i <= plen,
            forall|k: int| 0 <= k < i ==> char_eq.spec_eq(pattern.text@[k], #[trigger] candidate@[at + k]),
        decreases plen - i,
    {
        if !char_eq.eq(pattern.char(i), candidate.char(at + i)) {
            return false;
        }
        i += 1;
    }
    true
}

/// Scores a range that the pattern matches and inserts its byte range.
fn range_match(
    pattern: &Pattern,
    candidate: Candidate,
    start: usize,
    end: usize,
    char_eq: CharEq,
    scheme: &Scheme,
    with_ranges: bool,
    ranges: &mut MatchedRanges,
) -> (r: i64)
    requires
        candidate.wf(),
        old(ranges).wf(),
        start <= end <= candidate@.len(),
        candidate@.len() <= max_chars(),
        pattern.text@.len() > 0,
        scheme.is_predefined(),
    ensures
        r == range_outcome(pattern.text@, candidate@, start as int, end as int, char_eq, *scheme).0,
        final(ranges).wf(),
        final(ranges).initial() == old(ranges).initial(),
        final(ranges).inserted() == if with_ranges {
            insert_all(
                old(ranges).inserted(),
                range_outcome(pattern.text@, candidate@, start as int, end as int, char_eq, *scheme).1,
            )
        } else {
            old(ranges).inserted()
        },
{
    let score = compute_score(pattern, candidate, start..end, char_eq, scheme, false, ranges);
    if with_ranges {
        proof {
            lemma_byte_offset_fits(candidate@, start as int);
            lemma_byte_offset_fits(candidate@, end as int);
            lemma_byte_offset_mono(candidate@, start as int, end as int);
            let one = seq![chars_byte_range(candidate@, start as int, end as int)];
            assert(one.drop_last() =~= Seq::<Range<usize>>::empty());
        }
        let byte_range = candidate.to_byte_range(start..end);
        assert(byte_range == chars_byte_range(candidate@, start as int, end as int));
        let ghost before = ranges.inserted();
        ranges.insert(byte_range);
        proof {
            let one = seq![chars_byte_range(candidate@, start as int, end as int)];
            assert(insert_all(before, one.drop_last()) == before);
            assert(insert_all(before, one) == spec_insert(before, byte_range));
        }
    }
    score
}

/// Matches a pattern at the start of a candidate.
pub fn prefix_match(
    pattern: &Pattern,
    candidate: Candidate,
    char_eq: CharEq,
    scheme: &Scheme,
    with_ranges: bool,
    ranges: &mut MatchedRanges,
) -> (r: Option<i64>)
    requires
        pattern.wf(),
        candidate.wf(),
        old(ranges).wf(),
        candidate@.len() <= max_chars(),
        scheme.is_predefined(),
    ensures
        r == outcome_score(spec_prefix_match(pattern.text@, candidate@, char_eq, *scheme)),
        final(ranges).wf(),
        final(ranges).initial() == old(ranges).initial(),
        final(ranges).inserted() == outcome_ranges(
            old(ranges).inserted(),
            spec_prefix_match(pattern.text@, candidate@, char_eq, *scheme),
            with_ranges,
        ),
{
    let plen = pattern.char_len();
    if plen == 0 {
        assert(insert_all(ranges.inserted(), Seq::<Range<usize>>::empty()) == ranges.inserted());
        return Some(0);
    }
    proof {
        crate::candidate::lemma_spaces_facts(pattern.text@);
        crate::candidate::lemma_spaces_facts(candidate@);
    }
    let lead = match ignored_candidate_leading_spaces(pattern, candidate) {
        Some(n) => n,
        None => return None,
    };
    if lead > candidate.char_len() || candidate.char_len() - lead < plen {
        return None;
    }
    if !matches_from(pattern, candidate, lead, char_eq) {
        return None;
    }
    let score = range_match(pattern, candidate, lead, lead + plen, char_eq, scheme, with_ranges, ranges);
    Some(score)
}

/// Matches a pattern at the end of a candidate.
pub fn suffix_match(
    pattern: &Pattern,
    candidate: Candidate,
    char_eq: CharEq,
    scheme: &Scheme,
    with_ranges: bool,
    ranges: &mut MatchedRanges,
) -> (r: Option<i64>)
    requires
        pattern.wf(),
        candidate.wf(),
        old(ranges).wf(),
        candidate@.len() <= max_chars(),
        scheme.is_predefined(),
    ensures
        r == outcome_score(spec_suffix_match(pattern.text@, candidate@, char_eq, *scheme)),
        final(ranges).wf(),
        final(ranges).initial() == old(ranges).initial(),
        final(ranges).inserted() == outcome_ranges(
            old(ranges).inserted(),
            spec_suffix_match(pattern.text@, candidate@, char_eq, *scheme),
            with_ranges,
        ),
{
    let plen = pattern.char_len();
    if plen == 0 {
        assert(insert_all(ranges.inserted(), Seq::<Range<usize>>::empty()) == ranges.inserted());
        return Some(0);
    }
    proof {
        crate::candidate::lemma_spaces_facts(pattern.text@);
        crate::candidate::lemma_spaces_facts(candidate@);
    }
    let trail = match ignored_candidate_trailing_spaces(pattern, candidate) {
        Some(n) => n,
        None => return None,
    };
    let len = candidate.char_len();
    let up_to = len - trail;
    if up_to < plen {
        return None;
    }
    if !matches_from(pattern, candidate, up_to - plen, char_eq) {
        return None;
    }
    let score = range_match(pattern, candidate, up_to - plen, up_to, char_eq, scheme, with_ranges, ranges);
    Some(score)
}

/// Matches a pattern against a whole candidate, apart from the leading and
/// trailing spaces the pattern does not have.
pub fn equal_match(
    pattern: &Pattern,
    candidate: Candidate,
    char_eq: CharEq,
    scheme: &Scheme,
    with_ranges: bool,
    ranges: &mut MatchedRanges,
) -> (r: Option<i64>)
    requires
        pattern.wf(),
        candidate.wf(),
        old(ranges).wf(),
        candidate@.len() <= max_chars(),
        scheme.is_predefined(),
    ensures
        r == outcome_score(spec_equal_match(pattern.text@, candidate@, char_eq, *scheme)),
        final(ranges).wf(),
        final(ranges).initial() == old(ranges).initial(),
        final(ranges).inserted() == outcome_ranges(
            old(ranges).inserted(),
            spec_equal_match(pattern.text@, candidate@, char_eq, *scheme),
            with_ranges,
        ),
{
    let plen = pattern.char_len();
    if plen == 0 {
        assert(insert_all(ranges.inserted(), Seq::<Range<usize>>::empty()) == ranges.inserted());
        return Some(0);
    }
    proof {
        crate::candidate::lemma_spaces_facts(pattern.text@);
        crate::candidate::lemma_spaces_facts(candidate@);
    }
    let lead = match ignored_candidate_leading_spaces(pattern, candidate) {
        Some(n) => n,
        None => return None,
    };
    let len = candidate.char_len();
    if lead == len {
        return None;
    }
    let trail = match ignored_candidate_trailing_spaces(pattern, candidate) {
        Some(n) => n,
        None => return None,
    };
    let end = len - trail;
    if end < lead || end - lead != plen {
        return None;
    }
    if !matches_from(pattern, candidate, lead, char_eq) {
        return None;
    }
    let score = range_match(pattern, candidate, lead, end, char_eq, scheme, with_ranges, ranges);
    Some(score)
}

/// How an attempt of an exact match ends.
pub enum AttemptEnd {
    /// The candidate ran out.
    Exhausted,
    /// A character did not match after the first pattern character had.
    Mismatch(int),
    /// The last pattern character matched at this index.
    Full(int),
}

/// The end of an attempt of an exact match, and what it found.
pub struct Attempt {
    /// How and where the attempt ended.
    pub end: AttemptEnd,
    /// Where the first pattern character matched.
    pub bonus_start: int,
    /// The bonus of the first matched character.
    pub bonus: i64,
    /// The class of the last character read before the attempt ended.
    pub prev_class: CharClass,
}

/// An attempt of an exact match from candidate index `j`, with `idx` pattern
/// characters matched so far: characters are skipped until the first pattern
/// character matches, then every next character must match the next pattern
/// character. The bonus of the attempt is that of its first character, given
/// the class of the character read before it.
pub open spec fn exact_attempt(
    p: Seq<char>,
    c: Seq<char>,
    j: int,
    idx: int,
    pc: CharClass,
    bstart: int,
    cb: i64,
    eq: CharEq,
    scheme: Scheme,
) -> Attempt
    decreases c.len() - j,
{
    if j >= c.len() {
        Attempt { end: AttemptEnd::Exhausted, bonus_start: bstart, bonus: cb, prev_class: pc }
    } else {
        let cls = spec_char_class(c[j], scheme);
        if eq.spec_eq(p[idx], c[j]) {
            let bs = if idx == 0 {
                j
            } else {
                bstart
            };
            let b = if idx == 0 {
                spec_bonus(pc, cls, scheme)
            } else {
                cb
            };
            if idx + 1 >= p.len() {
                Attempt { end: AttemptEnd::Full(j), bonus_start: bs, bonus: b, prev_class: pc }
            } else {
                exact_attempt(p, c, j + 1, idx + 1, cls, bs, b, eq, scheme)
            }
        } else if idx > 0 {
            Attempt { end: AttemptEnd::Mismatch(j), bonus_start: bstart, bonus: cb, prev_class: pc }
        } else {
            exact_attempt(p, c, j + 1, 0, cls, bstart, cb, eq, scheme)
        }
    }
}

/// Where an attempt ends, and what a full match found.
pub proof fn lemma_attempt(
    p: Seq<char>,
    c: Seq<char>,
    j: int,
    idx: int,
    pc: CharClass,
    bstart: int,
    cb: i64,
    eq: CharEq,
    scheme: Scheme,
)
    requires
        0 <= j,
        0 <= idx < p.len(),
        idx > 0 ==> 0 <= bstart && bstart + idx == j && forall|i: int|
            0 <= i < idx ==> eq.spec_eq(p[i], #[trigger] c[bstart + i]),
    ensures
        ({
            let a = exact_attempt(p, c, j, idx, pc, bstart, cb, eq, scheme);
            match a.end {
                AttemptEnd::Exhausted => forall|x: int|
                    (if idx == 0 {
                        j
                    } else {
                        bstart
                    }) <= x ==> !#[trigger] matches_at(p, c, x, eq),
                AttemptEnd::Mismatch(x) => {
                    &&& j <= x < c.len()
                    &&& a.bonus_start < x
                    &&& x - a.bonus_start < p.len()
                    &&& idx == 0 ==> j <= a.bonus_start
                    &&& idx > 0 ==> a.bonus_start == bstart
                    &&& !matches_at(p, c, a.bonus_start, eq)
                    &&& idx == 0 ==> forall|k: int|
                        j <= k < a.bonus_start ==> !eq.spec_eq(p[0], #[trigger] c[k])
                },
                AttemptEnd::Full(x) => {
                    &&& j <= x < c.len()
                    &&& a.bonus_start + p.len() == x + 1
                    &&& idx == 0 ==> j <= a.bonus_start
                    &&& idx > 0 ==> a.bonus_start == bstart
                    &&& matches_at(p, c, a.bonus_start, eq)
                    &&& idx == 0 ==> forall|k: int|
                        j <= k < a.bonus_start ==> !eq.spec_eq(p[0], #[trigger] c[k])
                },
            }
        }),
    decreases c.len() - j,
{
    let a = exact_attempt(p, c, j, idx, pc, bstart, cb, eq, scheme);
    if j < c.len() {
        let cls = spec_char_class(c[j], scheme);
        if eq.spec_eq(p[idx], c[j]) {
            let bs = if idx == 0 {
                j
            } else {
                bstart
            };
            let b = if idx == 0 {
                spec_bonus(pc, cls, scheme)
            } else {
                cb
            };
            if idx + 1 >= p.len() {
                assert(a.end == AttemptEnd::Full(j));
                assert(a.bonus_start == bs);
                assert forall|i: int| 0 <= i < p.len() implies eq.spec_eq(p[i], #[trigger] c[bs + i]) by {
                    if i < idx {
                        assert(c[bs + i] == c[bstart + i]);
                    } else {
                        assert(i == idx);
                        assert(bs + i == j);
                    }
                }
                assert(matches_at(p, c, bs, eq));
            } else {
                lemma_attempt(p, c, j + 1, idx + 1, cls, bs, b, eq, scheme);
                assert(forall|i: int|
                    0 <= i < idx + 1 ==> eq.spec_eq(p[i], #[trigger] c[bs + i])) by {
                    assert forall|i: int| 0 <= i < idx + 1 implies eq.spec_eq(p[i], #[trigger] c[bs + i]) by {
                        if i < idx {
                            assert(c[bs + i] == c[bstart + i]);
                        } else {
                            assert(bs + i == j);
                        }
                    }
                }
            }
        } else if idx > 0 {
            assert(a.end == AttemptEnd::Mismatch(j));
            assert(!eq.spec_eq(p[idx], c[bstart + idx]));
            assert(!matches_at(p, c, bstart, eq));
        } else {
            lemma_attempt(p, c, j + 1, 0, cls, bstart, cb, eq, scheme);
            assert(!eq.spec_eq(p[0], c[j + 0]));
        }
    }
}

/// Under a predefined scheme the bonus of an attempt lies between 0 and 10.
pub proof fn lemma_attempt_bonus(
    p: Seq<char>,
    c: Seq<char>,
    j: int,
    idx: int,
    pc: CharClass,
    bstart: int,
    cb: i64,
    eq: CharEq,
    scheme: Scheme,
)
    requires
        scheme.is_predefined(),
        0 <= cb <= 10,
    ensures
        0 <= exact_attempt(p, c, j, idx, pc, bstart, cb, eq, scheme).bonus <= 10,
    decreases c.len() - j,
{
    let a = exact_attempt(p, c, j, idx, pc, bstart, cb, eq, scheme);
    if j < c.len() {
        let cls = spec_char_class(c[j], scheme);
        lemma_bonus_bounds(pc, cls, scheme);
        if eq.spec_eq(p[idx], c[j]) {
            let b = if idx == 0 {
                spec_bonus(pc, cls, scheme)
            } else {
                cb
            };
            let bs = if idx == 0 {
                j
            } else {
                bstart
            };
            if idx + 1 < p.len() {
                lemma_attempt_bonus(p, c, j + 1, idx + 1, cls, bs, b, eq, scheme);
                assert(a == exact_attempt(p, c, j + 1, idx + 1, cls, bs, b, eq, scheme));
            } else {
                assert(a.bonus == b);
            }
        } else if idx > 0 {
            assert(a.bonus == cb);
        } else {
            lemma_attempt_bonus(p, c, j + 1, 0, cls, bstart, cb, eq, scheme);
            assert(a == exact_attempt(p, c, j + 1, 0, cls, bstart, cb, eq, scheme));
        }
    } else {
        assert(a.bonus == cb);
    }
}

/// The bonus of the best match found so far, or -1 before any.
pub open spec fn best_bonus(best: Option<(i64, int, int)>) -> int {
    match best {
        Some(b) => b.0 as int,
        None => -1,
    }
}

/// The scan of an exact match: attempts follow one another, each starting
/// right after the first character of the previous one, until the candidate
/// runs out or a match gets a bonus of at least [`bonus::BOUNDARY`]. The
/// result is the match with the highest bonus, the first one among equals,
/// as (bonus, start, end).
pub open spec fn exact_scan(
    p: Seq<char>,
    c: Seq<char>,
    s: int,
    pc: CharClass,
    best: Option<(i64, int, int)>,
    eq: CharEq,
    scheme: Scheme,
) -> Option<(i64, int, int)>
    decreases c.len() - s,
{
    if s < 0 || p.len() == 0 {
        best
    } else {
        let a = exact_attempt(p, c, s, 0, pc, 0, 0, eq, scheme);
        match a.end {
            AttemptEnd::Exhausted => best,
            AttemptEnd::Mismatch(x) => if x + 1 >= c.len() {
                best
            } else {
                proof {
                    lemma_attempt(p, c, s, 0, pc, 0, 0, eq, scheme);
                }
                exact_scan(p, c, a.bonus_start + 1, a.prev_class, best, eq, scheme)
            },
            AttemptEnd::Full(x) => {
                let best2 = if a.bonus > best_bonus(best) {
                    Some((a.bonus, a.bonus_start, x + 1))
                } else {
                    best
                };
                if a.bonus >= bonus::BOUNDARY || x + 1 >= c.len() {
                    best2
                } else {
                    proof {
                        lemma_attempt(p, c, s, 0, pc, 0, 0, eq, scheme);
                    }
                    exact_scan(p, c, a.bonus_start + 1, a.prev_class, best2, eq, scheme)
                }
            },
        }
    }
}

/// What the exact scan keeps is an occurrence of the pattern, and it keeps
/// none only when the pattern occurs nowhere from `s` on.
pub proof fn lemma_exact_scan(
    p: Seq<char>,
    c: Seq<char>,
    s: int,
    pc: CharClass,
    best: Option<(i64, int, int)>,
    eq: CharEq,
    scheme: Scheme,
)
    requires
        p.len() > 0,
        0 <= s,
        scheme.is_predefined(),
        best matches Some(b) ==> matches_at(p, c, b.1, eq) && b.2 == b.1 + p.len(),
    ensures
        ({
            let r = exact_scan(p, c, s, pc, best, eq, scheme);
            &&& r matches Some(b) ==> matches_at(p, c, b.1, eq) && b.2 == b.1 + p.len()
            &&& r is None ==> best is None && forall|x: int| s <= x ==> !#[trigger] matches_at(p, c, x, eq)
        }),
    decreases c.len() - s,
{
    let a = exact_attempt(p, c, s, 0, pc, 0, 0, eq, scheme);
    lemma_attempt(p, c, s, 0, pc, 0, 0, eq, scheme);
    match a.end {
        AttemptEnd::Exhausted => {},
        AttemptEnd::Mismatch(x) => {
            assert forall|y: int| s <= y <= a.bonus_start implies !#[trigger] matches_at(p, c, y, eq) by {
                if y < a.bonus_start {
                    assert(!eq.spec_eq(p[0], c[y + 0]));
                }
            }
            if x + 1 >= c.len() {
                assert forall|y: int| s <= y implies !#[trigger] matches_at(p, c, y, eq) by {
                    if y > a.bonus_start {
                        assert(y + p.len() > c.len());
                    }
                }
            } else {
                lemma_exact_scan(p, c, a.bonus_start + 1, a.prev_class, best, eq, scheme);
            }
        },
        AttemptEnd::Full(x) => {
            lemma_attempt_bonus(p, c, s, 0, pc, 0, 0, eq, scheme);
            let best2 = if a.bonus > best_bonus(best) {
                Some((a.bonus, a.bonus_start, x + 1))
            } else {
                best
            };
            assert(best2 is Some);
            if !(a.bonus >= bonus::BOUNDARY || x + 1 >= c.len()) {
                lemma_exact_scan(p, c, a.bonus_start + 1, a.prev_class, best2, eq, scheme);
            }
        },
    }
}

/// The exact match of a non-empty pattern succeeds if and only if the
/// pattern occurs in the candidate, and the range it reports is an
/// occurrence.
pub proof fn lemma_exact_match_iff(p: Seq<char>, c: Seq<char>, eq: CharEq, scheme: Scheme)
    requires
        p.len() > 0,
        scheme.is_predefined(),
    ensures
        spec_exact_match(p, c, eq, scheme) is Some <==> exists|x: int| #[trigger] matches_at(p, c, x, eq),
        exact_scan(p, c, 0, scheme.initial_char_class, None, eq, scheme) matches Some(b) ==> matches_at(
            p,
            c,
            b.1,
            eq,
        ) && b.2 == b.1 + p.len(),
{
    lemma_exact_scan(p, c, 0, scheme.initial_char_class, None, eq, scheme);
    let r = exact_scan(p, c, 0, scheme.initial_char_class, None, eq, scheme);
    match r {
        None => {
            assert forall|x: int| !#[trigger] matches_at(p, c, x, eq) by {
                if x >= 0 {
                    assert(0 <= x);
                }
            }
        },
        Some(b) => {
            assert(matches_at(p, c, b.1, eq));
        },
    }
}

/// An exact match: the pattern occurs as a substring of the candidate; the
/// occurrence kept is the one that the scan of [`exact_scan`] picks.
pub open spec fn spec_exact_match(p: Seq<char>, c: Seq<char>, eq: CharEq, scheme: Scheme) -> Option<
    (int, Seq<Range<usize>>),
> {
    if p.len() == 0 {
        Some((0, Seq::empty()))
    } else {
        match exact_scan(p, c, 0, scheme.initial_char_class, None, eq, scheme) {
            None => None,
            Some(b) => Some(range_outcome(p, c, b.1, b.2, eq, scheme)),
        }
    }
}

/// The best match that the exact scan keeps, as its state says.
spec fn best_of(matched: bool, b: i64, st: usize, en: usize) -> Option<(i64, int, int)> {
    if matched {
        Some((b, st as int, en as int))
    } else {
        None
    }
}

/// Looks for the pattern as a substring of the candidate.
pub fn exact_match(
    pattern: &Pattern,
    candidate: Candidate,
    char_eq: CharEq,
    scheme: &Scheme,
    with_ranges: bool,
    ranges: &mut MatchedRanges,
) -> (r: Option<i64>)
    requires
        candidate.wf(),
        old(ranges).wf(),
        candidate@.len() <= max_chars(),
        scheme.is_predefined(),
    ensures
        r == outcome_score(spec_exact_match(pattern.text@, candidate@, char_eq, *scheme)),
        final(ranges).wf(),
        final(ranges).initial() == old(ranges).initial(),
        final(ranges).inserted() == outcome_ranges(
            old(ranges).inserted(),
            spec_exact_match(pattern.text@, candidate@, char_eq, *scheme),
            with_ranges,
        ),
{
    let plen = pattern.char_len();
    if plen == 0 {
        assert(insert_all(ranges.inserted(), Seq::<Range<usize>>::empty()) == ranges.inserted());
        return Some(0);
    }
    let len = candidate.char_len();
    let ghost p = pattern.text@;
    let ghost c = candidate@;
    let ghost target = exact_scan(p, c, 0, scheme.initial_char_class, None, char_eq, *scheme);
    let mut best_bonus: i64 = -1;
    let mut best_start: usize = 0;
    let mut best_end: usize = 0;
    let mut matched = false;
    let mut prev_class = scheme.initial_char_class;
    let mut start_offset: usize = 0;
    loop
        invariant_except_break
            start_offset <= len,
            exact_scan(
                p,
                c,
                start_offset as int,
                prev_class,
                best_of(matched, best_bonus, best_start, best_end),
                char_eq,
                *scheme,
            ) == target,
        invariant
            p == pattern.text@,
            c == candidate@,
            len == c.len(),
            plen == p.len() > 0,
            scheme.is_predefined(),
            target == exact_scan(p, c, 0, scheme.initial_char_class, None, char_eq, *scheme),
            !matched ==> best_bonus == -1,
            matched ==> best_start + plen == best_end <= len,
        ensures
            best_of(matched, best_bonus, best_start, best_end) == target,
        decreases len - start_offset,
    {
        let current_start = start_offset;
        let ghost pc0 = prev_class;
        let ghost best0 = best_of(matched, best_bonus, best_start, best_end);
        let ghost a = exact_attempt(p, c, current_start as int, 0, pc0, 0, 0, char_eq, *scheme);
        proof {
            lemma_attempt(p, c, current_start as int, 0, pc0, 0, 0, char_eq, *scheme);
        }
        let mut bonus_start: usize = 0;
        let mut current_bonus: i64 = 0;
        let mut idx: usize = 0;
        let mut j: usize = current_start;
        let mut end_kind: u8 = 0;
        loop
            invariant_except_break
                idx < plen,
                exact_attempt(p, c, j as int, idx as int, prev_class, bonus_start as int, current_bonus, char_eq, *scheme) == a,
                idx > 0 ==> bonus_start + idx == j && current_start <= bonus_start && start_offset == bonus_start + 1,
                idx > 0 ==> 0 <= current_bonus <= 10,
                idx == 0 ==> start_offset == current_start,
            invariant
                p == pattern.text@,
                c == candidate@,
                len == c.len(),
                plen == p.len() > 0,
                scheme.is_predefined(),
                current_start <= j <= len,
                a == exact_attempt(p, c, current_start as int, 0, pc0, 0, 0, char_eq, *scheme),
            ensures
                match a.end {
                    AttemptEnd::Exhausted => end_kind == 0,
                    AttemptEnd::Mismatch(x) => end_kind == 1 && j == x && prev_class == a.prev_class
                        && start_offset == a.bonus_start + 1,
                    AttemptEnd::Full(x) => end_kind == 2 && j == x && prev_class == a.prev_class
                        && start_offset == a.bonus_start + 1 && bonus_start == a.bonus_start
                        && current_bonus == a.bonus && 0 <= current_bonus <= 10,
                },
            decreases len - j,
        {
            if j >= len {
                end_kind = 0;
                break;
            }
            let ch = candidate.char(j);
            let cls = char_class(ch, scheme);
            if char_eq.eq(pattern.char(idx), ch) {
                if idx == 0 {
                    bonus_start = j;
                    start_offset = j + 1;
                    current_bonus = compute_bonus(prev_class, cls, scheme);
                    proof {
                        lemma_bonus_bounds(prev_class, cls, *scheme);
                    }
                }
                idx = idx + 1;
                if idx == plen {
                    end_kind = 2;
                    break;
                }
            } else if idx > 0 {
                end_kind = 1;
                break;
            }
            prev_class = cls;
            j = j + 1;
        }
        if end_kind == 0 {
            break;
        }
        if end_kind == 2 {
            if current_bonus > best_bonus {
                best_bonus = current_bonus;
                best_start = bonus_start;
                best_end = j + 1;
            }
            matched = true;
            if current_bonus >= bonus::BOUNDARY {
                break;
            }
        }
        if j + 1 >= len {
            break;
        }
    }
    if !matched {
        return None;
    }
    let score = range_match(pattern, candidate, best_start, best_end, char_eq, scheme, with_ranges, ranges);
    Some(score)
}

} // verus!
