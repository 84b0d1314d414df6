//! Every byte range that a match reports is a nonempty range of the
//! candidate's bytes that starts and ends where characters start (or at the
//! end of the candidate), so that it can be used to slice the candidate.

use vstd::prelude::*;

use std::ops::Range;

use super::common::{
    char_byte_range, chars_byte_range, exact_scan, insert_all, lemma_byte_offset_fits,
    lemma_exact_scan, lemma_score_upto, max_chars, score_matched, spec_ignored_leading,
    spec_ignored_trailing,
};
use super::engine::{
    conditions_upto, pattern_char_eq, ranges_after, spec_condition_outcome, spec_fuzzy, spec_pattern_outcome,
    spec_query_outcome, within_limits, Algorithm, FzfSettings,
};
use super::greedy::{backward_start, forward_end, greedy, lemma_backward_finds, lemma_greedy};
use super::query::{MatchType, PatternView, QueryView};
use super::scoring::{lemma_bonus_bounds, spec_char_class, Scheme};
use super::v2_spec::{lemma_v2_problem_valid, single_best, v2_problem, V2Problem};
use crate::candidate::lemma_spaces_facts;
use crate::chars::{byte_len, byte_offset, lemma_byte_offset_mono, CharEq};
use crate::matched_ranges::{
    count_ending_before, count_starting_by, covers, lemma_insert_covers, lemma_insert_sorted, mk_range,
    sorted_disjoint, spec_insert,
};

verus! {

/// `b` is the byte offset of a character of `c`, or its byte length.
pub open spec fn char_start(c: Seq<char>, b: int) -> bool {
    exists|k: int| 0 <= k <= c.len() && byte_offset(c, k) == b
}

/// The range ends within the bytes of `c`, and both its ends are offsets of
/// characters of `c` (or its byte length).
pub open spec fn at_chars(r: Range<usize>, c: Seq<char>) -> bool {
    &&& r.end <= byte_len(c)
    &&& char_start(c, r.start as int)
    &&& char_start(c, r.end as int)
}

/// Every range is a nonempty range of the bytes of the candidate `c`,
/// starting and ending at characters.
pub open spec fn ranges_in(rs: Seq<Range<usize>>, c: Seq<char>) -> bool {
    forall|i: int| 0 <= i < rs.len() ==> (#[trigger] rs[i]).start < rs[i].end && at_chars(rs[i], c)
}

/// Every range ends within the bytes of `c`, starting and ending at
/// characters.
pub open spec fn all_at_chars(rs: Seq<Range<usize>>, c: Seq<char>) -> bool {
    forall|i: int| 0 <= i < rs.len() ==> at_chars(#[trigger] rs[i], c)
}

/// The byte range of the characters `s..e`, for `s < e`, is a nonempty
/// range of the candidate's bytes.
pub proof fn lemma_chars_range_in(c: Seq<char>, s: int, e: int)
    requires
        0 <= s < e <= c.len(),
        byte_len(c) <= usize::MAX,
    ensures
        chars_byte_range(c, s, e).start < chars_byte_range(c, s, e).end,
        at_chars(chars_byte_range(c, s, e), c),
        e == s + 1 ==> chars_byte_range(c, s, e) == char_byte_range(c, s),
{
    lemma_byte_offset_fits(c, s);
    lemma_byte_offset_fits(c, e);
    lemma_byte_offset_mono(c, s + 1, e);
    lemma_byte_offset_mono(c, e, c.len() as int);
    assert(c.take(c.len() as int) =~= c);
    let r = chars_byte_range(c, s, e);
    assert(byte_offset(c, s) == r.start as int);
    assert(byte_offset(c, e) == r.end as int);
}

/// The byte ranges of characters of the candidate are nonempty ranges of
/// its bytes.
pub proof fn lemma_char_ranges_in(c: Seq<char>, ks: Seq<int>, first: int)
    requires
        byte_len(c) <= usize::MAX,
        forall|i: int| 0 <= i < ks.len() ==> 0 <= first + #[trigger] ks[i] < c.len(),
    ensures
        ranges_in(Seq::new(ks.len(), |i: int| char_byte_range(c, first + ks[i])), c),
{
    let rs = Seq::new(ks.len(), |i: int| char_byte_range(c, first + ks[i]));
    assert forall|i: int| 0 <= i < rs.len() implies (#[trigger] rs[i]).start < rs[i].end && at_chars(
        rs[i],
        c,
    ) by {
        lemma_chars_range_in(c, first + ks[i], first + ks[i] + 1);
    }
}

/// The columns that the walk back from column `col` finds lie in `0..=col`.
pub proof fn lemma_backtrace_bounds(pr: V2Problem, row: int, col: int, prefer: bool)
    ensures
        forall|k: int|
            0 <= k < pr.backtrace(row, col, prefer).len() ==> 0 <= #[trigger] pr.backtrace(
                row,
                col,
                prefer,
            )[k] <= col,
    decreases col,
{
    let bt = pr.backtrace(row, col, prefer);
    if row >= 0 && col >= 0 {
        let sc = pr.score(row, col);
        let left = if col == 0 {
            0
        } else {
            pr.score(row, col - 1)
        };
        let up_left = if col == 0 || row == 0 {
            0
        } else {
            pr.score(row - 1, col - 1)
        };
        let next_prefer = pr.consecutive(row, col) > 1 || (row < pr.height() - 1 && col < pr.width()
            - 1 && pr.consecutive(row + 1, col + 1) > 0);
        if sc > up_left && (sc > left || (sc == left && prefer)) {
            let rest = if row == 0 || col == 0 {
                Seq::<int>::empty()
            } else {
                pr.backtrace(row - 1, col - 1, next_prefer)
            };
            assert(bt == seq![col] + rest);
            if !(row == 0 || col == 0) {
                lemma_backtrace_bounds(pr, row - 1, col - 1, next_prefer);
            }
            assert forall|k: int| 0 <= k < bt.len() implies 0 <= #[trigger] bt[k] <= col by {
                if k > 0 {
                    assert(bt[k] == rest[k - 1]);
                }
            }
        } else if col > 0 {
            assert(bt == pr.backtrace(row, col - 1, next_prefer));
            lemma_backtrace_bounds(pr, row, col - 1, next_prefer);
        } else {
            assert(bt.len() == 0);
        }
    }
}

/// The place of the best single-character match before `k` lies before
/// `k` when the match scores.
pub proof fn lemma_single_best_place(c: Seq<char>, ch: char, eq: CharEq, scheme: Scheme, k: int)
    requires
        scheme.is_predefined(),
    ensures
        single_best(c, ch, eq, scheme, k).0 > 0 ==> 0 <= single_best(c, ch, eq, scheme, k).1 < k,
    decreases k,
{
    if k > 0 {
        lemma_single_best_place(c, ch, eq, scheme, k - 1);
    }
}

/// The ranges of a fuzzy match are nonempty ranges of the candidate's
/// bytes.
pub proof fn lemma_fuzzy_ranges_in(settings: FzfSettings, p: Seq<char>, c: Seq<char>)
    requires
        settings.scheme.is_predefined(),
        p.len() <= max_chars(),
        c.len() <= max_chars(),
        byte_len(c) <= usize::MAX,
    ensures
        spec_fuzzy(settings, p, c) matches Some(x) ==> ranges_in(x.1, c),
{
    let eq = pattern_char_eq(settings, p);
    let scheme = settings.scheme;
    if p.len() > 0 {
        match settings.algorithm {
            Algorithm::V1 => {
                if let Some(end) = forward_end(p, c, eq) {
                    lemma_greedy(p, c, p.len() - 1, eq);
                    lemma_backward_finds(p, c, p.len() as int, end, eq);
                    let start = backward_start(p, c, p.len() as int, end, eq);
                    lemma_score_upto(p, c, start, end, eq, scheme);
                    let ms = score_matched(p, c, start, end, eq, scheme);
                    lemma_char_ranges_in(c, ms, 0);
                    assert(Seq::new(ms.len(), |i: int| char_byte_range(c, 0 + ms[i])) =~= Seq::new(
                        ms.len(),
                        |i: int| char_byte_range(c, ms[i]),
                    ));
                }
            },
            Algorithm::V2 => {
                if p.len() == 1 {
                    lemma_single_best_place(c, p[0], eq, scheme, c.len() as int);
                    let b = single_best(c, p[0], eq, scheme, c.len() as int);
                    if b.0 != 0 {
                        lemma_single_best_nonneg(c, p[0], eq, scheme, c.len() as int);
                        lemma_chars_range_in(c, b.1, b.1 + 1);
                    }
                } else if greedy(p, c, p.len() - 1, eq) is Some {
                    lemma_v2_problem_valid(p, c, eq, scheme);
                    let pr = v2_problem(p, c, eq, scheme);
                    let first = greedy(p, c, 0, eq)->0;
                    pr.lemma_scan_best(pr.height() - 1, pr.width());
                    let b = pr.best();
                    let cols = pr.backtrace(b.1, b.2, true);
                    lemma_backtrace_bounds(pr, b.1, b.2, true);
                    lemma_char_ranges_in(c, cols, first);
                }
            },
        }
    }
}

/// The best single-character score is never negative.
proof fn lemma_single_best_nonneg(c: Seq<char>, ch: char, eq: CharEq, scheme: Scheme, k: int)
    requires
        scheme.is_predefined(),
    ensures
        single_best(c, ch, eq, scheme, k).0 >= 0,
    decreases k,
{
    if k > 0 {
        lemma_single_best_nonneg(c, ch, eq, scheme, k - 1);
    }
}

/// The ranges of a pattern's match are nonempty ranges of the candidate's
/// bytes.
pub proof fn lemma_pattern_ranges_in(settings: FzfSettings, pv: PatternView, c: Seq<char>)
    requires
        settings.scheme.is_predefined(),
        pv.text.len() <= max_chars(),
        c.len() <= max_chars(),
        byte_len(c) <= usize::MAX,
    ensures
        spec_pattern_outcome(settings, pv, c) matches Some(x) ==> ranges_in(x.1, c),
{
    let t = pv.text;
    let eq = pattern_char_eq(settings, t);
    let scheme = settings.scheme;
    lemma_spaces_facts(t);
    lemma_spaces_facts(c);
    if !pv.is_inverse && t.len() > 0 {
        match pv.match_type {
            MatchType::Fuzzy => lemma_fuzzy_ranges_in(settings, t, c),
            MatchType::Exact => {
                lemma_exact_scan(t, c, 0, scheme.initial_char_class, None, eq, scheme);
                if let Some(b) = exact_scan(t, c, 0, scheme.initial_char_class, None, eq, scheme) {
                    lemma_chars_range_in(c, b.1, b.2);
                }
            },
            MatchType::PrefixExact => {
                if let Some(lead) = spec_ignored_leading(t, c) {
                    if lead + t.len() <= c.len() {
                        lemma_chars_range_in(c, lead, lead + t.len());
                    }
                }
            },
            MatchType::SuffixExact => {
                if let Some(tr) = spec_ignored_trailing(t, c) {
                    let end = c.len() - tr;
                    if end - t.len() >= 0 && end <= c.len() {
                        lemma_chars_range_in(c, end - t.len(), end);
                    }
                }
            },
            MatchType::EqualExact => {
                if let Some(lead) = spec_ignored_leading(t, c) {
                    if let Some(tr) = spec_ignored_trailing(t, c) {
                        if c.len() - tr - lead == t.len() && lead + t.len() <= c.len() {
                            lemma_chars_range_in(c, lead, c.len() - tr);
                        }
                    }
                }
            },
        }
    }
}

/// The ranges of a condition's match are nonempty ranges of the
/// candidate's bytes.
pub proof fn lemma_condition_ranges_in(settings: FzfSettings, ps: Seq<PatternView>, c: Seq<char>)
    requires
        settings.scheme.is_predefined(),
        forall|j: int| 0 <= j < ps.len() ==> (#[trigger] ps[j]).text.len() <= max_chars(),
        c.len() <= max_chars(),
        byte_len(c) <= usize::MAX,
    ensures
        spec_condition_outcome(settings, ps, c) matches Some(x) ==> ranges_in(x.1, c),
    decreases ps.len(),
{
    if ps.len() > 0 {
        lemma_pattern_ranges_in(settings, ps[0], c);
        let rest = ps.drop_first();
        assert forall|j: int| 0 <= j < rest.len() implies (#[trigger] rest[j]).text.len() <= max_chars() by {
            assert(rest[j] == ps[j + 1]);
        }
        lemma_condition_ranges_in(settings, rest, c);
    }
}

/// The ranges of the match of the first `k` conditions are nonempty ranges
/// of the candidate's bytes.
pub proof fn lemma_conditions_ranges_in(
    settings: FzfSettings,
    cs: Seq<Seq<PatternView>>,
    c: Seq<char>,
    k: int,
)
    requires
        settings.scheme.is_predefined(),
        0 <= k <= cs.len(),
        forall|i: int, j: int|
            0 <= i < cs.len() && 0 <= j < cs[i].len() ==> (#[trigger] cs[i][j]).text.len() <= max_chars(),
        c.len() <= max_chars(),
        byte_len(c) <= usize::MAX,
    ensures
        conditions_upto(settings, cs, c, k) matches Some(x) ==> ranges_in(x.1, c),
    decreases k,
{
    if k > 0 {
        lemma_conditions_ranges_in(settings, cs, c, k - 1);
        assert forall|j: int| 0 <= j < cs[k - 1].len() implies (#[trigger] cs[k - 1][j]).text.len()
            <= max_chars() by {}
        lemma_condition_ranges_in(settings, cs[k - 1], c);
        if let Some(x) = conditions_upto(settings, cs, c, k) {
            let a = conditions_upto(settings, cs, c, k - 1)->0;
            let b = spec_condition_outcome(settings, cs[k - 1], c)->0;
            assert(x.1 == a.1 + b.1);
            assert forall|i: int| 0 <= i < x.1.len() implies (#[trigger] x.1[i]).start < x.1[i].end
                && at_chars(x.1[i], c) by {
                if i < a.1.len() {
                    assert(x.1[i] == a.1[i]);
                } else {
                    assert(x.1[i] == b.1[i - a.1.len()]);
                }
            }
        }
    }
}

/// The counts that split the ranges on an insertion lie between 0 and the
/// number of ranges.
proof fn lemma_count_bounds(rs: Seq<Range<usize>>, x: int, y: int)
    ensures
        0 <= count_ending_before(rs, x) <= rs.len(),
        0 <= count_starting_by(rs, y) <= rs.len(),
    decreases rs.len(),
{
    if rs.len() > 0 {
        lemma_count_bounds(rs.drop_last(), x, y);
    }
}

/// Inserting a range that ends within the candidate's bytes, at a
/// character, into ranges that do, gives ranges that do.
pub proof fn lemma_insert_at_chars(rs: Seq<Range<usize>>, n: Range<usize>, c: Seq<char>)
    requires
        all_at_chars(rs, c),
        at_chars(n, c),
    ensures
        all_at_chars(spec_insert(rs, n), c),
{
    let r = spec_insert(rs, n);
    let a = count_ending_before(rs, n.start as int);
    let b = count_starting_by(rs, n.end as int);
    lemma_count_bounds(rs, n.start as int, n.end as int);
    assert forall|i: int| 0 <= i < r.len() implies at_chars(#[trigger] r[i], c) by {
        if i < a {
            assert(r[i] == rs[i]);
        } else if i > a {
            assert(r[i] == rs[i - a - 1 + b]);
        } else if a < b {
            assert(at_chars(rs[a], c));
            assert(at_chars(rs[b - 1], c));
        }
    }
}

/// Inserting ranges that end within the candidate's bytes, at characters,
/// into ranges that do, gives ranges that do.
pub proof fn lemma_insert_all_at_chars(rs: Seq<Range<usize>>, list: Seq<Range<usize>>, c: Seq<char>)
    requires
        all_at_chars(rs, c),
        all_at_chars(list, c),
    ensures
        all_at_chars(insert_all(rs, list), c),
    decreases list.len(),
{
    if list.len() > 0 {
        let init = list.drop_last();
        assert forall|i: int| 0 <= i < init.len() implies at_chars(#[trigger] init[i], c) by {
            assert(init[i] == list[i]);
        }
        lemma_insert_all_at_chars(rs, init, c);
        lemma_insert_at_chars(insert_all(rs, init), list.last(), c);
    }
}

/// Inserting ranges one after the other into sorted, disjoint ranges keeps
/// them so, and covers exactly the bytes covered before together with those
/// of the inserted ranges.
pub proof fn lemma_insert_all_covers(rs: Seq<Range<usize>>, list: Seq<Range<usize>>, p: int)
    requires
        sorted_disjoint(rs),
        forall|i: int| 0 <= i < list.len() ==> (#[trigger] list[i]).start <= list[i].end,
    ensures
        sorted_disjoint(insert_all(rs, list)),
        covers(insert_all(rs, list), p) <==> (covers(rs, p) || covers(list, p)),
    decreases list.len(),
{
    if list.len() > 0 {
        let init = list.drop_last();
        let n = list.last();
        assert forall|i: int| 0 <= i < init.len() implies (#[trigger] init[i]).start <= init[i].end by {
            assert(init[i] == list[i]);
        }
        lemma_insert_all_covers(rs, init, p);
        lemma_insert_sorted(insert_all(rs, init), n);
        lemma_insert_covers(insert_all(rs, init), n, p);
        if covers(list, p) {
            let i = choose|i: int| 0 <= i < list.len() && (#[trigger] list[i]).start <= p && p < list[i].end;
            if i < init.len() {
                assert(init[i] == list[i]);
            }
        }
        if covers(init, p) {
            let i = choose|i: int| 0 <= i < init.len() && (#[trigger] init[i]).start <= p && p < init[i].end;
            assert(list[i] == init[i]);
        }
    }
}

/// The ranges that the metrics report for a match cover exactly the bytes
/// that the match's patterns matched: merging them loses no byte and adds
/// none.
pub proof fn lemma_reported_ranges_cover(settings: FzfSettings, q: QueryView, c: Seq<char>, p: int)
    requires
        settings.scheme.is_predefined(),
        within_limits(q),
        c.len() <= max_chars(),
        byte_len(c) <= usize::MAX,
    ensures
        spec_query_outcome(settings, q, c) matches Some(x) ==> (covers(insert_all(Seq::empty(), x.1), p)
            <==> covers(x.1, p)),
{
    lemma_query_ranges_in(settings, q, c);
    if let Some(x) = spec_query_outcome(settings, q, c) {
        lemma_insert_all_covers(Seq::empty(), x.1, p);
    }
}

/// The ranges of a query's match are nonempty ranges of the candidate's
/// bytes, and so are those the metrics report once merged.
pub proof fn lemma_query_ranges_in(settings: FzfSettings, q: QueryView, c: Seq<char>)
    requires
        settings.scheme.is_predefined(),
        within_limits(q),
        c.len() <= max_chars(),
        byte_len(c) <= usize::MAX,
    ensures
        spec_query_outcome(settings, q, c) matches Some(x) ==> ranges_in(x.1, c) && all_at_chars(
            insert_all(Seq::empty(), x.1),
            c,
        ),
{
    match q {
        QueryView::NotExtended(p) => {
            if p.text.len() > 0 {
                lemma_fuzzy_ranges_in(settings, p.text, c);
            }
        },
        QueryView::Extended(cs) => {
            lemma_conditions_ranges_in(settings, cs, c, cs.len() as int);
        },
    }
    if let Some(x) = spec_query_outcome(settings, q, c) {
        assert(all_at_chars(x.1, c));
        lemma_insert_all_at_chars(Seq::empty(), x.1, c);
    }
}

/// The ranges that the metrics append to the caller's buffer for a
/// candidate can slice the candidate: each ends within its bytes, at a
/// character.
pub proof fn lemma_appended_ranges_at_chars(
    settings: FzfSettings,
    q: QueryView,
    c: Seq<char>,
    before: Seq<Range<usize>>,
    with_ranges: bool,
)
    requires
        settings.scheme.is_predefined(),
        within_limits(q),
        c.len() <= max_chars(),
        byte_len(c) <= usize::MAX,
    ensures
        all_at_chars(
            ranges_after(before, spec_query_outcome(settings, q, c), with_ranges).skip(before.len() as int),
            c,
        ),
{
    lemma_query_ranges_in(settings, q, c);
    let after = ranges_after(before, spec_query_outcome(settings, q, c), with_ranges);
    if let Some(x) = spec_query_outcome(settings, q, c) {
        if with_ranges {
            assert(after.skip(before.len() as int) =~= insert_all(Seq::empty(), x.1));
        } else {
            assert(after.skip(before.len() as int) =~= Seq::<Range<usize>>::empty());
        }
    } else {
        assert(after.skip(before.len() as int) =~= Seq::<Range<usize>>::empty());
    }
}

} // verus!
