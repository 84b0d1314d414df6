//! What holds of every query and candidate: how fuzzy matching relates to
//! subsequences, and how inverse patterns, OR conditions, AND of conditions
//! and empty queries behave.

use vstd::prelude::*;

use std::ops::Range;

use super::common::initial_class;
use super::engine::{
    conditions_upto, pattern_char_eq, spec_condition_outcome, spec_fuzzy, spec_pattern_outcome,
    spec_query_outcome, Algorithm, FzfSettings,
};
use super::greedy::{forward_end, fuzzy_positions, greedy, is_fuzzy_match, lemma_forward_iff_fuzzy};
use super::query::{PatternView, QueryView};
use super::scoring::{lemma_bonus_bounds, spec_char_class, Scheme};
use super::v2_spec::single_best;
use crate::chars::CharEq;

verus! {

/// The score of an outcome that matched (0 otherwise).
pub open spec fn score_of(o: Option<(int, Seq<Range<usize>>)>) -> int {
    match o {
        Some(x) => x.0,
        None => 0,
    }
}

/// The best single-character match is positive exactly when some candidate
/// character before `k` matches the character.
pub proof fn lemma_single_best_found(c: Seq<char>, ch: char, eq: CharEq, scheme: Scheme, k: int)
    requires
        scheme.is_predefined(),
        0 <= k <= c.len(),
    ensures
        single_best(c, ch, eq, scheme, k).0 >= 0,
        single_best(c, ch, eq, scheme, k).0 > 0 <==> exists|j: int|
            0 <= j < k && #[trigger] eq.spec_eq(ch, c[j]),
    decreases k,
{
    if k > 0 {
        lemma_single_best_found(c, ch, eq, scheme, k - 1);
        lemma_bonus_bounds(initial_class(c, k - 1, scheme), spec_char_class(c[k - 1], scheme), scheme);
        if eq.spec_eq(ch, c[k - 1]) {
            assert(single_best(c, ch, eq, scheme, k).0 > 0);
        } else {
            if single_best(c, ch, eq, scheme, k).0 > 0 {
                let j = choose|j: int| 0 <= j < k - 1 && #[trigger] eq.spec_eq(ch, c[j]);
                assert(0 <= j < k && eq.spec_eq(ch, c[j]));
            }
            if exists|j: int| 0 <= j < k && #[trigger] eq.spec_eq(ch, c[j]) {
                let j = choose|j: int| 0 <= j < k && #[trigger] eq.spec_eq(ch, c[j]);
                assert(j != k - 1);
                assert(0 <= j < k - 1 && eq.spec_eq(ch, c[j]));
            }
        }
    }
}

/// Fuzzy matching, with either algorithm, succeeds exactly when the
/// pattern is empty or its characters appear in the candidate in order
/// (compared as the settings say).
pub proof fn lemma_fuzzy_iff_subsequence(settings: FzfSettings, p: Seq<char>, c: Seq<char>)
    requires
        settings.scheme.is_predefined(),
    ensures
        spec_fuzzy(settings, p, c) is Some <==> (p.len() == 0 || is_fuzzy_match(
            p,
            c,
            pattern_char_eq(settings, p),
        )),
{
    let eq = pattern_char_eq(settings, p);
    if p.len() > 0 {
        lemma_forward_iff_fuzzy(p, c, eq);
        match settings.algorithm {
            Algorithm::V1 => {},
            Algorithm::V2 => {
                if p.len() == 1 {
                    lemma_single_best_found(c, p[0], eq, settings.scheme, c.len() as int);
                    if is_fuzzy_match(p, c, eq) {
                        let ms = choose|ms: Seq<int>| #[trigger] fuzzy_positions(p, c, eq, ms);
                        assert(eq.spec_eq(p[0], c[ms[0]]));
                    }
                    if exists|j: int| 0 <= j < c.len() && #[trigger] eq.spec_eq(p[0], c[j]) {
                        let j = choose|j: int| 0 <= j < c.len() && #[trigger] eq.spec_eq(p[0], c[j]);
                        assert(fuzzy_positions(p, c, eq, seq![j]));
                    }
                }
            },
        }
    }
}

/// An inverse pattern matches exactly the candidates that the same pattern,
/// not inverted, does not match; its match then has score 0 and no ranges.
pub proof fn lemma_inverse_pattern(settings: FzfSettings, p: PatternView, c: Seq<char>)
    requires
        p.is_inverse,
    ensures
        spec_pattern_outcome(settings, p, c) is Some <==> spec_pattern_outcome(
            settings,
            (PatternView { is_inverse: false, ..p }),
            c,
        ) is None,
        spec_pattern_outcome(settings, p, c) is Some ==> spec_pattern_outcome(settings, p, c) == Some(
            (0int, Seq::<Range<usize>>::empty()),
        ),
{
}

/// A condition matches exactly when one of its patterns does, and then
/// with the outcome of the first pattern that does.
pub proof fn lemma_condition_or(settings: FzfSettings, ps: Seq<PatternView>, c: Seq<char>)
    ensures
        spec_condition_outcome(settings, ps, c) is Some <==> exists|j: int|
            0 <= j < ps.len() && (#[trigger] spec_pattern_outcome(settings, ps[j], c)) is Some,
        spec_condition_outcome(settings, ps, c) is Some ==> exists|j: int|
            {
                &&& 0 <= j < ps.len()
                &&& spec_condition_outcome(settings, ps, c) == #[trigger] spec_pattern_outcome(
                    settings,
                    ps[j],
                    c,
                )
                &&& forall|i: int| 0 <= i < j ==> (#[trigger] spec_pattern_outcome(settings, ps[i], c)) is None
            },
    decreases ps.len(),
{
    if ps.len() > 0 {
        let rest = ps.drop_first();
        lemma_condition_or(settings, rest, c);
        if spec_pattern_outcome(settings, ps[0], c) is Some {
            assert(spec_pattern_outcome(settings, ps[0], c) is Some);
        } else {
            if exists|j: int| 0 <= j < ps.len() && (#[trigger] spec_pattern_outcome(settings, ps[j], c)) is Some {
                let j = choose|j: int|
                    0 <= j < ps.len() && (#[trigger] spec_pattern_outcome(settings, ps[j], c)) is Some;
                assert(rest[j - 1] == ps[j]);
            }
            if spec_condition_outcome(settings, rest, c) is Some {
                let j = choose|j: int|
                    {
                        &&& 0 <= j < rest.len()
                        &&& spec_condition_outcome(settings, rest, c) == #[trigger] spec_pattern_outcome(
                            settings,
                            rest[j],
                            c,
                        )
                        &&& forall|i: int|
                            0 <= i < j ==> (#[trigger] spec_pattern_outcome(settings, rest[i], c)) is None
                    };
                assert(rest[j] == ps[j + 1]);
                assert forall|i: int| 0 <= i < j + 1 implies (#[trigger] spec_pattern_outcome(
                    settings,
                    ps[i],
                    c,
                )) is None by {
                    if i > 0 {
                        assert(ps[i] == rest[i - 1]);
                    }
                }
            }
        }
    }
}

/// The first `k` conditions of an extended query all match exactly when
/// each of them does; the scores then add up.
pub proof fn lemma_conditions_and(settings: FzfSettings, cs: Seq<Seq<PatternView>>, c: Seq<char>, k: int)
    requires
        0 <= k <= cs.len(),
    ensures
        conditions_upto(settings, cs, c, k) is Some <==> forall|i: int|
            0 <= i < k ==> (#[trigger] spec_condition_outcome(settings, cs[i], c)) is Some,
        k > 0 && conditions_upto(settings, cs, c, k) is Some ==> score_of(
            conditions_upto(settings, cs, c, k),
        ) == score_of(conditions_upto(settings, cs, c, k - 1)) + score_of(
            spec_condition_outcome(settings, cs[k - 1], c),
        ),
    decreases k,
{
    if k > 0 {
        lemma_conditions_and(settings, cs, c, k - 1);
    }
}

/// A query with nothing to look for matches every candidate, with score 0
/// and no ranges.
pub proof fn lemma_empty_query(settings: FzfSettings, q: QueryView, c: Seq<char>)
    requires
        match q {
            QueryView::NotExtended(p) => p.text.len() == 0,
            QueryView::Extended(cs) => cs.len() == 0,
        },
    ensures
        spec_query_outcome(settings, q, c) == Some((0int, Seq::<Range<usize>>::empty())),
{
}

/// The settings with the algorithm replaced.
pub open spec fn with_algorithm(settings: FzfSettings, algorithm: Algorithm) -> FzfSettings {
    FzfSettings { algorithm, ..settings }
}

/// A pattern matches under one algorithm exactly when it matches under the
/// other.
pub proof fn lemma_pattern_same_filter(settings: FzfSettings, p: PatternView, c: Seq<char>)
    requires
        settings.scheme.is_predefined(),
    ensures
        spec_pattern_outcome(with_algorithm(settings, Algorithm::V1), p, c) is Some
            <==> spec_pattern_outcome(with_algorithm(settings, Algorithm::V2), p, c) is Some,
{
    let s1 = with_algorithm(settings, Algorithm::V1);
    let s2 = with_algorithm(settings, Algorithm::V2);
    lemma_fuzzy_iff_subsequence(s1, p.text, c);
    lemma_fuzzy_iff_subsequence(s2, p.text, c);
    assert(pattern_char_eq(s1, p.text) == pattern_char_eq(s2, p.text));
}

/// Both algorithms filter candidates alike: a query matches a candidate
/// under one exactly when it matches it under the other; they differ only
/// in the score and the ranges of the match.
pub proof fn lemma_same_filter(settings: FzfSettings, q: QueryView, c: Seq<char>)
    requires
        settings.scheme.is_predefined(),
    ensures
        spec_query_outcome(with_algorithm(settings, Algorithm::V1), q, c) is Some
            <==> spec_query_outcome(with_algorithm(settings, Algorithm::V2), q, c) is Some,
{
    let s1 = with_algorithm(settings, Algorithm::V1);
    let s2 = with_algorithm(settings, Algorithm::V2);
    match q {
        QueryView::NotExtended(p) => {
            lemma_fuzzy_iff_subsequence(s1, p.text, c);
            lemma_fuzzy_iff_subsequence(s2, p.text, c);
            assert(pattern_char_eq(s1, p.text) == pattern_char_eq(s2, p.text));
        },
        QueryView::Extended(cs) => {
            let n = cs.len() as int;
            lemma_conditions_and(s1, cs, c, n);
            lemma_conditions_and(s2, cs, c, n);
            assert forall|i: int| 0 <= i < n implies (#[trigger] spec_condition_outcome(s1, cs[i], c)) is Some
                <==> spec_condition_outcome(s2, cs[i], c) is Some by {
                let ps = cs[i];
                lemma_condition_or(s1, ps, c);
                lemma_condition_or(s2, ps, c);
                assert forall|j: int| 0 <= j < ps.len() implies (#[trigger] spec_pattern_outcome(
                    s1,
                    ps[j],
                    c,
                )) is Some <==> spec_pattern_outcome(s2, ps[j], c) is Some by {
                    lemma_pattern_same_filter(settings, ps[j], c);
                }
                if spec_condition_outcome(s1, ps, c) is Some {
                    let j = choose|j: int|
                        0 <= j < ps.len() && (#[trigger] spec_pattern_outcome(s1, ps[j], c)) is Some;
                    assert(spec_pattern_outcome(s2, ps[j], c) is Some);
                }
                if spec_condition_outcome(s2, ps, c) is Some {
                    let j = choose|j: int|
                        0 <= j < ps.len() && (#[trigger] spec_pattern_outcome(s2, ps[j], c)) is Some;
                    assert(spec_pattern_outcome(s1, ps[j], c) is Some);
                }
            }
            if conditions_upto(s1, cs, c, n) is Some {
                assert forall|i: int| 0 <= i < n implies (#[trigger] spec_condition_outcome(s2, cs[i], c)) is Some by {
                    assert(spec_condition_outcome(s1, cs[i], c) is Some);
                }
            }
            if conditions_upto(s2, cs, c, n) is Some {
                assert forall|i: int| 0 <= i < n implies (#[trigger] spec_condition_outcome(s1, cs[i], c)) is Some by {
                    assert(spec_condition_outcome(s2, cs[i], c) is Some);
                }
            }
        },
    }
}

} // verus!
