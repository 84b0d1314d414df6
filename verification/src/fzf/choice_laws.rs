//! Which occurrence a match reports, and what parsing strips from a word:
//! a one-character fuzzy pattern of the v2 algorithm takes the place with
//! the highest score; an exact pattern takes, among the occurrences that
//! follow a character other than its first, the one with the best start
//! bonus, unless it came upon one that starts at a boundary first; and a
//! parsed pattern is its word without the operators.

use vstd::prelude::*;

use super::bonus;
use super::common::{
    char_byte_range, chars_byte_range, exact_attempt, exact_scan, initial_class, lemma_attempt,
    lemma_attempt_bonus, lemma_exact_scan, matches_at, spec_exact_match, AttemptEnd,
};
use super::engine::{pattern_char_eq, spec_fuzzy, Algorithm, FzfSettings};
use super::query::{spec_parse_pattern, MatchType, PatternView};
use super::scoring::{lemma_bonus_bounds, spec_bonus, spec_char_class, CharClass, Scheme};
use super::v2_spec::single_best;
use crate::chars::CharEq;

verus! {

/// The bonus of the candidate character at `j`, given the character before
/// it (or the scheme's initial class at the start).
pub open spec fn start_bonus(c: Seq<char>, j: int, scheme: Scheme) -> int {
    spec_bonus(initial_class(c, j, scheme), spec_char_class(c[j], scheme), scheme) as int
}

/// The score of a one-character match at `j`: the score of a match plus
/// twice the bonus of its place.
pub open spec fn one_char_score(c: Seq<char>, j: int, scheme: Scheme) -> int {
    16 + 2 * start_bonus(c, j, scheme)
}

/// The best single-character match among the first `k` places is the first
/// place with the highest score, or a score of 0 when nothing matches.
proof fn lemma_single_best_is_max(c: Seq<char>, ch: char, eq: CharEq, scheme: Scheme, k: int)
    requires
        scheme.is_predefined(),
        0 <= k <= c.len(),
    ensures
        ({
            let b = single_best(c, ch, eq, scheme, k);
            &&& (exists|j: int| 0 <= j < k && #[trigger] eq.spec_eq(ch, c[j])) ==> {
                &&& 0 <= b.1 < k
                &&& eq.spec_eq(ch, c[b.1])
                &&& b.0 == one_char_score(c, b.1, scheme)
                &&& forall|j: int| 0 <= j < k && #[trigger] eq.spec_eq(ch, c[j]) ==> one_char_score(c, j, scheme) <= b.0
            }
            &&& !(exists|j: int| 0 <= j < k && #[trigger] eq.spec_eq(ch, c[j])) ==> b.0 == 0
        }),
    decreases k,
{
    if k > 0 {
        lemma_single_best_is_max(c, ch, eq, scheme, k - 1);
        lemma_bonus_bounds(initial_class(c, k - 1, scheme), spec_char_class(c[k - 1], scheme), scheme);
        let b = single_best(c, ch, eq, scheme, k);
        if exists|j: int| 0 <= j < k && #[trigger] eq.spec_eq(ch, c[j]) {
            assert forall|j: int| 0 <= j < k && #[trigger] eq.spec_eq(ch, c[j]) implies one_char_score(
                c,
                j,
                scheme,
            ) <= b.0 by {
                if j < k - 1 {
                    assert(exists|i: int| 0 <= i < k - 1 && #[trigger] eq.spec_eq(ch, c[i]));
                }
            }
            if !eq.spec_eq(ch, c[k - 1]) {
                let w = choose|j: int| 0 <= j < k && #[trigger] eq.spec_eq(ch, c[j]);
                assert(w < k - 1);
            }
        } else {
            assert(!eq.spec_eq(ch, c[k - 1]));
        }
    }
}

/// A one-character pattern of the v2 algorithm matches exactly when some
/// candidate character matches it, and then reports a place whose score,
/// that of a match plus twice the place's bonus, is the highest over every
/// place that matches; the score is that one, the range that character.
pub proof fn lemma_v2_one_char_best(settings: FzfSettings, p: Seq<char>, c: Seq<char>)
    requires
        settings.algorithm == Algorithm::V2,
        settings.scheme.is_predefined(),
        p.len() == 1,
    ensures
        ({
            let eq = pattern_char_eq(settings, p);
            let scheme = settings.scheme;
            &&& spec_fuzzy(settings, p, c) is Some <==> exists|j: int| 0 <= j < c.len() && #[trigger] eq.spec_eq(p[0], c[j])
            &&& spec_fuzzy(settings, p, c) matches Some(o) ==> exists|j: int|
                0 <= j < c.len() && #[trigger] eq.spec_eq(p[0], c[j]) && o.0 == one_char_score(c, j, scheme) && o.1
                    == seq![char_byte_range(c, j)] && forall|i: int|
                    0 <= i < c.len() && #[trigger] eq.spec_eq(p[0], c[i]) ==> one_char_score(c, i, scheme) <= o.0
        }),
{
    let eq = pattern_char_eq(settings, p);
    let scheme = settings.scheme;
    lemma_single_best_is_max(c, p[0], eq, scheme, c.len() as int);
    let b = single_best(c, p[0], eq, scheme, c.len() as int);
    if exists|j: int| 0 <= j < c.len() && #[trigger] eq.spec_eq(p[0], c[j]) {
        lemma_bonus_bounds(initial_class(c, b.1, scheme), spec_char_class(c[b.1], scheme), scheme);
        assert(eq.spec_eq(p[0], c[b.1]));
    }
}

/// An occurrence starts cleanly when nothing before it or a character that
/// does not match the pattern's first character comes before it.
pub open spec fn clean_start(p: Seq<char>, c: Seq<char>, y: int, eq: CharEq) -> bool {
    y == 0 || !eq.spec_eq(p[0], c[y - 1])
}

/// An occurrence of the pattern that starts cleanly.
pub open spec fn clean_occurrence(p: Seq<char>, c: Seq<char>, y: int, eq: CharEq) -> bool {
    matches_at(p, c, y, eq) && clean_start(p, c, y, eq)
}

/// An attempt that stays past its first character keeps its start and
/// bonus.
proof fn lemma_attempt_keeps(
    p: Seq<char>,
    c: Seq<char>,
    j: int,
    idx: int,
    pc: CharClass,
    bstart: int,
    cb: i64,
    eq: CharEq,
    scheme: Scheme,
)
    requires
        0 < idx < p.len(),
    ensures
        exact_attempt(p, c, j, idx, pc, bstart, cb, eq, scheme).bonus == cb,
        exact_attempt(p, c, j, idx, pc, bstart, cb, eq, scheme).bonus_start == bstart,
    decreases c.len() - j,
{
    if j < c.len() && eq.spec_eq(p[idx], c[j]) && idx + 1 < p.len() {
        lemma_attempt_keeps(p, c, j + 1, idx + 1, spec_char_class(c[j], scheme), bstart, cb, eq, scheme);
    }
}

/// The first character of an attempt that got past it matches the pattern's
/// first character, and its bonus is given by the class of the character
/// read before it.
proof fn lemma_attempt_first(p: Seq<char>, c: Seq<char>, j: int, pc: CharClass, eq: CharEq, scheme: Scheme)
    requires
        p.len() > 0,
        0 <= j,
    ensures
        ({
            let a = exact_attempt(p, c, j, 0, pc, 0, 0, eq, scheme);
            !(a.end is Exhausted) ==> {
                &&& j <= a.bonus_start < c.len()
                &&& eq.spec_eq(p[0], c[a.bonus_start])
                &&& a.bonus == spec_bonus(
                    if a.bonus_start == j {
                        pc
                    } else {
                        spec_char_class(c[a.bonus_start - 1], scheme)
                    },
                    spec_char_class(c[a.bonus_start], scheme),
                    scheme,
                )
            }
        }),
    decreases c.len() - j,
{
    if j < c.len() {
        let cls = spec_char_class(c[j], scheme);
        if eq.spec_eq(p[0], c[j]) {
            if p.len() > 1 {
                lemma_attempt_keeps(p, c, j + 1, 1, cls, j, spec_bonus(pc, cls, scheme), eq, scheme);
            }
        } else {
            lemma_attempt_first(p, c, j + 1, cls, eq, scheme);
        }
    }
}

/// The scan of an exact match from `s`: over the clean occurrences, the
/// best so far and what the scan reads from `s` on.
proof fn lemma_scan_clean(
    p: Seq<char>,
    c: Seq<char>,
    s: int,
    pc: CharClass,
    best: Option<(i64, int, int)>,
    eq: CharEq,
    scheme: Scheme,
)
    requires
        p.len() > 0,
        0 <= s,
        scheme.is_predefined(),
        s == 0 ==> pc == scheme.initial_char_class,
        s > 0 ==> (eq.spec_eq(p[0], c[s - 1]) || pc == spec_char_class(c[s - 1], scheme)),
        best matches Some(b) ==> {
            &&& b.1 < s
            &&& 0 <= b.0 < bonus::BOUNDARY
            &&& clean_start(p, c, b.1, eq) ==> b.0 == start_bonus(c, b.1, scheme)
        },
        forall|y: int|
            0 <= y < s && #[trigger] clean_occurrence(p, c, y, eq) ==> (best matches Some(b) && start_bonus(
                c,
                y,
                scheme,
            ) <= b.0 && (y < b.1 ==> start_bonus(c, y, scheme) < b.0)),
    ensures
        ({
            let r = exact_scan(p, c, s, pc, best, eq, scheme);
            &&& r matches Some(b) ==> 0 <= b.0 && (clean_start(p, c, b.1, eq) ==> b.0 == start_bonus(
                c,
                b.1,
                scheme,
            ))
            &&& forall|y: int|
                0 <= y && #[trigger] clean_occurrence(p, c, y, eq) ==> (r matches Some(b) && (y < b.1
                    ==> start_bonus(c, y, scheme) < b.0) && (b.0 < bonus::BOUNDARY ==> start_bonus(c, y, scheme)
                    <= b.0))
        }),
    decreases c.len() - s,
{
    let a = exact_attempt(p, c, s, 0, pc, 0, 0, eq, scheme);
    lemma_attempt(p, c, s, 0, pc, 0, 0, eq, scheme);
    lemma_attempt_first(p, c, s, pc, eq, scheme);
    lemma_attempt_bonus(p, c, s, 0, pc, 0, 0, eq, scheme);
    let bs = a.bonus_start;
    let r = exact_scan(p, c, s, pc, best, eq, scheme);
    match a.end {
        AttemptEnd::Exhausted => {
            assert(r == best);
            assert forall|y: int| 0 <= y && #[trigger] clean_occurrence(p, c, y, eq) implies y < s by {}
        },
        AttemptEnd::Mismatch(x) => {
            // A clean occurrence from `s` on starts after the attempt's start
            // and the character after it.
            assert forall|y: int| s <= y && #[trigger] clean_occurrence(p, c, y, eq) implies bs + 1 < y by {
                if y < bs {
                    assert(eq.spec_eq(p[0], c[y + 0]));
                }
                if y == bs + 1 {
                    assert(!eq.spec_eq(p[0], c[y - 1]));
                }
            }
            if x + 1 >= c.len() {
                assert(r == best);
                assert forall|y: int| 0 <= y && #[trigger] clean_occurrence(p, c, y, eq) implies y < s by {
                    if y >= s {
                        assert(y + p.len() <= c.len());
                    }
                }
            } else {
                assert(r == exact_scan(p, c, bs + 1, a.prev_class, best, eq, scheme));
                lemma_scan_clean(p, c, bs + 1, a.prev_class, best, eq, scheme);
            }
        },
        AttemptEnd::Full(x) => {
            let ab = a.bonus;
            if clean_start(p, c, bs, eq) {
                assert(ab == start_bonus(c, bs, scheme));
            }
            let bb: int = match best {
                Some(b) => b.0 as int,
                None => -1,
            };
            let best2 = if ab > bb {
                Some((ab, bs, x + 1))
            } else {
                best
            };
            assert forall|y: int| s <= y && #[trigger] clean_occurrence(p, c, y, eq) implies y == bs || bs + 1
                < y by {
                if y < bs {
                    assert(eq.spec_eq(p[0], c[y + 0]));
                }
                if y == bs + 1 {
                    assert(!eq.spec_eq(p[0], c[y - 1]));
                }
            }
            assert forall|y: int|
                0 <= y < bs + 1 && #[trigger] clean_occurrence(p, c, y, eq) implies (best2 matches Some(b)
                && start_bonus(c, y, scheme) <= b.0 && (y < b.1 ==> start_bonus(c, y, scheme) < b.0)) by {
                if y < s {
                } else {
                    assert(y == bs);
                }
            }
            if ab >= bonus::BOUNDARY || x + 1 >= c.len() {
                assert(r == best2);
                if ab >= bonus::BOUNDARY {
                    assert(best2 == Some((ab, bs, x + 1)));
                } else {
                    assert forall|y: int| 0 <= y && #[trigger] clean_occurrence(p, c, y, eq) implies y < bs
                        + 1 by {
                        if y >= bs + 1 {
                            assert(y + p.len() <= c.len());
                        }
                    }
                }
            } else {
                assert(r == exact_scan(p, c, bs + 1, a.prev_class, best2, eq, scheme));
                lemma_scan_clean(p, c, bs + 1, a.prev_class, best2, eq, scheme);
            }
        },
    }
}

/// The exact match of a non-empty pattern reports an occurrence of it. When
/// that occurrence starts cleanly, its start bonus is higher than that of
/// every clean occurrence before it; and unless that bonus reaches
/// [`bonus::BOUNDARY`], where the scan stops, no clean occurrence anywhere
/// has a higher one.
pub proof fn lemma_exact_match_best(p: Seq<char>, c: Seq<char>, eq: CharEq, scheme: Scheme)
    requires
        p.len() > 0,
        scheme.is_predefined(),
    ensures
        spec_exact_match(p, c, eq, scheme) matches Some(o) ==> exists|r: int|
            #[trigger] matches_at(p, c, r, eq) && o.1 == seq![chars_byte_range(c, r, r + p.len())] && (
            clean_start(p, c, r, eq) ==> forall|y: int|
                0 <= y && #[trigger] clean_occurrence(p, c, y, eq) ==> (y < r ==> start_bonus(c, y, scheme)
                    < start_bonus(c, r, scheme)) && (start_bonus(c, r, scheme) < bonus::BOUNDARY
                    ==> start_bonus(c, y, scheme) <= start_bonus(c, r, scheme))),
{
    lemma_exact_scan(p, c, 0, scheme.initial_char_class, None, eq, scheme);
    lemma_scan_clean(p, c, 0, scheme.initial_char_class, None, eq, scheme);
    if let Some(b) = exact_scan(p, c, 0, scheme.initial_char_class, None, eq, scheme) {
        assert(matches_at(p, c, b.1, eq));
    }
}

/// The operators in front of a parsed pattern's text: `!` for an inverse
/// pattern, then `'` where it switched between exact and fuzzy and `^` for
/// an anchor at the start.
pub open spec fn front_operators(p: PatternView) -> Seq<char> {
    (if p.is_inverse {
        seq!['!']
    } else {
        Seq::empty()
    }) + match (p.match_type, p.is_inverse) {
        (MatchType::Exact, false) => seq!['\''],
        (MatchType::Fuzzy, true) => seq!['\''],
        (MatchType::PrefixExact, _) => seq!['^'],
        (MatchType::EqualExact, _) => seq!['^'],
        _ => Seq::empty(),
    }
}

/// A parsed word is its pattern's text with the operators around it: those
/// in front of it, then possibly a `$`, which is there whenever the pattern
/// is anchored at the end; the `$` is never part of the text.
pub proof fn lemma_parse_strips_operators(t: Seq<char>)
    ensures
        spec_parse_pattern(t) matches Some(p) ==> {
            ||| t == front_operators(p) + p.text && !(p.match_type == MatchType::SuffixExact || p.match_type
                == MatchType::EqualExact)
            ||| t == front_operators(p) + p.text + seq!['$']
        },
{
    if let Some(p) = spec_parse_pattern(t) {
        let is_inverse = t.len() > 0 && t[0] == '!';
        let t1 = if is_inverse {
            t.drop_first()
        } else {
            t
        };
        let suffix = t1.len() > 1 && t1.last() == '$';
        let t2 = if suffix {
            t1.drop_last()
        } else {
            t1
        };
        if is_inverse {
            assert(t =~= seq!['!'] + t1);
        } else {
            assert(t =~= Seq::<char>::empty() + t1);
        }
        if suffix {
            assert(t1 =~= t2 + seq!['$']);
        }
        if t2.len() > 0 && (t2[0] == '\'' || t2[0] == '^') {
            assert(t2 =~= seq![t2[0]] + t2.drop_first());
        }
        assert(t == front_operators(p) + p.text || t == front_operators(p) + p.text + seq!['$']);
    }
}

/// A word `!w$`, with `w` not empty and not starting with `'` or `^`, is
/// the inverse of the pattern that `w` ends the candidate: its text is `w`.
pub proof fn lemma_parse_inverse_suffix(w: Seq<char>)
    requires
        w.len() > 0,
        w[0] != '\'',
        w[0] != '^',
    ensures
        spec_parse_pattern(seq!['!'] + w + seq!['$']) == Some(
            PatternView { text: w, match_type: MatchType::SuffixExact, is_inverse: true },
        ),
{
    let t = seq!['!'] + w + seq!['$'];
    assert(t.drop_first() =~= w + seq!['$']);
    assert((w + seq!['$']).drop_last() =~= w);
}

} // verus!
