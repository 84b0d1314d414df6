//! fzf's v2 algorithm: the best alignment of the pattern in the candidate,
//! found by dynamic programming.

use vstd::prelude::*;

use std::ops::Range;

use super::bonus;
use super::candidate_v2::CandidateV2;
use super::penalty;
use super::slab::{Matrix, MatrixCell, MatrixSlab, MatchedIndicesSlab};
use super::v2_spec::{bonus_in, lemma_single_skip, single_best, spec_single_char, V2Problem};
use super::scoring::{char_class, compute_bonus, lemma_bonus_bounds, Scheme};
use super::common::{char_byte_range, insert_all, initial_class, lemma_byte_offset_fits, max_chars, outcome_ranges, outcome_score};
use super::engine::CandidateOpts;
use super::greedy::{greedy, last_match_before, lemma_first_match_is, lemma_first_match_none, lemma_greedy, lemma_greedy_none};
use super::query::Pattern;
use crate::candidate::{lemma_matches_entry, lemma_matches_start, spec_matches, Candidate};
use crate::chars::{len_utf8, CharEq};
use crate::matched_ranges::{spec_insert, MatchedRanges};
use crate::case_sensitivity::CaseSensitivity;
use super::engine::{
    outcome_distance, fzf_distance, query_fits, ranges_after, spec_query_outcome, within_limits, work_fits, Algorithm,
    Fzf, FzfSettings,
};
use super::v1::default_settings;
use super::distance::FzfDistance;
use super::query::FzfQuery;
use crate::matched::Match;
use crate::metric::Metric;
use crate::matched_ranges::sorted_disjoint;
use super::scoring::FzfScheme;
use super::slab::{CandidateSlab, V2Slab};
use super::v2_spec::{lemma_v2_problem_valid, v2_problem};

verus! {

/// `x - y`, saturating at the bounds of `i64`.
pub fn saturating_sub(x: i64, y: i64) -> (r: i64)
    requires
        0 <= y,
    ensures
        r == if x - y < i64::MIN {
            i64::MIN as int
        } else {
            x - y
        },
{
    if x < i64::MIN + y {
        i64::MIN
    } else {
        x - y
    }
}

/// The matrices hold the final scores and runs of the cells before row `i`
/// and of the cells of row `i` before column `j`, and 0 everywhere else.
#[verifier::opaque]
pub open spec fn filled(pr: V2Problem, scores: Matrix<i64>, cons: Matrix<usize>, i: int, j: int) -> bool {
    &&& scores.wf()
    &&& cons.wf()
    &&& scores.spec_height() == pr.height()
    &&& scores.spec_width() == pr.width()
    &&& cons.spec_height() == pr.height()
    &&& cons.spec_width() == pr.width()
    &&& forall|r: int, k: int|
        #![trigger scores.at(r, k)]
        #![trigger cons.at(r, k)]
        0 <= r < pr.height() && 0 <= k < pr.width() ==> if r < i || (r == i && k < j) {
            scores.at(r, k) == pr.score(r, k) && cons.at(r, k) as int == pr.consecutive(r, k)
        } else {
            scores.at(r, k) == 0 && cons.at(r, k) == 0
        }
}

/// What filled matrices hold at a cell, and their shape.
pub proof fn lemma_filled_read(
    pr: V2Problem,
    s: Matrix<i64>,
    c: Matrix<usize>,
    i: int,
    j: int,
    r: int,
    k: int,
)
    requires
        filled(pr, s, c, i, j),
        0 <= r < pr.height(),
        0 <= k < pr.width(),
    ensures
        s.wf(),
        c.wf(),
        s.spec_height() == pr.height(),
        s.spec_width() == pr.width(),
        c.spec_height() == pr.height(),
        c.spec_width() == pr.width(),
        (r < i || (r == i && k < j)) ==> s.at(r, k) == pr.score(r, k) && c.at(r, k) as int
            == pr.consecutive(r, k),
        !(r < i || (r == i && k < j)) ==> s.at(r, k) == 0 && c.at(r, k) == 0,
{
    reveal(filled);
}

/// The shape of filled matrices.
pub proof fn lemma_filled_shape(pr: V2Problem, s: Matrix<i64>, c: Matrix<usize>, i: int, j: int)
    requires
        filled(pr, s, c, i, j),
    ensures
        s.wf(),
        c.wf(),
        s.spec_height() == pr.height(),
        s.spec_width() == pr.width(),
        c.spec_height() == pr.height(),
        c.spec_width() == pr.width(),
{
    reveal(filled);
}

/// Cells before the first place of their pattern character hold 0 as they
/// should: a row is filled up to that place as soon as it is started.
pub proof fn lemma_filled_skip(pr: V2Problem, s: Matrix<i64>, c: Matrix<usize>, i: int)
    requires
        filled(pr, s, c, i, 0),
        pr.valid(),
        0 <= i < pr.height(),
    ensures
        filled(pr, s, c, i, pr.m[i]),
{
    reveal(filled);
    pr.lemma_m(i);
    assert forall|r: int, k: int|
        #![trigger s.at(r, k)]
        #![trigger c.at(r, k)]
        0 <= r < pr.height() && 0 <= k < pr.width() implies if r < i || (r == i && k < pr.m[i]) {
        s.at(r, k) == pr.score(r, k) && c.at(r, k) as int == pr.consecutive(r, k)
    } else {
        s.at(r, k) == 0 && c.at(r, k) == 0
    } by {
        if r == i && k < pr.m[i] {
            reveal(V2Problem::cell);
            assert(pr.cell(r, k) == (0int, 0int));
        }
    }
}

/// The candidate of the v2 algorithm is the part of the problem.
pub open spec fn candidate_of_problem(cand: CandidateV2, pr: V2Problem) -> bool {
    &&& cand.wf(pr.scheme)
    &&& cand.spec_base()@ == pr.s
    &&& cand.spec_base().wf()
    &&& cand.spec_initial_char_class() == pr.init
    &&& cand.spec_opts().char_eq == pr.eq
    &&& cand.spec_opts().char_eq.is_case_sensitive == cand.spec_opts().is_case_sensitive
}

/// Setting the cell of row `i` and column `j` to its final values extends
/// what the matrices hold by that cell.
pub proof fn lemma_filled_step(
    pr: V2Problem,
    s0: Matrix<i64>,
    s1: Matrix<i64>,
    c0: Matrix<usize>,
    c1: Matrix<usize>,
    i: int,
    j: int,
)
    requires
        filled(pr, s0, c0, i, j),
        0 <= i < pr.height(),
        0 <= j < pr.width(),
        s1.wf(),
        c1.wf(),
        s1.spec_height() == s0.spec_height(),
        s1.spec_width() == s0.spec_width(),
        c1.spec_height() == c0.spec_height(),
        c1.spec_width() == c0.spec_width(),
        s1.at(i, j) == pr.score(i, j),
        c1.at(i, j) as int == pr.consecutive(i, j),
        forall|r: int, k: int|
            0 <= r < pr.height() && 0 <= k < pr.width() && (r != i || k != j) ==> #[trigger] s1.at(r, k)
                == s0.at(r, k),
        forall|r: int, k: int|
            0 <= r < pr.height() && 0 <= k < pr.width() && (r != i || k != j) ==> #[trigger] c1.at(r, k)
                == c0.at(r, k),
    ensures
        filled(pr, s1, c1, i, j + 1),
{
    reveal(filled);
    assert forall|r: int, k: int|
        #![trigger s1.at(r, k)]
        #![trigger c1.at(r, k)]
        0 <= r < pr.height() && 0 <= k < pr.width() implies if r < i || (r == i && k < j + 1) {
        s1.at(r, k) == pr.score(r, k) && c1.at(r, k) as int == pr.consecutive(r, k)
    } else {
        s1.at(r, k) == 0 && c1.at(r, k) == 0
    } by {
        if r != i || k != j {
            assert(s1.at(r, k) == s0.at(r, k));
            assert(c1.at(r, k) == c0.at(r, k));
            assert(s0.at(r, k) == s0.at(r, k) && c0.at(r, k) == c0.at(r, k));
        }
    }
}

/// A full row is the start of the next one.
pub proof fn lemma_filled_row(pr: V2Problem, s: Matrix<i64>, c: Matrix<usize>, i: int)
    requires
        filled(pr, s, c, i, pr.width()),
        0 <= i,
    ensures
        filled(pr, s, c, i + 1, 0),
{
    reveal(filled);
    assert forall|r: int, k: int|
        #![trigger s.at(r, k)]
        #![trigger c.at(r, k)]
        0 <= r < pr.height() && 0 <= k < pr.width() implies if r < i + 1 || (r == i + 1 && k < 0) {
        s.at(r, k) == pr.score(r, k) && c.at(r, k) as int == pr.consecutive(r, k)
    } else {
        s.at(r, k) == 0 && c.at(r, k) == 0
    } by {
        assert(s.at(r, k) == s.at(r, k));
    }
}

/// Scores the gap cells of row `row` from column `from` to column `to`,
/// each losing a penalty from the one on its left: `first_penalty` for the
/// first, a gap extension for the others. Gives the last score and the
/// penalty left over.
pub fn fill_gap(
    scores: &mut Matrix<i64>,
    consecutives: &Matrix<usize>,
    Ghost(pr): Ghost<V2Problem>,
    row: usize,
    from: usize,
    to: usize,
    prev_score: i64,
    first_penalty: i64,
) -> (r: (i64, i64))
    requires
        pr.valid(),
        row < pr.height(),
        0 < from <= to <= pr.width(),
        pr.m[row as int] <= from - 1,
        filled(pr, *old(scores), *consecutives, row as int, from as int),
        prev_score == pr.score(row as int, from - 1),
        forall|j: int| from <= j < to ==> !#[trigger] pr.is_match(row as int, j),
        from < to ==> pr.gap_pen(row as int, from as int) == first_penalty,
        first_penalty == penalty::GAP_START || first_penalty == penalty::GAP_EXTENSION,
    ensures
        filled(pr, *final(scores), *consecutives, row as int, to as int),
        r.0 == pr.score(row as int, to - 1),
        r.1 == if to == from {
            first_penalty
        } else {
            penalty::GAP_EXTENSION
        },
        pr.scan_best(row as int, to as int) == pr.scan_best(row as int, from as int),
{
    let mut col = from;
    let mut prev = prev_score;
    let mut pen = first_penalty;
    while col < to
        invariant
            pr.valid(),
            row < pr.height(),
            0 < from <= col <= to <= pr.width(),
            pr.m[row as int] <= from - 1,
            filled(pr, *scores, *consecutives, row as int, col as int),
            prev == pr.score(row as int, col - 1),
            forall|j: int| from <= j < to ==> !#[trigger] pr.is_match(row as int, j),
            col == from && from < to ==> pr.gap_pen(row as int, from as int) == first_penalty,
            pen == if col == from {
                first_penalty
            } else {
                penalty::GAP_EXTENSION
            },
            first_penalty == penalty::GAP_START || first_penalty == penalty::GAP_EXTENSION,
            pr.scan_best(row as int, col as int) == pr.scan_best(row as int, from as int),
        decreases to - col,
    {
        proof {
            pr.lemma_cell_bounds(row as int, col - 1);
            if col > from {
                assert(!pr.is_match(row as int, col - 1));
            }
            assert(pr.gap_pen(row as int, col as int) == pen);
            assert(!pr.is_match(row as int, col as int));
        }
        let score = saturating_sub(prev, pen);
        let ghost s0 = *scores;
        proof {
            reveal(V2Problem::cell);
            lemma_filled_read(pr, *scores, *consecutives, row as int, col as int, row as int, col as int);
        }
        scores.set_at(row, col, score);
        proof {
            assert(pr.score(row as int, col as int) == score);
            assert(pr.consecutive(row as int, col as int) == 0);
            lemma_filled_step(pr, s0, *scores, *consecutives, *consecutives, row as int, col as int);
        }
        prev = score;
        pen = penalty::GAP_EXTENSION;
        col += 1;
    }
    (prev, pen)
}

/// Scores a match of the first pattern character: [`bonus::MATCH`] plus
/// twice the bonus of the character.
pub fn first_row_match(
    scores: &mut Matrix<i64>,
    consecutives: &mut Matrix<usize>,
    candidate: &mut CandidateV2,
    scheme: &Scheme,
    Ghost(pr): Ghost<V2Problem>,
    column: usize,
) -> (r: i64)
    requires
        pr.valid(),
        *scheme == pr.scheme,
        column < pr.width(),
        pr.is_match(0, column as int),
        candidate_of_problem(*old(candidate), pr),
        filled(pr, *old(scores), *old(consecutives), 0, column as int),
    ensures
        candidate_of_problem(*final(candidate), pr),
        filled(pr, *final(scores), *final(consecutives), 0, column + 1),
        r == pr.score(0, column as int),
        16 <= r <= 36,
{
    let ghost s0 = *scores;
    let ghost c0 = *consecutives;
    proof {
        lemma_filled_shape(pr, *scores, *consecutives, 0, column as int);
    }
    consecutives.set_at(0, column, 1);
    let bonus = candidate.bonus_at(column, scheme);
    proof {
        pr.lemma_bonus(column as int);
    }
    let score = bonus::MATCH + bonus * bonus::FIRST_QUERY_CHAR_MULTIPLIER;
    scores.set_at(0, column, score);
    proof {
        reveal(V2Problem::cell);
        assert(pr.score(0, column as int) == score);
        assert(pr.consecutive(0, column as int) == 1);
        lemma_filled_step(pr, s0, *scores, c0, *consecutives, 0, column as int);
    }
    score
}

/// Scores the first row: the matches of the first pattern character, and the
/// gaps between and after them. Gives the best score of the row and its cell.
#[verifier::rlimit(80)]
pub fn score_first_row(
    scores: &mut Matrix<i64>,
    consecutives: &mut Matrix<usize>,
    first_pattern_char: char,
    candidate: &mut CandidateV2,
    scheme: &Scheme,
    Ghost(pr): Ghost<V2Problem>,
) -> (r: (i64, MatrixCell))
    requires
        pr.valid(),
        first_pattern_char == pr.p[0],
        *scheme == pr.scheme,
        candidate_of_problem(*old(candidate), pr),
        filled(pr, *old(scores), *old(consecutives), 0, 0),
    ensures
        candidate_of_problem(*final(candidate), pr),
        filled(pr, *final(scores), *final(consecutives), 1, 0),
        r.0 == pr.scan_best(0, pr.width()).0,
        r.1.0 == pr.scan_best(0, pr.width()).2,
        pr.scan_best(0, pr.width()).1 == 0,
{
    proof {
        lemma_filled_shape(pr, *scores, *consecutives, 0, 0);
    }
    let width = scores.width();
    let matches = candidate.matches(first_pattern_char);
    proof {
        assert(pr.is_match(0, 0));
        lemma_matches_start(pr.s, 0, pr.width(), pr.p[0], pr.eq);
    }
    let n = matches.len();
    let mut max_score: i64 = 0;
    let mut max_col: usize = 0;
    let mut prev_score: i64 = 0;
    let mut column: usize = 0;
    let mut penalty: i64 = penalty::GAP_START;
    let mut t: usize = 0;
    while t < n
        invariant
            pr.valid(),
            *scheme == pr.scheme,
            width == pr.width(),
            n == matches@.len() > 0,
            matches@[0] == 0,
            matches@ == spec_matches(pr.s, 0, pr.width(), pr.p[0], pr.eq),
            candidate_of_problem(*candidate, pr),
            t <= n,
            t == 0 ==> column == 0 && prev_score == 0 && max_score == 0 && max_col == 0,
            t == 0 ==> filled(pr, *scores, *consecutives, 0, 0),
            t > 0 ==> column == matches@[t - 1],
            t > 0 ==> filled(pr, *scores, *consecutives, 0, column + 1),
            t > 0 ==> prev_score == pr.score(0, column as int),
            t > 0 ==> penalty == pr.left_pen(0, column as int),
            t > 0 ==> max_score == pr.scan_best(0, column + 1).0 && max_col == pr.scan_best(0, column + 1).2
                && pr.scan_best(0, column + 1).1 == 0,
            0 <= max_score <= 36,
        decreases n - t,
    {
        let char_offset = matches[t];
        proof {
            lemma_matches_entry(pr.s, 0, pr.width(), pr.p[0], pr.eq, t as int);
            assert(pr.is_match(0, char_offset as int));
        }
        penalty = penalty::GAP_START;
        if t > 0 {
            proof {
                lemma_matches_entry(pr.s, 0, pr.width(), pr.p[0], pr.eq, t - 1);
                assert(pr.is_match(0, column as int));
                pr.lemma_last_match_after(0, char_offset as int, pr.width() - 1);
                assert forall|j: int| column + 1 <= j < char_offset implies !#[trigger] pr.is_match(0, j) by {
                    assert(!pr.eq.spec_eq(pr.p[0], pr.s[j]));
                }
            }
            let (p, pen) = fill_gap(
                scores,
                consecutives,
                Ghost(pr),
                0,
                column + 1,
                char_offset,
                prev_score,
                penalty,
            );
            prev_score = p;
            penalty = pen;
        }
        column = char_offset;
        proof {
            if t > 0 {
                assert(penalty == pr.left_pen(0, column as int));
            }
            assert(max_score == pr.scan_best(0, column as int).0 && max_col == pr.scan_best(0, column as int).2
                && pr.scan_best(0, column as int).1 == 0);
        }
        let ghost prev_best = pr.scan_best(0, column as int);
        let score = first_row_match(scores, consecutives, candidate, scheme, Ghost(pr), column);
        assert(pr.scan_best(0, column + 1) == if pr.is_match(0, column as int) && score > prev_best.0 {
            (score as int, 0int, column as int)
        } else {
            prev_best
        });
        if score > max_score {
            max_score = score;
            max_col = column;
        }
        prev_score = score;
        t += 1;
    }
    proof {
        lemma_matches_entry(pr.s, 0, pr.width(), pr.p[0], pr.eq, n - 1);
        assert forall|j: int| column + 1 <= j < width implies !#[trigger] pr.is_match(0, j) by {
            assert(!pr.eq.spec_eq(pr.p[0], pr.s[j]));
        }
        pr.lemma_last_match_is(0, column as int, pr.width() - 1);
    }
    if column + 1 < width {
        let (_p, _pen) = fill_gap(
            scores,
            consecutives,
            Ghost(pr),
            0,
            column + 1,
            width,
            prev_score,
            penalty,
        );
    }
    proof {
        lemma_filled_row(pr, *scores, *consecutives, 0);
    }
    (max_score, MatrixCell(max_col))
}

/// Scores a match of a later pattern character: the better of the cell on
/// the left less its penalty and the cell up-left plus [`bonus::MATCH`] and
/// the bonus, the bonus being raised inside a run of consecutive matches.
#[verifier::rlimit(40)]
pub fn row_match(
    scores: &mut Matrix<i64>,
    consecutives: &mut Matrix<usize>,
    candidate: &mut CandidateV2,
    scheme: &Scheme,
    Ghost(pr): Ghost<V2Problem>,
    row: usize,
    column: usize,
    penalty: i64,
) -> (r: i64)
    requires
        pr.valid(),
        *scheme == pr.scheme,
        1 <= row < pr.height(),
        1 <= column < pr.width(),
        pr.is_match(row as int, column as int),
        penalty == pr.left_pen(row as int, column as int),
        candidate_of_problem(*old(candidate), pr),
        filled(pr, *old(scores), *old(consecutives), row as int, column as int),
    ensures
        candidate_of_problem(*final(candidate), pr),
        filled(pr, *final(scores), *final(consecutives), row as int, column + 1),
        r == pr.score(row as int, column as int),
{
    let ghost s0 = *scores;
    let ghost c0 = *consecutives;
    proof {
        lemma_filled_read(pr, *scores, *consecutives, row as int, column as int, row as int, column - 1);
        lemma_filled_read(pr, *scores, *consecutives, row as int, column as int, row - 1, column - 1);
        lemma_filled_read(pr, *scores, *consecutives, row as int, column as int, row as int, column as int);
        pr.lemma_cell_bounds(row as int, column - 1);
        pr.lemma_cell_bounds(row - 1, column - 1);
        pr.lemma_bonus(column as int);
    }
    let score_left = saturating_sub(scores.get_at(row, column - 1), penalty);
    let mut score_up_left = scores.get_at(row - 1, column - 1) + bonus::MATCH;
    let mut bonus = candidate.bonus_at(column, scheme);
    let mut consecutive = consecutives.get_at(row - 1, column - 1) + 1;
    let ghost cons0 = consecutive;
    if consecutive > 1 {
        let fb = candidate.bonus_at(column + 1 - consecutive, scheme);
        proof {
            pr.lemma_bonus(column + 1 - cons0);
        }
        if bonus >= bonus::BOUNDARY && bonus > fb {
            consecutive = 1;
        } else {
            if fb > bonus {
                bonus = fb;
            }
            if bonus::CONSECUTIVE > bonus {
                bonus = bonus::CONSECUTIVE;
            }
        }
    }
    if score_up_left + bonus < score_left {
        consecutive = 0;
        score_up_left = score_up_left + candidate.bonus_at(column, scheme);
    } else {
        score_up_left = score_up_left + bonus;
    }
    let score = if score_left >= score_up_left {
        score_left
    } else {
        score_up_left
    };
    consecutives.set_at(row, column, consecutive);
    scores.set_at(row, column, score);
    proof {
        reveal(V2Problem::cell);
        assert(pr.score(row as int, column as int) == score);
        assert(pr.consecutive(row as int, column as int) == consecutive);
        lemma_filled_step(pr, s0, *scores, c0, *consecutives, row as int, column as int);
    }
    score
}

/// Scores row `row`: the matches of its pattern character from its first
/// place on, and the gaps between and after them, keeping track of the best
/// cell.
#[verifier::rlimit(80)]
pub fn score_row(
    scores: &mut Matrix<i64>,
    consecutives: &mut Matrix<usize>,
    pattern_char: char,
    candidate: &mut CandidateV2,
    scheme: &Scheme,
    Ghost(pr): Ghost<V2Problem>,
    row: usize,
    first_match_offset: usize,
    max_score: i64,
    max_score_cell: MatrixCell,
) -> (r: (i64, MatrixCell))
    requires
        pr.valid(),
        *scheme == pr.scheme,
        1 <= row < pr.height(),
        pattern_char == pr.p[row as int],
        first_match_offset == pr.m[row as int],
        candidate_of_problem(*old(candidate), pr),
        filled(pr, *old(scores), *old(consecutives), row as int, 0),
        max_score == pr.scan_best(row as int, 0).0,
        max_score_cell.0 == pr.scan_best(row as int, 0).1 * pr.width() + pr.scan_best(row as int, 0).2,
    ensures
        candidate_of_problem(*final(candidate), pr),
        filled(pr, *final(scores), *final(consecutives), row + 1, 0),
        r.0 == pr.scan_best(row + 1, 0).0,
        r.1.0 == pr.scan_best(row + 1, 0).1 * pr.width() + pr.scan_best(row + 1, 0).2,
{
    proof {
        lemma_filled_shape(pr, *scores, *consecutives, row as int, 0);
        lemma_filled_skip(pr, *scores, *consecutives, row as int);
        pr.lemma_m(row as int);
        assert(pr.is_match(row as int, pr.m[row as int]));
        lemma_matches_start(pr.s, pr.m[row as int], pr.width(), pr.p[row as int], pr.eq);
        assert forall|j: int| 0 <= j < first_match_offset implies !#[trigger] pr.is_match(row as int, j) by {}
        pr.lemma_scan_skip(row as int, 0, first_match_offset as int);
    }
    let width = scores.width();
    let matches = candidate.matches_from(first_match_offset, pattern_char);
    let n = matches.len();
    let mut best = max_score;
    let mut best_cell = max_score_cell;
    let mut prev_score: i64 = 0;
    let mut column: usize = first_match_offset;
    let mut penalty: i64 = penalty::GAP_START;
    let mut t: usize = 0;
    while t < n
        invariant
            pr.valid(),
            *scheme == pr.scheme,
            1 <= row < pr.height(),
            width == pr.width(),
            pattern_char == pr.p[row as int],
            first_match_offset == pr.m[row as int],
            1 <= first_match_offset < width,
            n == matches@.len() > 0,
            matches@ == spec_matches(pr.s, pr.m[row as int], pr.width(), pr.p[row as int], pr.eq),
            matches@[0] == first_match_offset,
            candidate_of_problem(*candidate, pr),
            t <= n,
            t == 0 ==> column == first_match_offset,
            t == 0 ==> filled(pr, *scores, *consecutives, row as int, first_match_offset as int),
            t == 0 ==> best == pr.scan_best(row as int, first_match_offset as int).0 && best_cell.0
                == pr.scan_best(row as int, first_match_offset as int).1 * pr.width() + pr.scan_best(
                row as int,
                first_match_offset as int,
            ).2,
            t > 0 ==> column == matches@[t - 1],
            t > 0 ==> filled(pr, *scores, *consecutives, row as int, column + 1),
            t > 0 ==> prev_score == pr.score(row as int, column as int),
            t > 0 ==> penalty == pr.left_pen(row as int, column as int),
            t > 0 ==> best == pr.scan_best(row as int, column + 1).0 && best_cell.0 == pr.scan_best(
                row as int,
                column + 1,
            ).1 * pr.width() + pr.scan_best(row as int, column + 1).2,
        decreases n - t,
    {
        let char_offset = matches[t];
        proof {
            lemma_matches_entry(pr.s, pr.m[row as int], pr.width(), pr.p[row as int], pr.eq, t as int);
            assert(pr.is_match(row as int, char_offset as int));
        }
        penalty = penalty::GAP_START;
        if t > 0 {
            proof {
                lemma_matches_entry(pr.s, pr.m[row as int], pr.width(), pr.p[row as int], pr.eq, t - 1);
                assert(pr.is_match(row as int, column as int));
                pr.lemma_last_match_after(row as int, char_offset as int, pr.width() - 1);
                assert forall|j: int| column + 1 <= j < char_offset implies !#[trigger] pr.is_match(row as int, j) by {
                    assert(!pr.eq.spec_eq(pr.p[row as int], pr.s[j]));
                }
            }
            let (p, pen) = fill_gap(
                scores,
                consecutives,
                Ghost(pr),
                row,
                column + 1,
                char_offset,
                prev_score,
                penalty,
            );
            penalty = pen;
        }
        column = char_offset;
        let ghost prev_best = pr.scan_best(row as int, column as int);
        let score = row_match(scores, consecutives, candidate, scheme, Ghost(pr), row, column, penalty);
        proof {
            pr.lemma_cell_bounds(row as int, column as int);
            lemma_filled_shape(pr, *scores, *consecutives, row as int, column + 1);
        }
        assert(pr.scan_best(row as int, column + 1) == if pr.is_match(row as int, column as int) && score
            > prev_best.0 {
            (score as int, row as int, column as int)
        } else {
            prev_best
        });
        if score > best {
            best = score;
            best_cell = scores.cell_at(row, column);
        }
        prev_score = score;
        t += 1;
    }
    proof {
        lemma_matches_entry(pr.s, pr.m[row as int], pr.width(), pr.p[row as int], pr.eq, n - 1);
        assert forall|j: int| column + 1 <= j < width implies !#[trigger] pr.is_match(row as int, j) by {
            assert(!pr.eq.spec_eq(pr.p[row as int], pr.s[j]));
        }
        pr.lemma_last_match_is(row as int, column as int, pr.width() - 1);
    }
    if column + 1 < width {
        let (_p, _pen) = fill_gap(
            scores,
            consecutives,
            Ghost(pr),
            row,
            column + 1,
            width,
            prev_score,
            penalty,
        );
    }
    proof {
        lemma_filled_row(pr, *scores, *consecutives, row as int);
    }
    (best, best_cell)
}

/// All-zero matrices are filled up to nothing.
pub proof fn lemma_filled_start(pr: V2Problem, s: Matrix<i64>, c: Matrix<usize>)
    requires
        s.wf(),
        c.wf(),
        s.spec_height() == pr.height(),
        s.spec_width() == pr.width(),
        c.spec_height() == pr.height(),
        c.spec_width() == pr.width(),
        forall|k: int| 0 <= k < s.cells().len() ==> #[trigger] s.cells()[k] == 0,
        forall|k: int| 0 <= k < c.cells().len() ==> #[trigger] c.cells()[k] == 0,
    ensures
        filled(pr, s, c, 0, 0),
{
    reveal(filled);
    assert forall|r: int, k: int|
        #![trigger s.at(r, k)]
        #![trigger c.at(r, k)]
        0 <= r < pr.height() && 0 <= k < pr.width() implies s.at(r, k) == 0 && c.at(r, k) == 0 by {
        super::slab::lemma_cell_index(r, k, pr.width(), pr.height());
    }
}

/// Fills the score and run matrices and gives the best score and its cell.
pub fn score(
    scoring_slab: &mut MatrixSlab<i64>,
    consecutive_slab: &mut MatrixSlab<usize>,
    pattern: &Pattern,
    candidate: &mut CandidateV2,
    matches: &Vec<usize>,
    scheme: &Scheme,
    Ghost(pr): Ghost<V2Problem>,
) -> (r: (Matrix<i64>, Matrix<usize>, i64, MatrixCell))
    requires
        pr.valid(),
        *scheme == pr.scheme,
        pattern.text@ == pr.p,
        candidate_of_problem(*old(candidate), pr),
        matches@.len() == pr.height(),
        forall|i: int| 0 <= i < pr.height() ==> #[trigger] matches@[i] == pr.m[i],
        pr.width() * pr.height() <= usize::MAX,
    ensures
        candidate_of_problem(*final(candidate), pr),
        filled(pr, r.0, r.1, pr.height(), 0),
        r.2 == pr.best().0,
        r.3.0 == pr.best().1 * pr.width() + pr.best().2,
{
    let matrix_width = candidate.char_len();
    let matrix_height = pattern.char_len();
    let mut scoring_matrix = scoring_slab.allocate(matrix_width, matrix_height);
    let mut consecutive_matrix = consecutive_slab.allocate(matrix_width, matrix_height);
    proof {
        lemma_filled_start(pr, scoring_matrix, consecutive_matrix);
    }
    let (first_max, first_cell) = score_first_row(
        &mut scoring_matrix,
        &mut consecutive_matrix,
        pattern.char(0),
        candidate,
        scheme,
        Ghost(pr),
    );
    let mut max_score = first_max;
    let mut max_score_cell = first_cell;
    let mut row: usize = 1;
    while row < matrix_height
        invariant
            pr.valid(),
            *scheme == pr.scheme,
            pattern.text@ == pr.p,
            matrix_height == pr.height(),
            matches@.len() == pr.height(),
            forall|i: int| 0 <= i < pr.height() ==> #[trigger] matches@[i] == pr.m[i],
            1 <= row <= matrix_height,
            candidate_of_problem(*candidate, pr),
            filled(pr, scoring_matrix, consecutive_matrix, row as int, 0),
            max_score == pr.scan_best(row as int, 0).0,
            max_score_cell.0 == pr.scan_best(row as int, 0).1 * pr.width() + pr.scan_best(row as int, 0).2,
        decreases matrix_height - row,
    {
        let (m, c) = score_row(
            &mut scoring_matrix,
            &mut consecutive_matrix,
            pattern.char(row),
            candidate,
            scheme,
            Ghost(pr),
            row,
            matches[row],
            max_score,
            max_score_cell,
        );
        max_score = m;
        max_score_cell = c;
        row += 1;
    }
    (scoring_matrix, consecutive_matrix, max_score, max_score_cell)
}

/// The byte ranges of the candidate characters at `first` plus the given
/// columns.
pub open spec fn column_ranges(c: Seq<char>, first: int, cols: Seq<int>) -> Seq<Range<usize>> {
    Seq::new(cols.len(), |k: int| char_byte_range(c, first + cols[k]))
}

/// Walks back from the best cell, inserting the byte range of every
/// character that the walk matches.
#[verifier::rlimit(40)]
pub fn matched_ranges(
    scores: &Matrix<i64>,
    consecutives: &Matrix<usize>,
    max_score_row: usize,
    max_score_col: usize,
    candidate: Candidate,
    first: usize,
    ranges: &mut MatchedRanges,
    Ghost(pr): Ghost<V2Problem>,
)
    requires
        pr.valid(),
        filled(pr, *scores, *consecutives, pr.height(), 0),
        max_score_row < pr.height(),
        max_score_col < pr.width(),
        candidate.wf(),
        candidate@.len() <= max_chars(),
        first + pr.width() <= candidate@.len(),
        candidate@.subrange(first as int, first + pr.width()) == pr.s,
        old(ranges).wf(),
    ensures
        final(ranges).wf(),
        final(ranges).initial() == old(ranges).initial(),
        final(ranges).inserted() == insert_all(
            old(ranges).inserted(),
            column_ranges(candidate@, first as int, pr.backtrace(max_score_row as int, max_score_col as int, true)),
        ),
{
    proof {
        lemma_filled_shape(pr, *scores, *consecutives, pr.height(), 0);
    }
    let ghost total = pr.backtrace(max_score_row as int, max_score_col as int, true);
    let ghost old_ins = ranges.inserted();
    let ghost mut done: Seq<int> = Seq::empty();
    let height = scores.height();
    let width = scores.width();
    let mut prefer_match = true;
    let mut row = max_score_row;
    let mut col = max_score_col;
    assert(done + total =~= total);
    assert(column_ranges(candidate@, first as int, done) =~= Seq::<Range<usize>>::empty());
    loop
        invariant_except_break
            total == done + pr.backtrace(row as int, col as int, prefer_match),
        invariant
            pr.valid(),
            filled(pr, *scores, *consecutives, pr.height(), 0),
            height == pr.height(),
            width == pr.width(),
            row < height,
            col < width,
            candidate.wf(),
            first + pr.width() <= candidate@.len(),
            candidate@.subrange(first as int, first + pr.width()) == pr.s,
            candidate@.len() <= max_chars(),
            ranges.wf(),
            ranges.initial() == old(ranges).initial(),
            old_ins == old(ranges).inserted(),
            ranges.inserted() == insert_all(old_ins, column_ranges(candidate@, first as int, done)),
        ensures
            ranges.wf(),
            ranges.initial() == old(ranges).initial(),
            ranges.inserted() == insert_all(old_ins, column_ranges(candidate@, first as int, total)),
        decreases col,
    {
        let ghost rest = pr.backtrace(row as int, col as int, prefer_match);
        proof {
            lemma_filled_read(pr, *scores, *consecutives, pr.height(), 0, row as int, col as int);
            if col > 0 {
                lemma_filled_read(pr, *scores, *consecutives, pr.height(), 0, row as int, col - 1);
            }
            if col > 0 && row > 0 {
                lemma_filled_read(pr, *scores, *consecutives, pr.height(), 0, row - 1, col - 1);
            }
            if row + 1 < height && col + 1 < width {
                lemma_filled_read(pr, *scores, *consecutives, pr.height(), 0, row + 1, col + 1);
            }
        }
        let is_cell_in_first_col = col == 0;
        let is_cell_in_first_row = row == 0;
        let score_left = if is_cell_in_first_col {
            0
        } else {
            scores.get_at(row, col - 1)
        };
        let score_up_left = if is_cell_in_first_col || is_cell_in_first_row {
            0
        } else {
            scores.get_at(row - 1, col - 1)
        };
        let prefer_this_match = prefer_match;
        prefer_match = consecutives.get_at(row, col) > 1 || (row + 1 < height && col + 1 < width
            && consecutives.get_at(row + 1, col + 1) > 0);
        let score = scores.get_at(row, col);
        if score > score_up_left && (score > score_left || (score == score_left && prefer_this_match)) {
            proof {
                lemma_byte_offset_fits(candidate@, first + col);
                assert(candidate@[first + col] == pr.s[col as int]);
            }
            let byte_offset = candidate.to_byte_offset(first + col);
            let ch = candidate.char(first + col);
            let byte_end = byte_offset + len_utf8(ch);
            proof {
                let d2 = done.push(col as int);
                assert(column_ranges(candidate@, first as int, d2).drop_last() =~= column_ranges(
                    candidate@,
                    first as int,
                    done,
                ));
                assert(column_ranges(candidate@, first as int, d2).last() == char_byte_range(
                    candidate@,
                    first + col,
                ));
            }
            ranges.insert(byte_offset..byte_end);
            proof {
                assert(rest == seq![col as int] + if row == 0 || col == 0 {
                    Seq::<int>::empty()
                } else {
                    pr.backtrace(row - 1, col - 1, prefer_match)
                });
                done = done.push(col as int);
            }
            if is_cell_in_first_row || is_cell_in_first_col {
                assert(total =~= done);
                break;
            } else {
                assert(total =~= done + pr.backtrace(row - 1, col - 1, prefer_match));
                row = row - 1;
            }
        } else if is_cell_in_first_col {
            assert(rest =~= Seq::<int>::empty());
            assert(total =~= done);
            break;
        } else {
            assert(rest == pr.backtrace(row as int, col - 1, prefer_match));
        }
        col = col - 1;
    }
}

/// The places where the greedy search puts each pattern character, and one
/// past the last place of the last pattern character.
pub fn pattern_matches(
    indices_slab: &mut MatchedIndicesSlab,
    pattern: &Pattern,
    candidate: Candidate,
    opts: CandidateOpts,
) -> (r: Option<(Vec<usize>, usize)>)
    requires
        candidate.wf(),
        pattern.text@.len() > 0,
        opts.char_eq.is_case_sensitive == opts.is_case_sensitive,
    ensures
        match r {
            None => greedy(pattern.text@, candidate@, pattern.text@.len() - 1, opts.char_eq) is None,
            Some((offsets, last)) => {
                &&& greedy(pattern.text@, candidate@, pattern.text@.len() - 1, opts.char_eq) is Some
                &&& offsets@.len() == pattern.text@.len()
                &&& forall|i: int|
                    0 <= i < pattern.text@.len() ==> #[trigger] offsets@[i] == greedy(
                        pattern.text@,
                        candidate@,
                        i,
                        opts.char_eq,
                    )->0
                &&& last == last_match_before(
                    candidate@,
                    candidate@.len() as int,
                    pattern.text@[pattern.text@.len() - 1],
                    opts.char_eq,
                )->0 + 1
            },
        },
{
    let ghost p = pattern.text@;
    let ghost c = candidate@;
    let plen = pattern.char_len();
    let len = candidate.char_len();
    let mut match_offsets = indices_slab.allocate(plen);
    let mut last_match_offset: usize = 0;
    let mut idx: usize = 0;
    while idx < plen
        invariant
            p == pattern.text@,
            c == candidate@,
            candidate.wf(),
            plen == p.len() > 0,
            len == c.len(),
            opts.char_eq.is_case_sensitive == opts.is_case_sensitive,
            idx <= plen,
            match_offsets@.len() == plen,
            last_match_offset <= len,
            idx == 0 ==> last_match_offset == 0,
            idx > 0 ==> greedy(p, c, idx - 1, opts.char_eq) == Some(last_match_offset - 1),
            forall|i: int| 0 <= i < idx ==> #[trigger] match_offsets@[i] == greedy(p, c, i, opts.char_eq)->0,
        decreases plen - idx,
    {
        match candidate.find_first_from(last_match_offset, pattern.char(idx), opts.is_case_sensitive, opts.char_eq) {
            None => {
                proof {
                    lemma_first_match_none(c, last_match_offset as int, p[idx as int], opts.char_eq);
                    assert(greedy(p, c, idx as int, opts.char_eq) is None);
                    lemma_greedy_none(p, c, idx as int, plen - 1, opts.char_eq);
                }
                indices_slab.restore(match_offsets);
                return None;
            },
            Some(k) => {
                proof {
                    lemma_first_match_is(c, last_match_offset as int, p[idx as int], opts.char_eq, k as int);
                }
                match_offsets.set(idx, k);
                last_match_offset = k + 1;
            },
        }
        idx = idx + 1;
    }
    proof {
        lemma_greedy(p, c, plen - 1, opts.char_eq);
        super::greedy::lemma_last_match_before(c, len as int, p[plen - 1], opts.char_eq);
        let g = greedy(p, c, plen - 1, opts.char_eq)->0;
        if last_match_before(c, len as int, p[plen - 1], opts.char_eq) is None {
            assert(!opts.char_eq.spec_eq(p[plen - 1], c[g]));
        }
    }
    let found = candidate.find_last(pattern.char(plen - 1), opts.is_case_sensitive, opts.char_eq);
    let k = found.unwrap();
    proof {
        super::greedy::lemma_last_match_is(c, len as int, p[plen - 1], opts.char_eq, k as int);
    }
    Some((match_offsets, k + 1))
}

/// The v2 match of a single-character pattern: the place of the character
/// with the best bonus, the first of the best.
pub fn fuzzy_single_char(
    pattern_char: char,
    candidate: Candidate,
    opts: CandidateOpts,
    scheme: &Scheme,
    with_ranges: bool,
    ranges: &mut MatchedRanges,
) -> (r: Option<i64>)
    requires
        candidate.wf(),
        candidate@.len() <= max_chars(),
        opts.char_eq.is_case_sensitive == opts.is_case_sensitive,
        scheme.is_predefined(),
        old(ranges).wf(),
    ensures
        r == outcome_score(spec_single_char(candidate@, pattern_char, opts.char_eq, *scheme)),
        final(ranges).wf(),
        final(ranges).initial() == old(ranges).initial(),
        final(ranges).inserted() == outcome_ranges(
            old(ranges).inserted(),
            spec_single_char(candidate@, pattern_char, opts.char_eq, *scheme),
            with_ranges,
        ),
{
    let ghost c = candidate@;
    let ghost eq = opts.char_eq;
    let len = candidate.char_len();
    let ms = candidate.matches(pattern_char, opts.is_case_sensitive, opts.char_eq);
    let n = ms.len();
    let mut max_score: i64 = 0;
    let mut max_score_pos: usize = 0;
    let mut t: usize = 0;
    while t < n
        invariant
            c == candidate@,
            eq == opts.char_eq,
            len == c.len() <= max_chars(),
            scheme.is_predefined(),
            ms@ == spec_matches(c, 0, len as int, pattern_char, eq),
            n == ms@.len(),
            t <= n,
            t == 0 ==> (max_score as int, max_score_pos as int) == single_best(c, pattern_char, eq, *scheme, 0),
            t > 0 ==> (max_score as int, max_score_pos as int) == single_best(
                c,
                pattern_char,
                eq,
                *scheme,
                ms@[t - 1] + 1,
            ),
            0 <= max_score <= 36,
            max_score_pos < len || max_score == 0,
        decreases n - t,
    {
        let char_offset = ms[t];
        proof {
            lemma_matches_entry(c, 0, len as int, pattern_char, eq, t as int);
            if t > 0 {
                lemma_single_skip(c, pattern_char, eq, *scheme, ms@[t - 1] + 1, char_offset as int);
            } else {
                lemma_single_skip(c, pattern_char, eq, *scheme, 0, char_offset as int);
            }
        }
        let prev_class = if char_offset == 0 {
            scheme.initial_char_class
        } else {
            char_class(candidate.char(char_offset - 1), scheme)
        };
        let this_class = char_class(candidate.char(char_offset), scheme);
        let bonus = compute_bonus(prev_class, this_class, scheme);
        proof {
            lemma_bonus_bounds(prev_class, this_class, *scheme);
            assert(bonus == bonus_in(c, char_offset as int, *scheme));
        }
        let score = bonus::MATCH + bonus * bonus::FIRST_QUERY_CHAR_MULTIPLIER;
        if score > max_score {
            max_score = score;
            max_score_pos = char_offset;
        }
        t += 1;
    }
    proof {
        if n > 0 {
            lemma_matches_entry(c, 0, len as int, pattern_char, eq, n - 1);
            lemma_single_skip(c, pattern_char, eq, *scheme, ms@[n - 1] + 1, len as int);
        } else {
            crate::candidate::lemma_matches_props(c, 0, len as int, pattern_char, eq);
            lemma_single_skip(c, pattern_char, eq, *scheme, 0, len as int);
        }
    }
    if max_score == 0 {
        return None;
    }
    if with_ranges {
        let ghost old_ins = ranges.inserted();
        proof {
            lemma_byte_offset_fits(c, max_score_pos as int);
            let one = seq![char_byte_range(c, max_score_pos as int)];
            assert(one.drop_last() =~= Seq::<Range<usize>>::empty());
            assert(insert_all(old_ins, one.drop_last()) == old_ins);
            assert(one.last() == char_byte_range(c, max_score_pos as int));
            assert(insert_all(old_ins, one) == spec_insert(old_ins, char_byte_range(c, max_score_pos as int)));
        }
        let start = candidate.to_byte_offset(max_score_pos);
        let byte_len = len_utf8(candidate.char(max_score_pos));
        ranges.insert(start..start + byte_len);
    }
    Some(max_score)
}

/// A metric that implements fzf's v2 algorithm.
///
/// It gives the same results as `fzf --algo=v2`. The distance comes from a
/// variant of the Smith-Waterman alignment: unlike [`FzfV1`](super::FzfV1),
/// which stops at the first match, it weighs every alignment of the query
/// in the candidate and keeps the best one. For the query `"foo"` and the
/// candidate `"f_o_o_foo"`, `FzfV1` matches `"f_o_o"` and `FzfV2` matches
/// `"foo"`. This takes time proportional to the product of the lengths of
/// the query and of the candidate, but the candidates that do not match are
/// still filtered out in linear time.
#[derive(Clone, Debug)]
pub struct FzfV2 {
    candidate_slab: CandidateSlab,
    candidate_normalization: bool,
    case_sensitivity: CaseSensitivity,
    scoring_scheme: FzfScheme,
    with_matched_ranges: bool,
    slab: V2Slab,
}

impl Fzf for FzfV2 {
    closed spec fn spec_settings(&self) -> FzfSettings {
        FzfSettings {
            algorithm: Algorithm::V2,
            matched_ranges: self.with_matched_ranges,
            case_sensitivity: self.case_sensitivity,
            candidate_normalization: self.candidate_normalization,
            scheme: self.scoring_scheme.spec_into_inner(),
        }
    }

    /// The score matrices of a pattern and a candidate must be addressable.
    open spec fn fits(plen: nat, clen: nat) -> bool {
        plen * clen <= usize::MAX
    }

    fn settings(&self) -> (r: FzfSettings) {
        FzfSettings {
            algorithm: Algorithm::V2,
            matched_ranges: self.with_matched_ranges,
            case_sensitivity: self.case_sensitivity,
            candidate_normalization: self.candidate_normalization,
            scheme: self.scoring_scheme.into_inner(),
        }
    }

    fn fuzzy(
        &mut self,
        pattern: &Pattern,
        candidate: Candidate,
        with_ranges: bool,
        ranges: &mut MatchedRanges,
    ) -> (r: Option<i64>) {
        let ghost p = pattern.text@;
        let ghost c = candidate@;
        if pattern.is_empty() {
            assert(insert_all(ranges.inserted(), Seq::<Range<usize>>::empty()) == ranges.inserted());
            return Some(0);
        }
        let is_sensitive = self.case_sensitivity.is_sensitive(pattern.has_uppercase);
        let opts = CandidateOpts::new(is_sensitive, self.candidate_normalization);
        let scheme = self.scoring_scheme.into_inner();
        let ghost eq = opts.char_eq;
        if pattern.char_len() == 1 {
            return fuzzy_single_char(pattern.char(0), candidate, opts, &scheme, with_ranges, ranges);
        }
        let (mut match_offsets, last_match_offset) = match pattern_matches(
            &mut self.slab.matched_indices,
            pattern,
            candidate,
            opts,
        ) {
            Some(x) => x,
            None => return None,
        };
        let ghost pr = v2_problem(p, c, eq, scheme);
        proof {
            lemma_v2_problem_valid(p, c, eq, scheme);
        }
        let first_offset = match_offsets[0];
        let initial_char_class = if first_offset == 0 {
            scheme.initial_char_class
        } else {
            char_class(candidate.char(first_offset - 1), &scheme)
        };
        let sliced = candidate.slice(first_offset, last_match_offset);
        let mut candidate_v2 = CandidateV2::new(sliced, &mut self.slab.bonus, initial_char_class, opts);
        let n = match_offsets.len();
        let mut i: usize = 0;
        while i < n
            invariant
                pr == v2_problem(p, c, eq, scheme),
                pr.valid(),
                p == pattern.text@,
                c == candidate@,
                n == match_offsets@.len() == p.len(),
                first_offset == greedy(p, c, 0, eq)->0,
                greedy(p, c, p.len() - 1, eq) is Some,
                i <= n,
                forall|k: int| 0 <= k < i ==> #[trigger] match_offsets@[k] == pr.m[k],
                forall|k: int| i <= k < n ==> #[trigger] match_offsets@[k] == greedy(p, c, k, eq)->0,
            decreases n - i,
        {
            proof {
                lemma_greedy(p, c, p.len() - 1, eq);
                if i + 1 < n {
                    super::greedy::lemma_greedy_increasing(p, c, eq, i as int, p.len() - 1);
                }
                if i > 0 {
                    super::greedy::lemma_greedy_increasing(p, c, eq, 0, i as int);
                }
            }
            let shifted = match_offsets[i] - first_offset;
            match_offsets.set(i, shifted);
            i += 1;
        }
        proof {
            assert(pr.width() <= c.len());
            assert(pr.width() * pr.height() <= c.len() * p.len()) by (nonlinear_arith)
                requires
                    0 <= pr.width() <= c.len(),
                    0 <= pr.height() == p.len(),
            ;
            assert(p.len() * c.len() == c.len() * p.len()) by (nonlinear_arith);
        }
        let (scores, consecutives, score, cell) = score(
            &mut self.slab.scoring_matrix,
            &mut self.slab.consecutive_matrix,
            pattern,
            &mut candidate_v2,
            &match_offsets,
            &scheme,
            Ghost(pr),
        );
        if with_ranges {
            proof {
                lemma_filled_shape(pr, scores, consecutives, pr.height(), 0);
                pr.lemma_scan_best(pr.height() - 1, pr.width());
                lemma_cell_div(pr.best().1, pr.best().2, pr.width());
            }
            let row = scores.row_of(cell);
            let col = scores.col_of(cell);
            matched_ranges(&scores, &consecutives, row, col, candidate, first_offset, ranges, Ghost(pr));
        }
        self.slab.scoring_matrix.restore(scores);
        self.slab.consecutive_matrix.restore(consecutives);
        self.slab.matched_indices.restore(match_offsets);
        Some(score)
    }
}

/// The row and the column of a cell come back from its index.
pub proof fn lemma_cell_div(row: int, col: int, width: int)
    requires
        0 <= row,
        0 <= col < width,
    ensures
        (row * width + col) / width == row,
        (row * width + col) % width == col,
{
    assert((row * width + col) / width == row && (row * width + col) % width == col) by (nonlinear_arith)
        requires
            0 <= row,
            0 <= col < width,
    ;
}

impl FzfV2 {
    /// Creates a new `FzfV2`, with smart case sensitivity, no candidate
    /// normalization and the default scoring scheme.
    pub fn new() -> (r: FzfV2)
        ensures
            r.spec_settings() == default_settings(Algorithm::V2),
    {
        FzfV2 {
            candidate_slab: CandidateSlab::new(),
            candidate_normalization: false,
            case_sensitivity: CaseSensitivity::Smart,
            scoring_scheme: FzfScheme::Default,
            with_matched_ranges: false,
            slab: V2Slab::new(),
        }
    }

    /// The metric as printed: see [`metric_text`](super::engine::metric_text).
    pub fn to_text(&self) -> (r: String)
        ensures
            r@ == super::engine::metric_text("FzfV2"@, self.spec_settings()),
    {
        super::engine::settings_text("FzfV2", &self.settings())
    }

    /// The current scoring scheme.
    pub fn scheme(&self) -> (r: Scheme)
        ensures
            r == self.spec_settings().scheme,
    {
        self.scoring_scheme.into_inner()
    }

    /// The buffers the metric reuses from one call to the next.
    pub closed spec fn spec_buffers(&self) -> (CandidateSlab, V2Slab) {
        (self.candidate_slab, self.slab)
    }

    /// Sets whether multi-byte latin characters in the candidate are
    /// normalized to ASCII before comparing them to the query. The query is
    /// never normalized.
    pub fn set_candidate_normalization(&mut self, normalization: bool) -> (r: &mut FzfV2)
        ensures
            r.spec_settings() == (FzfSettings {
                candidate_normalization: normalization,
                ..old(self).spec_settings()
            }),
            *final(self) == *final(r),
            r.spec_buffers() == old(self).spec_buffers(),
    {
        self.candidate_normalization = normalization;
        self
    }

    /// Sets the case sensitivity used to compare the characters of the query
    /// and of the candidate.
    pub fn set_case_sensitivity(&mut self, case_sensitivity: CaseSensitivity) -> (r: &mut FzfV2)
        ensures
            r.spec_settings() == (FzfSettings { case_sensitivity, ..old(self).spec_settings() }),
            *final(self) == *final(r),
            r.spec_buffers() == old(self).spec_buffers(),
    {
        self.case_sensitivity = case_sensitivity;
        self
    }

    /// Sets the scoring scheme used to compute distances.
    pub fn set_scoring_scheme(&mut self, scheme: FzfScheme) -> (r: &mut FzfV2)
        ensures
            r.spec_settings() == (FzfSettings {
                scheme: scheme.spec_into_inner(),
                ..old(self).spec_settings()
            }),
            *final(self) == *final(r),
            r.spec_buffers() == old(self).spec_buffers(),
    {
        self.scoring_scheme = scheme;
        self
    }

    /// Sets the case sensitivity, as [`FzfV2::set_case_sensitivity`] does.
    pub fn with_case_sensitivity(&mut self, case_sensitivity: CaseSensitivity) -> (r: &mut FzfV2)
        ensures
            r.spec_settings() == (FzfSettings { case_sensitivity, ..old(self).spec_settings() }),
            *final(self) == *final(r),
            r.spec_buffers() == old(self).spec_buffers(),
    {
        self.case_sensitivity = case_sensitivity;
        self
    }

    /// Sets whether [`FzfV2::match_candidate`] collects the byte ranges that
    /// matched.
    pub fn with_matched_ranges(&mut self, matched_ranges: bool) -> (r: &mut FzfV2)
        ensures
            r.spec_settings() == (FzfSettings { matched_ranges, ..old(self).spec_settings() }),
            *final(self) == *final(r),
            r.spec_buffers() == old(self).spec_buffers(),
    {
        self.with_matched_ranges = matched_ranges;
        self
    }

    /// Sets candidate normalization, as
    /// [`FzfV2::set_candidate_normalization`] does.
    pub fn with_normalization(&mut self, normalization: bool) -> (r: &mut FzfV2)
        ensures
            r.spec_settings() == (FzfSettings {
                candidate_normalization: normalization,
                ..old(self).spec_settings()
            }),
            *final(self) == *final(r),
            r.spec_buffers() == old(self).spec_buffers(),
    {
        self.candidate_normalization = normalization;
        self
    }

    /// Sets the scoring scheme, as [`FzfV2::set_scoring_scheme`] does.
    pub fn with_scoring_scheme(&mut self, scheme: FzfScheme) -> (r: &mut FzfV2)
        ensures
            r.spec_settings() == (FzfSettings {
                scheme: scheme.spec_into_inner(),
                ..old(self).spec_settings()
            }),
            *final(self) == *final(r),
            r.spec_buffers() == old(self).spec_buffers(),
    {
        self.scoring_scheme = scheme;
        self
    }

    /// Matches the query against the candidate: the distance of the match,
    /// with the byte ranges that matched when the metric collects them.
    pub fn match_candidate(&mut self, query: &FzfQuery, candidate: &str) -> (r: Option<Match<FzfDistance>>)
        requires
            query.wf(),
            within_limits(query@),
            work_fits(query@, candidate@.len()),
            query_fits::<FzfV2>(query@, candidate@.len()),
            candidate@.len() <= max_chars(),
        ensures
            final(self).spec_settings() == old(self).spec_settings(),
            match (r, spec_query_outcome(old(self).spec_settings(), query@, candidate@)) {
                (Some(m), Some(o)) => m.spec_distance() == FzfDistance::spec_from_score(o.0) && m.spec_ranges() == if old(
                    self,
                ).spec_settings().matched_ranges {
                    insert_all(Seq::empty(), o.1)
                } else {
                    Seq::empty()
                },
                (None, None) => true,
                _ => false,
            },
    {
        let mut ranges: Vec<Range<usize>> = Vec::new();
        let with_ranges = self.with_matched_ranges;
        match self.distance_with(query, candidate, with_ranges, &mut ranges) {
            Some(d) => {
                assert(ranges@ =~= Seq::<Range<usize>>::empty() + ranges@);
                Some(Match::new(d, MatchedRanges::from_vec(ranges)))
            },
            None => None,
        }
    }

    /// The distance, with the matched ranges appended to `ranges` when
    /// `with_ranges` is set.
    fn distance_with(
        &mut self,
        query: &FzfQuery,
        candidate: &str,
        with_ranges: bool,
        ranges: &mut Vec<Range<usize>>,
    ) -> (r: Option<FzfDistance>)
        requires
            query.wf(),
            within_limits(query@),
            work_fits(query@, candidate@.len()),
            query_fits::<FzfV2>(query@, candidate@.len()),
            candidate@.len() <= max_chars(),
        ensures
            final(self).spec_settings() == old(self).spec_settings(),
            r == outcome_distance(spec_query_outcome(old(self).spec_settings(), query@, candidate@)),
            final(ranges)@ == ranges_after(
                old(ranges)@,
                spec_query_outcome(old(self).spec_settings(), query@, candidate@),
                with_ranges,
            ),
            final(ranges)@.len() >= old(ranges)@.len(),
            final(ranges)@.take(old(ranges)@.len() as int) == old(ranges)@,
            sorted_disjoint(final(ranges)@.skip(old(ranges)@.len() as int)),
    {
        let mut slab = CandidateSlab::new();
        std::mem::swap(&mut slab, &mut self.candidate_slab);
        let r = fzf_distance(self, &mut slab, query, candidate, with_ranges, ranges);
        std::mem::swap(&mut slab, &mut self.candidate_slab);
        r
    }
}

impl Default for FzfV2 {
    fn default() -> (r: Self)
        ensures
            r.spec_settings() == default_settings(Algorithm::V2),
    {
        FzfV2::new()
    }
}

impl Metric for FzfV2 {
    type Query = FzfQuery;

    type Distance = FzfDistance;

    open spec fn spec_distance(&self, query: &FzfQuery, candidate: &str) -> Option<FzfDistance> {
        outcome_distance(spec_query_outcome(self.spec_settings(), query@, candidate@))
    }

    open spec fn accepts(query: &FzfQuery, candidate: &str) -> bool {
        &&& query.wf()
        &&& within_limits(query@)
        &&& work_fits(query@, candidate@.len())
        &&& query_fits::<FzfV2>(query@, candidate@.len())
        &&& candidate@.len() <= max_chars()
    }

    fn distance(&mut self, query: &FzfQuery, candidate: &str) -> (r: Option<FzfDistance>)
        ensures
            final(self).spec_settings() == old(self).spec_settings(),
            r == outcome_distance(spec_query_outcome(old(self).spec_settings(), query@, candidate@)),
    {
        let mut ranges: Vec<Range<usize>> = Vec::new();
        self.distance_with(query, candidate, false, &mut ranges)
    }

    fn distance_and_ranges(
        &mut self,
        query: &FzfQuery,
        candidate: &str,
        ranges: &mut Vec<Range<usize>>,
    ) -> (r: Option<FzfDistance>)
        ensures
            final(self).spec_settings() == old(self).spec_settings(),
            r == outcome_distance(spec_query_outcome(old(self).spec_settings(), query@, candidate@)),
            final(ranges)@ == ranges_after(
                old(ranges)@,
                spec_query_outcome(old(self).spec_settings(), query@, candidate@),
                true,
            ),
    {
        self.distance_with(query, candidate, true, ranges)
    }
}

} // verus!
