//! What fzf's v2 algorithm computes: a dynamic program over the pattern
//! characters and the candidate characters.

use vstd::prelude::*;

use std::ops::Range;

use super::bonus;
use super::common::{char_byte_range, initial_class, max_i64};
use super::greedy::{greedy, last_match_before};
use super::penalty;
use super::scoring::{lemma_bonus_bounds, spec_bonus, spec_char_class, CharClass, Scheme};
use super::common::max_chars;
use super::greedy::{lemma_greedy, lemma_greedy_increasing, lemma_last_match_before};
use crate::chars::CharEq;

verus! {

/// The problem the v2 algorithm solves: the pattern `p` against the part `s`
/// of the candidate from the first place of the pattern's first character to
/// the last place of its last character. `init` is the class of the
/// character before `s`, and `m[i]` the first place in `s` where pattern
/// character `i` can be matched.
pub struct V2Problem {
    /// The pattern.
    pub p: Seq<char>,
    /// The part of the candidate.
    pub s: Seq<char>,
    /// The class of the character before `s`.
    pub init: CharClass,
    /// The first place of each pattern character in `s`.
    pub m: Seq<int>,
    /// How characters are compared.
    pub eq: CharEq,
    /// The scoring scheme.
    pub scheme: Scheme,
}

impl V2Problem {
    /// The number of columns of the matrices.
    pub open spec fn width(self) -> int {
        self.s.len() as int
    }

    /// The number of rows of the matrices.
    pub open spec fn height(self) -> int {
        self.p.len() as int
    }

    /// The bonus of the character at `j`.
    pub open spec fn bonus(self, j: int) -> i64 {
        let prev = if j == 0 {
            self.init
        } else {
            spec_char_class(self.s[j - 1], self.scheme)
        };
        spec_bonus(prev, spec_char_class(self.s[j], self.scheme), self.scheme)
    }

    /// Whether pattern character `i` may be matched at `j`: `j` is at or
    /// after its first place, and the characters match.
    pub open spec fn is_match(self, i: int, j: int) -> bool {
        &&& 0 <= i < self.height()
        &&& self.m[i] <= j < self.width()
        &&& self.eq.spec_eq(self.p[i], self.s[j])
    }

    /// The last place up to `j` where pattern character `i` may be matched,
    /// or -1.
    pub open spec fn last_match_upto(self, i: int, j: int) -> int
        decreases j + 1,
    {
        if j < 0 {
            -1
        } else if self.is_match(i, j) {
            j
        } else {
            self.last_match_upto(i, j - 1)
        }
    }

    /// The last place where pattern character `i` may be matched.
    pub open spec fn last_match(self, i: int) -> int {
        self.last_match_upto(i, self.width() - 1)
    }

    /// The penalty of the cell left of a match at `j` in row `i`: a gap start
    /// when no gap precedes the match, a gap extension otherwise.
    pub open spec fn left_pen(self, i: int, j: int) -> i64 {
        if j == self.m[i] || self.is_match(i, j - 1) {
            penalty::GAP_START
        } else {
            penalty::GAP_EXTENSION
        }
    }

    /// The penalty of the first cell after the last match of row `i`: the
    /// penalty left over from that match.
    pub open spec fn trailing_pen(self, i: int) -> i64 {
        self.left_pen(i, self.last_match(i))
    }

    /// The penalty of a gap cell at `j` in row `i`: a gap start right after a
    /// match (the left-over penalty after the last one), a gap extension
    /// further on.
    pub open spec fn gap_pen(self, i: int, j: int) -> i64 {
        if self.is_match(i, j - 1) {
            if j - 1 == self.last_match(i) {
                self.trailing_pen(i)
            } else {
                penalty::GAP_START
            }
        } else {
            penalty::GAP_EXTENSION
        }
    }

    /// The score and the length of the run of consecutive matches of the cell
    /// of row `i` and column `j`. Cells before the first place of their
    /// pattern character hold 0. A match of the first pattern character
    /// scores [`bonus::MATCH`] plus twice its bonus. A later match takes the
    /// better of extending the gap on its left and matching after the cell
    /// up-left; inside a run of consecutive matches its bonus is raised to
    /// the run's first bonus and at least [`bonus::CONSECUTIVE`], unless it is
    /// a boundary that beats the run's first bonus, where a new run starts.
    /// Gap cells lose a gap penalty.
    #[verifier::opaque]
    pub open spec fn cell(self, i: int, j: int) -> (int, int)
        decreases i, j,
    {
        if i < 0 || j < 0 || i >= self.height() || j < self.m[i] {
            (0, 0)
        } else if self.is_match(i, j) {
            if i == 0 {
                (bonus::MATCH + self.bonus(j) * bonus::FIRST_QUERY_CHAR_MULTIPLIER, 1)
            } else {
                let left_score = if j == 0 {
                    0
                } else {
                    self.cell(i, j - 1).0
                };
                let up_left = if j == 0 {
                    (0, 0)
                } else {
                    self.cell(i - 1, j - 1)
                };
                let left = left_score - self.left_pen(i, j);
                let ul0 = up_left.0 + bonus::MATCH;
                let b = self.bonus(j);
                let cons0 = up_left.1 + 1;
                let fb = self.bonus(j + 1 - cons0);
                let restart = cons0 > 1 && b >= bonus::BOUNDARY && b > fb;
                let b1 = if cons0 > 1 && !restart {
                    max_i64(max_i64(bonus::CONSECUTIVE, fb), b)
                } else {
                    b
                };
                let cons1 = if restart {
                    1
                } else {
                    cons0
                };
                if ul0 + b1 < left {
                    (if left >= ul0 + b {
                        left
                    } else {
                        ul0 + b
                    }, 0)
                } else {
                    (if left >= ul0 + b1 {
                        left
                    } else {
                        ul0 + b1
                    }, cons1)
                }
            }
        } else {
            let left_score = if j == 0 {
                0
            } else {
                self.cell(i, j - 1).0
            };
            (left_score - self.gap_pen(i, j), 0)
        }
    }

    /// The score of a cell.
    pub open spec fn score(self, i: int, j: int) -> int {
        self.cell(i, j).0
    }

    /// The run length of a cell.
    pub open spec fn consecutive(self, i: int, j: int) -> int {
        self.cell(i, j).1
    }

    /// The best match cell among the rows before `i` and the columns before
    /// `j` of row `i`, in row-major order: (score, row, column), the first
    /// of the highest scores, or (0, 0, 0) before any.
    pub open spec fn scan_best(self, i: int, j: int) -> (int, int, int)
        decreases i, j,
    {
        if i < 0 || (i == 0 && j <= 0) || j < 0 {
            (0, 0, 0)
        } else if j == 0 {
            self.scan_best(i - 1, self.width())
        } else {
            let prev = self.scan_best(i, j - 1);
            let sc = self.score(i, j - 1);
            if self.is_match(i, j - 1) && sc > prev.0 {
                (sc, i, j - 1)
            } else {
                prev
            }
        }
    }

    /// The best match cell of the matrix.
    pub open spec fn best(self) -> (int, int, int) {
        self.scan_best(self.height() - 1, self.width())
    }

    /// The columns that the walk back from the cell of row `row` and column
    /// `col` matches, in the order the walk finds them. A cell is taken when
    /// its score beats the cell up-left and the cell on the left (or ties
    /// with it when a match is preferred), and the walk goes on up-left;
    /// otherwise it goes on to the left.
    pub open spec fn backtrace(self, row: int, col: int, prefer: bool) -> Seq<int>
        decreases col,
    {
        if row < 0 || col < 0 {
            Seq::empty()
        } else {
            let sc = self.score(row, col);
            let left = if col == 0 {
                0
            } else {
                self.score(row, col - 1)
            };
            let up_left = if col == 0 || row == 0 {
                0
            } else {
                self.score(row - 1, col - 1)
            };
            let next_prefer = self.consecutive(row, col) > 1 || (row < self.height() - 1 && col
                < self.width() - 1 && self.consecutive(row + 1, col + 1) > 0);
            if sc > up_left && (sc > left || (sc == left && prefer)) {
                seq![col] + if row == 0 || col == 0 {
                    Seq::empty()
                } else {
                    self.backtrace(row - 1, col - 1, next_prefer)
                }
            } else if col == 0 {
                Seq::empty()
            } else {
                self.backtrace(row, col - 1, next_prefer)
            }
        }
    }
}

impl V2Problem {
    /// The problem is one the v2 algorithm is run on: at least two pattern
    /// characters, each with a first place, the first at 0 and the others
    /// increasing, all within the limits.
    pub open spec fn valid(self) -> bool {
        &&& self.height() >= 2
        &&& self.width() >= 1
        &&& self.width() <= max_chars()
        &&& self.height() <= max_chars()
        &&& self.m.len() == self.height()
        &&& self.m[0] == 0
        &&& forall|i: int, j: int| 0 <= i < j < self.height() ==> #[trigger] self.m[i] < #[trigger] self.m[j]
        &&& forall|i: int| 0 <= i < self.height() ==> #[trigger] self.is_match(i, self.m[i])
        &&& self.scheme.is_predefined()
    }

    /// Every bonus lies between 0 and 10.
    pub proof fn lemma_bonus(self, j: int)
        requires
            self.scheme.is_predefined(),
        ensures
            0 <= self.bonus(j) <= 10,
    {
        let prev = if j == 0 {
            self.init
        } else {
            spec_char_class(self.s[j - 1], self.scheme)
        };
        lemma_bonus_bounds(prev, spec_char_class(self.s[j], self.scheme), self.scheme);
    }

    /// The first places grow at least one by one.
    pub proof fn lemma_m(self, i: int)
        requires
            self.valid(),
            0 <= i < self.height(),
        ensures
            self.m[i] >= i,
        decreases i,
    {
        if i > 0 {
            self.lemma_m(i - 1);
            assert(self.m[i - 1] < self.m[i]);
        }
    }

    /// The scores stay between -3 per column and 36 per row, and the runs
    /// are no longer than the row or the column allow.
    pub proof fn lemma_cell_bounds(self, i: int, j: int)
        requires
            self.valid(),
            0 <= i < self.height(),
            0 <= j,
        ensures
            -3 * (j + 1) <= self.score(i, j) <= 36 * (i + 1),
            0 <= self.consecutive(i, j) <= i + 1,
            self.consecutive(i, j) <= j + 1,
        decreases i, j,
    {
        reveal(V2Problem::cell);
        self.lemma_bonus(j);
        if j >= self.m[i] {
            if j > 0 {
                self.lemma_cell_bounds(i, j - 1);
                if i > 0 {
                    self.lemma_cell_bounds(i - 1, j - 1);
                    let cons0 = self.consecutive(i - 1, j - 1) + 1;
                    self.lemma_bonus(j + 1 - cons0);
                }
            }
        }
    }

    /// `l` is the last place of pattern character `i` when it is one and none
    /// follows.
    pub proof fn lemma_last_match_is(self, i: int, l: int, j: int)
        requires
            self.is_match(i, l),
            0 <= l <= j < self.width(),
            forall|k: int| l < k <= j ==> !#[trigger] self.is_match(i, k),
        ensures
            self.last_match_upto(i, j) == l,
        decreases j - l,
    {
        if j > l {
            self.lemma_last_match_is(i, l, j - 1);
        }
    }

    /// The last place of a pattern character comes at or after any of its
    /// places.
    pub proof fn lemma_last_match_after(self, i: int, k: int, j: int)
        requires
            self.is_match(i, k),
            0 <= k <= j,
        ensures
            self.last_match_upto(i, j) >= k,
        decreases j - k,
    {
        if j > k && !self.is_match(i, j) {
            self.lemma_last_match_after(i, k, j - 1);
        }
    }

    /// Cells that are not matches leave the scan as it was.
    pub proof fn lemma_scan_skip(self, i: int, a: int, b: int)
        requires
            0 <= i,
            0 <= a <= b,
            forall|j: int| a <= j < b ==> !#[trigger] self.is_match(i, j),
        ensures
            self.scan_best(i, b) == self.scan_best(i, a),
        decreases b - a,
    {
        if b > a {
            self.lemma_scan_skip(i, a, b - 1);
            assert(!self.is_match(i, b - 1));
        }
    }

    /// The best cell found by a scan is a match cell, or the start, and its
    /// score lies between 0 and 36 per row.
    pub proof fn lemma_scan_best(self, i: int, j: int)
        requires
            self.valid(),
            0 <= i < self.height(),
            0 <= j <= self.width(),
        ensures
            0 <= self.scan_best(i, j).0 <= 36 * self.height(),
            0 <= self.scan_best(i, j).1 < self.height(),
            0 <= self.scan_best(i, j).2 < self.width(),
        decreases i, j,
    {
        if !(i == 0 && j <= 0) {
            if j == 0 {
                self.lemma_scan_best(i - 1, self.width());
            } else {
                self.lemma_scan_best(i, j - 1);
                self.lemma_cell_bounds(i, j - 1);
            }
        }
    }
}

/// The bonus of the candidate character at `k`.
pub open spec fn bonus_in(c: Seq<char>, k: int, scheme: Scheme) -> i64 {
    spec_bonus(initial_class(c, k, scheme), spec_char_class(c[k], scheme), scheme)
}

/// The best match of a single character among the candidate characters
/// before `k`: (score, place), the first of the highest scores, or (0, 0).
pub open spec fn single_best(c: Seq<char>, ch: char, eq: CharEq, scheme: Scheme, k: int) -> (int, int)
    decreases k,
{
    if k <= 0 {
        (0, 0)
    } else {
        let prev = single_best(c, ch, eq, scheme, k - 1);
        let sc = bonus::MATCH + bonus_in(c, k - 1, scheme) * bonus::FIRST_QUERY_CHAR_MULTIPLIER;
        if eq.spec_eq(ch, c[k - 1]) && sc > prev.0 {
            (sc, k - 1)
        } else {
            prev
        }
    }
}

/// Places that do not match leave the best single-character match as it
/// was.
pub proof fn lemma_single_skip(c: Seq<char>, ch: char, eq: CharEq, scheme: Scheme, a: int, b: int)
    requires
        0 <= a <= b,
        forall|j: int| a <= j < b ==> !eq.spec_eq(ch, #[trigger] c[j]),
    ensures
        single_best(c, ch, eq, scheme, b) == single_best(c, ch, eq, scheme, a),
    decreases b - a,
{
    if b > a {
        lemma_single_skip(c, ch, eq, scheme, a, b - 1);
        assert(!eq.spec_eq(ch, c[b - 1]));
    }
}

/// The v2 match of a single-character pattern: its best place.
pub open spec fn spec_single_char(c: Seq<char>, ch: char, eq: CharEq, scheme: Scheme) -> Option<
    (int, Seq<Range<usize>>),
> {
    let b = single_best(c, ch, eq, scheme, c.len() as int);
    if b.0 == 0 {
        None
    } else {
        Some((b.0, seq![char_byte_range(c, b.1)]))
    }
}

/// The problem that the v2 algorithm solves for a pattern of at least two
/// characters that is a subsequence of the candidate.
pub open spec fn v2_problem(p: Seq<char>, c: Seq<char>, eq: CharEq, scheme: Scheme) -> V2Problem {
    let first = greedy(p, c, 0, eq)->0;
    let last = last_match_before(c, c.len() as int, p[p.len() - 1], eq)->0 + 1;
    V2Problem {
        p,
        s: c.subrange(first, last),
        init: initial_class(c, first, scheme),
        m: Seq::new(p.len(), |i: int| greedy(p, c, i, eq)->0 - first),
        eq,
        scheme,
    }
}

/// The problem of a pattern of at least two characters that is a
/// subsequence of the candidate is one the v2 algorithm is run on.
pub proof fn lemma_v2_problem_valid(p: Seq<char>, c: Seq<char>, eq: CharEq, scheme: Scheme)
    requires
        p.len() >= 2,
        p.len() <= max_chars(),
        c.len() <= max_chars(),
        greedy(p, c, p.len() - 1, eq) is Some,
        scheme.is_predefined(),
    ensures
        v2_problem(p, c, eq, scheme).valid(),
        0 <= greedy(p, c, 0, eq)->0 < last_match_before(c, c.len() as int, p[p.len() - 1], eq)->0 + 1
            <= c.len(),
{
    let n = p.len() as int;
    let pr = v2_problem(p, c, eq, scheme);
    lemma_greedy(p, c, n - 1, eq);
    let gl = greedy(p, c, n - 1, eq)->0;
    lemma_last_match_before(c, c.len() as int, p[n - 1], eq);
    let k = last_match_before(c, c.len() as int, p[n - 1], eq)->0;
    assert(k >= gl) by {
        if k < gl {
            assert(!eq.spec_eq(p[n - 1], c[gl]));
        }
    }
    assert forall|i: int| 0 <= i < n implies #[trigger] greedy(p, c, i, eq) is Some && 0 <= greedy(
        p,
        c,
        i,
        eq,
    )->0 <= gl && eq.spec_eq(p[i], c[greedy(p, c, i, eq)->0]) by {
        if i < n - 1 {
            lemma_greedy_increasing(p, c, eq, i, n - 1);
        }
        lemma_greedy(p, c, i, eq);
    }
    let first = greedy(p, c, 0, eq)->0;
    assert forall|i: int, j: int| 0 <= i < j < n implies #[trigger] pr.m[i] < #[trigger] pr.m[j] by {
        lemma_greedy_increasing(p, c, eq, i, j);
    }
    assert forall|i: int| 0 <= i < n implies #[trigger] pr.is_match(i, pr.m[i]) by {
        assert(greedy(p, c, i, eq) is Some);
        if i > 0 {
            lemma_greedy_increasing(p, c, eq, 0, i);
        }
        assert(pr.s[pr.m[i]] == c[greedy(p, c, i, eq)->0]);
    }
}

/// The v2 match of a pattern: no match unless the pattern is a subsequence
/// of the candidate; for one character, its best place; otherwise the best
/// cell of the dynamic program, and the characters that the walk back from
/// it finds.
pub open spec fn spec_fuzzy_v2(p: Seq<char>, c: Seq<char>, eq: CharEq, scheme: Scheme) -> Option<
    (int, Seq<Range<usize>>),
> {
    if p.len() == 0 {
        Some((0, Seq::empty()))
    } else if p.len() == 1 {
        spec_single_char(c, p[0], eq, scheme)
    } else if greedy(p, c, p.len() - 1, eq) is None {
        None
    } else {
        let pr = v2_problem(p, c, eq, scheme);
        let first = greedy(p, c, 0, eq)->0;
        let b = pr.best();
        let cols = pr.backtrace(b.1, b.2, true);
        Some((b.0, Seq::new(cols.len(), |k: int| char_byte_range(c, first + cols[k]))))
    }
}

} // verus!
