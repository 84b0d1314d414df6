//! Greedy searches of the characters of a pattern in a candidate, from the
//! left and from the right, and what they say about fuzzy matches.

use vstd::prelude::*;

use crate::candidate::{is_first_match, is_last_match, no_match};
use crate::chars::CharEq;

verus! {

/// The first index from `from` on where `c` holds a character that matches
/// `ch`.
pub open spec fn first_match_from(c: Seq<char>, from: int, ch: char, eq: CharEq) -> Option<int>
    decreases c.len() - from,
{
    if from < 0 || from >= c.len() {
        None
    } else if eq.spec_eq(ch, c[from]) {
        Some(from)
    } else {
        first_match_from(c, from + 1, ch, eq)
    }
}

/// The last index before `end` where `c` holds a character that matches
/// `ch`.
pub open spec fn last_match_before(c: Seq<char>, end: int, ch: char, eq: CharEq) -> Option<int>
    decreases end,
{
    if end <= 0 || end > c.len() {
        None
    } else if eq.spec_eq(ch, c[end - 1]) {
        Some(end - 1)
    } else {
        last_match_before(c, end - 1, ch, eq)
    }
}

/// Where the greedy left-to-right search puts the pattern character of index
/// `i`: each character is matched at the first place after the previous one.
pub open spec fn greedy(p: Seq<char>, c: Seq<char>, i: int, eq: CharEq) -> Option<int>
    decreases i,
{
    if i < 0 {
        None
    } else if i == 0 {
        first_match_from(c, 0, p[0], eq)
    } else {
        match greedy(p, c, i - 1, eq) {
            None => None,
            Some(k) => first_match_from(c, k + 1, p[i], eq),
        }
    }
}

/// The end of the greedy left-to-right search of the whole pattern: one past
/// the place of its last character.
pub open spec fn forward_end(p: Seq<char>, c: Seq<char>, eq: CharEq) -> Option<int> {
    match greedy(p, c, p.len() - 1, eq) {
        Some(k) => Some(k + 1),
        None => None,
    }
}

/// The greedy right-to-left search of the first `i` pattern characters
/// before `end`: each character is matched at the last place before the
/// next one. The result is the place of the first pattern character.
pub open spec fn backward_start(p: Seq<char>, c: Seq<char>, i: int, end: int, eq: CharEq) -> int
    decreases i,
{
    if i <= 0 {
        end
    } else {
        match last_match_before(c, end, p[i - 1], eq) {
            None => end,
            Some(k) => backward_start(p, c, i - 1, k, eq),
        }
    }
}

/// Whether the pattern is a subsequence of the candidate: its characters
/// match candidate characters at increasing indices.
pub open spec fn is_fuzzy_match(p: Seq<char>, c: Seq<char>, eq: CharEq) -> bool {
    exists|ms: Seq<int>| #[trigger] fuzzy_positions(p, c, eq, ms)
}

/// `ms` gives, for every pattern character, the index of a candidate
/// character that matches it, the indices increasing.
pub open spec fn fuzzy_positions(p: Seq<char>, c: Seq<char>, eq: CharEq, ms: Seq<int>) -> bool {
    &&& ms.len() == p.len()
    &&& forall|i: int| 0 <= i < ms.len() ==> 0 <= #[trigger] ms[i] < c.len()
    &&& forall|i: int| 0 <= i < ms.len() ==> eq.spec_eq(p[i], c[#[trigger] ms[i]])
    &&& forall|i: int, j: int| 0 <= i < j < ms.len() ==> #[trigger] ms[i] < #[trigger] ms[j]
}

/// What the first match from `from` is.
pub proof fn lemma_first_match_from(c: Seq<char>, from: int, ch: char, eq: CharEq)
    requires
        0 <= from,
    ensures
        match first_match_from(c, from, ch, eq) {
            Some(k) => 0 <= from <= k < c.len() && eq.spec_eq(ch, c[k]) && forall|j: int|
                from <= j < k ==> !eq.spec_eq(ch, #[trigger] c[j]),
            None => forall|j: int| from <= j < c.len() && 0 <= j ==> !eq.spec_eq(ch, #[trigger] c[j]),
        },
    decreases c.len() - from,
{
    if from >= 0 && from < c.len() && !eq.spec_eq(ch, c[from]) {
        lemma_first_match_from(c, from + 1, ch, eq);
    }
}

/// What the last match before `end` is.
pub proof fn lemma_last_match_before(c: Seq<char>, end: int, ch: char, eq: CharEq)
    requires
        end <= c.len(),
    ensures
        match last_match_before(c, end, ch, eq) {
            Some(k) => 0 <= k < end && eq.spec_eq(ch, c[k]) && forall|j: int|
                k < j < end ==> !eq.spec_eq(ch, #[trigger] c[j]),
            None => forall|j: int| 0 <= j < end ==> !eq.spec_eq(ch, #[trigger] c[j]),
        },
    decreases end,
{
    if end > 0 && !eq.spec_eq(ch, c[end - 1]) {
        lemma_last_match_before(c, end - 1, ch, eq);
    }
}

/// The search of a candidate finds what the spec says it finds.
pub proof fn lemma_first_match_is(c: Seq<char>, from: int, ch: char, eq: CharEq, k: int)
    requires
        0 <= from,
        is_first_match(c, from, c.len() as int, ch, eq, k),
    ensures
        first_match_from(c, from, ch, eq) == Some(k),
{
    lemma_first_match_from(c, from, ch, eq);
}

/// A failed search of a candidate finds nothing.
pub proof fn lemma_first_match_none(c: Seq<char>, from: int, ch: char, eq: CharEq)
    requires
        0 <= from,
        no_match(c, from, c.len() as int, ch, eq),
    ensures
        first_match_from(c, from, ch, eq) is None,
{
    lemma_first_match_from(c, from, ch, eq);
    if let Some(k) = first_match_from(c, from, ch, eq) {
        assert(!eq.spec_eq(ch, c[k]));
    }
}

/// The backward search of a candidate finds what the spec says it finds.
pub proof fn lemma_last_match_is(c: Seq<char>, end: int, ch: char, eq: CharEq, k: int)
    requires
        end <= c.len(),
        is_last_match(c, 0, end, ch, eq, k),
    ensures
        last_match_before(c, end, ch, eq) == Some(k),
{
    lemma_last_match_before(c, end, ch, eq);
    if let Some(k2) = last_match_before(c, end, ch, eq) {
        if k2 < k {
            assert(!eq.spec_eq(ch, c[k]));
        }
        if k < k2 {
            assert(!eq.spec_eq(ch, c[k2]));
        }
    } else {
        assert(!eq.spec_eq(ch, c[k]));
    }
}

/// The greedy places are matches, increasing, and a failure stays a failure.
pub proof fn lemma_greedy(p: Seq<char>, c: Seq<char>, i: int, eq: CharEq)
    requires
        0 <= i < p.len(),
    ensures
        greedy(p, c, i, eq) matches Some(g) ==> 0 <= g < c.len() && eq.spec_eq(p[i], c[g]),
        i > 0 ==> (greedy(p, c, i, eq) matches Some(g) ==> greedy(p, c, i - 1, eq) matches Some(
            g0,
        ) && g0 < g),
        i > 0 && greedy(p, c, i - 1, eq) is None ==> greedy(p, c, i, eq) is None,
    decreases i,
{
    if i == 0 {
        lemma_first_match_from(c, 0, p[0], eq);
    } else {
        lemma_greedy(p, c, i - 1, eq);
        if let Some(k) = greedy(p, c, i - 1, eq) {
            lemma_first_match_from(c, k + 1, p[i], eq);
        }
    }
}

/// Once the greedy search fails for a character it fails for every later
/// one.
pub proof fn lemma_greedy_none(p: Seq<char>, c: Seq<char>, i: int, j: int, eq: CharEq)
    requires
        0 <= i <= j < p.len(),
        greedy(p, c, i, eq) is None,
    ensures
        greedy(p, c, j, eq) is None,
    decreases j - i,
{
    if j > i {
        lemma_greedy_none(p, c, i, j - 1, eq);
    }
}

/// When the pattern is a subsequence of the candidate, the greedy search
/// places each of its characters no later than any way of matching it does.
pub proof fn lemma_greedy_leftmost(p: Seq<char>, c: Seq<char>, eq: CharEq, ms: Seq<int>, i: int)
    requires
        fuzzy_positions(p, c, eq, ms),
        0 <= i < p.len(),
    ensures
        greedy(p, c, i, eq) matches Some(g) && g <= ms[i],
    decreases i,
{
    if i == 0 {
        lemma_first_match_from(c, 0, p[0], eq);
        assert(eq.spec_eq(p[0], c[ms[0]]));
    } else {
        lemma_greedy_leftmost(p, c, eq, ms, i - 1);
        lemma_greedy(p, c, i - 1, eq);
        let k = greedy(p, c, i - 1, eq)->0;
        assert(ms[i - 1] < ms[i]);
        lemma_first_match_from(c, k + 1, p[i], eq);
        assert(eq.spec_eq(p[i], c[ms[i]]));
    }
}

/// The places of the greedy search, up to pattern index `i`.
pub open spec fn greedy_positions(p: Seq<char>, c: Seq<char>, i: int, eq: CharEq) -> Seq<int> {
    Seq::new((i + 1) as nat, |j: int| greedy(p, c, j, eq)->0)
}

/// When the greedy search places every character, its places show that the
/// pattern is a subsequence.
pub proof fn lemma_greedy_positions(p: Seq<char>, c: Seq<char>, eq: CharEq)
    requires
        p.len() > 0,
        greedy(p, c, p.len() - 1, eq) is Some,
    ensures
        fuzzy_positions(p, c, eq, greedy_positions(p, c, p.len() - 1, eq)),
{
    let n = p.len() as int;
    let ms = greedy_positions(p, c, n - 1, eq);
    assert forall|i: int| 0 <= i < n implies #[trigger] greedy(p, c, i, eq) is Some by {
        if greedy(p, c, i, eq) is None {
            lemma_greedy_none(p, c, i, n - 1, eq);
        }
    }
    assert forall|i: int| 0 <= i < n implies 0 <= #[trigger] ms[i] < c.len() && eq.spec_eq(
        p[i],
        c[ms[i]],
    ) by {
        lemma_greedy(p, c, i, eq);
        assert(greedy(p, c, i, eq) is Some);
    }
    assert forall|i: int, j: int| 0 <= i < j < n implies #[trigger] ms[i] < #[trigger] ms[j] by {
        lemma_greedy_increasing(p, c, eq, i, j);
    }
}

/// The greedy places increase with the pattern index.
pub proof fn lemma_greedy_increasing(p: Seq<char>, c: Seq<char>, eq: CharEq, i: int, j: int)
    requires
        0 <= i < j < p.len(),
        greedy(p, c, j, eq) is Some,
    ensures
        greedy(p, c, i, eq) is Some,
        greedy(p, c, i, eq)->0 < greedy(p, c, j, eq)->0,
    decreases j - i,
{
    lemma_greedy(p, c, j, eq);
    if j - 1 > i {
        lemma_greedy_increasing(p, c, eq, i, j - 1);
    }
}

/// The greedy search succeeds exactly when the pattern is a subsequence of
/// the candidate.
pub proof fn lemma_forward_iff_fuzzy(p: Seq<char>, c: Seq<char>, eq: CharEq)
    requires
        p.len() > 0,
    ensures
        forward_end(p, c, eq) is Some <==> is_fuzzy_match(p, c, eq),
{
    if forward_end(p, c, eq) is Some {
        lemma_greedy_positions(p, c, eq);
        assert(fuzzy_positions(p, c, eq, greedy_positions(p, c, p.len() - 1, eq)));
    }
    if is_fuzzy_match(p, c, eq) {
        let ms = choose|ms: Seq<int>| #[trigger] fuzzy_positions(p, c, eq, ms);
        lemma_greedy_leftmost(p, c, eq, ms, p.len() - 1);
    }
}

/// The backward search, from the end of a successful forward search, places
/// every pattern character: it never runs out of matches, and each place is
/// at or after the greedy one.
pub proof fn lemma_backward_finds(p: Seq<char>, c: Seq<char>, i: int, end: int, eq: CharEq)
    requires
        0 < i <= p.len(),
        end <= c.len(),
        greedy(p, c, i - 1, eq) matches Some(g) && g < end,
    ensures
        last_match_before(c, end, p[i - 1], eq) matches Some(k) && greedy(p, c, i - 1, eq)->0 <= k < end,
        0 <= backward_start(p, c, i, end, eq) < end,
    decreases i,
{
    let g = greedy(p, c, i - 1, eq)->0;
    lemma_greedy(p, c, i - 1, eq);
    lemma_last_match_before(c, end, p[i - 1], eq);
    if last_match_before(c, end, p[i - 1], eq) is None {
        assert(!eq.spec_eq(p[i - 1], c[g]));
    }
    let k = last_match_before(c, end, p[i - 1], eq)->0;
    if k < g {
        assert(!eq.spec_eq(p[i - 1], c[g]));
    }
    if i > 1 {
        lemma_backward_finds(p, c, i - 1, k, eq);
    } else {
        assert(backward_start(p, c, i - 1, k, eq) == k);
    }
    assert(backward_start(p, c, i, end, eq) == backward_start(p, c, i - 1, k, eq));
}

} // verus!
