//! Sorted, non-overlapping byte ranges of a candidate that matched a query.

use vstd::prelude::*;

use std::ops::Range;

use crate::chars::push_char;
use crate::text::{push_comma, push_range, range_text};

verus! {

/// Every range starts no later than it ends, and every range ends strictly
/// before the next one starts: the ranges are sorted, disjoint and never
/// adjacent.
pub open spec fn sorted_disjoint(rs: Seq<Range<usize>>) -> bool {
    &&& forall|i: int| 0 <= i < rs.len() ==> (#[trigger] rs[i]).start <= rs[i].end
    &&& forall|i: int, j: int| 0 <= i < j < rs.len() ==> (#[trigger] rs[i]).end < (#[trigger] rs[j]).start
}

/// Whether byte position `p` lies in one of the ranges.
pub open spec fn covers(rs: Seq<Range<usize>>, p: int) -> bool {
    exists|i: int| 0 <= i < rs.len() && (#[trigger] rs[i]).start <= p && p < rs[i].end
}

/// The number of ranges that end before `x`.
pub open spec fn count_ending_before(rs: Seq<Range<usize>>, x: int) -> int
    decreases rs.len(),
{
    if rs.len() == 0 {
        0
    } else {
        count_ending_before(rs.drop_last(), x) + if rs.last().end < x {
            1int
        } else {
            0int
        }
    }
}

/// The number of ranges that start at `x` or before.
pub open spec fn count_starting_by(rs: Seq<Range<usize>>, x: int) -> int
    decreases rs.len(),
{
    if rs.len() == 0 {
        0
    } else {
        count_starting_by(rs.drop_last(), x) + if rs.last().start <= x {
            1int
        } else {
            0int
        }
    }
}

/// A range with the given bounds.
pub open spec fn mk_range(start: usize, end: usize) -> Range<usize> {
    Range { start, end }
}

/// The range that `n` makes with the ranges `a..b` of `rs`, those it
/// overlaps or touches: from the smallest start to the largest end.
pub open spec fn merged_range(rs: Seq<Range<usize>>, n: Range<usize>, a: int, b: int) -> Range<usize> {
    if a < b {
        mk_range(
            if rs[a].start <= n.start {
                rs[a].start
            } else {
                n.start
            },
            if rs[b - 1].end >= n.end {
                rs[b - 1].end
            } else {
                n.end
            },
        )
    } else {
        n
    }
}

/// What inserting `n` into the sorted ranges `rs` gives: the ranges that end
/// before `n` starts and those that start after `n` ends stay as they are;
/// the ranges in between, which overlap or touch `n`, are merged with it
/// into one range.
pub open spec fn spec_insert(rs: Seq<Range<usize>>, n: Range<usize>) -> Seq<Range<usize>> {
    let a = count_ending_before(rs, n.start as int);
    let b = count_starting_by(rs, n.end as int);
    rs.subrange(0, a) + seq![merged_range(rs, n, a, b)] + rs.subrange(b, rs.len() as int)
}

/// Whether the range at `idx` of `rs` is followed by a comma when printed:
/// when it is not the last range or, `by_length` set, when `idx + 1` is
/// less than the length of the range.
pub open spec fn has_comma(rs: Seq<Range<usize>>, idx: int, by_length: bool) -> bool {
    if by_length {
        idx + 1 < rs[idx].end - rs[idx].start
    } else {
        idx + 1 < rs.len()
    }
}

/// The first `k` ranges of `rs` as printed, with their commas.
pub open spec fn items_text(rs: Seq<Range<usize>>, k: int, by_length: bool) -> Seq<char>
    decreases k,
{
    if k <= 0 {
        Seq::empty()
    } else {
        items_text(rs, k - 1, by_length) + range_text(rs[k - 1]) + if has_comma(rs, k - 1, by_length) {
            seq![',', ' ']
        } else {
            Seq::<char>::empty()
        }
    }
}

/// Appends the ranges `start..end` of `ranges` as printed.
fn push_items(s: &mut String, ranges: &[Range<usize>], start: usize, end: usize, by_length: bool)
    requires
        start <= end <= ranges@.len(),
    ensures
        final(s)@ == old(s)@ + items_text(ranges@.subrange(start as int, end as int), end - start, by_length),
{
    let ghost rs = ranges@.subrange(start as int, end as int);
    let ghost s0 = s@;
    let mut i = start;
    while i < end
        invariant
            start <= i <= end <= ranges@.len(),
            rs == ranges@.subrange(start as int, end as int),
            s@ == s0 + items_text(rs, i - start, by_length),
        decreases end - i,
    {
        let r = &ranges[i];
        assert(*r == rs[i - start]);
        push_range(s, r);
        let comma = if by_length {
            r.start < r.end && i - start + 1 < r.end - r.start
        } else {
            i + 1 < end
        };
        assert(comma == has_comma(rs, i - start, by_length));
        if comma {
            push_comma(s);
        }
        i += 1;
    }
}

/// A buffer of ranges. The ranges that were in it when it was created are
/// kept as they are; the ranges inserted afterwards are kept sorted and
/// merged.
pub struct MatchedRanges {
    ranges: Vec<Range<usize>>,
    initial_len: usize,
}

impl MatchedRanges {
    /// All the ranges, those given at creation first.
    pub closed spec fn all(&self) -> Seq<Range<usize>> {
        self.ranges@
    }

    /// The ranges given at creation.
    pub closed spec fn initial(&self) -> Seq<Range<usize>> {
        self.ranges@.take(self.initial_len as int)
    }

    /// The ranges inserted since creation.
    pub closed spec fn inserted(&self) -> Seq<Range<usize>> {
        self.ranges@.skip(self.initial_len as int)
    }

    /// The buffer is made of its initial ranges followed by sorted, disjoint
    /// inserted ranges.
    pub closed spec fn wf(&self) -> bool {
        &&& self.initial_len <= self.ranges@.len()
        &&& sorted_disjoint(self.ranges@.skip(self.initial_len as int))
    }

    /// All the ranges are made of the initial ones followed by the inserted
    /// ones.
    pub proof fn lemma_all(&self)
        requires
            self.wf(),
        ensures
            self.all() == self.initial() + self.inserted(),
    {
        assert(self.ranges@ =~= self.ranges@.take(self.initial_len as int) + self.ranges@.skip(
            self.initial_len as int,
        ));
    }

    /// The inserted ranges are sorted and disjoint.
    pub proof fn lemma_sorted(&self)
        requires
            self.wf(),
        ensures
            sorted_disjoint(self.inserted()),
    {
    }

    /// An empty buffer.
    pub fn new() -> (r: Self)
        ensures
            r.wf(),
            r.all() == Seq::<Range<usize>>::empty(),
            r.initial() == Seq::<Range<usize>>::empty(),
            r.inserted() == Seq::<Range<usize>>::empty(),
    {
        let r = MatchedRanges { ranges: Vec::new(), initial_len: 0 };
        assert(r.ranges@.skip(0) =~= Seq::<Range<usize>>::empty());
        r
    }

    /// A buffer that keeps the given ranges and appends the inserted ones
    /// after them.
    pub fn from_vec(ranges: Vec<Range<usize>>) -> (r: Self)
        ensures
            r.wf(),
            r.all() == ranges@,
            r.initial() == ranges@,
            r.inserted() == Seq::<Range<usize>>::empty(),
    {
        let initial_len = ranges.len();
        let r = MatchedRanges { ranges, initial_len };
        assert(r.ranges@.take(initial_len as int) =~= r.ranges@);
        assert(r.ranges@.skip(initial_len as int) =~= Seq::<Range<usize>>::empty());
        r
    }

    /// Gives back all the ranges.
    pub fn into_vec(self) -> (r: Vec<Range<usize>>)
        ensures
            r@ == self.all(),
    {
        self.ranges
    }

    /// All the ranges, those given at creation first.
    pub fn as_slice(&self) -> (r: &[Range<usize>])
        ensures
            r@ == self.all(),
    {
        self.ranges.as_slice()
    }

    /// The ranges as printed: the initial ones, then, when some were
    /// inserted, a bar and the inserted ones, all in square brackets. Without
    /// inserted ranges the ranges are separated by commas; with them, a
    /// range is followed by a comma when its index plus one is less than its
    /// length.
    pub open spec fn spec_text(&self) -> Seq<char> {
        if self.inserted().len() == 0 {
            seq!['['] + items_text(self.initial(), self.initial().len() as int, false) + seq![']']
        } else {
            seq!['['] + items_text(self.initial(), self.initial().len() as int, true) + seq![' ', '|', ' ']
                + items_text(self.inserted(), self.inserted().len() as int, true) + seq![']']
        }
    }

    /// The ranges as printed: see [`MatchedRanges::spec_text`].
    pub fn to_text(&self) -> (r: String)
        requires
            self.wf(),
        ensures
            r@ == self.spec_text(),
    {
        let mut out = String::new();
        let n = self.ranges.len();
        let base = self.initial_len;
        let by_length = base < n;
        push_char(&mut out, '[');
        push_items(&mut out, self.ranges.as_slice(), 0, base, by_length);
        assert(self.ranges@.subrange(0, base as int) =~= self.initial());
        if by_length {
            push_char(&mut out, ' ');
            push_char(&mut out, '|');
            push_char(&mut out, ' ');
            push_items(&mut out, self.ranges.as_slice(), base, n, true);
            assert(self.ranges@.subrange(base as int, n as int) =~= self.inserted());
        }
        push_char(&mut out, ']');
        out
    }

    /// The number of ranges inserted since creation.
    pub fn len(&self) -> (r: usize)
        requires
            self.wf(),
        ensures
            r == self.inserted().len(),
    {
        self.ranges.len() - self.initial_len
    }
}

/// Starts and ends grow strictly along sorted, disjoint ranges.
pub proof fn lemma_bounds_increase(rs: Seq<Range<usize>>, i: int, j: int)
    requires
        sorted_disjoint(rs),
        0 <= i < j < rs.len(),
    ensures
        rs[i].start < rs[j].start,
        rs[i].end < rs[j].end,
{
    assert(rs[i].start <= rs[i].end);
    assert(rs[i].end < rs[j].start);
    assert(rs[j].start <= rs[j].end);
}

/// A prefix of sorted, disjoint ranges is sorted and disjoint.
proof fn lemma_drop_last_sorted(rs: Seq<Range<usize>>)
    requires
        sorted_disjoint(rs),
        rs.len() > 0,
    ensures
        sorted_disjoint(rs.drop_last()),
{
    let d = rs.drop_last();
    assert forall|i: int, j: int| 0 <= i < j < d.len() implies (#[trigger] d[i]).end < (#[trigger] d[j]).start by {
        assert(d[i] == rs[i] && d[j] == rs[j]);
    }
}

/// In sorted ranges, the ranges that end before `x` come first, and
/// [`count_ending_before`] counts them.
pub proof fn lemma_count_ending_before(rs: Seq<Range<usize>>, x: int)
    requires
        sorted_disjoint(rs),
    ensures
        0 <= count_ending_before(rs, x) <= rs.len(),
        forall|j: int| 0 <= j < count_ending_before(rs, x) ==> (#[trigger] rs[j]).end < x,
        forall|j: int| count_ending_before(rs, x) <= j < rs.len() ==> (#[trigger] rs[j]).end >= x,
    decreases rs.len(),
{
    if rs.len() > 0 {
        let d = rs.drop_last();
        lemma_drop_last_sorted(rs);
        lemma_count_ending_before(d, x);
        let last = rs.len() - 1;
        let c = count_ending_before(d, x);
        if rs[last].end < x {
            assert forall|j: int| 0 <= j < rs.len() implies (#[trigger] rs[j]).end < x by {
                if j < last {
                    lemma_bounds_increase(rs, j, last);
                }
            }
            assert(c == last) by {
                if c < last {
                    assert(d[c] == rs[c]);
                }
            }
        } else {
            assert forall|j: int| 0 <= j < c implies (#[trigger] rs[j]).end < x by {
                assert(d[j] == rs[j]);
            }
            assert forall|j: int| c <= j < rs.len() implies (#[trigger] rs[j]).end >= x by {
                if j < last {
                    assert(d[j] == rs[j]);
                }
            }
        }
    }
}

/// In sorted ranges, the ranges that start at `x` or before come first, and
/// [`count_starting_by`] counts them.
pub proof fn lemma_count_starting_by(rs: Seq<Range<usize>>, x: int)
    requires
        sorted_disjoint(rs),
    ensures
        0 <= count_starting_by(rs, x) <= rs.len(),
        forall|j: int| 0 <= j < count_starting_by(rs, x) ==> (#[trigger] rs[j]).start <= x,
        forall|j: int| count_starting_by(rs, x) <= j < rs.len() ==> (#[trigger] rs[j]).start > x,
    decreases rs.len(),
{
    if rs.len() > 0 {
        let d = rs.drop_last();
        lemma_drop_last_sorted(rs);
        lemma_count_starting_by(d, x);
        let last = rs.len() - 1;
        let c = count_starting_by(d, x);
        if rs[last].start <= x {
            assert forall|j: int| 0 <= j < rs.len() implies (#[trigger] rs[j]).start <= x by {
                if j < last {
                    lemma_bounds_increase(rs, j, last);
                }
            }
            assert(c == last) by {
                if c < last {
                    assert(d[c] == rs[c]);
                }
            }
        } else {
            assert forall|j: int| 0 <= j < c implies (#[trigger] rs[j]).start <= x by {
                assert(d[j] == rs[j]);
            }
            assert forall|j: int| c <= j < rs.len() implies (#[trigger] rs[j]).start > x by {
                if j < last {
                    assert(d[j] == rs[j]);
                }
            }
        }
    }
}

/// Where an insertion splits the ranges: the ranges before `a` end before
/// the new range starts, those from `b` on start after it ends, and `a`
/// comes no later than `b`.
pub proof fn lemma_insert_bounds(rs: Seq<Range<usize>>, n: Range<usize>)
    requires
        sorted_disjoint(rs),
        n.start <= n.end,
    ensures
        ({
            let a = count_ending_before(rs, n.start as int);
            let b = count_starting_by(rs, n.end as int);
            &&& 0 <= a <= b <= rs.len()
            &&& forall|j: int| 0 <= j < a ==> (#[trigger] rs[j]).end < n.start
            &&& forall|j: int| a <= j < rs.len() ==> (#[trigger] rs[j]).end >= n.start
            &&& forall|j: int| 0 <= j < b ==> (#[trigger] rs[j]).start <= n.end
            &&& forall|j: int| b <= j < rs.len() ==> (#[trigger] rs[j]).start > n.end
        }),
{
    lemma_count_ending_before(rs, n.start as int);
    lemma_count_starting_by(rs, n.end as int);
    let a = count_ending_before(rs, n.start as int);
    let b = count_starting_by(rs, n.end as int);
    if b < a {
        assert(rs[b].start <= rs[b].end);
    }
}

/// Inserting a range into sorted, disjoint ranges keeps them sorted and
/// disjoint.
pub proof fn lemma_insert_sorted(rs: Seq<Range<usize>>, n: Range<usize>)
    requires
        sorted_disjoint(rs),
        n.start <= n.end,
    ensures
        sorted_disjoint(spec_insert(rs, n)),
{
    lemma_insert_bounds(rs, n);
    let a = count_ending_before(rs, n.start as int);
    let b = count_starting_by(rs, n.end as int);
    let m = merged_range(rs, n, a, b);
    let r = spec_insert(rs, n);
    assert(r.len() == a + 1 + rs.len() - b);
    assert forall|i: int| 0 <= i < r.len() implies (#[trigger] r[i]).start <= r[i].end by {
        if i < a {
            assert(r[i] == rs[i]);
        } else if i > a {
            assert(r[i] == rs[i - a - 1 + b]);
        }
    }
    assert forall|i: int, j: int| 0 <= i < j < r.len() implies (#[trigger] r[i]).end < (#[trigger] r[j]).start by {
        if j < a {
            assert(r[i] == rs[i] && r[j] == rs[j]);
        } else if j == a {
            assert(r[i] == rs[i]);
            if a < b {
                assert(rs[i].end < rs[a].start);
            }
        } else if i > a {
            assert(r[i] == rs[i - a - 1 + b] && r[j] == rs[j - a - 1 + b]);
        } else if i == a {
            assert(r[j] == rs[j - a - 1 + b]);
            if a < b {
                if b - 1 < j - a - 1 + b {
                    assert(rs[b - 1].end < rs[j - a - 1 + b].start);
                }
            }
        } else {
            assert(r[i] == rs[i] && r[j] == rs[j - a - 1 + b]);
            assert(rs[i].end < n.start);
            assert(rs[j - a - 1 + b].start > n.end);
        }
    }
}

/// Inserting a range covers exactly the positions covered before, together
/// with those of the new range.
pub proof fn lemma_insert_covers(rs: Seq<Range<usize>>, n: Range<usize>, p: int)
    requires
        sorted_disjoint(rs),
        n.start <= n.end,
    ensures
        covers(spec_insert(rs, n), p) <==> (covers(rs, p) || (n.start <= p && p < n.end)),
{
    lemma_insert_bounds(rs, n);
    let a = count_ending_before(rs, n.start as int);
    let b = count_starting_by(rs, n.end as int);
    let m = merged_range(rs, n, a, b);
    let r = spec_insert(rs, n);
    assert(r[a] == m);
    if covers(r, p) {
        let i = choose|i: int| 0 <= i < r.len() && (#[trigger] r[i]).start <= p && p < r[i].end;
        if i < a {
            assert(r[i] == rs[i]);
        } else if i > a {
            assert(r[i] == rs[i - a - 1 + b]);
        } else if a < b {
            if p < n.start {
                assert(rs[a].start <= p < rs[a].end);
            } else if p >= n.end {
                assert(rs[b - 1].start <= p < rs[b - 1].end);
            }
        }
    }
    if covers(rs, p) {
        let j = choose|j: int| 0 <= j < rs.len() && (#[trigger] rs[j]).start <= p && p < rs[j].end;
        if j < a {
            assert(r[j] == rs[j]);
        } else if j >= b {
            assert(r[j - b + a + 1] == rs[j]);
        } else {
            if a < j {
                lemma_bounds_increase(rs, a, j);
            }
            if j < b - 1 {
                lemma_bounds_increase(rs, j, b - 1);
            }
            assert(m.start <= p < m.end);
        }
    }
    if n.start <= p && p < n.end {
        assert(m.start <= p < m.end);
    }
}

impl MatchedRanges {
    /// Inserts a range: the inserted ranges it overlaps or touches are merged
    /// with it into one range, from the smallest start to the largest end.
    /// The ranges given at creation are left as they are.
    pub fn insert(&mut self, new_range: Range<usize>)
        requires
            old(self).wf(),
            new_range.start <= new_range.end,
        ensures
            final(self).wf(),
            final(self).initial() == old(self).initial(),
            final(self).inserted() == spec_insert(old(self).inserted(), new_range),
            forall|p: int|
                covers(final(self).inserted(), p) <==> (covers(old(self).inserted(), p) || (
                new_range.start <= p && p < new_range.end)),
    {
        let ghost rs = self.inserted();
        let base = self.initial_len;
        let mut v: Vec<Range<usize>> = Vec::new();
        std::mem::swap(&mut v, &mut self.ranges);
        let ghost old_v = v@;
        let len = v.len();
        proof {
            lemma_insert_bounds(rs, new_range);
            lemma_insert_sorted(rs, new_range);
        }
        let ghost ca = count_ending_before(rs, new_range.start as int);
        let ghost cb = count_starting_by(rs, new_range.end as int);
        let mut a = base;
        while a < len && v[a].end < new_range.start
            invariant
                base <= a <= len,
                len == v@.len(),
                rs == v@.skip(base as int),
                forall|j: int| base <= j < a ==> (#[trigger] v@[j]).end < new_range.start,
            decreases len - a,
        {
            a += 1;
        }
        assert(a - base == ca) by {
            if a - base < ca {
                assert(rs[a - base] == v@[a as int]);
            }
            if a - base > ca {
                assert(rs[ca] == v@[base + ca]);
            }
        }
        let mut b = a;
        while b < len && v[b].start <= new_range.end
            invariant
                base <= a <= b <= len,
                len == v@.len(),
                rs == v@.skip(base as int),
                a - base == ca,
                forall|j: int| a <= j < b ==> (#[trigger] v@[j]).start <= new_range.end,
            decreases len - b,
        {
            b += 1;
        }
        assert(b - base == cb) by {
            if b - base < cb {
                assert(rs[b - base] == v@[b as int]);
            }
            if b - base > cb {
                assert(rs[cb] == v@[base + cb]);
                if base + cb < a {
                    assert(rs[cb].end < new_range.start);
                    assert(rs[cb].start <= rs[cb].end);
                }
            }
        }
        let merged = if a < b {
            let start = if v[a].start <= new_range.start {
                v[a].start
            } else {
                new_range.start
            };
            let end = if v[b - 1].end >= new_range.end {
                v[b - 1].end
            } else {
                new_range.end
            };
            start..end
        } else {
            new_range.start..new_range.end
        };
        assert(merged == merged_range(rs, new_range, ca, cb)) by {
            if a < b {
                assert(rs[ca] == v@[a as int]);
                assert(rs[cb - 1] == v@[b - 1]);
            }
        }
        let mut out: Vec<Range<usize>> = Vec::new();
        let mut i: usize = 0;
        while i < a
            invariant
                i <= a <= len,
                len == v@.len(),
                out@ == v@.subrange(0, i as int),
            decreases a - i,
        {
            let r = &v[i];
            out.push(r.start..r.end);
            assert(out@ =~= v@.subrange(0, i + 1));
            i += 1;
        }
        out.push(merged);
        let ghost head = out@;
        let mut j: usize = b;
        while j < len
            invariant
                b <= j <= len,
                len == v@.len(),
                out@ == head + v@.subrange(b as int, j as int),
            decreases len - j,
        {
            let r = &v[j];
            out.push(r.start..r.end);
            assert(out@ =~= head + v@.subrange(b as int, j + 1));
            j += 1;
        }
        proof {
            assert(out@.take(base as int) =~= old_v.take(base as int));
            assert(out@.skip(base as int) =~= spec_insert(rs, new_range));
        }
        self.ranges = out;
        assert(self.inserted() == spec_insert(rs, new_range));
        assert(rs == old(self).inserted());
        assert forall|p: int|
            #![trigger covers(self.inserted(), p)]
            covers(self.inserted(), p) <==> (covers(old(self).inserted(), p) || (new_range.start
                <= p && p < new_range.end)) by {
            lemma_insert_covers(rs, new_range, p);
        }
    }
}

impl Default for MatchedRanges {
    fn default() -> (r: Self)
        ensures
            r.wf(),
            r.all() == Seq::<Range<usize>>::empty(),
            r.inserted() == Seq::<Range<usize>>::empty(),
    {
        MatchedRanges::new()
    }
}

} // verus!
