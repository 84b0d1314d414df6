//! A candidate string, held either as ASCII bytes or as characters.

use vstd::prelude::*;

use std::ops::Range;

use crate::chars::{
    ascii_letter_flip_case, byte_len, byte_offset, lemma_ascii_byte_offset, lemma_byte_offset_mono,
    lemma_byte_offset_step, len_utf8, spec_is_ascii, spec_is_ascii_alphabetic_byte, utf8_len,
    CharEq,
};

verus! {

/// Calls `memchr::memchr`. Taken on trust: the result is the index of the
/// first byte of `haystack` equal to `needle`, or `None` when no byte is.
#[verifier::external_body]
fn memchr(needle: u8, haystack: &[u8]) -> (r: Option<usize>)
    ensures
        match r {
            Some(i) => i < haystack@.len() && haystack@[i as int] == needle && forall|j: int|
                0 <= j < i ==> haystack@[j] != needle,
            None => forall|j: int| 0 <= j < haystack@.len() ==> haystack@[j] != needle,
        },
{
    memchr::memchr(needle, haystack)
}

/// Calls `memchr::memchr2`. Taken on trust: the result is the index of the
/// first byte of `haystack` equal to either needle, or `None` when no byte
/// is.
#[verifier::external_body]
fn memchr2(needle1: u8, needle2: u8, haystack: &[u8]) -> (r: Option<usize>)
    ensures
        match r {
            Some(i) => i < haystack@.len() && (haystack@[i as int] == needle1 || haystack@[i as int]
                == needle2) && forall|j: int|
                0 <= j < i ==> haystack@[j] != needle1 && haystack@[j] != needle2,
            None => forall|j: int|
                0 <= j < haystack@.len() ==> haystack@[j] != needle1 && haystack@[j] != needle2,
        },
{
    memchr::memchr2(needle1, needle2, haystack)
}

/// Calls `memchr::memrchr`. Taken on trust: the result is the index of the
/// last byte of `haystack` equal to `needle`, or `None` when no byte is.
#[verifier::external_body]
fn memrchr(needle: u8, haystack: &[u8]) -> (r: Option<usize>)
    ensures
        match r {
            Some(i) => i < haystack@.len() && haystack@[i as int] == needle && forall|j: int|
                i < j < haystack@.len() ==> haystack@[j] != needle,
            None => forall|j: int| 0 <= j < haystack@.len() ==> haystack@[j] != needle,
        },
{
    memchr::memrchr(needle, haystack)
}

/// Calls `memchr::memrchr2`. Taken on trust: the result is the index of the
/// last byte of `haystack` equal to either needle, or `None` when no byte
/// is.
#[verifier::external_body]
fn memrchr2(needle1: u8, needle2: u8, haystack: &[u8]) -> (r: Option<usize>)
    ensures
        match r {
            Some(i) => i < haystack@.len() && (haystack@[i as int] == needle1 || haystack@[i as int]
                == needle2) && forall|j: int|
                i < j < haystack@.len() ==> haystack@[j] != needle1 && haystack@[j] != needle2,
            None => forall|j: int|
                0 <= j < haystack@.len() ==> haystack@[j] != needle1 && haystack@[j] != needle2,
        },
{
    memchr::memrchr2(needle1, needle2, haystack)
}

/// The characters that a sequence of ASCII bytes stands for.
pub open spec fn ascii_chars(bytes: Seq<u8>) -> Seq<char> {
    Seq::new(bytes.len(), |i: int| bytes[i] as char)
}

/// `k` is the first index in `[from, to)` where `s` holds a character that
/// matches `ch`.
pub open spec fn is_first_match(s: Seq<char>, from: int, to: int, ch: char, eq: CharEq, k: int) -> bool {
    &&& from <= k < to
    &&& eq.spec_eq(ch, s[k])
    &&& forall|j: int| from <= j < k ==> !eq.spec_eq(ch, #[trigger] s[j])
}

/// `k` is the last index in `[from, to)` where `s` holds a character that
/// matches `ch`.
pub open spec fn is_last_match(s: Seq<char>, from: int, to: int, ch: char, eq: CharEq, k: int) -> bool {
    &&& from <= k < to
    &&& eq.spec_eq(ch, s[k])
    &&& forall|j: int| k < j < to ==> !eq.spec_eq(ch, #[trigger] s[j])
}

/// No character of `s` in `[from, to)` matches `ch`.
pub open spec fn no_match(s: Seq<char>, from: int, to: int, ch: char, eq: CharEq) -> bool {
    forall|j: int| from <= j < to ==> !eq.spec_eq(ch, #[trigger] s[j])
}

/// The number of spaces at the start of `s`.
pub open spec fn spec_leading_spaces(s: Seq<char>) -> nat
    decreases s.len(),
{
    if s.len() > 0 && s[0] == ' ' {
        1 + spec_leading_spaces(s.drop_first())
    } else {
        0
    }
}

/// The number of spaces at the end of `s`.
pub open spec fn spec_trailing_spaces(s: Seq<char>) -> nat
    decreases s.len(),
{
    if s.len() > 0 && s.last() == ' ' {
        1 + spec_trailing_spaces(s.drop_last())
    } else {
        0
    }
}

/// The leading spaces of `s` are the first `n` characters when those are
/// spaces and the next one (if any) is not.
pub proof fn lemma_leading_spaces(s: Seq<char>, n: int)
    requires
        0 <= n <= s.len(),
        forall|j: int| 0 <= j < n ==> s[j] == ' ',
        n < s.len() ==> s[n] != ' ',
    ensures
        spec_leading_spaces(s) == n,
    decreases n,
{
    if n > 0 {
        lemma_leading_spaces(s.drop_first(), n - 1);
    }
}

/// The trailing spaces of `s` are the last `n` characters when those are
/// spaces and the one before them (if any) is not.
pub proof fn lemma_trailing_spaces(s: Seq<char>, n: int)
    requires
        0 <= n <= s.len(),
        forall|j: int| s.len() - n <= j < s.len() ==> s[j] == ' ',
        n < s.len() ==> s[s.len() - n - 1] != ' ',
    ensures
        spec_trailing_spaces(s) == n,
    decreases n,
{
    if n > 0 {
        lemma_trailing_spaces(s.drop_last(), n - 1);
    }
}

/// The leading spaces of `s` are spaces, and are followed by a character
/// that is not one.
pub proof fn lemma_leading_spaces_facts(s: Seq<char>)
    ensures
        spec_leading_spaces(s) <= s.len(),
        forall|j: int| 0 <= j < spec_leading_spaces(s) ==> s[j] == ' ',
        spec_leading_spaces(s) < s.len() ==> s[spec_leading_spaces(s) as int] != ' ',
    decreases s.len(),
{
    if s.len() > 0 && s[0] == ' ' {
        lemma_leading_spaces_facts(s.drop_first());
        assert forall|j: int| 0 <= j < spec_leading_spaces(s) implies s[j] == ' ' by {
            if j > 0 {
                assert(s[j] == s.drop_first()[j - 1]);
            }
        }
    }
}

/// The trailing spaces of `s` are spaces, and are preceded by a character
/// that is not one.
pub proof fn lemma_trailing_spaces_facts(s: Seq<char>)
    ensures
        spec_trailing_spaces(s) <= s.len(),
        forall|j: int| s.len() - spec_trailing_spaces(s) <= j < s.len() ==> s[j] == ' ',
        spec_trailing_spaces(s) < s.len() ==> s[s.len() - spec_trailing_spaces(s) - 1] != ' ',
    decreases s.len(),
{
    if s.len() > 0 && s.last() == ' ' {
        lemma_trailing_spaces_facts(s.drop_last());
        assert forall|j: int| s.len() - spec_trailing_spaces(s) <= j < s.len() implies s[j] == ' ' by {
            if j < s.len() - 1 {
                assert(s[j] == s.drop_last()[j]);
            }
        }
    }
}

/// The leading and trailing spaces of `s`, when it has a character other than
/// a space, do not meet.
pub proof fn lemma_spaces_facts(s: Seq<char>)
    ensures
        spec_leading_spaces(s) <= s.len(),
        spec_trailing_spaces(s) <= s.len(),
        spec_leading_spaces(s) < s.len() ==> spec_leading_spaces(s) + spec_trailing_spaces(s) < s.len(),
{
    lemma_leading_spaces_facts(s);
    lemma_trailing_spaces_facts(s);
    let l = spec_leading_spaces(s) as int;
    let t = spec_trailing_spaces(s) as int;
    if l < s.len() && l + t >= s.len() {
        assert(s.len() - t <= l < s.len());
        assert(s[l] == ' ');
    }
}

/// A candidate string: ASCII candidates are held as bytes, the others as
/// characters.
#[derive(Clone, Copy)]
pub enum Candidate<'a> {
    /// The bytes of an ASCII string.
    Ascii(&'a [u8]),
    /// The characters of a string.
    Unicode(&'a [char]),
}

impl<'a> View for Candidate<'a> {
    type V = Seq<char>;

    open spec fn view(&self) -> Seq<char> {
        match self {
            Candidate::Ascii(b) => ascii_chars(b@),
            Candidate::Unicode(c) => c@,
        }
    }
}

impl<'a> Candidate<'a> {
    /// ASCII candidates hold only ASCII bytes, and the UTF-8 encoding of every
    /// candidate fits in memory.
    pub open spec fn wf(self) -> bool {
        &&& match self {
            Candidate::Ascii(b) => forall|i: int| 0 <= i < b@.len() ==> #[trigger] b@[i] < 128,
            Candidate::Unicode(_) => true,
        }
        &&& byte_len(self@) <= usize::MAX
    }

    /// The character at index `char_idx`.
    pub fn char(self, char_idx: usize) -> (r: char)
        requires
            char_idx < self@.len(),
        ensures
            r == self@[char_idx as int],
    {
        match self {
            Candidate::Ascii(candidate) => candidate[char_idx] as char,
            Candidate::Unicode(candidate) => candidate[char_idx],
        }
    }

    /// The number of characters.
    pub fn char_len(self) -> (r: usize)
        ensures
            r == self@.len(),
    {
        match self {
            Candidate::Ascii(slice) => slice.len(),
            Candidate::Unicode(slice) => slice.len(),
        }
    }

    /// The characters from index `char_offset` on.
    pub fn chars_from(self, char_offset: usize) -> (r: Vec<char>)
        requires
            char_offset <= self@.len(),
        ensures
            r@ == self@.skip(char_offset as int),
    {
        let mut out: Vec<char> = Vec::new();
        let len = self.char_len();
        let mut i = char_offset;
        while i < len
            invariant
                char_offset <= i <= len,
                len == self@.len(),
                out@ == self@.subrange(char_offset as int, i as int),
            decreases len - i,
        {
            out.push(self.char(i));
            i += 1;
        }
        out
    }

    /// The part of the candidate between two character indices.
    pub fn slice(self, char_start: usize, char_end: usize) -> (r: Candidate<'a>)
        requires
            char_start <= char_end <= self@.len(),
        ensures
            r@ == self@.subrange(char_start as int, char_end as int),
            self.wf() ==> r.wf(),
            (self is Ascii) == (r is Ascii),
    {
        proof {
            self.lemma_subrange_wf(char_start as int, char_end as int);
        }
        match self {
            Candidate::Ascii(slice) => Candidate::Ascii(&slice[char_start..char_end]),
            Candidate::Unicode(slice) => Candidate::Unicode(&slice[char_start..char_end]),
        }
    }

    /// A part of a well-formed candidate is well-formed.
    proof fn lemma_subrange_wf(self, a: int, b: int)
        requires
            0 <= a <= b <= self@.len(),
        ensures
            self.wf() ==> byte_len(self@.subrange(a, b)) <= usize::MAX,
    {
        if self.wf() {
            let s = self@;
            crate::chars::lemma_byte_len_concat(s.subrange(0, a), s.subrange(a, b));
            crate::chars::lemma_byte_len_concat(s.subrange(0, b), s.subrange(b, s.len() as int));
            assert(s.subrange(0, a) + s.subrange(a, b) =~= s.subrange(0, b));
            assert(s.subrange(0, b) + s.subrange(b, s.len() as int) =~= s);
        }
    }

    /// The number of leading spaces.
    pub fn leading_spaces(self) -> (r: usize)
        ensures
            r == spec_leading_spaces(self@),
    {
        let len = self.char_len();
        let mut i: usize = 0;
        while i < len && self.char(i) == ' '
            invariant
                i <= len,
                len == self@.len(),
                forall|j: int| 0 <= j < i ==> self@[j] == ' ',
            decreases len - i,
        {
            i += 1;
        }
        proof {
            lemma_leading_spaces(self@, i as int);
        }
        i
    }

    /// The number of trailing spaces.
    pub fn trailing_spaces(self) -> (r: usize)
        ensures
            r == spec_trailing_spaces(self@),
    {
        let len = self.char_len();
        let mut n: usize = 0;
        while n < len && self.char(len - n - 1) == ' '
            invariant
                n <= len,
                len == self@.len(),
                forall|j: int| len - n <= j < len ==> self@[j] == ' ',
            decreases len - n,
        {
            n += 1;
        }
        proof {
            lemma_trailing_spaces(self@, n as int);
        }
        n
    }

    /// The byte offset of the character of index `char_offset`.
    pub fn to_byte_offset(self, char_offset: usize) -> (r: usize)
        requires
            self.wf(),
            char_offset <= self@.len(),
        ensures
            r == byte_offset(self@, char_offset as int),
    {
        match self {
            Candidate::Ascii(_) => {
                proof {
                    lemma_ascii_byte_offset(self@, char_offset as int);
                }
                char_offset
            },
            Candidate::Unicode(slice) => {
                let mut sum: usize = 0;
                let mut i: usize = 0;
                while i < char_offset
                    invariant
                        self == Candidate::Unicode(slice),
                        self.wf(),
                        i <= char_offset <= slice@.len(),
                        sum == byte_offset(slice@, i as int),
                    decreases char_offset - i,
                {
                    proof {
                        lemma_byte_offset_step(slice@, i as int);
                        lemma_byte_offset_mono(slice@, i + 1, slice@.len() as int);
                        assert(slice@.take(slice@.len() as int) =~= slice@);
                    }
                    sum = sum + len_utf8(slice[i]);
                    i += 1;
                }
                sum
            },
        }
    }

    /// The byte range of a range of characters.
    pub fn to_byte_range(self, char_range: Range<usize>) -> (r: Range<usize>)
        requires
            self.wf(),
            char_range.start <= char_range.end <= self@.len(),
        ensures
            r.start == byte_offset(self@, char_range.start as int),
            r.end == byte_offset(self@, char_range.end as int),
    {
        let start = self.to_byte_offset(char_range.start);
        let end = self.to_byte_offset(char_range.end);
        start..end
    }

    /// The index of the first character from `char_offset` on that matches
    /// `ch`.
    pub fn find_first_from(
        self,
        char_offset: usize,
        ch: char,
        is_case_sensitive: bool,
        char_eq: CharEq,
    ) -> (r: Option<usize>)
        requires
            self.wf(),
            char_offset <= self@.len(),
            char_eq.is_case_sensitive == is_case_sensitive,
        ensures
            match r {
                Some(k) => is_first_match(self@, char_offset as int, self@.len() as int, ch, char_eq, k as int),
                None => no_match(self@, char_offset as int, self@.len() as int, ch, char_eq),
            },
    {
        match self {
            Candidate::Ascii(slice) => {
                if (ch as u32) >= 128 {
                    proof {
                        assert forall|j: int| char_offset <= j < self@.len() implies !char_eq.spec_eq(ch, #[trigger] self@[j]) by {
                            lemma_ascii_eq(ch, self@[j], char_eq);
                        }
                    }
                    return None;
                }
                let sub = &slice[char_offset..slice.len()];
                let found = find_first_ascii(ch as u8, sub, is_case_sensitive);
                proof {
                    assert forall|j: int| 0 <= j < sub@.len() implies (#[trigger] ascii_matches(ch as u8, sub@[j], is_case_sensitive)) == char_eq.spec_eq(ch, self@[char_offset + j]) by {
                        lemma_ascii_byte_eq(ch, sub@[j], char_eq);
                    }
                }
                match found {
                    Some(offset) => {
                        proof {
                            assert forall|j: int| char_offset <= j < offset + char_offset implies !char_eq.spec_eq(ch, #[trigger] self@[j]) by {
                                assert(!ascii_matches(ch as u8, sub@[j - char_offset], is_case_sensitive));
                            }
                            assert(ascii_matches(ch as u8, sub@[offset as int], is_case_sensitive));
                        }
                        Some(offset + char_offset)
                    },
                    None => {
                        proof {
                            assert forall|j: int| char_offset <= j < self@.len() implies !char_eq.spec_eq(ch, #[trigger] self@[j]) by {
                                assert(!ascii_matches(ch as u8, sub@[j - char_offset], is_case_sensitive));
                            }
                        }
                        None
                    },
                }
            },
            Candidate::Unicode(slice) => {
                let len = slice.len();
                let mut i = char_offset;
                while i < len
                    invariant
                        self == Candidate::Unicode(slice),
                        char_offset <= i <= len,
                        len == slice@.len(),
                        no_match(slice@, char_offset as int, i as int, ch, char_eq),
                    decreases len - i,
                {
                    if char_eq.eq(ch, slice[i]) {
                        return Some(i);
                    }
                    i += 1;
                }
                None
            },
        }
    }

    /// The index of the last character before `end_offset` that matches `ch`.
    pub fn find_last_from(
        self,
        end_offset: usize,
        ch: char,
        is_case_sensitive: bool,
        char_eq: CharEq,
    ) -> (r: Option<usize>)
        requires
            self.wf(),
            end_offset <= self@.len(),
            char_eq.is_case_sensitive == is_case_sensitive,
        ensures
            match r {
                Some(k) => is_last_match(self@, 0, end_offset as int, ch, char_eq, k as int),
                None => no_match(self@, 0, end_offset as int, ch, char_eq),
            },
    {
        match self {
            Candidate::Ascii(slice) => {
                if (ch as u32) >= 128 {
                    proof {
                        assert forall|j: int| 0 <= j < end_offset implies !char_eq.spec_eq(ch, #[trigger] self@[j]) by {
                            lemma_ascii_eq(ch, self@[j], char_eq);
                        }
                    }
                    return None;
                }
                let sub = &slice[0..end_offset];
                let found = find_last_ascii(ch as u8, sub, is_case_sensitive);
                proof {
                    assert forall|j: int| 0 <= j < sub@.len() implies (#[trigger] ascii_matches(ch as u8, sub@[j], is_case_sensitive)) == char_eq.spec_eq(ch, self@[j]) by {
                        lemma_ascii_byte_eq(ch, sub@[j], char_eq);
                    }
                }
                match found {
                    Some(k) => {
                        proof {
                            assert forall|j: int| k < j < end_offset implies !char_eq.spec_eq(ch, #[trigger] self@[j]) by {
                                assert(!ascii_matches(ch as u8, sub@[j], is_case_sensitive));
                            }
                            assert(ascii_matches(ch as u8, sub@[k as int], is_case_sensitive));
                        }
                        Some(k)
                    },
                    None => {
                        proof {
                            assert forall|j: int| 0 <= j < end_offset implies !char_eq.spec_eq(ch, #[trigger] self@[j]) by {
                                assert(!ascii_matches(ch as u8, sub@[j], is_case_sensitive));
                            }
                        }
                        None
                    },
                }
            },
            Candidate::Unicode(slice) => {
                let mut i = end_offset;
                while i > 0
                    invariant
                        self == Candidate::Unicode(slice),
                        i <= end_offset <= slice@.len(),
                        no_match(slice@, i as int, end_offset as int, ch, char_eq),
                    decreases i,
                {
                    if char_eq.eq(ch, slice[i - 1]) {
                        return Some(i - 1);
                    }
                    i -= 1;
                }
                None
            },
        }
    }

    /// The index of the last character that matches `ch`.
    pub fn find_last(self, ch: char, is_case_sensitive: bool, char_eq: CharEq) -> (r: Option<usize>)
        requires
            self.wf(),
            char_eq.is_case_sensitive == is_case_sensitive,
        ensures
            match r {
                Some(k) => is_last_match(self@, 0, self@.len() as int, ch, char_eq, k as int),
                None => no_match(self@, 0, self@.len() as int, ch, char_eq),
            },
    {
        let len = self.char_len();
        self.find_last_from(len, ch, is_case_sensitive, char_eq)
    }

    /// The indices, in increasing order, of the characters from `char_offset`
    /// on that match `ch`.
    pub fn matches_from(self, char_offset: usize, ch: char, is_case_sensitive: bool, char_eq: CharEq) -> (r: Vec<usize>)
        requires
            self.wf(),
            char_offset <= self@.len(),
            char_eq.is_case_sensitive == is_case_sensitive,
        ensures
            r@ == spec_matches(self@, char_offset as int, self@.len() as int, ch, char_eq),
    {
        let len = self.char_len();
        let mut out: Vec<usize> = Vec::new();
        let mut from = char_offset;
        loop
            invariant
                char_offset <= from <= len,
                len == self@.len(),
                self.wf(),
                char_eq.is_case_sensitive == is_case_sensitive,
                spec_matches(self@, char_offset as int, len as int, ch, char_eq) == out@ + spec_matches(self@, from as int, len as int, ch, char_eq),
            decreases len - from,
        {
            match self.find_first_from(from, ch, is_case_sensitive, char_eq) {
                Some(k) => {
                    proof {
                        lemma_matches_first(self@, from as int, len as int, ch, char_eq, k as int);
                    }
                    out.push(k);
                    from = k + 1;
                    proof {
                        assert(out@ + spec_matches(self@, from as int, len as int, ch, char_eq) =~= old_out_plus(out@, spec_matches(self@, from as int, len as int, ch, char_eq)));
                    }
                },
                None => {
                    proof {
                        lemma_matches_none(self@, from as int, len as int, ch, char_eq);
                        assert(out@ + Seq::<usize>::empty() =~= out@);
                    }
                    return out;
                },
            }
        }
    }

    /// The indices, in increasing order, of the characters that match `ch`.
    pub fn matches(self, ch: char, is_case_sensitive: bool, char_eq: CharEq) -> (r: Vec<usize>)
        requires
            self.wf(),
            char_eq.is_case_sensitive == is_case_sensitive,
        ensures
            r@ == spec_matches(self@, 0, self@.len() as int, ch, char_eq),
    {
        self.matches_from(0, ch, is_case_sensitive, char_eq)
    }
}

/// The indices of the matches: in range, matching, increasing, and with no
/// other match before, between or after them.
pub proof fn lemma_matches_props(s: Seq<char>, from: int, to: int, ch: char, eq: CharEq)
    requires
        0 <= from,
        to <= usize::MAX,
    ensures
        ({
            let l = spec_matches(s, from, to, ch, eq);
            &&& forall|k: int| 0 <= k < l.len() ==> from <= #[trigger] l[k] < to && eq.spec_eq(ch, s[l[k] as int])
            &&& forall|k1: int, k2: int| 0 <= k1 < k2 < l.len() ==> #[trigger] l[k1] < #[trigger] l[k2]
            &&& forall|k: int, j: int|
                0 <= k && k + 1 < l.len() && #[trigger] l[k] < j < l[k + 1] ==> !eq.spec_eq(ch, #[trigger] s[j])
            &&& forall|j: int|
                from <= j < to && (l.len() == 0 || j < l[0]) ==> !eq.spec_eq(ch, #[trigger] s[j])
            &&& forall|j: int|
                l.len() > 0 && l[l.len() - 1] < j < to ==> !eq.spec_eq(ch, #[trigger] s[j])
        }),
    decreases to - from,
{
    if from < to {
        lemma_matches_props(s, from + 1, to, ch, eq);
        let rest = spec_matches(s, from + 1, to, ch, eq);
        let l = spec_matches(s, from, to, ch, eq);
        if eq.spec_eq(ch, s[from]) {
            assert(l == seq![from as usize] + rest);
            assert forall|k: int| 0 <= k < l.len() implies from <= #[trigger] l[k] < to && eq.spec_eq(ch, s[l[k] as int]) by {
                if k > 0 {
                    assert(l[k] == rest[k - 1]);
                }
            }
            assert forall|k1: int, k2: int| 0 <= k1 < k2 < l.len() implies #[trigger] l[k1] < #[trigger] l[k2] by {
                assert(l[k2] == rest[k2 - 1]);
                if k1 > 0 {
                    assert(l[k1] == rest[k1 - 1]);
                }
            }
            assert forall|k: int, j: int|
                0 <= k && k + 1 < l.len() && #[trigger] l[k] < j < l[k + 1] implies !eq.spec_eq(ch, #[trigger] s[j]) by {
                assert(l[k + 1] == rest[k]);
                if k > 0 {
                    assert(l[k] == rest[k - 1]);
                }
            }
            assert forall|j: int| l.len() > 0 && l[l.len() - 1] < j < to implies !eq.spec_eq(ch, #[trigger] s[j]) by {
                if rest.len() > 0 {
                    assert(l[l.len() - 1] == rest[rest.len() - 1]);
                }
            }
        } else {
            assert(l == rest);
        }
    }
}

/// What the entry `k` of the list of matches is, and that no match precedes
/// it since the previous entry.
pub proof fn lemma_matches_entry(s: Seq<char>, from: int, to: int, ch: char, eq: CharEq, k: int)
    requires
        0 <= from,
        to <= usize::MAX,
        0 <= k < spec_matches(s, from, to, ch, eq).len(),
    ensures
        ({
            let l = spec_matches(s, from, to, ch, eq);
            &&& from <= l[k] < to
            &&& eq.spec_eq(ch, s[l[k] as int])
            &&& k > 0 ==> l[k - 1] < l[k]
            &&& k > 0 ==> forall|j: int| l[k - 1] < j < l[k] ==> !eq.spec_eq(ch, #[trigger] s[j])
            &&& k == 0 ==> forall|j: int| from <= j < l[0] ==> !eq.spec_eq(ch, #[trigger] s[j])
            &&& k == l.len() - 1 ==> forall|j: int| l[k] < j < to ==> !eq.spec_eq(ch, #[trigger] s[j])
        }),
{
    lemma_matches_props(s, from, to, ch, eq);
    let l = spec_matches(s, from, to, ch, eq);
    if k > 0 {
        assert(l[k - 1] < l[k]);
        assert forall|j: int| l[k - 1] < j < l[k] implies !eq.spec_eq(ch, #[trigger] s[j]) by {
            assert(l[k - 1] < j < l[(k - 1) + 1]);
        }
    }
}

/// The list of matches is empty only when nothing matches, and starts with
/// `from` when the character there matches.
pub proof fn lemma_matches_start(s: Seq<char>, from: int, to: int, ch: char, eq: CharEq)
    requires
        0 <= from < to,
        to <= usize::MAX,
        eq.spec_eq(ch, s[from]),
    ensures
        spec_matches(s, from, to, ch, eq).len() > 0,
        spec_matches(s, from, to, ch, eq)[0] == from,
{
}

/// Identity, to help the solver line up sequence concatenations.
spec fn old_out_plus(a: Seq<usize>, b: Seq<usize>) -> Seq<usize> {
    a + b
}

/// The indices in `[from, to)`, in increasing order, where `s` holds a
/// character that matches `ch`.
pub open spec fn spec_matches(s: Seq<char>, from: int, to: int, ch: char, eq: CharEq) -> Seq<usize>
    decreases to - from,
{
    if from >= to {
        Seq::empty()
    } else if eq.spec_eq(ch, s[from]) {
        seq![from as usize] + spec_matches(s, from + 1, to, ch, eq)
    } else {
        spec_matches(s, from + 1, to, ch, eq)
    }
}

/// With no match in `[from, to)` there are no matching indices there.
pub proof fn lemma_matches_none(s: Seq<char>, from: int, to: int, ch: char, eq: CharEq)
    requires
        no_match(s, from, to, ch, eq),
    ensures
        spec_matches(s, from, to, ch, eq) == Seq::<usize>::empty(),
    decreases to - from,
{
    if from < to {
        lemma_matches_none(s, from + 1, to, ch, eq);
    }
}

/// The matching indices start with the first match.
pub proof fn lemma_matches_first(s: Seq<char>, from: int, to: int, ch: char, eq: CharEq, k: int)
    requires
        is_first_match(s, from, to, ch, eq, k),
        0 <= from,
        k < usize::MAX,
    ensures
        spec_matches(s, from, to, ch, eq) == seq![k as usize] + spec_matches(s, k + 1, to, ch, eq),
    decreases k - from,
{
    if from < k {
        lemma_matches_first(s, from + 1, to, ch, eq, k);
    }
}

/// Whether byte `b` matches the ASCII needle, ignoring case unless the search
/// is case-sensitive.
pub open spec fn ascii_matches(needle: u8, b: u8, is_case_sensitive: bool) -> bool {
    if is_case_sensitive || !spec_is_ascii_alphabetic_byte(needle) {
        b == needle
    } else {
        b == needle || b == needle ^ 0x20
    }
}

/// A non-ASCII query character matches no ASCII character.
proof fn lemma_ascii_eq(ch: char, c: char, eq: CharEq)
    requires
        !spec_is_ascii(ch),
        spec_is_ascii(c),
    ensures
        !eq.spec_eq(ch, c),
{
    crate::normalize::lemma_normalized_is_fixed(c);
}

/// For an ASCII query character and an ASCII candidate byte, matching the
/// byte is matching its character.
proof fn lemma_ascii_byte_eq(ch: char, b: u8, eq: CharEq)
    requires
        spec_is_ascii(ch),
        b < 128,
    ensures
        ascii_matches(ch as u8, b, eq.is_case_sensitive) == eq.spec_eq(ch, b as char),
{
    crate::normalize::lemma_normalized_is_fixed(b as char);
    let n = ch as u8;
    assert(97 <= n <= 122 ==> n ^ 0x20 == n - 32) by (bit_vector);
    assert(65 <= n <= 90 ==> n ^ 0x20 == n + 32) by (bit_vector);
}

/// The first index of `haystack` whose byte matches `needle`.
fn find_first_ascii(needle: u8, haystack: &[u8], is_case_sensitive: bool) -> (r: Option<usize>)
    ensures
        match r {
            Some(i) => i < haystack@.len() && ascii_matches(needle, haystack@[i as int], is_case_sensitive)
                && forall|j: int| 0 <= j < i ==> !ascii_matches(needle, #[trigger] haystack@[j], is_case_sensitive),
            None => forall|j: int| 0 <= j < haystack@.len() ==> !ascii_matches(needle, #[trigger] haystack@[j], is_case_sensitive),
        },
{
    if is_case_sensitive || !is_ascii_alphabetic_byte(needle) {
        memchr(needle, haystack)
    } else {
        memchr2(needle, ascii_letter_flip_case(needle), haystack)
    }
}

/// The last index of `haystack` whose byte matches `needle`.
fn find_last_ascii(needle: u8, haystack: &[u8], is_case_sensitive: bool) -> (r: Option<usize>)
    ensures
        match r {
            Some(i) => i < haystack@.len() && ascii_matches(needle, haystack@[i as int], is_case_sensitive)
                && forall|j: int| i < j < haystack@.len() ==> !ascii_matches(needle, #[trigger] haystack@[j], is_case_sensitive),
            None => forall|j: int| 0 <= j < haystack@.len() ==> !ascii_matches(needle, #[trigger] haystack@[j], is_case_sensitive),
        },
{
    if is_case_sensitive || !is_ascii_alphabetic_byte(needle) {
        memrchr(needle, haystack)
    } else {
        memrchr2(needle, ascii_letter_flip_case(needle), haystack)
    }
}

/// Whether `b` is the byte of an ASCII letter.
fn is_ascii_alphabetic_byte(b: u8) -> (r: bool)
    ensures
        r == spec_is_ascii_alphabetic_byte(b),
{
    (97 <= b && b <= 122) || (65 <= b && b <= 90)
}

} // verus!
