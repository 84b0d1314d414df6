//! Character comparison and classification helpers.

use vstd::prelude::*;

use vstd::utf8::{encode_utf8, encode_scalar, char_is_scalar, is_char_boundary, valid_utf8};
use vstd::string::StringSliceAdditionalSpecFns;
use crate::normalize::{is_normalized, lemma_normalized_is_fixed, normalize, spec_is_normalized, spec_normalize};

verus! {

/// The code of `c` with ASCII uppercase letters folded to lowercase.
pub open spec fn ascii_fold(c: char) -> u32 {
    if 65 <= c as u32 && c as u32 <= 90 {
        (c as u32 + 32) as u32
    } else {
        c as u32
    }
}

/// Whether `c` is an ASCII character.
pub open spec fn spec_is_ascii(c: char) -> bool {
    (c as u32) < 128
}

/// Whether `b` is the byte of an ASCII letter.
pub open spec fn spec_is_ascii_alphabetic_byte(b: u8) -> bool {
    (97 <= b && b <= 122) || (65 <= b && b <= 90)
}

/// Whether `c` is one of the characters that `char::is_ascii_whitespace`
/// accepts: space, tab, line feed, form feed and carriage return.
pub open spec fn spec_is_ascii_whitespace(c: char) -> bool {
    c == ' ' || c == '\t' || c == '\n' || c == '\x0C' || c == '\r'
}

/// Equality of two characters ignoring the case of ASCII letters.
pub open spec fn spec_case_insensitive_eq(lhs: char, rhs: char) -> bool {
    ascii_fold(lhs) == ascii_fold(rhs)
}

/// The candidate character as it is compared with `query_char` when
/// candidate normalization is on: it is normalized only if the query character
/// is itself one that normalization leaves alone.
pub open spec fn spec_normalize_candidate_char(query_char: char, candidate_char: char) -> char {
    if spec_is_normalized(query_char) {
        spec_normalize(candidate_char)
    } else {
        candidate_char
    }
}

/// How a query character is compared to a candidate character.
#[derive(Clone, Copy, Debug, PartialEq, Eq, Structural)]
pub struct CharEq {
    /// Whether ASCII letters must agree in case.
    pub is_case_sensitive: bool,
    /// Whether the candidate character is normalized before comparing.
    pub normalize_candidate: bool,
}

impl CharEq {
    /// Whether `query_ch` matches `candidate_ch` under these options.
    pub open spec fn spec_eq(self, query_ch: char, candidate_ch: char) -> bool {
        let c = if self.normalize_candidate {
            spec_normalize_candidate_char(query_ch, candidate_ch)
        } else {
            candidate_ch
        };
        if self.is_case_sensitive {
            query_ch == c
        } else {
            spec_case_insensitive_eq(query_ch, c)
        }
    }

    /// Compares a query character with a candidate character.
    pub fn eq(&self, query_ch: char, candidate_ch: char) -> (r: bool)
        ensures
            r == self.spec_eq(query_ch, candidate_ch),
    {
        match (self.is_case_sensitive, self.normalize_candidate) {
            (false, false) => case_insensitive_eq(query_ch, candidate_ch),
            (true, false) => case_sensitive_eq(query_ch, candidate_ch),
            (false, true) => case_insensitive_normalized_eq(query_ch, candidate_ch),
            (true, true) => case_sensitive_normalized_eq(query_ch, candidate_ch),
        }
    }
}

/// Flips the case of an ASCII letter.
pub fn ascii_letter_flip_case(ascii_letter: u8) -> (r: u8)
    requires
        spec_is_ascii_alphabetic_byte(ascii_letter),
    ensures
        r == ascii_letter ^ 0x20,
        97 <= ascii_letter <= 122 ==> r == ascii_letter - 32,
        65 <= ascii_letter <= 90 ==> r == ascii_letter + 32,
{
    assert(97 <= ascii_letter <= 122 ==> ascii_letter ^ 0x20 == ascii_letter - 32) by (bit_vector);
    assert(65 <= ascii_letter <= 90 ==> ascii_letter ^ 0x20 == ascii_letter + 32) by (bit_vector);
    ascii_letter ^ 0x20
}

/// The code of `c` with ASCII uppercase letters folded to lowercase.
fn fold(c: char) -> (r: u32)
    ensures
        r == ascii_fold(c),
{
    let v = c as u32;
    if 65 <= v && v <= 90 {
        v + 32
    } else {
        v
    }
}

/// Compares two characters, ignoring the case of ASCII letters.
pub fn case_insensitive_eq(lhs: char, rhs: char) -> (r: bool)
    ensures
        r == spec_case_insensitive_eq(lhs, rhs),
{
    fold(lhs) == fold(rhs)
}

/// Compares `lhs` with `rhs` normalized, ignoring the case of ASCII letters.
pub fn case_insensitive_normalized_eq(lhs: char, rhs: char) -> (r: bool)
    ensures
        r == spec_case_insensitive_eq(lhs, spec_normalize_candidate_char(lhs, rhs)),
{
    case_insensitive_eq(lhs, normalize_candidate_char(lhs, rhs))
}

/// Compares two characters exactly.
pub fn case_sensitive_eq(lhs: char, rhs: char) -> (r: bool)
    ensures
        r == (lhs == rhs),
{
    lhs == rhs
}

/// Compares `lhs` with `rhs` normalized, exactly.
pub fn case_sensitive_normalized_eq(lhs: char, rhs: char) -> (r: bool)
    ensures
        r == (lhs == spec_normalize_candidate_char(lhs, rhs)),
{
    lhs == normalize_candidate_char(lhs, rhs)
}

/// Every character matches itself, whatever the comparison: in particular
/// a candidate character that normalization would change still matches a
/// query character equal to it.
pub proof fn lemma_char_eq_reflexive(eq: CharEq, ch: char)
    ensures
        eq.spec_eq(ch, ch),
{
    if eq.normalize_candidate && spec_is_normalized(ch) {
        lemma_normalized_is_fixed(ch);
    }
}

/// Normalization never applies to the candidate character when the query
/// character is one that normalization would change: the comparison is the
/// same as without normalization.
pub proof fn lemma_normalization_needs_plain_query(is_case_sensitive: bool, query_ch: char, candidate_ch: char)
    requires
        !spec_is_normalized(query_ch),
    ensures
        (CharEq { is_case_sensitive, normalize_candidate: true }).spec_eq(query_ch, candidate_ch) == (CharEq {
            is_case_sensitive,
            normalize_candidate: false,
        }).spec_eq(query_ch, candidate_ch),
{
}

/// With normalization, a query character that normalization leaves alone
/// is compared with the normalized candidate character.
pub proof fn lemma_normalization_of_candidate(is_case_sensitive: bool, query_ch: char, candidate_ch: char)
    requires
        spec_is_normalized(query_ch),
    ensures
        (CharEq { is_case_sensitive, normalize_candidate: true }).spec_eq(query_ch, candidate_ch) == (CharEq {
            is_case_sensitive,
            normalize_candidate: false,
        }).spec_eq(query_ch, spec_normalize(candidate_ch)),
{
}

/// The comparison to use for the given case sensitivity and normalization.
pub fn char_eq(is_case_sensitive: bool, normalize_candidate: bool) -> (r: CharEq)
    ensures
        r.is_case_sensitive == is_case_sensitive,
        r.normalize_candidate == normalize_candidate,
{
    CharEq { is_case_sensitive, normalize_candidate }
}

/// Normalizes the candidate character if the query character is normalized.
fn normalize_candidate_char(query_char: char, candidate_char: char) -> (r: char)
    ensures
        r == spec_normalize_candidate_char(query_char, candidate_char),
{
    if is_normalized(query_char) {
        normalize(candidate_char)
    } else {
        candidate_char
    }
}

/// Whether `c` is an ASCII character.
pub fn is_ascii(c: char) -> (r: bool)
    ensures
        r == spec_is_ascii(c),
{
    (c as u32) < 128
}

/// The number of bytes of the UTF-8 encoding of `c`.
pub open spec fn utf8_len(c: char) -> nat {
    if (c as u32) < 0x80 {
        1
    } else if (c as u32) < 0x800 {
        2
    } else if (c as u32) < 0x10000 {
        3
    } else {
        4
    }
}

/// The number of bytes of the UTF-8 encoding of `c`.
pub fn len_utf8(c: char) -> (r: usize)
    ensures
        r == utf8_len(c),
{
    let v = c as u32;
    if v < 0x80 {
        1
    } else if v < 0x800 {
        2
    } else if v < 0x10000 {
        3
    } else {
        4
    }
}

/// The number of bytes of the UTF-8 encoding of `s`.
pub open spec fn byte_len(s: Seq<char>) -> nat
    decreases s.len(),
{
    if s.len() == 0 {
        0
    } else {
        byte_len(s.drop_last()) + utf8_len(s.last())
    }
}

/// The byte offset at which the character of index `i` of `s` starts.
pub open spec fn byte_offset(s: Seq<char>, i: int) -> nat {
    byte_len(s.take(i))
}

/// The byte length of a concatenation is the sum of the byte lengths.
pub proof fn lemma_byte_len_concat(a: Seq<char>, b: Seq<char>)
    ensures
        byte_len(a + b) == byte_len(a) + byte_len(b),
    decreases b.len(),
{
    if b.len() == 0 {
        assert(a + b =~= a);
    } else {
        assert((a + b).drop_last() =~= a + b.drop_last());
        lemma_byte_len_concat(a, b.drop_last());
    }
}

/// Moving one character further moves the byte offset by that character's
/// byte length.
pub proof fn lemma_byte_offset_step(s: Seq<char>, i: int)
    requires
        0 <= i < s.len(),
    ensures
        byte_offset(s, i + 1) == byte_offset(s, i) + utf8_len(s[i]),
{
    assert(s.take(i + 1).drop_last() =~= s.take(i));
}

/// Byte offsets grow with the character index.
pub proof fn lemma_byte_offset_mono(s: Seq<char>, i: int, j: int)
    requires
        0 <= i <= j <= s.len(),
    ensures
        byte_offset(s, i) <= byte_offset(s, j),
    decreases j - i,
{
    if i < j {
        lemma_byte_offset_step(s, j - 1);
        lemma_byte_offset_mono(s, i, j - 1);
    }
}

/// In a sequence of ASCII characters byte offsets equal character indices.
pub proof fn lemma_ascii_byte_offset(s: Seq<char>, i: int)
    requires
        0 <= i <= s.len(),
        forall|k: int| 0 <= k < s.len() ==> spec_is_ascii(#[trigger] s[k]),
    ensures
        byte_offset(s, i) == i,
    decreases i,
{
    if i > 0 {
        lemma_byte_offset_step(s, i - 1);
        lemma_ascii_byte_offset(s, i - 1);
    }
}

/// The byte length of `s` is the length of its UTF-8 encoding.
pub proof fn lemma_byte_len_encode(s: Seq<char>)
    ensures
        byte_len(s) == encode_utf8(s).len(),
    decreases s.len(),
{
    if s.len() > 0 {
        char_is_scalar(s[0]);
        assert(s =~= seq![s[0]] + s.drop_first());
        lemma_byte_len_concat(seq![s[0]], s.drop_first());
        assert(seq![s[0]].drop_last() =~= Seq::<char>::empty());
        let one = seq![s[0]];
        assert(byte_len(one.drop_last()) == 0);
        assert(one.last() == s[0]);
        assert(byte_len(one) == utf8_len(s[0]));
        lemma_byte_len_encode(s.drop_first());
        let v = s[0] as u32;
        assert(encode_scalar(v).len() == utf8_len(s[0]));
        assert(encode_utf8(s) == encode_scalar(v) + encode_utf8(s.drop_first()));
    }
}

/// Calls `String::push`. Taken on trust: the character is appended to the
/// characters of the string.
#[verifier::external_body]
pub(crate) fn push_char(s: &mut String, ch: char)
    ensures
        final(s)@ == old(s)@.push(ch),
{
    s.push(ch);
}

/// The number of space bytes at the start of `s`.
fn leading_spaces(s: &str) -> (r: usize)
    ensures
        r <= s.spec_bytes().len(),
        forall|i: int| 0 <= i < r ==> s.spec_bytes()[i] == 32u8,
        r < s.spec_bytes().len() ==> s.spec_bytes()[r as int] != 32u8,
{
    let bytes = s.as_bytes();
    let mut i: usize = 0;
    while i < bytes.len() && bytes[i] == 32u8
        invariant
            bytes@ == s.spec_bytes(),
            i <= bytes@.len(),
            forall|k: int| 0 <= k < i ==> bytes@[k] == 32u8,
        decreases bytes@.len() - i,
    {
        i += 1;
    }
    i
}

/// A position after a run of spaces at the start of valid UTF-8 bytes is
/// the start of a character.
proof fn lemma_space_boundary(bytes: Seq<u8>, n: int)
    requires
        valid_utf8(bytes),
        0 <= n <= bytes.len(),
        forall|i: int| 0 <= i < n ==> bytes[i] == 32u8,
    ensures
        is_char_boundary(bytes, n),
    decreases n,
{
    if n > 0 {
        let rest = bytes.subrange(1, bytes.len() as int);
        assert(vstd::utf8::pop_first_scalar(bytes) == rest);
        lemma_space_boundary(rest, n - 1);
    }
}

/// `s` without its leading spaces: the bytes removed are all spaces, and
/// what is left does not start with one.
pub fn strip_leading_spaces(s: &str) -> (r: &str)
    ensures
        r.spec_bytes().len() <= s.spec_bytes().len(),
        forall|i: int|
            0 <= i < s.spec_bytes().len() - r.spec_bytes().len() ==> s.spec_bytes()[i] == 32u8,
        r.spec_bytes() == s.spec_bytes().skip(s.spec_bytes().len() - r.spec_bytes().len()),
        r.spec_bytes().len() > 0 ==> r.spec_bytes()[0] != 32u8,
{
    let n = leading_spaces(s);
    proof {
        vstd::utf8::encode_utf8_valid_utf8(s@);
        lemma_space_boundary(s.spec_bytes(), n as int);
    }
    let (_, rest) = s.split_at(n);
    rest
}

} // verus!
