//! Decimal writing of numbers and padding, for the printable pictures of
//! the library's values.

use vstd::prelude::*;

use std::ops::Range;

use crate::chars::push_char;

verus! {

/// The decimal digit `d`.
pub open spec fn digit_char(d: nat) -> char {
    (48 + d) as char
}

/// The decimal writing of `n`.
pub open spec fn decimal(n: nat) -> Seq<char>
    decreases n,
{
    if n < 10 {
        seq![digit_char(n)]
    } else {
        decimal(n / 10).push(digit_char(n % 10))
    }
}

/// `n` spaces.
pub open spec fn spaces(n: int) -> Seq<char> {
    Seq::new(n as nat, |i: int| ' ')
}

/// The writing of `n` in decimal has at most as many digits as that of any
/// larger number.
pub proof fn lemma_decimal_mono(a: nat, b: nat)
    requires
        a <= b,
    ensures
        decimal(a).len() <= decimal(b).len(),
    decreases b,
{
    if b >= 10 && a >= 10 {
        lemma_decimal_mono(a / 10, b / 10);
    }
}

/// Appends the decimal writing of `n` to `s`.
pub fn push_decimal(s: &mut String, n: u64)
    ensures
        final(s)@ == old(s)@ + decimal(n as nat),
    decreases n,
{
    if n >= 10 {
        push_decimal(s, n / 10);
    }
    let d = (48 + (n % 10) as u32) as u8 as char;
    assert(d == digit_char((n % 10) as nat)) by {
        assert(48 + (n % 10) < 128);
    }
    push_char(s, d);
    assert(decimal(n as nat) == if n < 10 {
        seq![digit_char(n as nat)]
    } else {
        decimal((n / 10) as nat).push(digit_char((n % 10) as nat))
    });
}

/// The number of digits of the decimal writing of `n`.
pub fn printed_width(n: u64) -> (r: usize)
    ensures
        r == decimal(n as nat).len(),
        1 <= r <= 20,
    decreases n,
{
    if n < 10 {
        1
    } else {
        let w = printed_width(n / 10);
        proof {
            lemma_decimal_len_bound(n as nat);
        }
        w + 1
    }
}

/// A number below 10^20 has at most 20 digits.
proof fn lemma_decimal_len_bound(n: nat)
    requires
        n <= u64::MAX,
    ensures
        1 <= decimal(n).len() <= 20,
{
    assert(pow10(20) == 100_000_000_000_000_000_000) by {
        reveal_with_fuel(pow10, 21);
    }
    lemma_decimal_len_pow(n, 20);
}

/// A number below 10^k has at most k digits.
proof fn lemma_decimal_len_pow(n: nat, k: nat)
    requires
        k >= 1,
        n < pow10(k),
    ensures
        1 <= decimal(n).len() <= k,
    decreases k,
{
    if n >= 10 {
        assert(pow10(1) == 10) by {
            reveal_with_fuel(pow10, 2);
        }
        assert(k >= 2);
        assert(n / 10 < pow10((k - 1) as nat)) by {
            lemma_pow10_step((k - 1) as nat);
        }
        lemma_decimal_len_pow(n / 10, (k - 1) as nat);
    }
}

/// 10 to the power `k`.
pub open spec fn pow10(k: nat) -> nat
    decreases k,
{
    if k == 0 {
        1
    } else {
        10 * pow10((k - 1) as nat)
    }
}

/// The step of the powers of 10.
proof fn lemma_pow10_step(k: nat)
    ensures
        pow10(k + 1) == 10 * pow10(k),
{
}

/// Appends `n` spaces to `s`.
pub fn push_spaces(s: &mut String, n: usize)
    ensures
        final(s)@ == old(s)@ + spaces(n as int),
{
    let ghost s0 = s@;
    let mut k: usize = 0;
    while k < n
        invariant
            k <= n,
            s@ == s0 + spaces(k as int),
        decreases n - k,
    {
        push_char(s, ' ');
        assert(s0 + spaces(k + 1) =~= s0 + spaces(k as int) + seq![' ']);
        k += 1;
    }
}

/// A range as printed: its start, two dots and its end.
pub open spec fn range_text(r: Range<usize>) -> Seq<char> {
    decimal(r.start as nat) + seq!['.', '.'] + decimal(r.end as nat)
}

/// Appends the range as printed to `s`.
pub fn push_range(s: &mut String, r: &Range<usize>)
    ensures
        final(s)@ == old(s)@ + range_text(*r),
{
    push_decimal(s, r.start as u64);
    push_char(s, '.');
    push_char(s, '.');
    push_decimal(s, r.end as u64);
}

/// Appends `, ` to `s`.
pub fn push_comma(s: &mut String)
    ensures
        final(s)@ == old(s)@ + seq![',', ' '],
{
    push_char(s, ',');
    push_char(s, ' ');
}

/// Appends the characters of `t` to `s`.
pub fn push_str(s: &mut String, t: &str)
    ensures
        final(s)@ == old(s)@ + t@,
{
    let ghost s0 = s@;
    for ch in it: t.chars()
        invariant
            s@ == s0 + it.seq().take(it.index() as int),
            it.seq() == t@,
    {
        proof {
            assert(it.seq().take(it.index() + 1) =~= it.seq().take(it.index() as int).push(ch));
        }
        push_char(s, ch);
    }
    assert(t@.take(t@.len() as int) =~= t@);
}

/// What the standard library's `Debug` writes for a string: the string in
/// double quotes, with its special characters escaped.
pub uninterp spec fn debug_quoted(s: Seq<char>) -> Seq<char>;

/// Formats `t` with `format!("{:?}", t)`. Taken on trust: the result is
/// [`debug_quoted`] of the characters of `t`, a function of them alone; how
/// the characters are escaped is not stated.
#[verifier::external_body]
pub fn debug_string(t: &str) -> (r: String)
    ensures
        r@ == debug_quoted(t@),
{
    format!("{:?}", t)
}

} // verus!
