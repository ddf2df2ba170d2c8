//! Decimal text of unsigned integers, as `to_string` writes it and as
//! `str::parse` reads it: an optional `+`, then one or more digits.

use crate::text::{chars_of, is_ascii_digit, is_digit, string_of};
use vstd::prelude::*;

verus! {

/// The character of one decimal digit.
pub open spec fn digit_char(d: int) -> char {
    (48 + d) as char
}

/// The value of one decimal digit character.
pub open spec fn digit_value(c: char) -> int {
    c as int - 48
}

/// The decimal text of `n`, without sign or leading zeros.
pub open spec fn decimal(n: nat) -> Seq<char>
    decreases n,
{
    if n < 10 {
        seq![digit_char(n as int)]
    } else {
        decimal(n / 10).push(digit_char((n % 10) as int))
    }
}

/// Whether every character of `s` is a decimal digit.
pub open spec fn all_digits(s: Seq<char>) -> bool {
    forall|i: int| 0 <= i < s.len() ==> is_digit(#[trigger] s[i])
}

/// The number that a run of decimal digits stands for.
pub open spec fn digits_value(s: Seq<char>) -> nat
    decreases s.len(),
{
    if s.len() == 0 {
        0
    } else {
        (digits_value(s.drop_last()) * 10 + digit_value(s.last())) as nat
    }
}

/// The digits of a number's text: the text itself, less one leading `+`.
pub open spec fn unsigned_body(s: Seq<char>) -> Seq<char> {
    if s.len() > 0 && s[0] == '+' {
        s.drop_first()
    } else {
        s
    }
}

/// What `str::parse` gives for an unsigned type whose largest value is `max`.
pub open spec fn parse_decimal(s: Seq<char>, max: nat) -> Option<nat> {
    let body = unsigned_body(s);
    if body.len() > 0 && all_digits(body) && digits_value(body) <= max {
        Some(digits_value(body))
    } else {
        None
    }
}

/// A digit added at the end multiplies the value by ten and adds the digit.
proof fn lemma_digits_value_push(s: Seq<char>, c: char)
    requires
        is_digit(c),
    ensures
        digits_value(s.push(c)) == digits_value(s) * 10 + digit_value(c),
{
    assert(s.push(c).drop_last() =~= s);
}

/// A run of digits stands for no less than any of its beginnings.
proof fn lemma_digits_value_grows(s: Seq<char>, j: int)
    requires
        all_digits(s),
        0 <= j <= s.len(),
    ensures
        digits_value(s.take(j)) <= digits_value(s),
    decreases s.len() - j,
{
    if j < s.len() {
        assert(s.take(j + 1).drop_last() =~= s.take(j));
        assert(is_digit(s[j]));
        assert(s.take(j + 1).last() == s[j]);
        lemma_digits_value_grows(s, j + 1);
    } else {
        assert(s.take(j) =~= s);
    }
}

/// The text of a number is made of digits and stands for that number.
pub proof fn lemma_decimal_value(n: nat)
    ensures
        decimal(n).len() > 0,
        all_digits(decimal(n)),
        digits_value(decimal(n)) == n,
    decreases n,
{
    if n < 10 {
        let s = decimal(n);
        assert(s.drop_last() =~= Seq::<char>::empty());
        assert(digits_value(s.drop_last()) == 0);
    } else {
        lemma_decimal_value(n / 10);
        let c = digit_char((n % 10) as int);
        lemma_digits_value_push(decimal(n / 10), c);
    }
}

/// Reading the text of a number gives the number back.
pub proof fn lemma_parse_decimal_roundtrip(n: nat, max: nat)
    requires
        n <= max,
    ensures
        parse_decimal(decimal(n), max) == Some(n),
{
    lemma_decimal_value(n);
    let s = decimal(n);
    assert(is_digit(s[0]));
}

/// Two numbers with the same text are the same number.
pub proof fn lemma_decimal_injective(a: nat, b: nat)
    requires
        decimal(a) == decimal(b),
    ensures
        a == b,
{
    lemma_decimal_value(a);
    lemma_decimal_value(b);
}

/// The decimal text of `n`.
pub fn decimal_chars(n: u128) -> (out: Vec<char>)
    ensures
        out@ == decimal(n as nat),
{
    let mut rev: Vec<char> = Vec::new();
    let first: u8 = (n % 10) as u8;
    rev.push((48u8 + first) as char);
    let mut rest: u128 = n / 10;
    while rest > 0
        invariant
            rev@.len() > 0,
            decimal(n as nat) == (if rest > 0 {
                decimal(rest as nat)
            } else {
                Seq::<char>::empty()
            }) + rev@.reverse(),
        decreases rest,
    {
        let d: u8 = (rest % 10) as u8;
        let c: char = (48u8 + d) as char;
        let ghost before = rev@;
        let ghost prev = rest;
        rev.push(c);
        rest = rest / 10;
        proof {
            assert(rev@.reverse() =~= seq![c] + before.reverse());
            if prev < 10 {
                assert(decimal(prev as nat) =~= seq![c]);
            } else {
                assert(decimal(prev as nat) =~= decimal(rest as nat).push(c));
                assert(decimal(rest as nat).push(c) + before.reverse() =~= decimal(rest as nat)
                    + rev@.reverse());
            }
            assert(Seq::<char>::empty() + rev@.reverse() =~= rev@.reverse());
        }
    }
    let mut out: Vec<char> = Vec::new();
    let mut i: usize = rev.len();
    while i > 0
        invariant
            i <= rev.len(),
            out@.len() == rev.len() - i,
            forall|j: int| 0 <= j < out@.len() ==> out@[j] == rev@[rev.len() - 1 - j],
        decreases i,
    {
        i -= 1;
        out.push(rev[i]);
    }
    proof {
        assert(out@ =~= rev@.reverse());
        assert(Seq::<char>::empty() + rev@.reverse() =~= rev@.reverse());
    }
    out
}

/// The decimal text of `n`, as `to_string` writes it.
pub fn format_u128(n: u128) -> (s: String)
    ensures
        s@ == decimal(n as nat),
{
    let chars = decimal_chars(n);
    string_of(&chars)
}

/// The test by which reading tells that one more digit still fits.
proof fn lemma_next_fits(acc: int, d: int, max: int)
    requires
        0 <= acc,
        0 <= d <= 9,
        d <= max,
    ensures
        acc <= (max - d) / 10 <==> acc * 10 + d <= max,
{
    assert(acc <= (max - d) / 10 <==> acc * 10 + d <= max) by (nonlinear_arith)
        requires
            0 <= acc,
            0 <= d <= 9,
            d <= max,
    ;
}

/// The value of a beginning that is one digit longer.
proof fn lemma_digits_step(body: Seq<char>, i: int)
    requires
        0 <= i < body.len(),
        all_digits(body.take(i)),
        is_digit(body[i]),
    ensures
        all_digits(body.take(i + 1)),
        digits_value(body.take(i + 1)) == digits_value(body.take(i)) * 10 + digit_value(body[i]),
{
    let next = body.take(i + 1);
    assert(next.drop_last() =~= body.take(i));
    assert(next.last() == body[i]);
    assert forall|j: int| 0 <= j < next.len() implies is_digit(#[trigger] next[j]) by {
        if j < i {
            assert(body.take(i)[j] == next[j]);
        }
    }
}

/// A run of digits with a beginning above the limit is above the limit.
proof fn lemma_too_large(body: Seq<char>, i: int, max: nat)
    requires
        0 <= i <= body.len(),
        digits_value(body.take(i)) > max,
    ensures
        !(all_digits(body) && digits_value(body) <= max),
{
    if all_digits(body) {
        lemma_digits_value_grows(body, i);
    }
}

/// Reads an unsigned number no larger than `max`, as `str::parse` does.
pub fn parse_bounded(s: &Vec<char>, max: u128) -> (r: Option<u128>)
    ensures
        match parse_decimal(s@, max as nat) {
            Some(v) => r == Some(v as u128),
            None => r is None,
        },
{
    let start: usize = if s.len() > 0 && s[0] == '+' {
        1
    } else {
        0
    };
    let ghost body = unsigned_body(s@);
    assert(body =~= s@.subrange(start as int, s.len() as int));
    if start == s.len() {
        return None;
    }
    let mut acc: u128 = 0;
    let mut i: usize = start;
    assert(body.take(0) =~= Seq::<char>::empty());
    while i < s.len()
        invariant
            start <= i <= s.len(),
            body.len() == s.len() - start,
            forall|k: int| 0 <= k < body.len() ==> body[k] == s@[k + start],
            body == unsigned_body(s@),
            all_digits(body.take(i - start)),
            acc == digits_value(body.take(i - start)),
            acc <= max,
        decreases s.len() - i,
    {
        let c: char = s[i];
        let ghost at = i - start;
        assert(body[at] == c);
        if !is_ascii_digit(c) {
            assert(!all_digits(body));
            return None;
        }
        let d: u128 = (c as u8 - 48u8) as u128;
        proof {
            lemma_digits_step(body, at);
            assert(digit_value(c) == d);
        }
        if d > max {
            proof {
                lemma_too_large(body, at + 1, max as nat);
            }
            return None;
        }
        proof {
            lemma_next_fits(acc as int, d as int, max as int);
        }
        if acc > (max - d) / 10 {
            proof {
                lemma_too_large(body, at + 1, max as nat);
            }
            return None;
        }
        acc = acc * 10 + d;
        i += 1;
    }
    assert(body.take(i - start) =~= body);
    Some(acc)
}

/// Reads a `u128`, as `str::parse::<u128>` does.
pub fn parse_u128(s: &str) -> (r: Option<u128>)
    ensures
        match parse_decimal(s@, u128::MAX as nat) {
            Some(v) => r == Some(v as u128),
            None => r is None,
        },
{
    let chars = chars_of(s);
    parse_bounded(&chars, u128::MAX)
}

/// Reads a `u64`, as `str::parse::<u64>` does.
pub fn parse_u64(s: &Vec<char>) -> (r: Option<u64>)
    ensures
        match parse_decimal(s@, u64::MAX as nat) {
            Some(v) => r == Some(v as u64),
            None => r is None,
        },
{
    match parse_bounded(s, 0xffff_ffff_ffff_ffffu128) {
        Some(v) => Some(v as u64),
        None => None,
    }
}

/// Reads a `u32`, as `str::parse::<u32>` does.
pub fn parse_u32(s: &Vec<char>) -> (r: Option<u32>)
    ensures
        match parse_decimal(s@, u32::MAX as nat) {
            Some(v) => r == Some(v as u32),
            None => r is None,
        },
{
    match parse_bounded(s, 0xffff_ffffu128) {
        Some(v) => Some(v as u32),
        None => None,
    }
}

} // verus!
