//! Numbers written in decimal: reading them from text and writing them out.

use vstd::prelude::*;

verus! {

/// The value of a decimal digit; `None` for any other character.
pub open spec fn digit_of(c: char) -> Option<nat> {
    if '0' <= c && c <= '9' {
        Some((c as nat - '0' as nat) as nat)
    } else {
        None
    }
}

/// The number that a run of decimal digits denotes; `None` where a character
/// is no digit. The empty run denotes 0.
pub open spec fn digits_value(s: Seq<char>) -> Option<nat>
    decreases s.len(),
{
    if s.len() == 0 {
        Some(0)
    } else {
        match (digits_value(s.drop_last()), digit_of(s.last())) {
            (Some(high), Some(low)) => Some(10 * high + low),
            _ => None,
        }
    }
}

/// What is left of `s` once one leading `+` is taken off.
pub open spec fn unsigned_digits(s: Seq<char>) -> Seq<char> {
    if s.len() > 0 && s[0] == '+' {
        s.drop_first()
    } else {
        s
    }
}

/// The number that `s` denotes as an unsigned decimal of at most `max`: an
/// optional `+`, then one or more digits and nothing else. Leading zeros
/// count for nothing. `None` for every other text, and for a number above
/// `max`.
pub open spec fn parse_unsigned(s: Seq<char>, max: nat) -> Option<nat> {
    let digits = unsigned_digits(s);
    match digits_value(digits) {
        Some(value) => if digits.len() > 0 && value <= max {
            Some(value)
        } else {
            None
        },
        None => None,
    }
}

/// A run of digits denotes at least what any of its beginnings denotes, and
/// has a value only where each beginning has one.
pub proof fn lemma_digits_prefix(s: Seq<char>, k: int)
    requires
        0 <= k <= s.len(),
        digits_value(s) is Some,
    ensures
        digits_value(s.take(k)) is Some,
        digits_value(s.take(k))->0 <= digits_value(s)->0,
    decreases s.len(),
{
    if k == s.len() {
        assert(s.take(k) == s);
    } else {
        assert(s.drop_last().take(k) == s.take(k));
        lemma_digits_prefix(s.drop_last(), k);
    }
}

/// The value of the decimal digit `c`, if it is one.
pub fn digit_value(c: char) -> (value: Option<u8>)
    ensures
        value is Some <==> digit_of(c) is Some,
        value is Some ==> value->0 == digit_of(c)->0,
{
    if '0' <= c && c <= '9' {
        Some((c as u32 - '0' as u32) as u8)
    } else {
        None
    }
}

/// Reads `text` as an unsigned decimal of at most `max`.
pub fn parse_decimal(text: &[char], max: u64) -> (value: Option<u64>)
    ensures
        value is Some <==> parse_unsigned(text@, max as nat) is Some,
        value is Some ==> value->0 == parse_unsigned(text@, max as nat)->0,
{
    let start: usize = if text.len() > 0 && text[0] == '+' {
        1
    } else {
        0
    };
    if start == text.len() {
        return None;
    }
    let ghost digits = unsigned_digits(text@);
    assert(digits == text@.skip(start as int));
    let mut value: u64 = 0;
    let mut at: usize = start;
    while at < text.len()
        invariant
            start <= at <= text.len(),
            digits == unsigned_digits(text@),
            digits == text@.skip(start as int),
            digits_value(digits.take(at - start)) == Some(value as nat),
            value <= max,
        decreases text.len() - at,
    {
        let ghost longer = digits.take(at - start + 1);
        proof {
            assert(longer.drop_last() == digits.take(at - start));
            assert(longer.last() == text@[at as int]);
            if digits_value(digits) is Some {
                lemma_digits_prefix(digits, at - start + 1);
            }
        }
        match digit_value(text[at]) {
            None => {
                return None;
            },
            Some(low) => {
                if low as u64 > max || value > (max - low as u64) / 10 {
                    return None;
                }
                value = 10 * value + low as u64;
            },
        }
        at += 1;
    }
    assert(digits.take(at - start) == digits);
    Some(value)
}

/// Reads `text` as an unsigned decimal that fits 32 bits.
pub fn parse_u32(text: &[char]) -> (value: Option<u32>)
    ensures
        value is Some <==> parse_unsigned(text@, u32::MAX as nat) is Some,
        value is Some ==> value->0 == parse_unsigned(text@, u32::MAX as nat)->0,
{
    match parse_decimal(text, 0xffff_ffff) {
        Some(value) => Some(value as u32),
        None => None,
    }
}

/// Reads `text` as an unsigned decimal that fits 16 bits.
pub fn parse_u16(text: &[char]) -> (value: Option<u16>)
    ensures
        value is Some <==> parse_unsigned(text@, u16::MAX as nat) is Some,
        value is Some ==> value->0 == parse_unsigned(text@, u16::MAX as nat)->0,
{
    match parse_decimal(text, 0xffff) {
        Some(value) => Some(value as u16),
        None => None,
    }
}

/// The character that writes the digit `d`.
pub open spec fn digit_char(d: nat) -> char
    recommends
        d < 10,
{
    ('0' as nat + d) as char
}

/// `n` written in decimal, without sign or leading zeros.
pub open spec fn decimal(n: nat) -> Seq<char>
    decreases n,
{
    if n < 10 {
        seq![digit_char(n)]
    } else {
        decimal(n / 10).push(digit_char(n % 10))
    }
}

/// The digit `d` as text.
fn digit_text(d: u64) -> (text: &'static str)
    requires
        d < 10,
    ensures
        text@ == seq![digit_char(d as nat)],
{
    proof {
        reveal_strlit("0");
        reveal_strlit("1");
        reveal_strlit("2");
        reveal_strlit("3");
        reveal_strlit("4");
        reveal_strlit("5");
        reveal_strlit("6");
        reveal_strlit("7");
        reveal_strlit("8");
        reveal_strlit("9");
    }
    let text = match d {
        0 => "0",
        1 => "1",
        2 => "2",
        3 => "3",
        4 => "4",
        5 => "5",
        6 => "6",
        7 => "7",
        8 => "8",
        _ => "9",
    };
    assert(text@ =~= seq![digit_char(d as nat)]);
    text
}

/// Writes `n` in decimal at the end of `out`.
pub fn push_decimal(out: &mut String, n: u64)
    ensures
        final(out)@ == old(out)@ + decimal(n as nat),
    decreases n,
{
    if n >= 10 {
        push_decimal(out, n / 10);
    }
    out.append(digit_text(n % 10));
    assert(final(out)@ =~= old(out)@ + decimal(n as nat));
}

/// `n` written in decimal.
pub fn decimal_string(n: u64) -> (text: String)
    ensures
        text@ == decimal(n as nat),
{
    let mut text = String::new();
    push_decimal(&mut text, n);
    assert(text@ =~= decimal(n as nat));
    text
}

} // verus!
