//! Decimal numbers in text.

use crate::text::{char_is_digit, is_digit};
use vstd::prelude::*;

verus! {

/// The value of a decimal digit.
pub open spec fn digit_value(c: char) -> nat {
    (c as nat - '0' as nat) as nat
}

/// Every character of `s` is a decimal digit.
pub open spec fn all_digits(s: Seq<char>) -> bool {
    forall|i: int| 0 <= i < s.len() ==> is_digit(#[trigger] s[i])
}

/// The number that the digits of `s` spell, most significant first.
pub open spec fn decimal_value(s: Seq<char>) -> nat
    decreases s.len(),
{
    if s.len() == 0 {
        0
    } else {
        decimal_value(s.drop_last()) * 10 + digit_value(s.last())
    }
}

/// A number in decimal digits that is at most `max`.
pub open spec fn is_decimal_up_to(s: Seq<char>, max: nat) -> bool {
    s.len() > 0 && all_digits(s) && decimal_value(s) <= max
}

/// The digits read so far never spell more than the whole text does.
pub proof fn lemma_decimal_prefix(s: Seq<char>, k: int)
    requires
        0 <= k <= s.len(),
    ensures
        decimal_value(s.subrange(0, k)) <= decimal_value(s),
    decreases s.len() - k,
{
    if k < s.len() {
        lemma_decimal_prefix(s, k + 1);
        let t = s.subrange(0, k + 1);
        assert(t.drop_last() =~= s.subrange(0, k));
        assert(decimal_value(t) == decimal_value(s.subrange(0, k)) * 10 + digit_value(t.last()));
    } else {
        assert(s.subrange(0, k) =~= s);
    }
}

/// Reads `s` as a decimal number of at most `max`.
pub fn parse_decimal(s: &[char], max: u64) -> (r: Option<u64>)
    ensures
        r is Some <==> is_decimal_up_to(s@, max as nat),
        r matches Some(v) ==> v == decimal_value(s@),
{
    if s.len() == 0 {
        return None;
    }
    let mut value: u64 = 0;
    let mut i: usize = 0;
    while i < s.len()
        invariant
            i <= s.len(),
            all_digits(s@.subrange(0, i as int)),
            value == decimal_value(s@.subrange(0, i as int)),
            value <= max,
        decreases s.len() - i,
    {
        let c = s[i];
        if !char_is_digit(c) {
            return None;
        }
        let d: u64 = (c as u64) - ('0' as u64);
        proof {
            let t = s@.subrange(0, i + 1);
            assert(t.drop_last() =~= s@.subrange(0, i as int));
            assert(decimal_value(t) == value * 10 + d);
            assert forall|j: int| 0 <= j < t.len() implies is_digit(#[trigger] t[j]) by {
                if j < i {
                    assert(t[j] == s@.subrange(0, i as int)[j]);
                }
            }
            lemma_decimal_prefix(s@, i + 1);
        }
        if value > max / 10 {
            return None;
        }
        if d > max - value * 10 {
            return None;
        }
        value = value * 10 + d;
        i += 1;
    }
    proof {
        assert(s@.subrange(0, s.len() as int) =~= s@);
    }
    Some(value)
}

/// The digits of an unsigned number: `s` without a plus sign in front.
pub open spec fn unsigned_digits(s: Seq<char>) -> Seq<char> {
    if s.len() > 0 && s[0] == '+' {
        s.drop_first()
    } else {
        s
    }
}

/// The number that `s` spells, where `s` is an optional plus sign and then
/// decimal digits, at least one, that spell at most `max`.
pub open spec fn unsigned_value(s: Seq<char>, max: nat) -> Option<nat> {
    if is_decimal_up_to(unsigned_digits(s), max) {
        Some(decimal_value(unsigned_digits(s)))
    } else {
        None
    }
}

/// Reads `s` as an unsigned number of at most `max`: an optional plus sign,
/// then decimal digits and nothing else.
pub fn parse_unsigned(s: &[char], max: u64) -> (r: Option<u64>)
    ensures
        r is Some <==> unsigned_value(s@, max as nat) is Some,
        r matches Some(v) ==> unsigned_value(s@, max as nat) == Some(v as nat),
{
    if s.len() > 0 && s[0] == '+' {
        let digits = crate::text::copy_range(s, 1, s.len());
        proof {
            assert(digits@ =~= s@.drop_first());
        }
        parse_decimal(digits.as_slice(), max)
    } else {
        parse_decimal(s, max)
    }
}

/// The character of a decimal digit.
pub open spec fn digit_char(d: nat) -> char {
    (('0' as nat + d) as u8) as char
}

/// The decimal spelling of `n`, without leading zeros.
pub open spec fn decimal_text(n: nat) -> Seq<char>
    decreases n,
{
    if n < 10 {
        seq![digit_char(n)]
    } else {
        decimal_text(n / 10).push(digit_char(n % 10))
    }
}

/// The decimal spelling of `n`.
pub fn format_decimal(n: u64) -> (out: Vec<char>)
    ensures
        out@ == decimal_text(n as nat),
{
    let mut reversed: Vec<char> = Vec::new();
    let mut rest: u64 = n;
    while rest >= 10
        invariant
            decimal_text(n as nat) == decimal_text(rest as nat) + reversed@.reverse(),
        decreases rest,
    {
        let d: u8 = (rest % 10) as u8;
        let c: char = (48u8 + d) as char;
        proof {
            assert(c == digit_char((rest % 10) as nat));
            assert(decimal_text(rest as nat) == decimal_text((rest / 10) as nat).push(c));
            assert(reversed@.push(c).reverse() =~= seq![c] + reversed@.reverse());
            assert(decimal_text((rest / 10) as nat).push(c) + reversed@.reverse()
                =~= decimal_text((rest / 10) as nat) + (seq![c] + reversed@.reverse()));
        }
        reversed.push(c);
        rest = rest / 10;
    }
    let c: char = (48u8 + (rest as u8)) as char;
    let mut out: Vec<char> = Vec::new();
    out.push(c);
    proof {
        assert(c == digit_char(rest as nat));
        assert(out@ =~= decimal_text(rest as nat));
    }
    let mut i: usize = reversed.len();
    while i > 0
        invariant
            i <= reversed.len(),
            out@ == decimal_text(rest as nat) + reversed@.reverse().subrange(
                0,
                reversed.len() - i,
            ),
        decreases i,
    {
        i -= 1;
        out.push(reversed[i]);
        proof {
            let r = reversed@.reverse();
            assert(r[reversed.len() - 1 - i] == reversed@[i as int]);
            assert(r.subrange(0, reversed.len() - i) =~= r.subrange(0, reversed.len() - i - 1).push(
                reversed@[i as int],
            ));
        }
    }
    proof {
        let r = reversed@.reverse();
        assert(r.subrange(0, reversed.len() as int) =~= r);
    }
    out
}

} // verus!
