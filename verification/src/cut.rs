//! Cutting values out of labelled lines, and reading signed numbers.

use crate::number::{all_digits, decimal_value, parse_decimal};
use crate::scan::{first_where, lemma_first_where_is, lemma_trailing_count_is, trailing_count};
use crate::search::{find, has_substring, occurs_at, position_of};
use crate::split::{fields_of, find_char, first_index, is_char, split_fields, texts};
use crate::text::{chars_of, copy_range, trim, trimmed};
use vstd::prelude::*;

verus! {

// ---------------------------------------------------------------------------
// Behind a marker
// ---------------------------------------------------------------------------

/// `text` up to where `marker` first stands in it; all of it where the
/// marker does not stand in it.
pub open spec fn up_to(text: Seq<char>, marker: Seq<char>) -> Seq<char> {
    if has_substring(text, marker) {
        text.subrange(0, position_of(text, marker))
    } else {
        text
    }
}

/// What stands behind the first `marker` in `line`, to the end.
pub open spec fn behind(line: Seq<char>, marker: Seq<char>) -> Option<Seq<char>> {
    if marker.len() > 0 && has_substring(line, marker) {
        Some(line.subrange(position_of(line, marker) + marker.len(), line.len() as int))
    } else {
        None
    }
}

/// What stands between the first `marker` in `line` and the next one, or
/// the end of the line: the second of the pieces that the marker parts the
/// line into.
pub open spec fn second_piece(line: Seq<char>, marker: Seq<char>) -> Option<Seq<char>> {
    match behind(line, marker) {
        Some(rest) => Some(up_to(rest, marker)),
        None => None,
    }
}

/// The first of the pieces that the marker parts the line into.
pub open spec fn first_piece(line: Seq<char>, marker: Seq<char>) -> Seq<char> {
    up_to(line, marker)
}

/// `text` up to where `marker` first stands in it.
pub fn piece_before(text: &[char], marker: &[char]) -> (out: Vec<char>)
    ensures
        out@ == up_to(text@, marker@),
{
    match find(text, marker) {
        Some(p) => {
            assert(p <= text.len()) by {
                assert(occurs_at(text@, marker@, p as int));
            }
            copy_range(text, 0, p)
        },
        None => {
            proof {
                assert(text@.subrange(0, text.len() as int) =~= text@);
            }
            copy_range(text, 0, text.len())
        },
    }
}

/// What stands behind the first `marker` in `line`.
pub fn rest_behind(line: &[char], marker: &str) -> (r: Option<Vec<char>>)
    ensures
        match r {
            Some(v) => behind(line@, marker@) == Some(v@),
            None => behind(line@, marker@) is None,
        },
{
    let m = chars_of(marker);
    if m.len() == 0 {
        return None;
    }
    match find(line, m.as_slice()) {
        Some(p) => {
            assert(p + m.len() <= line.len()) by {
                assert(occurs_at(line@, m@, p as int));
            }
            Some(copy_range(line, p + m.len(), line.len()))
        },
        None => None,
    }
}

/// What stands between the first `marker` in `line` and the next one.
pub fn piece_behind(line: &[char], marker: &str) -> (r: Option<Vec<char>>)
    ensures
        match r {
            Some(v) => second_piece(line@, marker@) == Some(v@),
            None => second_piece(line@, marker@) is None,
        },
{
    match rest_behind(line, marker) {
        Some(rest) => {
            let m = chars_of(marker);
            Some(piece_before(rest.as_slice(), m.as_slice()))
        },
        None => None,
    }
}

/// What a line says behind its first colon, trimmed; nothing where it has
/// no colon.
pub open spec fn value_after_colon(line: Seq<char>) -> Option<Seq<char>> {
    let i = first_index(line, ':');
    if i < line.len() {
        Some(trim(line.subrange(i as int + 1, line.len() as int)))
    } else {
        None
    }
}

/// What a line says behind its first colon, trimmed.
pub fn behind_colon(line: &[char]) -> (r: Option<Vec<char>>)
    ensures
        match r {
            Some(v) => value_after_colon(line@) == Some(v@),
            None => value_after_colon(line@) is None,
        },
{
    let i = find_char(line, 0, ':');
    proof {
        assert(line@.subrange(0, line.len() as int) =~= line@);
    }
    if i < line.len() {
        let rest = copy_range(line, i + 1, line.len());
        Some(trimmed(rest.as_slice()))
    } else {
        None
    }
}

// ---------------------------------------------------------------------------
// Runs of one character at the ends
// ---------------------------------------------------------------------------

/// How many `c` the text begins with.
pub open spec fn leading_run(s: Seq<char>, c: char) -> nat {
    first_where(s, |x: char| !is_char(x, c))
}

/// How many `c` the text ends with.
pub open spec fn trailing_run(s: Seq<char>, c: char) -> nat {
    trailing_count(s, |x: char| is_char(x, c))
}

/// The text without the `c` at its end.
pub open spec fn strip_end(s: Seq<char>, c: char) -> Seq<char> {
    s.subrange(0, s.len() - trailing_run(s, c))
}

/// The text without the `c` at its start and at its end.
pub open spec fn strip_both(s: Seq<char>, c: char) -> Seq<char> {
    strip_end(s.subrange(leading_run(s, c) as int, s.len() as int), c)
}

/// The text without the `c` at its end.
pub fn without_trailing(s: &[char], c: char) -> (out: Vec<char>)
    ensures
        out@ == strip_end(s@, c),
{
    let mut end: usize = s.len();
    while end > 0 && s[end - 1] == c
        invariant
            end <= s.len(),
            forall|j: int| end <= j < s.len() ==> #[trigger] s@[j] == c,
        decreases end,
    {
        end -= 1;
    }
    proof {
        lemma_trailing_count_is(s@, |x: char| is_char(x, c), s.len() - end);
    }
    copy_range(s, 0, end)
}

/// The text without the `c` at its start and at its end.
pub fn without_surrounding(s: &[char], c: char) -> (out: Vec<char>)
    ensures
        out@ == strip_both(s@, c),
{
    let mut start: usize = 0;
    while start < s.len() && s[start] == c
        invariant
            start <= s.len(),
            forall|j: int| 0 <= j < start ==> #[trigger] s@[j] == c,
        decreases s.len() - start,
    {
        start += 1;
    }
    proof {
        lemma_first_where_is(s@, |x: char| !is_char(x, c), start as int);
    }
    let rest = copy_range(s, start, s.len());
    without_trailing(rest.as_slice(), c)
}

// ---------------------------------------------------------------------------
// Fields
// ---------------------------------------------------------------------------

/// Field number `n` of the text, counted from 0, where it has so many.
pub open spec fn field(text: Seq<char>, n: nat) -> Option<Seq<char>> {
    if n < fields_of(text).len() {
        Some(fields_of(text)[n as int])
    } else {
        None
    }
}

/// The last field of the text, where it has one.
pub open spec fn last_field(text: Seq<char>) -> Option<Seq<char>> {
    if fields_of(text).len() > 0 {
        Some(fields_of(text).last())
    } else {
        None
    }
}

/// Field number `n` of the text, counted from 0.
pub fn nth_field(text: &[char], n: usize) -> (r: Option<Vec<char>>)
    ensures
        match r {
            Some(v) => field(text@, n as nat) == Some(v@),
            None => field(text@, n as nat) is None,
        },
{
    let fields = split_fields(text);
    if n < fields.len() {
        proof {
            assert(texts(fields@)[n as int] == fields@[n as int]@);
        }
        Some(copy_range(fields[n].as_slice(), 0, fields[n].len()))
    } else {
        None
    }
}

/// The last field of the text.
pub fn final_field(text: &[char]) -> (r: Option<Vec<char>>)
    ensures
        match r {
            Some(v) => last_field(text@) == Some(v@),
            None => last_field(text@) is None,
        },
{
    let fields = split_fields(text);
    if fields.len() > 0 {
        let n = fields.len() - 1;
        proof {
            assert(texts(fields@)[n as int] == fields@[n as int]@);
        }
        Some(copy_range(fields[n].as_slice(), 0, fields[n].len()))
    } else {
        None
    }
}

// ---------------------------------------------------------------------------
// Signed numbers
// ---------------------------------------------------------------------------

/// The text begins with a sign.
pub open spec fn has_sign(s: Seq<char>) -> bool {
    s.len() > 0 && (s[0] == '+' || s[0] == '-')
}

/// The digits of a signed number: the text without its sign.
pub open spec fn signed_digits(s: Seq<char>) -> Seq<char> {
    if has_sign(s) {
        s.drop_first()
    } else {
        s
    }
}

/// The number that the text spells: an optional sign and then decimal
/// digits, at least one, and nothing else.
pub open spec fn signed_number(s: Seq<char>) -> Option<int> {
    let digits = signed_digits(s);
    if digits.len() > 0 && all_digits(digits) {
        if s[0] == '-' {
            Some(-(decimal_value(digits) as int))
        } else {
            Some(decimal_value(digits) as int)
        }
    } else {
        None
    }
}

/// The 32-bit number that the text spells, where it spells one that fits.
pub open spec fn i32_value(s: Seq<char>) -> Option<i32> {
    match signed_number(s) {
        Some(v) => if i32::MIN <= v <= i32::MAX {
            Some(v as i32)
        } else {
            None
        },
        None => None,
    }
}

/// Reads the text as a signed 32-bit number: an optional sign, then
/// decimal digits and nothing else.
pub fn parse_i32(s: &[char]) -> (r: Option<i32>)
    ensures
        r == i32_value(s@),
{
    if s.len() > 0 && s[0] == '-' {
        let digits = copy_range(s, 1, s.len());
        proof {
            assert(digits@ =~= s@.drop_first());
        }
        match parse_decimal(digits.as_slice(), 2147483648) {
            Some(v) => {
                if v == 2147483648 {
                    Some(i32::MIN)
                } else {
                    Some(-(v as i32))
                }
            },
            None => None,
        }
    } else if s.len() > 0 && s[0] == '+' {
        let digits = copy_range(s, 1, s.len());
        proof {
            assert(digits@ =~= s@.drop_first());
        }
        match parse_decimal(digits.as_slice(), 2147483647) {
            Some(v) => Some(v as i32),
            None => None,
        }
    } else {
        match parse_decimal(s, 2147483647) {
            Some(v) => Some(v as i32),
            None => None,
        }
    }
}

} // verus!
