//! Letter case.
//!
//! Text made of ASCII alone is lowercased here, letter by letter. Any other
//! text goes to the standard library, whose answer is known only by name.

use crate::text::{chars_of, string_of};
use vstd::prelude::*;

verus! {

/// The lowercase form of a text, as Unicode defines it.
pub uninterp spec fn lowercase_of(s: Seq<char>) -> Seq<char>;

/// Calls `str::to_lowercase`. The contract gives its result the name
/// `lowercase_of`: the lowercase form depends on the text alone.
#[verifier::external_body]
pub(crate) fn lowercase_string(s: &str) -> (out: String)
    ensures
        out@ == lowercase_of(s@),
{
    s.to_lowercase()
}

/// The uppercase form of a text, as Unicode defines it.
pub uninterp spec fn uppercase_of(s: Seq<char>) -> Seq<char>;

/// Calls `str::to_uppercase`. The contract gives its result the name
/// `uppercase_of`: the uppercase form depends on the text alone.
#[verifier::external_body]
pub(crate) fn uppercase_string(s: &str) -> (out: String)
    ensures
        out@ == uppercase_of(s@),
{
    s.to_uppercase()
}

/// An ASCII character.
pub open spec fn is_ascii_char(c: char) -> bool {
    c <= '\u{7f}'
}

/// A text of ASCII characters alone.
pub open spec fn is_ascii_text(s: Seq<char>) -> bool {
    forall|i: int| 0 <= i < s.len() ==> is_ascii_char(#[trigger] s[i])
}

/// `c` with the letters `A` to `Z` turned into `a` to `z`.
pub open spec fn ascii_lower(c: char) -> char {
    if 'A' <= c && c <= 'Z' {
        ((c as u8) + 32) as char
    } else {
        c
    }
}

/// `s` with each character turned by `ascii_lower`.
pub open spec fn ascii_lowercase(s: Seq<char>) -> Seq<char> {
    Seq::new(s.len(), |i: int| ascii_lower(s[i]))
}

/// The lowercase form of `s`: spelled out for ASCII text, named otherwise.
pub open spec fn lower(s: Seq<char>) -> Seq<char> {
    if is_ascii_text(s) {
        ascii_lowercase(s)
    } else {
        lowercase_of(s)
    }
}

/// `c` with the letters `a` to `z` turned into `A` to `Z`.
pub open spec fn ascii_upper(c: char) -> char {
    if 'a' <= c && c <= 'z' {
        ((c as u8) - 32) as char
    } else {
        c
    }
}

/// `s` with each character turned by `ascii_upper`.
pub open spec fn ascii_uppercase(s: Seq<char>) -> Seq<char> {
    Seq::new(s.len(), |i: int| ascii_upper(s[i]))
}

/// The uppercase form of `s`: spelled out for ASCII text, named otherwise.
pub open spec fn upper(s: Seq<char>) -> Seq<char> {
    if is_ascii_text(s) {
        ascii_uppercase(s)
    } else {
        uppercase_of(s)
    }
}

pub fn char_ascii_upper(c: char) -> (out: char)
    ensures
        out == ascii_upper(c),
{
    if c >= 'a' && c <= 'z' {
        ((c as u8) - 32) as char
    } else {
        c
    }
}

pub fn char_ascii_lower(c: char) -> (out: char)
    ensures
        out == ascii_lower(c),
{
    if c >= 'A' && c <= 'Z' {
        ((c as u8) + 32) as char
    } else {
        c
    }
}

/// Whether `s` holds ASCII characters alone.
pub fn is_ascii(s: &[char]) -> (r: bool)
    ensures
        r == is_ascii_text(s@),
{
    let mut i: usize = 0;
    while i < s.len()
        invariant
            i <= s.len(),
            forall|j: int| 0 <= j < i ==> is_ascii_char(#[trigger] s@[j]),
        decreases s.len() - i,
    {
        if s[i] > '\u{7f}' {
            return false;
        }
        i += 1;
    }
    true
}

/// The lowercase form of `s`.
pub fn lowercase(s: &[char]) -> (out: Vec<char>)
    ensures
        out@ == lower(s@),
{
    if is_ascii(s) {
        let mut out: Vec<char> = Vec::new();
        let mut i: usize = 0;
        while i < s.len()
            invariant
                i <= s.len(),
                out@ == ascii_lowercase(s@).subrange(0, i as int),
            decreases s.len() - i,
        {
            out.push(char_ascii_lower(s[i]));
            proof {
                assert(out@ =~= ascii_lowercase(s@).subrange(0, i + 1));
            }
            i += 1;
        }
        proof {
            assert(out@ =~= ascii_lowercase(s@));
        }
        out
    } else {
        let text = string_of(s);
        let lowered = lowercase_string(text.as_str());
        chars_of(lowered.as_str())
    }
}

/// The uppercase form of `s`.
pub fn uppercase(s: &[char]) -> (out: Vec<char>)
    ensures
        out@ == upper(s@),
{
    if is_ascii(s) {
        let mut out: Vec<char> = Vec::new();
        let mut i: usize = 0;
        while i < s.len()
            invariant
                i <= s.len(),
                out@ == ascii_uppercase(s@).subrange(0, i as int),
            decreases s.len() - i,
        {
            out.push(char_ascii_upper(s[i]));
            proof {
                assert(out@ =~= ascii_uppercase(s@).subrange(0, i + 1));
            }
            i += 1;
        }
        proof {
            assert(out@ =~= ascii_uppercase(s@));
        }
        out
    } else {
        let text = string_of(s);
        let raised = uppercase_string(text.as_str());
        chars_of(raised.as_str())
    }
}

/// The lowercase form of a string.
pub fn lowercase_text(s: &str) -> (out: String)
    ensures
        out@ == lower(s@),
{
    let chars = chars_of(s);
    let lowered = lowercase(chars.as_slice());
    string_of(lowered.as_slice())
}

} // verus!
