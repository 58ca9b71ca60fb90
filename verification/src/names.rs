//! Host names, read from what the name-service tools print.

use crate::case::{lower, lowercase};
use crate::cut::{strip_end, without_trailing};
use crate::scan::{first_where, lemma_first_where_is};
use crate::search::{begins_with, has_substring, holds, starts_with};
use crate::split::{fields_of, lines_of, split_fields, split_lines, texts};
use crate::text::{chars_of, copy_range, opt_text, string_of, trim, trimmed};
use vstd::prelude::*;

verus! {

// ---------------------------------------------------------------------------
// Reverse lookup
// ---------------------------------------------------------------------------

/// What parts a label from its value in an answer line.
pub open spec fn is_name_separator(c: char) -> bool {
    c == ':' || c == '='
}

/// The position of the first separator in `s`, or `s.len()`.
pub open spec fn first_separator(s: Seq<char>) -> nat {
    first_where(s, |c: char| is_name_separator(c))
}

/// `s` without the dots it ends with.
pub open spec fn strip_dots(s: Seq<char>) -> Seq<char> {
    strip_end(s, '.')
}

/// The line is labelled as one that gives a name.
pub open spec fn labels_name(label: Seq<char>) -> bool {
    starts_with(label, "name:"@) || has_substring(label, "name ="@) || has_substring(
        label,
        "\u{438}\u{43c}\u{44f} ="@,
    )
}

/// The name that a line gives: where the line is labelled so and holds a
/// separator, the text between its first separator and the next, trimmed
/// and without dots at its end.
pub open spec fn name_in(line: Seq<char>) -> Option<Seq<char>> {
    let i = first_separator(line);
    if labels_name(lower(trim(line))) && i < line.len() {
        let rest = line.subrange(i as int + 1, line.len() as int);
        Some(strip_dots(trim(rest.subrange(0, first_separator(rest) as int))))
    } else {
        None
    }
}

/// The name that the first line that gives one gives.
pub open spec fn reverse_name(lines: Seq<Seq<char>>) -> Option<Seq<char>>
    decreases lines.len(),
{
    if lines.len() == 0 {
        None
    } else if name_in(lines[0]) is Some {
        name_in(lines[0])
    } else {
        reverse_name(lines.drop_first())
    }
}

/// The position of the first separator in `s`.
fn find_separator(s: &[char]) -> (i: usize)
    ensures
        i == first_separator(s@),
        i <= s.len(),
{
    let mut i: usize = 0;
    while i < s.len() && s[i] != ':' && s[i] != '='
        invariant
            i <= s.len(),
            forall|j: int| 0 <= j < i ==> !is_name_separator(#[trigger] s@[j]),
        decreases s.len() - i,
    {
        i += 1;
    }
    proof {
        lemma_first_where_is(s@, |c: char| is_name_separator(c), i as int);
    }
    i
}

/// The name that one line of a reverse lookup gives.
fn name_in_line(line: &[char]) -> (r: Option<Vec<char>>)
    ensures
        match r {
            Some(v) => name_in(line@) == Some(v@),
            None => name_in(line@) is None,
        },
{
    let clean = trimmed(line);
    let label = lowercase(clean.as_slice());
    let labelled = begins_with(label.as_slice(), "name:") || holds(label.as_slice(), "name =")
        || holds(label.as_slice(), "\u{438}\u{43c}\u{44f} =");
    if !labelled {
        return None;
    }
    let i = find_separator(line);
    if i >= line.len() {
        return None;
    }
    let rest = copy_range(line, i + 1, line.len());
    let j = find_separator(rest.as_slice());
    let piece = copy_range(rest.as_slice(), 0, j);
    let value = trimmed(piece.as_slice());
    Some(without_trailing(value.as_slice(), '.'))
}

/// The host name in the output of a reverse lookup: that of the first line
/// that gives one.
pub fn reverse_dns(output: &str) -> (r: Option<String>)
    ensures
        opt_text(r) == reverse_name(lines_of(output@)),
{
    let chars = chars_of(output);
    let lines = split_lines(chars.as_slice());
    let mut i: usize = 0;
    proof {
        assert(texts(lines@).subrange(0, lines.len() as int) =~= texts(lines@));
    }
    while i < lines.len()
        invariant
            i <= lines.len(),
            texts(lines@) == lines_of(output@),
            reverse_name(texts(lines@)) == reverse_name(
                texts(lines@).subrange(i as int, lines.len() as int),
            ),
        decreases lines.len() - i,
    {
        proof {
            let rest = texts(lines@).subrange(i as int, lines.len() as int);
            assert(rest[0] == lines@[i as int]@);
            assert(rest.drop_first() =~= texts(lines@).subrange(i + 1, lines.len() as int));
        }
        match name_in_line(lines[i].as_slice()) {
            Some(name) => {
                return Some(string_of(name.as_slice()));
            },
            None => {},
        }
        i += 1;
    }
    None
}

// ---------------------------------------------------------------------------
// NetBIOS-style name query
// ---------------------------------------------------------------------------

/// The name that a line of a name-table listing gives: the first field of a
/// line that marks a unique name of the workstation service.
pub open spec fn netbios_in(line: Seq<char>) -> Option<Seq<char>> {
    let l = trim(line);
    if has_substring(l, "<00>"@) && has_substring(lower(l), "unique"@) && fields_of(l).len() > 0 {
        Some(fields_of(l)[0])
    } else {
        None
    }
}

/// The name that the first line that gives one gives.
pub open spec fn netbios_name_of(lines: Seq<Seq<char>>) -> Option<Seq<char>>
    decreases lines.len(),
{
    if lines.len() == 0 {
        None
    } else if netbios_in(lines[0]) is Some {
        netbios_in(lines[0])
    } else {
        netbios_name_of(lines.drop_first())
    }
}

/// The name that one line of a name-table listing gives.
fn netbios_in_line(line: &[char]) -> (r: Option<Vec<char>>)
    ensures
        match r {
            Some(v) => netbios_in(line@) == Some(v@),
            None => netbios_in(line@) is None,
        },
{
    let l = trimmed(line);
    if !holds(l.as_slice(), "<00>") {
        return None;
    }
    let low = lowercase(l.as_slice());
    if !holds(low.as_slice(), "unique") {
        return None;
    }
    let fields = split_fields(l.as_slice());
    if fields.len() == 0 {
        return None;
    }
    proof {
        assert(texts(fields@)[0] == fields@[0]@);
    }
    Some(copy_range(fields[0].as_slice(), 0, fields[0].len()))
}

/// The host name in the output of a name-table query: that of the first
/// line that gives one.
pub fn netbios_name(output: &str) -> (r: Option<String>)
    ensures
        opt_text(r) == netbios_name_of(lines_of(output@)),
{
    let chars = chars_of(output);
    let lines = split_lines(chars.as_slice());
    let mut i: usize = 0;
    proof {
        assert(texts(lines@).subrange(0, lines.len() as int) =~= texts(lines@));
    }
    while i < lines.len()
        invariant
            i <= lines.len(),
            texts(lines@) == lines_of(output@),
            netbios_name_of(texts(lines@)) == netbios_name_of(
                texts(lines@).subrange(i as int, lines.len() as int),
            ),
        decreases lines.len() - i,
    {
        proof {
            let rest = texts(lines@).subrange(i as int, lines.len() as int);
            assert(rest[0] == lines@[i as int]@);
            assert(rest.drop_first() =~= texts(lines@).subrange(i + 1, lines.len() as int));
        }
        match netbios_in_line(lines[i].as_slice()) {
            Some(name) => {
                return Some(string_of(name.as_slice()));
            },
            None => {},
        }
        i += 1;
    }
    None
}

} // verus!
