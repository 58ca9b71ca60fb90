//! Cutting text into pieces: at a separator, into lines, into
//! white-space-separated fields.

use crate::scan::{first_where, lemma_first_where, lemma_first_where_is};
use crate::text::{char_is_space, copy_range, is_space};
use vstd::prelude::*;

verus! {

// ---------------------------------------------------------------------------
// First occurrence of a character
// ---------------------------------------------------------------------------

/// The character `x` is `c`.
pub open spec fn is_char(x: char, c: char) -> bool {
    x == c
}

/// The position of the first `c` in `s`, or `s.len()` where there is none.
pub open spec fn first_index(s: Seq<char>, c: char) -> nat {
    first_where(s, |x: char| is_char(x, c))
}

/// `first_index` is the first position that holds `c`.
pub proof fn lemma_first_index(s: Seq<char>, c: char)
    ensures
        first_index(s, c) <= s.len(),
        forall|j: int| 0 <= j < first_index(s, c) ==> #[trigger] s[j] != c,
        first_index(s, c) < s.len() ==> s[first_index(s, c) as int] == c,
{
    lemma_first_where(s, |x: char| is_char(x, c));
}

/// A position that holds `c`, or the length, with no `c` before it, is
/// `first_index`.
pub proof fn lemma_first_index_is(s: Seq<char>, c: char, k: int)
    requires
        0 <= k <= s.len(),
        forall|j: int| 0 <= j < k ==> #[trigger] s[j] != c,
        k < s.len() ==> s[k] == c,
    ensures
        first_index(s, c) == k,
{
    lemma_first_where_is(s, |x: char| is_char(x, c), k);
}

/// The position of the first `c` at or after `from`, or `s.len()`.
pub(crate) fn find_char(s: &[char], from: usize, c: char) -> (i: usize)
    requires
        from <= s.len(),
    ensures
        from <= i <= s.len(),
        i - from == first_index(s@.subrange(from as int, s.len() as int), c),
{
    let mut i: usize = from;
    while i < s.len() && s[i] != c
        invariant
            from <= i <= s.len(),
            forall|j: int| from <= j < i ==> #[trigger] s@[j] != c,
        decreases s.len() - i,
    {
        i += 1;
    }
    proof {
        let t = s@.subrange(from as int, s.len() as int);
        assert forall|j: int| 0 <= j < i - from implies #[trigger] t[j] != c by {
            assert(t[j] == s@[j + from]);
        }
        lemma_first_index_is(t, c, i - from);
    }
    i
}

// ---------------------------------------------------------------------------
// Splitting at a separator
// ---------------------------------------------------------------------------

/// The pieces of `s` between occurrences of `sep`. There is always at least
/// one piece; two separators in a row enclose an empty piece.
pub open spec fn split_on(s: Seq<char>, sep: char) -> Seq<Seq<char>>
    decreases s.len(),
{
    let i = first_index(s, sep);
    if i >= s.len() {
        seq![s]
    } else {
        seq![s.subrange(0, i as int)] + split_on(s.subrange(i as int + 1, s.len() as int), sep)
    }
}

/// The views of a vector of character vectors.
pub open spec fn texts(parts: Seq<Vec<char>>) -> Seq<Seq<char>> {
    parts.map_values(|p: Vec<char>| p@)
}

/// Splits `s` at every `sep`.
pub fn split_chars(s: &[char], sep: char) -> (parts: Vec<Vec<char>>)
    ensures
        texts(parts@) == split_on(s@, sep),
        parts.len() >= 1,
{
    let n = s.len();
    let mut parts: Vec<Vec<char>> = Vec::new();
    let mut start: usize = 0;
    proof {
        assert(s@.subrange(0, n as int) =~= s@);
        assert(texts(parts@) + split_on(s@, sep) =~= split_on(s@, sep));
    }
    loop
        invariant
            start <= n == s.len(),
            split_on(s@, sep) == texts(parts@) + split_on(s@.subrange(start as int, n as int), sep),
        decreases n - start,
    {
        let i = find_char(s, start, sep);
        let piece = copy_range(s, start, i);
        let ghost rest = s@.subrange(start as int, n as int);
        let ghost before = texts(parts@);
        parts.push(piece);
        proof {
            assert(rest.subrange(0, i - start) =~= s@.subrange(start as int, i as int));
            assert(texts(parts@) =~= before + seq![rest.subrange(0, i - start)]);
        }
        if i >= n {
            proof {
                assert(rest.subrange(0, i - start) =~= rest);
            }
            return parts;
        }
        proof {
            assert(rest.subrange(i - start + 1, rest.len() as int) =~= s@.subrange(
                i + 1,
                n as int,
            ));
            assert(split_on(rest, sep) == seq![rest.subrange(0, i - start)] + split_on(
                s@.subrange(i + 1, n as int),
                sep,
            ));
        }
        start = i + 1;
    }
}

// ---------------------------------------------------------------------------
// Lines
// ---------------------------------------------------------------------------

/// `s` without one trailing carriage return.
pub open spec fn strip_cr(s: Seq<char>) -> Seq<char> {
    if s.len() > 0 && s.last() == '\r' {
        s.drop_last()
    } else {
        s
    }
}

/// The lines of `s`. A line ends at a line feed, or at a carriage return
/// followed by a line feed; the ending is not part of the line. The last line
/// needs no ending, and an ending at the very end starts no further line.
pub open spec fn lines_of(s: Seq<char>) -> Seq<Seq<char>>
    decreases s.len(),
{
    let i = first_index(s, '\n');
    if s.len() == 0 {
        seq![]
    } else if i >= s.len() {
        seq![s]
    } else {
        seq![strip_cr(s.subrange(0, i as int))] + lines_of(s.subrange(i as int + 1, s.len() as int))
    }
}

/// Splits `s` into lines.
pub fn split_lines(s: &[char]) -> (lines: Vec<Vec<char>>)
    ensures
        texts(lines@) == lines_of(s@),
{
    let n = s.len();
    let mut lines: Vec<Vec<char>> = Vec::new();
    let mut start: usize = 0;
    proof {
        assert(s@.subrange(0, n as int) =~= s@);
        assert(texts(lines@) + lines_of(s@) =~= lines_of(s@));
    }
    while start < n
        invariant
            start <= n == s.len(),
            lines_of(s@) == texts(lines@) + lines_of(s@.subrange(start as int, n as int)),
        decreases n - start,
    {
        let i = find_char(s, start, '\n');
        let ghost rest = s@.subrange(start as int, n as int);
        let ghost before = texts(lines@);
        if i >= n {
            let piece = copy_range(s, start, n);
            lines.push(piece);
            proof {
                assert(texts(lines@) =~= before + seq![rest]);
                assert(lines_of(rest) == seq![rest]);
                assert(lines_of(s@.subrange(n as int, n as int)) =~= Seq::<Seq<char>>::empty());
            }
            start = n;
        } else {
            let end = if i > start && s[i - 1] == '\r' {
                i - 1
            } else {
                i
            };
            let piece = copy_range(s, start, end);
            lines.push(piece);
            proof {
                let raw = rest.subrange(0, i - start);
                assert(raw =~= s@.subrange(start as int, i as int));
                assert(strip_cr(raw) =~= s@.subrange(start as int, end as int));
                assert(texts(lines@) =~= before + seq![strip_cr(raw)]);
                assert(rest.subrange(i - start + 1, rest.len() as int) =~= s@.subrange(
                    i + 1,
                    n as int,
                ));
            }
            start = i + 1;
        }
    }
    proof {
        assert(lines_of(s@.subrange(start as int, n as int)) =~= Seq::<Seq<char>>::empty());
    }
    lines
}

// ---------------------------------------------------------------------------
// White-space-separated fields
// ---------------------------------------------------------------------------

/// How many characters other than white space `s` begins with.
pub open spec fn leading_word(s: Seq<char>) -> nat {
    first_where(s, |c: char| is_space(c))
}

/// The leading word holds no white space, and white space follows it.
pub proof fn lemma_leading_word(s: Seq<char>)
    ensures
        leading_word(s) <= s.len(),
        forall|j: int| 0 <= j < leading_word(s) ==> !is_space(#[trigger] s[j]),
        leading_word(s) < s.len() ==> is_space(s[leading_word(s) as int]),
        s.len() > 0 && !is_space(s[0]) ==> leading_word(s) >= 1,
{
    lemma_first_where(s, |c: char| is_space(c));
}

/// The length of the leading word is the first position that holds white
/// space.
pub proof fn lemma_leading_word_is(s: Seq<char>, k: int)
    requires
        0 <= k <= s.len(),
        forall|j: int| 0 <= j < k ==> !is_space(#[trigger] s[j]),
        k < s.len() ==> is_space(s[k]),
    ensures
        leading_word(s) == k,
{
    lemma_first_where_is(s, |c: char| is_space(c), k);
}

/// The fields of `s`: its maximal runs of characters other than white space,
/// in order. A text of white space alone has none.
pub open spec fn fields_of(s: Seq<char>) -> Seq<Seq<char>>
    decreases s.len(),
{
    if s.len() == 0 {
        seq![]
    } else if is_space(s[0]) {
        fields_of(s.drop_first())
    } else {
        let n = leading_word(s);
        proof {
            lemma_leading_word(s);
        }
        seq![s.subrange(0, n as int)] + fields_of(s.subrange(n as int, s.len() as int))
    }
}

/// Leading white space holds no field.
pub proof fn lemma_fields_skip_spaces(s: Seq<char>, k: int)
    requires
        0 <= k <= s.len(),
        forall|j: int| 0 <= j < k ==> is_space(#[trigger] s[j]),
    ensures
        fields_of(s) == fields_of(s.subrange(k, s.len() as int)),
    decreases k,
{
    if k > 0 {
        let t = s.drop_first();
        assert(is_space(s[0]));
        assert forall|j: int| 0 <= j < k - 1 implies is_space(#[trigger] t[j]) by {
            assert(t[j] == s[j + 1]);
        }
        lemma_fields_skip_spaces(t, k - 1);
        assert(t.subrange(k - 1, t.len() as int) =~= s.subrange(k, s.len() as int));
    } else {
        assert(s.subrange(0, s.len() as int) =~= s);
    }
}

/// A word: a text that is not empty and holds no white space.
pub open spec fn is_word(w: Seq<char>) -> bool {
    w.len() > 0 && forall|j: int| 0 <= j < w.len() ==> !is_space(#[trigger] w[j])
}

/// Every field is a word.
pub proof fn lemma_fields_are_words(s: Seq<char>)
    ensures
        forall|i: int| 0 <= i < fields_of(s).len() ==> is_word(#[trigger] fields_of(s)[i]),
    decreases s.len(),
{
    if s.len() == 0 {
        assert(fields_of(s).len() == 0);
    } else if is_space(s[0]) {
        lemma_fields_are_words(s.drop_first());
        assert(fields_of(s) == fields_of(s.drop_first()));
    } else {
        let n = leading_word(s);
        lemma_leading_word(s);
        let rest = s.subrange(n as int, s.len() as int);
        lemma_fields_are_words(rest);
        let head = s.subrange(0, n as int);
        assert(is_word(head)) by {
            assert forall|j: int| 0 <= j < head.len() implies !is_space(#[trigger] head[j]) by {
                assert(head[j] == s[j]);
            }
        }
        assert forall|i: int| 0 <= i < fields_of(s).len() implies is_word(
            #[trigger] fields_of(s)[i],
        ) by {
            if i == 0 {
                assert(fields_of(s)[0] == head);
            } else {
                assert(fields_of(s)[i] == fields_of(rest)[i - 1]);
            }
        }
    }
}

/// Splits `s` into its white-space-separated fields.
pub fn split_fields(s: &[char]) -> (fields: Vec<Vec<char>>)
    ensures
        texts(fields@) == fields_of(s@),
{
    let n = s.len();
    let mut fields: Vec<Vec<char>> = Vec::new();
    let mut pos: usize = 0;
    proof {
        assert(s@.subrange(0, n as int) =~= s@);
        assert(texts(fields@) + fields_of(s@) =~= fields_of(s@));
    }
    while pos < n
        invariant
            pos <= n == s.len(),
            fields_of(s@) == texts(fields@) + fields_of(s@.subrange(pos as int, n as int)),
        decreases n - pos,
    {
        let ghost rest = s@.subrange(pos as int, n as int);
        let ghost before = texts(fields@);
        let mut a: usize = pos;
        while a < n && char_is_space(s[a])
            invariant
                pos <= a <= n == s.len(),
                forall|j: int| pos <= j < a ==> is_space(#[trigger] s@[j]),
            decreases n - a,
        {
            a += 1;
        }
        proof {
            assert forall|j: int| 0 <= j < a - pos implies is_space(#[trigger] rest[j]) by {
                assert(rest[j] == s@[j + pos]);
            }
            lemma_fields_skip_spaces(rest, a - pos);
            assert(rest.subrange(a - pos, rest.len() as int) =~= s@.subrange(a as int, n as int));
        }
        if a >= n {
            pos = n;
        } else {
            let mut b: usize = a;
            while b < n && !char_is_space(s[b])
                invariant
                    a <= b <= n == s.len(),
                    forall|j: int| a <= j < b ==> !is_space(#[trigger] s@[j]),
                decreases n - b,
            {
                b += 1;
            }
            let piece = copy_range(s, a, b);
            fields.push(piece);
            proof {
                let tail = s@.subrange(a as int, n as int);
                assert(!is_space(tail[0])) by {
                    assert(tail[0] == s@[a as int]);
                }
                assert forall|j: int| 0 <= j < b - a implies !is_space(#[trigger] tail[j]) by {
                    assert(tail[j] == s@[j + a]);
                }
                if b < n {
                    assert(tail[b - a] == s@[b as int]);
                }
                lemma_leading_word_is(tail, b - a);
                assert(tail.subrange(0, b - a) =~= s@.subrange(a as int, b as int));
                assert(tail.subrange(b - a, tail.len() as int) =~= s@.subrange(b as int, n as int));
                assert(texts(fields@) =~= before + seq![tail.subrange(0, b - a)]);
            }
            pos = b;
        }
    }
    proof {
        assert(fields_of(s@.subrange(pos as int, n as int)) =~= Seq::<Seq<char>>::empty());
    }
    fields
}

} // verus!
