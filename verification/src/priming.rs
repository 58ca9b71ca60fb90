//! Priming: which addresses to probe, so that the platform fills its
//! address-resolution table before it is read.

use crate::device::strings;
use crate::number::{decimal_text, format_decimal};
use crate::search::{ends_with, has_suffix};
use crate::split::{split_chars, split_on, texts};
use crate::text::{append_chars, chars_of, copy_range, string_of, trim, trimmed};
use vstd::prelude::*;

verus! {

/// `s` without `p` at its end, as often as `p` stands there.
pub open spec fn strip_suffixes(s: Seq<char>, p: Seq<char>) -> Seq<char>
    decreases s.len(),
{
    if p.len() > 0 && ends_with(s, p) {
        strip_suffixes(s.subrange(0, s.len() - p.len()), p)
    } else {
        s
    }
}

/// The address part of a range.
pub open spec fn range_base(cidr: Seq<char>) -> Seq<char> {
    strip_suffixes(cidr, "/24"@)
}

/// A range that can be primed: it ends with `/24`, and its address part has
/// four parts with dots between them.
pub open spec fn is_slash24(cidr: Seq<char>) -> bool {
    ends_with(cidr, "/24"@) && split_on(range_base(cidr), '.').len() == 4
}

/// The first three parts of the range's address, each followed by a dot.
pub open spec fn range_prefix(cidr: Seq<char>) -> Seq<char> {
    let parts = split_on(range_base(cidr), '.');
    parts[0] + seq!['.'] + parts[1] + seq!['.'] + parts[2] + seq!['.']
}

/// The address of host number `host` in the range.
pub open spec fn host_address(cidr: Seq<char>, host: nat) -> Seq<char> {
    range_prefix(cidr) + decimal_text(host)
}

/// `s` without `p` at its end, as often as `p` stands there.
fn without_suffixes(s: &[char], p: &[char]) -> (out: Vec<char>)
    ensures
        out@ == strip_suffixes(s@, p@),
{
    let mut end: usize = s.len();
    proof {
        assert(s@.subrange(0, end as int) =~= s@);
    }
    if p.len() == 0 {
        return copy_range(s, 0, end);
    }
    loop
        invariant
            end <= s.len(),
            p.len() > 0,
            strip_suffixes(s@, p@) == strip_suffixes(s@.subrange(0, end as int), p@),
        decreases end,
    {
        let head = copy_range(s, 0, end);
        if !has_suffix(head.as_slice(), p) {
            return head;
        }
        proof {
            assert(s@.subrange(0, end as int).subrange(0, end - p.len()) =~= s@.subrange(
                0,
                end - p.len(),
            ));
        }
        end = end - p.len();
    }
}

/// The addresses to probe for the range `cidr`: hosts 1 to 254, in order.
/// A range of another size, or one whose address has not four parts, gets
/// none.
pub fn ping_targets(cidr: &str) -> (r: Option<Vec<String>>)
    ensures
        r is Some <==> is_slash24(cidr@),
        r matches Some(targets) ==> targets.len() == 254 && forall|k: int|
            0 <= k < 254 ==> (#[trigger] targets@[k])@ == host_address(cidr@, (k + 1) as nat),
{
    let chars = chars_of(cidr);
    let suffix = chars_of("/24");
    if !has_suffix(chars.as_slice(), suffix.as_slice()) {
        return None;
    }
    let base = without_suffixes(chars.as_slice(), suffix.as_slice());
    let parts = split_chars(base.as_slice(), '.');
    if parts.len() != 4 {
        return None;
    }
    proof {
        assert(texts(parts@)[0] == parts@[0]@);
        assert(texts(parts@)[1] == parts@[1]@);
        assert(texts(parts@)[2] == parts@[2]@);
    }
    let mut prefix: Vec<char> = Vec::new();
    append_chars(&mut prefix, parts[0].as_slice());
    prefix.push('.');
    append_chars(&mut prefix, parts[1].as_slice());
    prefix.push('.');
    append_chars(&mut prefix, parts[2].as_slice());
    prefix.push('.');
    proof {
        assert(prefix@ =~= range_prefix(cidr@));
    }
    let mut targets: Vec<String> = Vec::new();
    let mut host: u64 = 1;
    while host <= 254
        invariant
            1 <= host <= 255,
            targets.len() == host - 1,
            prefix@ == range_prefix(cidr@),
            forall|k: int|
                0 <= k < host - 1 ==> (#[trigger] targets@[k])@ == host_address(
                    cidr@,
                    (k + 1) as nat,
                ),
        decreases 255 - host,
    {
        let mut address: Vec<char> = copy_range(prefix.as_slice(), 0, prefix.len());
        let number = format_decimal(host);
        append_chars(&mut address, number.as_slice());
        proof {
            assert(prefix@.subrange(0, prefix.len() as int) =~= prefix@);
        }
        targets.push(string_of(address.as_slice()));
        host += 1;
    }
    Some(targets)
}

/// The pieces that are not empty once trimmed, each trimmed, in order.
pub open spec fn trimmed_nonempty(pieces: Seq<Seq<char>>) -> Seq<Seq<char>>
    decreases pieces.len(),
{
    if pieces.len() == 0 {
        Seq::empty()
    } else if trim(pieces.last()).len() == 0 {
        trimmed_nonempty(pieces.drop_last())
    } else {
        trimmed_nonempty(pieces.drop_last()).push(trim(pieces.last()))
    }
}

/// The ranges that a comma-separated list names: each entry trimmed, empty
/// entries left out.
pub fn extra_cidrs(list: &str) -> (out: Vec<String>)
    ensures
        strings(out@) == trimmed_nonempty(split_on(list@, ',')),
{
    let chars = chars_of(list);
    let pieces = split_chars(chars.as_slice(), ',');
    let mut out: Vec<String> = Vec::new();
    let mut i: usize = 0;
    proof {
        assert(texts(pieces@).subrange(0, 0) =~= Seq::<Seq<char>>::empty());
        assert(strings(out@) =~= Seq::<Seq<char>>::empty());
    }
    while i < pieces.len()
        invariant
            i <= pieces.len(),
            strings(out@) == trimmed_nonempty(texts(pieces@).subrange(0, i as int)),
        decreases pieces.len() - i,
    {
        proof {
            let seen = texts(pieces@).subrange(0, i + 1);
            assert(seen.drop_last() =~= texts(pieces@).subrange(0, i as int));
            assert(seen.last() == pieces@[i as int]@);
        }
        let entry = trimmed(pieces[i].as_slice());
        if entry.len() > 0 {
            let ghost before = strings(out@);
            out.push(string_of(entry.as_slice()));
            proof {
                assert(strings(out@) =~= before.push(entry@));
            }
        }
        i += 1;
    }
    proof {
        assert(texts(pieces@).subrange(0, pieces.len() as int) =~= texts(pieces@));
    }
    out
}

} // verus!
