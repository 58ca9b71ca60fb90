//! Network and hardware addresses as text: what counts as one, and the
//! canonical spelling of a hardware address.

use crate::case::{ascii_lower, is_ascii_text, lower, lowercase};
use crate::number::{decimal_value, is_decimal_up_to, parse_decimal};
use crate::split::{split_chars, split_on, texts};
use crate::text::{char_is_hex_digit, chars_of, is_hex_digit, string_of};
use vstd::prelude::*;

verus! {

// ---------------------------------------------------------------------------
// IPv4
// ---------------------------------------------------------------------------

/// One part of a dotted quad: decimal digits that spell 0 to 255.
pub open spec fn is_octet(s: Seq<char>) -> bool {
    is_decimal_up_to(s, 255)
}

/// A dotted quad: exactly four octets with a dot between them.
pub open spec fn is_ipv4(s: Seq<char>) -> bool {
    let parts = split_on(s, '.');
    &&& parts.len() == 4
    &&& is_octet(parts[0])
    &&& is_octet(parts[1])
    &&& is_octet(parts[2])
    &&& is_octet(parts[3])
}

/// A dotted quad in 224.0.0.0/4, the multicast range.
pub open spec fn is_multicast(s: Seq<char>) -> bool {
    is_ipv4(s) && 224 <= decimal_value(split_on(s, '.')[0]) <= 239
}

/// Whether `s` is a dotted quad; with it, the value of the first octet.
pub fn check_ipv4(s: &[char]) -> (r: Option<u64>)
    ensures
        r is Some <==> is_ipv4(s@),
        r matches Some(v) ==> v == decimal_value(split_on(s@, '.')[0]) && v <= 255,
{
    let parts = split_chars(s, '.');
    if parts.len() != 4 {
        return None;
    }
    proof {
        assert(texts(parts@)[0] == parts@[0]@);
        assert(texts(parts@)[1] == parts@[1]@);
        assert(texts(parts@)[2] == parts@[2]@);
        assert(texts(parts@)[3] == parts@[3]@);
    }
    let first = parse_decimal(parts[0].as_slice(), 255);
    if first.is_none() {
        return None;
    }
    if parse_decimal(parts[1].as_slice(), 255).is_none() {
        return None;
    }
    if parse_decimal(parts[2].as_slice(), 255).is_none() {
        return None;
    }
    if parse_decimal(parts[3].as_slice(), 255).is_none() {
        return None;
    }
    first
}

/// Whether `s` is a dotted quad.
pub fn is_valid_ipv4(s: &str) -> (r: bool)
    ensures
        r == is_ipv4(s@),
{
    let chars = chars_of(s);
    check_ipv4(chars.as_slice()).is_some()
}

// ---------------------------------------------------------------------------
// Hardware addresses
// ---------------------------------------------------------------------------

/// What may stand between the groups of a hardware address.
pub open spec fn is_mac_separator(c: char) -> bool {
    c == ':' || c == '-'
}

/// A hardware address: six groups of two hexadecimal digits, with a colon or
/// a hyphen between them.
pub open spec fn is_mac(s: Seq<char>) -> bool {
    &&& s.len() == 17
    &&& forall|i: int|
        0 <= i < 17 ==> if i % 3 == 2 {
            is_mac_separator(#[trigger] s[i])
        } else {
            is_hex_digit(s[i])
        }
}

/// `s` with every hyphen turned into a colon.
pub open spec fn dashes_to_colons(s: Seq<char>) -> Seq<char> {
    Seq::new(s.len(), |i: int| if s[i] == '-' { ':' } else { s[i] })
}

/// The canonical spelling of a hardware address: colons between the groups,
/// letters in lower case.
pub open spec fn normalized_mac(s: Seq<char>) -> Seq<char> {
    lower(dashes_to_colons(s))
}

/// The canonical spelling of the address that every host listens to.
pub open spec fn broadcast_mac() -> Seq<char> {
    "ff:ff:ff:ff:ff:ff"@
}

/// A hardware address that names every host.
pub open spec fn is_broadcast_mac(s: Seq<char>) -> bool {
    is_mac(s) && normalized_mac(s) == broadcast_mac()
}

/// A hardware address holds ASCII alone, so its canonical spelling is known
/// character by character.
pub proof fn lemma_normalized_mac(s: Seq<char>)
    requires
        is_mac(s),
    ensures
        is_ascii_text(dashes_to_colons(s)),
        normalized_mac(s).len() == 17,
        forall|i: int|
            0 <= i < 17 ==> #[trigger] normalized_mac(s)[i] == if i % 3 == 2 {
                ':'
            } else {
                ascii_lower(s[i])
            },
        is_mac(normalized_mac(s)),
{
    let d = dashes_to_colons(s);
    assert forall|i: int| 0 <= i < d.len() implies crate::case::is_ascii_char(#[trigger] d[i]) by {
        assert(if i % 3 == 2 {
            is_mac_separator(s[i])
        } else {
            is_hex_digit(s[i])
        });
    }
    assert forall|i: int| 0 <= i < 17 implies #[trigger] normalized_mac(s)[i] == if i % 3 == 2 {
        ':'
    } else {
        ascii_lower(s[i])
    } by {
        assert(if i % 3 == 2 {
            is_mac_separator(s[i])
        } else {
            is_hex_digit(s[i])
        });
    }
    assert forall|i: int| 0 <= i < 17 implies if i % 3 == 2 {
        is_mac_separator(#[trigger] normalized_mac(s)[i])
    } else {
        is_hex_digit(normalized_mac(s)[i])
    } by {
        assert(if i % 3 == 2 {
            is_mac_separator(s[i])
        } else {
            is_hex_digit(s[i])
        });
    }
}

/// Whether `s` is a hardware address.
pub fn check_mac(s: &[char]) -> (r: bool)
    ensures
        r == is_mac(s@),
{
    if s.len() != 17 {
        return false;
    }
    let mut i: usize = 0;
    while i < 17
        invariant
            i <= 17,
            s.len() == 17,
            forall|j: int|
                0 <= j < i ==> if j % 3 == 2 {
                    is_mac_separator(#[trigger] s@[j])
                } else {
                    is_hex_digit(s@[j])
                },
        decreases 17 - i,
    {
        let c = s[i];
        if i % 3 == 2 {
            if c != ':' && c != '-' {
                return false;
            }
        } else if !char_is_hex_digit(c) {
            return false;
        }
        i += 1;
    }
    true
}

/// Whether `s` is a hardware address.
pub fn is_valid_mac(s: &str) -> (r: bool)
    ensures
        r == is_mac(s@),
{
    let chars = chars_of(s);
    check_mac(chars.as_slice())
}

/// The canonical spelling of `s`.
pub fn normalize_chars(s: &[char]) -> (out: Vec<char>)
    ensures
        out@ == normalized_mac(s@),
{
    let mut colons: Vec<char> = Vec::new();
    let mut i: usize = 0;
    while i < s.len()
        invariant
            i <= s.len(),
            colons@ == dashes_to_colons(s@).subrange(0, i as int),
        decreases s.len() - i,
    {
        let c = s[i];
        colons.push(if c == '-' { ':' } else { c });
        proof {
            assert(colons@ =~= dashes_to_colons(s@).subrange(0, i + 1));
        }
        i += 1;
    }
    proof {
        assert(colons@ =~= dashes_to_colons(s@));
    }
    lowercase(colons.as_slice())
}

/// The canonical spelling of a hardware address: hyphens become colons and
/// letters lower case.
pub fn normalize_mac(mac: &str) -> (out: String)
    ensures
        out@ == normalized_mac(mac@),
{
    let chars = chars_of(mac);
    let normal = normalize_chars(chars.as_slice());
    string_of(normal.as_slice())
}

} // verus!
