//! Throughput and latency: the counters and the measurements that the
//! platform's tools print. Measurements are decimal fractions; they are cut
//! out here and kept as written.

use crate::cut::{field, final_field, last_field, piece_before, piece_behind, second_piece, up_to};
use crate::device::strings;
use crate::number::{parse_unsigned, unsigned_value};
use crate::scan::{first_where, lemma_first_where_is};
use crate::search::{begins_with, has_substring, holds, starts_with};
use crate::split::{fields_of, lines_of, split_chars, split_fields, split_lines, split_on, texts};
use crate::text::{chars_of, same_chars, string_of, trim, trimmed};
use crate::traffic::{clipped_sum, ByteTotals};
use vstd::prelude::*;

verus! {

// ---------------------------------------------------------------------------
// Measurements, as written
// ---------------------------------------------------------------------------

/// Which measurement is looked for.
#[derive(Clone, Copy, PartialEq, Eq, Debug)]
pub enum Measurement {
    /// The round-trip time of a ping.
    RoundTrip,
    /// The share of pings that were lost.
    PacketLoss,
    /// The frequency that the wireless link is on.
    Frequency,
}

/// The measurement that a line gives, as written: the round-trip time
/// behind `time=` up to the first blank; the last field before
/// `% packet loss`; the frequency behind the first colon of a line with the
/// current frequency, up to the first blank.
pub open spec fn measured_in(what: Measurement, line: Seq<char>) -> Option<Seq<char>> {
    match what {
        Measurement::RoundTrip => match second_piece(line, "time="@) {
            Some(piece) => Some(up_to(piece, " "@)),
            None => None,
        },
        Measurement::PacketLoss => if has_substring(line, "packet loss"@) {
            last_field(up_to(line, "% packet loss"@))
        } else {
            None
        },
        Measurement::Frequency => if has_substring(line, "Current Frequency:"@) {
            match second_piece(line, ":"@) {
                Some(piece) => Some(up_to(piece, " "@)),
                None => None,
            }
        } else {
            None
        },
    }
}

/// The measurements that the lines give, in order.
pub open spec fn measured(what: Measurement, lines: Seq<Seq<char>>) -> Seq<Seq<char>>
    decreases lines.len(),
{
    if lines.len() == 0 {
        Seq::empty()
    } else {
        match measured_in(what, lines.last()) {
            Some(text) => measured(what, lines.drop_last()).push(text),
            None => measured(what, lines.drop_last()),
        }
    }
}

/// The measurement that one line gives.
fn measure_line(what: Measurement, line: &[char]) -> (r: Option<Vec<char>>)
    ensures
        match r {
            Some(v) => measured_in(what, line@) == Some(v@),
            None => measured_in(what, line@) is None,
        },
{
    let blank = chars_of(" ");
    match what {
        Measurement::RoundTrip => match piece_behind(line, "time=") {
            Some(piece) => Some(piece_before(piece.as_slice(), blank.as_slice())),
            None => None,
        },
        Measurement::PacketLoss => {
            if holds(line, "packet loss") {
                let marker = chars_of("% packet loss");
                let head = piece_before(line, marker.as_slice());
                final_field(head.as_slice())
            } else {
                None
            }
        },
        Measurement::Frequency => {
            if holds(line, "Current Frequency:") {
                match piece_behind(line, ":") {
                    Some(piece) => Some(piece_before(piece.as_slice(), blank.as_slice())),
                    None => None,
                }
            } else {
                None
            }
        },
    }
}

/// Cuts the measurements out of the output of a tool, in order, as they
/// are written. The first of them that reads as a number is the one that
/// counts.
pub fn measurements(what: Measurement, output: &str) -> (out: Vec<String>)
    ensures
        strings(out@) == measured(what, lines_of(output@)),
{
    let chars = chars_of(output);
    let lines = split_lines(chars.as_slice());
    let mut out: Vec<String> = Vec::new();
    let mut i: usize = 0;
    proof {
        assert(texts(lines@).subrange(0, 0) =~= Seq::<Seq<char>>::empty());
        assert(strings(out@) =~= Seq::<Seq<char>>::empty());
    }
    while i < lines.len()
        invariant
            i <= lines.len(),
            strings(out@) == measured(what, texts(lines@).subrange(0, i as int)),
        decreases lines.len() - i,
    {
        proof {
            let seen = texts(lines@).subrange(0, i + 1);
            assert(seen.drop_last() =~= texts(lines@).subrange(0, i as int));
            assert(seen.last() == lines@[i as int]@);
        }
        match measure_line(what, lines[i].as_slice()) {
            Some(text) => {
                let ghost before = strings(out@);
                out.push(string_of(text.as_slice()));
                proof {
                    assert(strings(out@) =~= before.push(text@));
                }
            },
            None => {},
        }
        i += 1;
    }
    proof {
        assert(texts(lines@).subrange(0, lines.len() as int) =~= texts(lines@));
    }
    out
}

// ---------------------------------------------------------------------------
// Byte counters
// ---------------------------------------------------------------------------

/// The counters that a line of the interface table gives: bytes received
/// and sent, the first and the ninth number behind the colon. Only a line
/// with exactly one colon counts, and none of the heading; the loopback
/// does not count; a line with fewer than sixteen numbers does not.
pub open spec fn stats_in(line: Seq<char>) -> Option<(u64, u64)> {
    let parts = split_on(line, ':');
    let values = fields_of(trim(parts[1]));
    if has_substring(line, ":"@) && !has_substring(line, "Inter-|Receive"@) && !has_substring(
        line,
        "face"@,
    ) && parts.len() == 2 && trim(parts[0]) != "lo"@ && values.len() >= 16 && unsigned_value(
        values[0],
        u64::MAX as nat,
    ) is Some && unsigned_value(values[8], u64::MAX as nat) is Some {
        Some(
            (
                unsigned_value(values[0], u64::MAX as nat)->0 as u64,
                unsigned_value(values[8], u64::MAX as nat)->0 as u64,
            ),
        )
    } else {
        None
    }
}

/// The counters of all the lines, added up.
pub open spec fn stats_sum(lines: Seq<Seq<char>>) -> (u64, u64)
    decreases lines.len(),
{
    if lines.len() == 0 {
        (0, 0)
    } else {
        let before = stats_sum(lines.drop_last());
        match stats_in(lines.last()) {
            Some((r, t)) => (clipped_sum(before.0, r), clipped_sum(before.1, t)),
            None => before,
        }
    }
}

/// The counters that one line of the interface table gives.
fn stats_of_line(line: &[char]) -> (r: Option<(u64, u64)>)
    ensures
        r == stats_in(line@),
{
    if !holds(line, ":") || holds(line, "Inter-|Receive") || holds(line, "face") {
        return None;
    }
    let parts = split_chars(line, ':');
    if parts.len() != 2 {
        return None;
    }
    proof {
        assert(texts(parts@)[0] == parts@[0]@);
        assert(texts(parts@)[1] == parts@[1]@);
    }
    let name = trimmed(parts[0].as_slice());
    let loopback = chars_of("lo");
    if same_chars(name.as_slice(), loopback.as_slice()) {
        return None;
    }
    let data = trimmed(parts[1].as_slice());
    let values = split_fields(data.as_slice());
    if values.len() < 16 {
        return None;
    }
    proof {
        assert(texts(values@)[0] == values@[0]@);
        assert(texts(values@)[8] == values@[8]@);
    }
    let received = match parse_unsigned(values[0].as_slice(), u64::MAX) {
        Some(v) => v,
        None => {
            return None;
        },
    };
    let sent = match parse_unsigned(values[8].as_slice(), u64::MAX) {
        Some(v) => v,
        None => {
            return None;
        },
    };
    Some((received, sent))
}

/// Adds up the bytes received and sent over every interface but the
/// loopback, as the interface table lists them. A sum that is full stays
/// full.
pub fn get_network_stats(table: &str) -> (totals: ByteTotals)
    ensures
        (totals.received, totals.sent) == stats_sum(lines_of(table@)),
{
    let chars = chars_of(table);
    let lines = split_lines(chars.as_slice());
    let mut received: u64 = 0;
    let mut sent: u64 = 0;
    let mut i: usize = 0;
    proof {
        assert(texts(lines@).subrange(0, 0) =~= Seq::<Seq<char>>::empty());
    }
    while i < lines.len()
        invariant
            i <= lines.len(),
            (received, sent) == stats_sum(texts(lines@).subrange(0, i as int)),
        decreases lines.len() - i,
    {
        proof {
            let seen = texts(lines@).subrange(0, i + 1);
            assert(seen.drop_last() =~= texts(lines@).subrange(0, i as int));
            assert(seen.last() == lines@[i as int]@);
        }
        match stats_of_line(lines[i].as_slice()) {
            Some((r, t)) => {
                received = if received > u64::MAX - r {
                    u64::MAX
                } else {
                    received + r
                };
                sent = if sent > u64::MAX - t {
                    u64::MAX
                } else {
                    sent + t
                };
            },
            None => {},
        }
        i += 1;
    }
    proof {
        assert(texts(lines@).subrange(0, lines.len() as int) =~= texts(lines@));
    }
    ByteTotals { received, sent }
}

/// The number that a field spells, or 0 where it spells none.
pub open spec fn counter_or_zero(text: Seq<char>) -> u64 {
    match unsigned_value(text, u64::MAX as nat) {
        Some(v) => v as u64,
        None => 0,
    }
}

/// The line, trimmed, begins with `Bytes`.
pub open spec fn is_bytes_line(line: Seq<char>) -> bool {
    starts_with(trim(line), "Bytes"@)
}

/// The position of the first line that, trimmed, begins with `Bytes`, or
/// the number of lines.
pub open spec fn bytes_line(lines: Seq<Seq<char>>) -> nat {
    first_where(lines, |line: Seq<char>| is_bytes_line(line))
}

/// The counters of the statistics listing: the second and the third field
/// of its first `Bytes` line, where that line has three fields; a field
/// that is no number counts 0. Nothing where both are 0.
pub open spec fn listed_bytes(lines: Seq<Seq<char>>) -> Option<(u64, u64)> {
    let i = bytes_line(lines) as int;
    if i < lines.len() && fields_of(lines[i]).len() >= 3 && (counter_or_zero(fields_of(lines[i])[1])
        > 0 || counter_or_zero(fields_of(lines[i])[2]) > 0) {
        Some((counter_or_zero(fields_of(lines[i])[1]), counter_or_zero(fields_of(lines[i])[2])))
    } else {
        None
    }
}

/// The bytes received and sent, as the statistics listing gives them.
pub fn get_network_stats_windows(listing: &str) -> (r: Option<ByteTotals>)
    ensures
        match r {
            Some(totals) => listed_bytes(lines_of(listing@)) == Some(
                (totals.received, totals.sent),
            ),
            None => listed_bytes(lines_of(listing@)) is None,
        },
{
    let chars = chars_of(listing);
    let lines = split_lines(chars.as_slice());
    let mut i: usize = 0;
    while i < lines.len()
        invariant
            i <= lines.len(),
            texts(lines@) == lines_of(listing@),
            forall|j: int| 0 <= j < i ==> !is_bytes_line(#[trigger] texts(lines@)[j]),
        decreases lines.len() - i,
    {
        let clean = trimmed(lines[i].as_slice());
        proof {
            assert(texts(lines@)[i as int] == lines@[i as int]@);
        }
        if begins_with(clean.as_slice(), "Bytes") {
            proof {
                lemma_first_where_is(
                    texts(lines@),
                    |line: Seq<char>| is_bytes_line(line),
                    i as int,
                );
            }
            let parts = split_fields(lines[i].as_slice());
            if parts.len() < 3 {
                return None;
            }
            proof {
                assert(texts(parts@)[1] == parts@[1]@);
                assert(texts(parts@)[2] == parts@[2]@);
            }
            let received = match parse_unsigned(parts[1].as_slice(), u64::MAX) {
                Some(v) => v,
                None => 0,
            };
            let sent = match parse_unsigned(parts[2].as_slice(), u64::MAX) {
                Some(v) => v,
                None => 0,
            };
            if received > 0 || sent > 0 {
                return Some(ByteTotals { received, sent });
            }
            return None;
        }
        i += 1;
    }
    proof {
        lemma_first_where_is(
            texts(lines@),
            |line: Seq<char>| is_bytes_line(line),
            lines.len() as int,
        );
    }
    None
}

/// The total that a counter prints: the output, trimmed, read as a number.
pub fn counter_total(output: &str) -> (r: Option<u64>)
    ensures
        match r {
            Some(v) => unsigned_value(trim(output@), u64::MAX as nat) == Some(v as nat),
            None => unsigned_value(trim(output@), u64::MAX as nat) is None,
        },
{
    let chars = chars_of(output);
    let clean = trimmed(chars.as_slice());
    parse_unsigned(clean.as_slice(), u64::MAX)
}

} // verus!
