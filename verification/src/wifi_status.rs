//! The state of the wireless link, read from what the wireless tools print.

use crate::case::{lower, lowercase};
use crate::cut::{
    behind, behind_colon, field, i32_value, nth_field, parse_i32, piece_before, piece_behind,
    second_piece, strip_both, up_to, value_after_colon, without_surrounding,
};
use crate::search::{begins_with, has_substring, holds, starts_with};
use crate::split::{lines_of, split_lines, texts};
use crate::text::{chars_of, opt_text, same_chars, string_of, trim, trimmed};
use crate::wifi::{channel_to_frequency, dbm, frequency_of, percent_to_dbm};
use vstd::prelude::*;

verus! {

// ---------------------------------------------------------------------------
// One answer from the first line that gives one
// ---------------------------------------------------------------------------

/// The wireless interface that a line of the interface listing names: the
/// first field of a line that tells of the wireless standard.
pub open spec fn interface_in(line: Seq<char>) -> Option<Seq<char>> {
    if has_substring(line, "IEEE 802.11"@) {
        field(line, 0)
    } else {
        None
    }
}

/// The network name that a line gives: what stands behind `ESSID:`,
/// trimmed and without quotes, unless it is empty or says that there is
/// none.
pub open spec fn ssid_in(line: Seq<char>) -> Option<Seq<char>> {
    match second_piece(line, "ESSID:"@) {
        Some(piece) => {
            let name = strip_both(trim(piece), '"');
            if name.len() > 0 && name != "off/any"@ {
                Some(name)
            } else {
                None
            }
        },
        None => None,
    }
}

/// The access point that a line gives: what stands behind `Access Point:`,
/// trimmed, unless it is empty or says that there is none.
pub open spec fn bssid_in(line: Seq<char>) -> Option<Seq<char>> {
    match second_piece(line, "Access Point:"@) {
        Some(piece) => {
            let address = trim(piece);
            if address.len() > 0 && address != "Not-Associated"@ {
                Some(address)
            } else {
                None
            }
        },
        None => None,
    }
}

/// The channel that a line gives: on a line with the current frequency,
/// the number behind `Channel` inside the brackets.
pub open spec fn channel_in(line: Seq<char>) -> Option<i32> {
    if has_substring(line, "Current Frequency:"@) {
        match second_piece(line, "("@) {
            Some(inside) => match second_piece(up_to(inside, ")"@), "Channel"@) {
                Some(number) => i32_value(trim(number)),
                None => None,
            },
            None => None,
        }
    } else {
        None
    }
}

/// The signal level that a line gives: the number in the first field
/// behind `Signal level=`.
pub open spec fn signal_in(line: Seq<char>) -> Option<i32> {
    match second_piece(line, "Signal level="@) {
        Some(piece) => match field(piece, 0) {
            Some(level) => i32_value(level),
            None => None,
        },
        None => None,
    }
}

/// The gateway that a line of the default route gives: the third field of
/// a line with `default via`.
pub open spec fn gateway_in(line: Seq<char>) -> Option<Seq<char>> {
    if has_substring(line, "default via"@) {
        field(line, 2)
    } else {
        None
    }
}

/// The gateway that a line of the route table gives: the second field of a
/// line that begins with the default destination.
pub open spec fn table_gateway_in(line: Seq<char>) -> Option<Seq<char>> {
    if starts_with(line, "0.0.0.0"@) {
        field(line, 1)
    } else {
        None
    }
}

/// Whether the link is encrypted, as a line tells: `Open` where the line
/// with the encryption key holds `off`, `Secured` where it does not.
pub open spec fn security_in(line: Seq<char>) -> Option<Seq<char>> {
    if has_substring(line, "Encryption key:"@) {
        if has_substring(line, "off"@) {
            Some("Open"@)
        } else {
            Some("Secured"@)
        }
    } else {
        None
    }
}

/// The gateway that a line of the interface configuration gives: on a line
/// that names the default gateway, what stands behind the first colon,
/// trimmed, unless it is empty.
pub open spec fn configured_gateway_in(line: Seq<char>) -> Option<Seq<char>> {
    if names_gateway(lower(trim(line))) {
        match value_after_colon(line) {
            Some(value) => if value.len() > 0 {
                Some(value)
            } else {
                None
            },
            None => None,
        }
    } else {
        None
    }
}

/// The line, trimmed and in lower case, names the default gateway.
pub open spec fn names_gateway(label: Seq<char>) -> bool {
    has_substring(label, "default gateway"@) || has_substring(
        label,
        "\u{43e}\u{441}\u{43d}\u{43e}\u{432}\u{43d}\u{43e}\u{439} \u{448}\u{43b}\u{44e}\u{437}"@,
    )
}

/// The gateway that a line of the interface configuration gives: on a line
/// that names the default gateway, what stands between the first colon and
/// the next, trimmed, unless it is empty.
pub open spec fn gateway_piece_in(line: Seq<char>) -> Option<Seq<char>> {
    if names_gateway(lower(trim(line))) {
        match second_piece(trim(line), ":"@) {
            Some(piece) => if trim(piece).len() > 0 {
                Some(trim(piece))
            } else {
                None
            },
            None => None,
        }
    } else {
        None
    }
}

/// The name of the wireless interface that a line of the platform shell
/// gives: on a line that begins with the word for a name, what stands
/// between the first colon and the next, trimmed, unless it is empty.
pub open spec fn interface_name_in(raw: Seq<char>) -> Option<Seq<char>> {
    let line = trim(raw);
    if starts_with(lower(line), "name"@) || starts_with(lower(line), "\u{438}\u{43c}\u{44f}"@) {
        match second_piece(line, ":"@) {
            Some(piece) => if trim(piece).len() > 0 {
                Some(trim(piece))
            } else {
                None
            },
            None => None,
        }
    } else {
        None
    }
}

/// The saved profile that a line names: on a line that, trimmed, names a
/// saved profile, what stands behind its first colon, trimmed.
pub open spec fn first_profile_in(raw: Seq<char>) -> Option<Seq<char>> {
    if has_substring(trim(raw), "All User Profile"@) || has_substring(
        trim(raw),
        "\u{41f}\u{440}\u{43e}\u{444}\u{438}\u{43b}\u{44c} \u{432}\u{441}\u{435}\u{445} \u{43f}\u{43e}\u{43b}\u{44c}\u{437}\u{43e}\u{432}\u{430}\u{442}\u{435}\u{43b}\u{435}\u{439}"@,
    ) {
        value_after_colon(raw)
    } else {
        None
    }
}

/// Which answer is looked for.
#[derive(Clone, Copy, PartialEq, Eq, Debug)]
pub enum TextQuery {
    InterfaceName,
    FirstProfile,
    Interface,
    Ssid,
    Bssid,
    Gateway,
    TableGateway,
    Security,
    ConfiguredGateway,
    GatewayPiece,
}

/// Which number is looked for.
#[derive(Clone, Copy, PartialEq, Eq, Debug)]
pub enum NumberQuery {
    Channel,
    Signal,
}

/// The answer of one line to a query for a text.
pub open spec fn text_answer(query: TextQuery, line: Seq<char>) -> Option<Seq<char>> {
    match query {
        TextQuery::InterfaceName => interface_name_in(line),
        TextQuery::FirstProfile => first_profile_in(line),
        TextQuery::Interface => interface_in(line),
        TextQuery::Ssid => ssid_in(line),
        TextQuery::Bssid => bssid_in(line),
        TextQuery::Gateway => gateway_in(line),
        TextQuery::TableGateway => table_gateway_in(line),
        TextQuery::Security => security_in(line),
        TextQuery::ConfiguredGateway => configured_gateway_in(line),
        TextQuery::GatewayPiece => gateway_piece_in(line),
    }
}

/// The answer of one line to a query for a number.
pub open spec fn number_answer(query: NumberQuery, line: Seq<char>) -> Option<i32> {
    match query {
        NumberQuery::Channel => channel_in(line),
        NumberQuery::Signal => signal_in(line),
    }
}

/// The answer of the first line that gives one.
pub open spec fn first_text(query: TextQuery, lines: Seq<Seq<char>>) -> Option<Seq<char>>
    decreases lines.len(),
{
    if lines.len() == 0 {
        None
    } else if text_answer(query, lines[0]) is Some {
        text_answer(query, lines[0])
    } else {
        first_text(query, lines.drop_first())
    }
}

/// The answer of the first line that gives one.
pub open spec fn first_number(query: NumberQuery, lines: Seq<Seq<char>>) -> Option<i32>
    decreases lines.len(),
{
    if lines.len() == 0 {
        None
    } else if number_answer(query, lines[0]) is Some {
        number_answer(query, lines[0])
    } else {
        first_number(query, lines.drop_first())
    }
}

/// A copy of the text as characters.
fn owned(s: &str) -> (out: Option<Vec<char>>)
    ensures
        out matches Some(v) && v@ == s@,
{
    Some(chars_of(s))
}

/// The answer of one line to a query for a text.
fn answer_text(query: TextQuery, line: &[char]) -> (r: Option<Vec<char>>)
    ensures
        match r {
            Some(v) => text_answer(query, line@) == Some(v@),
            None => text_answer(query, line@) is None,
        },
{
    match query {
        TextQuery::InterfaceName => {
            let clean = trimmed(line);
            let low = lowercase(clean.as_slice());
            if begins_with(low.as_slice(), "name") || begins_with(
                low.as_slice(),
                "\u{438}\u{43c}\u{44f}",
            ) {
                match piece_behind(clean.as_slice(), ":") {
                    Some(piece) => {
                        let value = trimmed(piece.as_slice());
                        if value.len() > 0 {
                            Some(value)
                        } else {
                            None
                        }
                    },
                    None => None,
                }
            } else {
                None
            }
        },
        TextQuery::FirstProfile => {
            let clean = trimmed(line);
            if holds(clean.as_slice(), "All User Profile") || holds(
                clean.as_slice(),
                "\u{41f}\u{440}\u{43e}\u{444}\u{438}\u{43b}\u{44c} \u{432}\u{441}\u{435}\u{445} \u{43f}\u{43e}\u{43b}\u{44c}\u{437}\u{43e}\u{432}\u{430}\u{442}\u{435}\u{43b}\u{435}\u{439}",
            ) {
                behind_colon(line)
            } else {
                None
            }
        },
        TextQuery::Interface => {
            if holds(line, "IEEE 802.11") {
                nth_field(line, 0)
            } else {
                None
            }
        },
        TextQuery::Ssid => {
            match piece_behind(line, "ESSID:") {
                Some(piece) => {
                    let clean = trimmed(piece.as_slice());
                    let name = without_surrounding(clean.as_slice(), '"');
                    let none = chars_of("off/any");
                    if name.len() > 0 && !same_chars(name.as_slice(), none.as_slice()) {
                        Some(name)
                    } else {
                        None
                    }
                },
                None => None,
            }
        },
        TextQuery::Bssid => {
            match piece_behind(line, "Access Point:") {
                Some(piece) => {
                    let address = trimmed(piece.as_slice());
                    let none = chars_of("Not-Associated");
                    if address.len() > 0 && !same_chars(address.as_slice(), none.as_slice()) {
                        Some(address)
                    } else {
                        None
                    }
                },
                None => None,
            }
        },
        TextQuery::Gateway => {
            if holds(line, "default via") {
                nth_field(line, 2)
            } else {
                None
            }
        },
        TextQuery::TableGateway => {
            if begins_with(line, "0.0.0.0") {
                nth_field(line, 1)
            } else {
                None
            }
        },
        TextQuery::Security => {
            if holds(line, "Encryption key:") {
                if holds(line, "off") {
                    owned("Open")
                } else {
                    owned("Secured")
                }
            } else {
                None
            }
        },
        TextQuery::ConfiguredGateway => {
            if tells_gateway(line) {
                match behind_colon(line) {
                    Some(value) => if value.len() > 0 {
                        Some(value)
                    } else {
                        None
                    },
                    None => None,
                }
            } else {
                None
            }
        },
        TextQuery::GatewayPiece => {
            if tells_gateway(line) {
                let clean = trimmed(line);
                match piece_behind(clean.as_slice(), ":") {
                    Some(piece) => {
                        let value = trimmed(piece.as_slice());
                        if value.len() > 0 {
                            Some(value)
                        } else {
                            None
                        }
                    },
                    None => None,
                }
            } else {
                None
            }
        },
    }
}

/// Whether the line names the default gateway.
fn tells_gateway(line: &[char]) -> (r: bool)
    ensures
        r == names_gateway(lower(trim(line@))),
{
    let clean = trimmed(line);
    let label = lowercase(clean.as_slice());
    holds(label.as_slice(), "default gateway") || holds(
        label.as_slice(),
        "\u{43e}\u{441}\u{43d}\u{43e}\u{432}\u{43d}\u{43e}\u{439} \u{448}\u{43b}\u{44e}\u{437}",
    )
}

/// The answer of one line to a query for a number.
fn answer_number(query: NumberQuery, line: &[char]) -> (r: Option<i32>)
    ensures
        r == number_answer(query, line@),
{
    match query {
        NumberQuery::Channel => {
            if !holds(line, "Current Frequency:") {
                return None;
            }
            match piece_behind(line, "(") {
                Some(inside) => {
                    let close = chars_of(")");
                    let head = piece_before(inside.as_slice(), close.as_slice());
                    match piece_behind(head.as_slice(), "Channel") {
                        Some(number) => {
                            let clean = trimmed(number.as_slice());
                            parse_i32(clean.as_slice())
                        },
                        None => None,
                    }
                },
                None => None,
            }
        },
        NumberQuery::Signal => {
            match piece_behind(line, "Signal level=") {
                Some(piece) => match nth_field(piece.as_slice(), 0) {
                    Some(level) => parse_i32(level.as_slice()),
                    None => None,
                },
                None => None,
            }
        },
    }
}

/// The text that the output of a tool gives for the query: the answer of
/// the first line that gives one.
pub fn find_text(query: TextQuery, output: &str) -> (r: Option<String>)
    ensures
        opt_text(r) == first_text(query, lines_of(output@)),
{
    let chars = chars_of(output);
    let lines = split_lines(chars.as_slice());
    let mut i: usize = 0;
    proof {
        assert(texts(lines@).subrange(0, lines.len() as int) =~= texts(lines@));
    }
    while i < lines.len()
        invariant
            i <= lines.len(),
            texts(lines@) == lines_of(output@),
            first_text(query, texts(lines@)) == first_text(
                query,
                texts(lines@).subrange(i as int, lines.len() as int),
            ),
        decreases lines.len() - i,
    {
        proof {
            let rest = texts(lines@).subrange(i as int, lines.len() as int);
            assert(rest[0] == lines@[i as int]@);
            assert(rest.drop_first() =~= texts(lines@).subrange(i + 1, lines.len() as int));
        }
        match answer_text(query, lines[i].as_slice()) {
            Some(value) => {
                return Some(string_of(value.as_slice()));
            },
            None => {},
        }
        i += 1;
    }
    None
}

/// The number that the output of a tool gives for the query: the answer of
/// the first line that gives one.
pub fn find_number(query: NumberQuery, output: &str) -> (r: Option<i32>)
    ensures
        r == first_number(query, lines_of(output@)),
{
    let chars = chars_of(output);
    let lines = split_lines(chars.as_slice());
    let mut i: usize = 0;
    proof {
        assert(texts(lines@).subrange(0, lines.len() as int) =~= texts(lines@));
    }
    while i < lines.len()
        invariant
            i <= lines.len(),
            texts(lines@) == lines_of(output@),
            first_number(query, texts(lines@)) == first_number(
                query,
                texts(lines@).subrange(i as int, lines.len() as int),
            ),
        decreases lines.len() - i,
    {
        proof {
            let rest = texts(lines@).subrange(i as int, lines.len() as int);
            assert(rest[0] == lines@[i as int]@);
            assert(rest.drop_first() =~= texts(lines@).subrange(i + 1, lines.len() as int));
        }
        match answer_number(query, lines[i].as_slice()) {
            Some(value) => {
                return Some(value);
            },
            None => {},
        }
        i += 1;
    }
    None
}

/// The text of an answer, or `default` where there is none.
pub open spec fn answer_or(answer: Option<Seq<char>>, default: Seq<char>) -> Seq<char> {
    match answer {
        Some(text) => text,
        None => default,
    }
}

/// The wireless interface that the interface listing names.
pub fn get_wifi_interface(listing: &str) -> (r: Option<String>)
    ensures
        opt_text(r) == first_text(TextQuery::Interface, lines_of(listing@)),
{
    find_text(TextQuery::Interface, listing)
}

/// The name of the network that the link is on, or `Not Connected`.
pub fn get_ssid(listing: &str) -> (r: String)
    ensures
        r@ == answer_or(first_text(TextQuery::Ssid, lines_of(listing@)), "Not Connected"@),
{
    match find_text(TextQuery::Ssid, listing) {
        Some(name) => name,
        None => "Not Connected".to_owned(),
    }
}

/// The address of the access point that the link is on, or
/// `Not Associated`.
pub fn get_bssid(listing: &str) -> (r: String)
    ensures
        r@ == answer_or(first_text(TextQuery::Bssid, lines_of(listing@)), "Not Associated"@),
{
    match find_text(TextQuery::Bssid, listing) {
        Some(address) => address,
        None => "Not Associated".to_owned(),
    }
}

/// The channel that the link is on, or 0.
pub fn get_channel(listing: &str) -> (r: i32)
    ensures
        r == match first_number(NumberQuery::Channel, lines_of(listing@)) {
            Some(channel) => channel,
            None => 0i32,
        },
{
    match find_number(NumberQuery::Channel, listing) {
        Some(channel) => channel,
        None => 0,
    }
}

/// The signal level of the link in dBm, or -100.
pub fn get_signal_strength(listing: &str) -> (r: i32)
    ensures
        r == match first_number(NumberQuery::Signal, lines_of(listing@)) {
            Some(level) => level,
            None => -100i32,
        },
{
    match find_number(NumberQuery::Signal, listing) {
        Some(level) => level,
        None => -100,
    }
}

/// The gateway of the default route, as the route listing shows it.
pub fn get_gateway(routes: &str) -> (r: Option<String>)
    ensures
        opt_text(r) == first_text(TextQuery::Gateway, lines_of(routes@)),
{
    find_text(TextQuery::Gateway, routes)
}

/// The gateway of the default route, as the route table shows it.
pub fn get_gateway_from_table(table: &str) -> (r: Option<String>)
    ensures
        opt_text(r) == first_text(TextQuery::TableGateway, lines_of(table@)),
{
    find_text(TextQuery::TableGateway, table)
}

/// The gateway, as the interface configuration shows it.
pub fn get_gateway_windows(config: &str) -> (r: Option<String>)
    ensures
        opt_text(r) == first_text(TextQuery::ConfiguredGateway, lines_of(config@)),
{
    find_text(TextQuery::ConfiguredGateway, config)
}

/// The gateway, as the interface configuration shows it, cut at the next
/// colon.
pub fn get_gateway_ip_windows(config: &str) -> (r: Option<String>)
    ensures
        opt_text(r) == first_text(TextQuery::GatewayPiece, lines_of(config@)),
{
    find_text(TextQuery::GatewayPiece, config)
}

/// Whether the link is encrypted: `Open`, `Secured`, or `Unknown` where
/// the listing does not tell.
pub fn get_security(listing: &str) -> (r: String)
    ensures
        r@ == answer_or(first_text(TextQuery::Security, lines_of(listing@)), "Unknown"@),
{
    match find_text(TextQuery::Security, listing) {
        Some(kind) => kind,
        None => "Unknown".to_owned(),
    }
}

/// The name of the wireless interface, as the platform shell lists it.
pub fn get_wifi_interface_windows(listing: &str) -> (r: Option<String>)
    ensures
        opt_text(r) == first_text(TextQuery::InterfaceName, lines_of(listing@)),
{
    find_text(TextQuery::InterfaceName, listing)
}

/// The first saved profile of the profile listing.
pub fn first_saved_profile(listing: &str) -> (r: Option<String>)
    ensures
        opt_text(r) == first_text(TextQuery::FirstProfile, lines_of(listing@)),
{
    find_text(TextQuery::FirstProfile, listing)
}

// ---------------------------------------------------------------------------
// The link, as the platform shell tells of it
// ---------------------------------------------------------------------------

/// What the interface listing of the platform shell tells of the link.
/// A signal below 0 stands for one that was not told.
pub struct WifiFacts {
    pub ssid: String,
    pub bssid: String,
    pub channel: i32,
    pub signal_percent: i32,
    pub auth: String,
}

/// The facts as plain values.
pub struct FactsView {
    pub ssid: Seq<char>,
    pub bssid: Seq<char>,
    pub channel: i32,
    pub signal_percent: i32,
    pub auth: Seq<char>,
}

impl View for WifiFacts {
    type V = FactsView;

    open spec fn view(&self) -> FactsView {
        FactsView {
            ssid: self.ssid@,
            bssid: self.bssid@,
            channel: self.channel,
            signal_percent: self.signal_percent,
            auth: self.auth@,
        }
    }
}

/// Nothing told yet.
pub open spec fn no_facts() -> FactsView {
    FactsView {
        ssid: Seq::empty(),
        bssid: Seq::empty(),
        channel: 0,
        signal_percent: -1i32,
        auth: Seq::empty(),
    }
}

/// The line gives a channel.
pub open spec fn tells_channel(low: Seq<char>) -> bool {
    has_substring(low, "channel"@) || has_substring(low, "\u{43a}\u{430}\u{43d}\u{430}\u{43b}"@)
}

/// The line gives a signal quality.
pub open spec fn tells_signal(low: Seq<char>) -> bool {
    has_substring(low, "signal"@) || has_substring(
        low,
        "\u{441}\u{438}\u{433}\u{43d}\u{430}\u{43b}"@,
    )
}

/// The line gives the way of authentication.
pub open spec fn tells_auth(low: Seq<char>) -> bool {
    has_substring(low, "authentication"@) || has_substring(
        low,
        "\u{430}\u{443}\u{442}\u{435}\u{43d}\u{442}\u{438}\u{444}\u{438}\u{43a}"@,
    ) || has_substring(low, "auth"@)
}

/// The facts after one more line. Each fact is told once: the first line
/// that tells it counts, and a line is told by its label in lower case. A
/// line without a colon tells nothing; a number that cannot be read tells
/// nothing.
pub open spec fn facts_step(facts: FactsView, raw: Seq<char>) -> FactsView {
    let line = trim(raw);
    let low = lower(line);
    let value = value_after_colon(line);
    if has_substring(low, "ssid"@) && !has_substring(low, "bssid"@) && facts.ssid.len() == 0 {
        match value {
            Some(v) => FactsView { ssid: v, ..facts },
            None => facts,
        }
    } else if has_substring(low, "bssid"@) && facts.bssid.len() == 0 {
        match value {
            Some(v) => FactsView { bssid: v, ..facts },
            None => facts,
        }
    } else if tells_channel(low) && facts.channel == 0 {
        match value {
            Some(v) => match i32_value(v) {
                Some(channel) => FactsView { channel: channel, ..facts },
                None => facts,
            },
            None => facts,
        }
    } else if tells_signal(low) && facts.signal_percent < 0 {
        match value {
            Some(v) => match i32_value(crate::cut::strip_end(v, '%')) {
                Some(percent) => FactsView { signal_percent: percent, ..facts },
                None => facts,
            },
            None => facts,
        }
    } else if tells_auth(low) && facts.auth.len() == 0 {
        match value {
            Some(v) => FactsView { auth: v, ..facts },
            None => facts,
        }
    } else {
        facts
    }
}

/// The facts after all the lines.
pub open spec fn facts_of(lines: Seq<Seq<char>>) -> FactsView
    decreases lines.len(),
{
    if lines.len() == 0 {
        no_facts()
    } else {
        facts_step(facts_of(lines.drop_last()), lines.last())
    }
}

/// Reads what the interface listing of the platform shell tells of the
/// link.
pub fn read_wifi_facts(listing: &str) -> (facts: WifiFacts)
    ensures
        facts@ == facts_of(lines_of(listing@)),
{
    let chars = chars_of(listing);
    let lines = split_lines(chars.as_slice());
    let mut facts = WifiFacts {
        ssid: String::new(),
        bssid: String::new(),
        channel: 0,
        signal_percent: -1,
        auth: String::new(),
    };
    let mut i: usize = 0;
    proof {
        assert(texts(lines@).subrange(0, 0) =~= Seq::<Seq<char>>::empty());
    }
    while i < lines.len()
        invariant
            i <= lines.len(),
            facts@ == facts_of(texts(lines@).subrange(0, i as int)),
        decreases lines.len() - i,
    {
        proof {
            let seen = texts(lines@).subrange(0, i + 1);
            assert(seen.drop_last() =~= texts(lines@).subrange(0, i as int));
            assert(seen.last() == lines@[i as int]@);
        }
        let line_vec = trimmed(lines[i].as_slice());
        let line = line_vec.as_slice();
        let low_vec = lowercase(line);
        let low = low_vec.as_slice();
        let value = behind_colon(line);
        if holds(low, "ssid") && !holds(low, "bssid") && facts.ssid.as_str().is_empty() {
            match value {
                Some(v) => {
                    facts.ssid = string_of(v.as_slice());
                },
                None => {},
            }
        } else if holds(low, "bssid") && facts.bssid.as_str().is_empty() {
            match value {
                Some(v) => {
                    facts.bssid = string_of(v.as_slice());
                },
                None => {},
            }
        } else if (holds(low, "channel") || holds(low, "\u{43a}\u{430}\u{43d}\u{430}\u{43b}"))
            && facts.channel == 0 {
            match value {
                Some(v) => match parse_i32(v.as_slice()) {
                    Some(channel) => {
                        facts.channel = channel;
                    },
                    None => {},
                },
                None => {},
            }
        } else if (holds(low, "signal") || holds(
            low,
            "\u{441}\u{438}\u{433}\u{43d}\u{430}\u{43b}",
        )) && facts.signal_percent < 0 {
            match value {
                Some(v) => {
                    let number = crate::cut::without_trailing(v.as_slice(), '%');
                    match parse_i32(number.as_slice()) {
                        Some(percent) => {
                            facts.signal_percent = percent;
                        },
                        None => {},
                    }
                },
                None => {},
            }
        } else if (holds(low, "authentication") || holds(
            low,
            "\u{430}\u{443}\u{442}\u{435}\u{43d}\u{442}\u{438}\u{444}\u{438}\u{43a}",
        ) || holds(low, "auth")) && facts.auth.as_str().is_empty() {
            match value {
                Some(v) => {
                    facts.auth = string_of(v.as_slice());
                },
                None => {},
            }
        }
        i += 1;
    }
    proof {
        assert(texts(lines@).subrange(0, lines.len() as int) =~= texts(lines@));
    }
    facts
}

/// The state of the wireless link.
pub struct WifiStatus {
    pub ssid: String,
    pub bssid: String,
    pub channel: i32,
    pub gateway_ip: String,
    pub signal_strength: i32,
    pub frequency: i32,
    pub security: String,
}

/// The state as plain values.
pub struct StatusView {
    pub ssid: Seq<char>,
    pub bssid: Seq<char>,
    pub channel: i32,
    pub gateway_ip: Seq<char>,
    pub signal_strength: i32,
    pub frequency: i32,
    pub security: Seq<char>,
}

impl View for WifiStatus {
    type V = StatusView;

    open spec fn view(&self) -> StatusView {
        StatusView {
            ssid: self.ssid@,
            bssid: self.bssid@,
            channel: self.channel,
            gateway_ip: self.gateway_ip@,
            signal_strength: self.signal_strength,
            frequency: self.frequency,
            security: self.security@,
        }
    }
}

/// `text`, or `default` where the text is empty.
pub open spec fn or_default(text: Seq<char>, default: Seq<char>) -> Seq<char> {
    if text.len() == 0 {
        default
    } else {
        text
    }
}

/// The state of the link that the facts amount to. The name of the network
/// is the one told, else the first saved profile, else `Not Connected`.
/// What was not told gets a stand-in: channel 1, the frequency of channel
/// 1, a signal of -100 dBm. A signal quality in percent becomes half the
/// percentage less 100.
pub open spec fn status_of(
    facts: FactsView,
    profile: Option<Seq<char>>,
    gateway: Option<Seq<char>>,
) -> StatusView {
    let ssid = if facts.ssid.len() == 0 && profile is Some {
        profile->0
    } else {
        facts.ssid
    };
    StatusView {
        ssid: or_default(ssid, "Not Connected"@),
        bssid: or_default(facts.bssid, "Not Available"@),
        channel: if facts.channel == 0 {
            1
        } else {
            facts.channel
        },
        gateway_ip: answer_or(gateway, "Unknown"@),
        signal_strength: if facts.signal_percent >= 0 {
            dbm(facts.signal_percent)
        } else {
            -100i32
        },
        frequency: if frequency_of(facts.channel as int) == 0 {
            2412
        } else {
            frequency_of(facts.channel as int) as i32
        },
        security: or_default(facts.auth, "Unknown"@),
    }
}

/// `text`, or `default` where the text is empty.
fn text_or_default(text: &String, default: &str) -> (out: String)
    ensures
        out@ == or_default(text@, default@),
{
    if text.as_str().is_empty() {
        default.to_owned()
    } else {
        text.clone()
    }
}

/// Puts the state of the link together from the facts, the first saved
/// profile and the gateway.
pub fn wifi_status_windows(
    facts: &WifiFacts,
    profile: Option<String>,
    gateway: Option<String>,
) -> (status: WifiStatus)
    ensures
        status@ == status_of(facts@, opt_text(profile), opt_text(gateway)),
{
    let ssid = if facts.ssid.as_str().is_empty() {
        match profile {
            Some(name) => name,
            None => facts.ssid.clone(),
        }
    } else {
        facts.ssid.clone()
    };
    let frequency = channel_to_frequency(facts.channel);
    WifiStatus {
        ssid: text_or_default(&ssid, "Not Connected"),
        bssid: text_or_default(&facts.bssid, "Not Available"),
        channel: if facts.channel == 0 {
            1
        } else {
            facts.channel
        },
        gateway_ip: match gateway {
            Some(address) => address,
            None => "Unknown".to_owned(),
        },
        signal_strength: if facts.signal_percent >= 0 {
            percent_to_dbm(facts.signal_percent)
        } else {
            -100
        },
        frequency: if frequency == 0 {
            2412
        } else {
            frequency
        },
        security: text_or_default(&facts.auth, "Unknown"),
    }
}

} // verus!
