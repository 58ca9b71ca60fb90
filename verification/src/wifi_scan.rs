//! Scans for access points, read from what the wireless tools print. A
//! listing tells of one access point after the other; what a line says
//! belongs to the access point that was named last.

use crate::case::{lower, lowercase};
use crate::cut::{
    behind_colon, field, i32_value, nth_field, parse_i32, piece_behind, second_piece, strip_both,
    strip_end, up_to, value_after_colon, without_surrounding, without_trailing,
};
use crate::device::strings;
use crate::scan::{first_where, lemma_first_where_is};
use crate::search::{begins_with, has_substring, holds, starts_with};
use crate::split::{lines_of, split_chars, split_lines, split_on, texts};
use crate::text::{char_is_hex_digit, chars_of, copy_range, is_hex_digit, string_of, trim, trimmed};
use crate::wifi::{
    ap_views, blank_ap, channel_to_frequency, dbm, frequency_of, percent_to_dbm, AccessPoint,
    ApView,
};
use vstd::prelude::*;

verus! {

/// How far a scan has got: the access points that are done, and the one
/// that the lines tell of now.
pub struct ScanState {
    pub done: Seq<ApView>,
    pub current: ApView,
}

/// A scan that has read nothing.
pub open spec fn scan_start() -> ScanState {
    ScanState { done: Seq::empty(), current: blank_ap() }
}

/// The state when a new access point begins: the one told of so far is
/// done, provided it has a name.
pub open spec fn next_ap(state: ScanState) -> ScanState {
    ScanState {
        done: if state.current.ssid.len() > 0 {
            state.done.push(state.current)
        } else {
            state.done
        },
        current: blank_ap(),
    }
}

/// The access points of a finished scan: those that are done, and the last
/// one if it has a name.
pub open spec fn scan_result(state: ScanState) -> Seq<ApView> {
    next_ap(state).done
}

// ---------------------------------------------------------------------------
// Colon-separated listing
// ---------------------------------------------------------------------------

/// The access point that a line of a colon-separated listing tells of:
/// name, address, signal, channel and security in its first five parts. A
/// part that is no number leaves the number at 0. A line with fewer parts,
/// or without a name, tells of none.
pub open spec fn nmcli_ap(line: Seq<char>) -> Option<ApView> {
    let parts = split_on(line, ':');
    if parts.len() >= 5 && parts[0].len() > 0 {
        Some(
            ApView {
                ssid: parts[0],
                bssid: parts[1],
                rssi: match i32_value(parts[2]) {
                    Some(v) => v,
                    None => 0i32,
                },
                channel: match i32_value(parts[3]) {
                    Some(v) => v,
                    None => 0i32,
                },
                security: parts[4],
                frequency: 0,
            },
        )
    } else {
        None
    }
}

/// The access points of a colon-separated listing, in order.
pub open spec fn nmcli_aps(lines: Seq<Seq<char>>) -> Seq<ApView>
    decreases lines.len(),
{
    if lines.len() == 0 {
        Seq::empty()
    } else {
        match nmcli_ap(lines.last()) {
            Some(ap) => nmcli_aps(lines.drop_last()).push(ap),
            None => nmcli_aps(lines.drop_last()),
        }
    }
}

/// Reads a colon-separated listing of access points.
pub fn scan_with_nmcli(listing: &str) -> (aps: Vec<AccessPoint>)
    ensures
        ap_views(aps@) == nmcli_aps(lines_of(listing@)),
{
    let chars = chars_of(listing);
    let lines = split_lines(chars.as_slice());
    let mut aps: Vec<AccessPoint> = Vec::new();
    let mut i: usize = 0;
    proof {
        assert(texts(lines@).subrange(0, 0) =~= Seq::<Seq<char>>::empty());
        assert(ap_views(aps@) =~= Seq::<ApView>::empty());
    }
    while i < lines.len()
        invariant
            i <= lines.len(),
            ap_views(aps@) == nmcli_aps(texts(lines@).subrange(0, i as int)),
        decreases lines.len() - i,
    {
        proof {
            let seen = texts(lines@).subrange(0, i + 1);
            assert(seen.drop_last() =~= texts(lines@).subrange(0, i as int));
            assert(seen.last() == lines@[i as int]@);
        }
        let parts = split_chars(lines[i].as_slice(), ':');
        if parts.len() >= 5 && parts[0].len() > 0 {
            proof {
                assert(texts(parts@)[0] == parts@[0]@);
                assert(texts(parts@)[1] == parts@[1]@);
                assert(texts(parts@)[2] == parts@[2]@);
                assert(texts(parts@)[3] == parts@[3]@);
                assert(texts(parts@)[4] == parts@[4]@);
            }
            let rssi = match parse_i32(parts[2].as_slice()) {
                Some(v) => v,
                None => 0,
            };
            let channel = match parse_i32(parts[3].as_slice()) {
                Some(v) => v,
                None => 0,
            };
            let ap = AccessPoint {
                ssid: string_of(parts[0].as_slice()),
                bssid: string_of(parts[1].as_slice()),
                rssi,
                channel,
                security: string_of(parts[4].as_slice()),
                frequency: 0,
            };
            let ghost before = ap_views(aps@);
            let ghost view = ap@;
            aps.push(ap);
            proof {
                assert(ap_views(aps@) =~= before.push(view));
            }
        }
        i += 1;
    }
    proof {
        assert(texts(lines@).subrange(0, lines.len() as int) =~= texts(lines@));
    }
    aps
}

// ---------------------------------------------------------------------------
// Station dump
// ---------------------------------------------------------------------------

/// The state after one more line of a station dump. A line that begins
/// with `BSS` starts an access point and gives its address in the second
/// field; `signal:`, `SSID:` and the channel of the parameter set give
/// what they name.
pub open spec fn iw_step(state: ScanState, raw: Seq<char>) -> ScanState {
    let line = trim(raw);
    let current = state.current;
    if starts_with(line, "BSS"@) {
        let fresh = next_ap(state);
        ScanState {
            current: ApView {
                bssid: match field(line, 1) {
                    Some(address) => address,
                    None => fresh.current.bssid,
                },
                ..fresh.current
            },
            ..fresh
        }
    } else if has_substring(line, "signal:"@) {
        match second_piece(line, "signal:"@) {
            Some(piece) => match field(piece, 0) {
                Some(level) => match i32_value(level) {
                    Some(v) => ScanState { current: ApView { rssi: v, ..current }, ..state },
                    None => state,
                },
                None => state,
            },
            None => state,
        }
    } else if has_substring(line, "SSID:"@) {
        match second_piece(line, "SSID:"@) {
            Some(piece) => ScanState { current: ApView { ssid: trim(piece), ..current }, ..state },
            None => state,
        }
    } else if has_substring(line, "DS Parameter set: channel"@) {
        match second_piece(line, "channel"@) {
            Some(piece) => match i32_value(trim(piece)) {
                Some(v) => ScanState { current: ApView { channel: v, ..current }, ..state },
                None => state,
            },
            None => state,
        }
    } else {
        state
    }
}

/// The state after all the lines of a station dump.
pub open spec fn iw_scan(lines: Seq<Seq<char>>) -> ScanState
    decreases lines.len(),
{
    if lines.len() == 0 {
        scan_start()
    } else {
        iw_step(iw_scan(lines.drop_last()), lines.last())
    }
}

/// Puts the access point told of so far among those that are done, if it
/// has a name, and begins a new one.
fn begin_next(aps: &mut Vec<AccessPoint>, current: &mut AccessPoint)
    ensures
        (ScanState { done: ap_views(final(aps)@), current: final(current)@ }) == next_ap(
            ScanState { done: ap_views(old(aps)@), current: old(current)@ },
        ),
{
    let ghost before = ap_views(aps@);
    if !current.ssid.as_str().is_empty() {
        let ghost view = current@;
        aps.push(current.clone());
        proof {
            assert(ap_views(aps@) =~= before.push(view));
        }
    }
    *current = AccessPoint::blank();
}

/// Reads a station dump of access points.
pub fn scan_with_iw(listing: &str) -> (aps: Vec<AccessPoint>)
    ensures
        ap_views(aps@) == scan_result(iw_scan(lines_of(listing@))),
{
    let chars = chars_of(listing);
    let lines = split_lines(chars.as_slice());
    let mut aps: Vec<AccessPoint> = Vec::new();
    let mut current = AccessPoint::blank();
    let mut i: usize = 0;
    proof {
        assert(texts(lines@).subrange(0, 0) =~= Seq::<Seq<char>>::empty());
        assert(ap_views(aps@) =~= Seq::<ApView>::empty());
    }
    while i < lines.len()
        invariant
            i <= lines.len(),
            (ScanState { done: ap_views(aps@), current: current@ }) == iw_scan(
                texts(lines@).subrange(0, i as int),
            ),
        decreases lines.len() - i,
    {
        proof {
            let seen = texts(lines@).subrange(0, i + 1);
            assert(seen.drop_last() =~= texts(lines@).subrange(0, i as int));
            assert(seen.last() == lines@[i as int]@);
        }
        let line = trimmed(lines[i].as_slice());
        if begins_with(line.as_slice(), "BSS") {
            begin_next(&mut aps, &mut current);
            match nth_field(line.as_slice(), 1) {
                Some(address) => {
                    current.bssid = string_of(address.as_slice());
                },
                None => {},
            }
        } else if holds(line.as_slice(), "signal:") {
            match piece_behind(line.as_slice(), "signal:") {
                Some(piece) => match nth_field(piece.as_slice(), 0) {
                    Some(level) => match parse_i32(level.as_slice()) {
                        Some(v) => {
                            current.rssi = v;
                        },
                        None => {},
                    },
                    None => {},
                },
                None => {},
            }
        } else if holds(line.as_slice(), "SSID:") {
            match piece_behind(line.as_slice(), "SSID:") {
                Some(piece) => {
                    let name = trimmed(piece.as_slice());
                    current.ssid = string_of(name.as_slice());
                },
                None => {},
            }
        } else if holds(line.as_slice(), "DS Parameter set: channel") {
            match piece_behind(line.as_slice(), "channel") {
                Some(piece) => {
                    let clean = trimmed(piece.as_slice());
                    match parse_i32(clean.as_slice()) {
                        Some(v) => {
                            current.channel = v;
                        },
                        None => {},
                    }
                },
                None => {},
            }
        }
        i += 1;
    }
    proof {
        assert(texts(lines@).subrange(0, lines.len() as int) =~= texts(lines@));
    }
    begin_next(&mut aps, &mut current);
    aps
}

// ---------------------------------------------------------------------------
// Cell listing
// ---------------------------------------------------------------------------

/// A cell of a cell listing: the access point, and the frequencies that
/// the listing gave for it, as written, in order.
pub struct ScannedCell {
    pub ap: AccessPoint,
    pub frequency_texts: Vec<String>,
}

/// A cell as plain values.
pub struct CellView {
    pub ap: ApView,
    pub frequency_texts: Seq<Seq<char>>,
}

impl View for ScannedCell {
    type V = CellView;

    open spec fn view(&self) -> CellView {
        CellView { ap: self.ap@, frequency_texts: strings(self.frequency_texts@) }
    }
}

/// The cells as plain values.
pub open spec fn cell_views(cells: Seq<ScannedCell>) -> Seq<CellView> {
    cells.map_values(|c: ScannedCell| c@)
}

/// How far a cell listing has been read.
pub struct CellState {
    pub done: Seq<CellView>,
    pub current: CellView,
}

/// A cell of which nothing is known yet.
pub open spec fn blank_cell() -> CellView {
    CellView { ap: blank_ap(), frequency_texts: Seq::empty() }
}

/// The state when a new cell begins: the one told of so far is done,
/// provided its access point has a name.
pub open spec fn next_cell(state: CellState) -> CellState {
    CellState {
        done: if state.current.ap.ssid.len() > 0 {
            state.done.push(state.current)
        } else {
            state.done
        },
        current: blank_cell(),
    }
}

/// The state with the access point of the current cell changed.
pub open spec fn with_ap(state: CellState, ap: ApView) -> CellState {
    CellState { current: CellView { ap: ap, ..state.current }, ..state }
}

/// The state after one more line of a cell listing. A line that begins
/// with `Cell` starts a cell; `ESSID:`, `Address:`, `Signal level=`,
/// `Channel:` and `Encryption key:` give what they name; the text behind
/// `Frequency:`, up to the first blank, is kept as written.
pub open spec fn iwlist_step(state: CellState, raw: Seq<char>) -> CellState {
    let line = trim(raw);
    let ap = state.current.ap;
    if starts_with(line, "Cell"@) {
        next_cell(state)
    } else if has_substring(line, "ESSID:"@) {
        match second_piece(line, "ESSID:"@) {
            Some(piece) => if strip_both(trim(piece), '"').len() > 0 {
                with_ap(state, ApView { ssid: strip_both(trim(piece), '"'), ..ap })
            } else {
                state
            },
            None => state,
        }
    } else if has_substring(line, "Address:"@) {
        match second_piece(line, "Address:"@) {
            Some(piece) => with_ap(state, ApView { bssid: trim(piece), ..ap }),
            None => state,
        }
    } else if has_substring(line, "Signal level="@) {
        match second_piece(line, "Signal level="@) {
            Some(piece) => match field(piece, 0) {
                Some(level) => match i32_value(level) {
                    Some(v) => with_ap(state, ApView { rssi: v, ..ap }),
                    None => state,
                },
                None => state,
            },
            None => state,
        }
    } else if has_substring(line, "Channel:"@) {
        match second_piece(line, "Channel:"@) {
            Some(piece) => match i32_value(trim(piece)) {
                Some(v) => with_ap(state, ApView { channel: v, ..ap }),
                None => state,
            },
            None => state,
        }
    } else if has_substring(line, "Encryption key:"@) {
        with_ap(
            state,
            ApView {
                security: if has_substring(line, "off"@) {
                    "Open"@
                } else {
                    "Secured"@
                },
                ..ap
            },
        )
    } else if has_substring(line, "Frequency:"@) {
        match second_piece(line, "Frequency:"@) {
            Some(piece) => CellState {
                current: CellView {
                    frequency_texts: state.current.frequency_texts.push(up_to(piece, " "@)),
                    ..state.current
                },
                ..state
            },
            None => state,
        }
    } else {
        state
    }
}

/// The state after all the lines of a cell listing.
pub open spec fn iwlist_scan(lines: Seq<Seq<char>>) -> CellState
    decreases lines.len(),
{
    if lines.len() == 0 {
        CellState { done: Seq::empty(), current: blank_cell() }
    } else {
        iwlist_step(iwlist_scan(lines.drop_last()), lines.last())
    }
}

/// Puts the cell told of so far among those that are done, if its access
/// point has a name, and begins a new one.
fn begin_next_cell(cells: &mut Vec<ScannedCell>, current: &mut ScannedCell)
    ensures
        (CellState { done: cell_views(final(cells)@), current: final(current)@ }) == next_cell(
            CellState { done: cell_views(old(cells)@), current: old(current)@ },
        ),
{
    let ghost before = cell_views(cells@);
    let mut fresh = ScannedCell { ap: AccessPoint::blank(), frequency_texts: Vec::new() };
    proof {
        assert(fresh@.frequency_texts =~= Seq::<Seq<char>>::empty());
    }
    core::mem::swap(current, &mut fresh);
    if !fresh.ap.ssid.as_str().is_empty() {
        let ghost view = fresh@;
        cells.push(fresh);
        proof {
            assert(cell_views(cells@) =~= before.push(view));
        }
    }
}

/// Reads a cell listing of access points. The frequency of a cell is left
/// at 0: the listing writes it as a decimal fraction, which is kept as
/// written.
pub fn scan_with_iwlist(listing: &str) -> (cells: Vec<ScannedCell>)
    ensures
        cell_views(cells@) == next_cell(iwlist_scan(lines_of(listing@))).done,
{
    let chars = chars_of(listing);
    let lines = split_lines(chars.as_slice());
    let mut cells: Vec<ScannedCell> = Vec::new();
    let mut current = ScannedCell { ap: AccessPoint::blank(), frequency_texts: Vec::new() };
    let mut i: usize = 0;
    proof {
        assert(texts(lines@).subrange(0, 0) =~= Seq::<Seq<char>>::empty());
        assert(cell_views(cells@) =~= Seq::<CellView>::empty());
        assert(current@.frequency_texts =~= Seq::<Seq<char>>::empty());
    }
    while i < lines.len()
        invariant
            i <= lines.len(),
            (CellState { done: cell_views(cells@), current: current@ }) == iwlist_scan(
                texts(lines@).subrange(0, i as int),
            ),
        decreases lines.len() - i,
    {
        proof {
            let seen = texts(lines@).subrange(0, i + 1);
            assert(seen.drop_last() =~= texts(lines@).subrange(0, i as int));
            assert(seen.last() == lines@[i as int]@);
        }
        let line = trimmed(lines[i].as_slice());
        if begins_with(line.as_slice(), "Cell") {
            begin_next_cell(&mut cells, &mut current);
        } else if holds(line.as_slice(), "ESSID:") {
            match piece_behind(line.as_slice(), "ESSID:") {
                Some(piece) => {
                    let clean = trimmed(piece.as_slice());
                    let name = without_surrounding(clean.as_slice(), '"');
                    if name.len() > 0 {
                        current.ap.ssid = string_of(name.as_slice());
                    }
                },
                None => {},
            }
        } else if holds(line.as_slice(), "Address:") {
            match piece_behind(line.as_slice(), "Address:") {
                Some(piece) => {
                    let address = trimmed(piece.as_slice());
                    current.ap.bssid = string_of(address.as_slice());
                },
                None => {},
            }
        } else if holds(line.as_slice(), "Signal level=") {
            match piece_behind(line.as_slice(), "Signal level=") {
                Some(piece) => match nth_field(piece.as_slice(), 0) {
                    Some(level) => match parse_i32(level.as_slice()) {
                        Some(v) => {
                            current.ap.rssi = v;
                        },
                        None => {},
                    },
                    None => {},
                },
                None => {},
            }
        } else if holds(line.as_slice(), "Channel:") {
            match piece_behind(line.as_slice(), "Channel:") {
                Some(piece) => {
                    let clean = trimmed(piece.as_slice());
                    match parse_i32(clean.as_slice()) {
                        Some(v) => {
                            current.ap.channel = v;
                        },
                        None => {},
                    }
                },
                None => {},
            }
        } else if holds(line.as_slice(), "Encryption key:") {
            current.ap.security = if holds(line.as_slice(), "off") {
                "Open".to_owned()
            } else {
                "Secured".to_owned()
            };
        } else if holds(line.as_slice(), "Frequency:") {
            match piece_behind(line.as_slice(), "Frequency:") {
                Some(piece) => {
                    let blank = chars_of(" ");
                    let token = crate::cut::piece_before(piece.as_slice(), blank.as_slice());
                    let ghost before = strings(current.frequency_texts@);
                    current.frequency_texts.push(string_of(token.as_slice()));
                    proof {
                        assert(strings(current.frequency_texts@) =~= before.push(token@));
                    }
                },
                None => {},
            }
        }
        i += 1;
    }
    proof {
        assert(texts(lines@).subrange(0, lines.len() as int) =~= texts(lines@));
    }
    begin_next_cell(&mut cells, &mut current);
    cells
}

// ---------------------------------------------------------------------------
// Network listing of the platform shell
// ---------------------------------------------------------------------------

/// The position of the first hexadecimal digit in the text, or its length.
pub open spec fn first_hex(s: Seq<char>) -> nat {
    first_where(s, |c: char| is_hex_digit(c))
}

/// The line names a network.
pub open spec fn labels_ssid(low: Seq<char>) -> bool {
    starts_with(low, "ssid"@) || has_substring(
        low,
        "\u{438}\u{43c}\u{44f} \u{441}\u{435}\u{442}\u{438}"@,
    )
}

/// The line gives a signal quality.
pub open spec fn labels_signal(low: Seq<char>) -> bool {
    has_substring(low, "signal"@) || has_substring(
        low,
        "\u{441}\u{438}\u{433}\u{43d}\u{430}\u{43b}"@,
    )
}

/// The line gives a channel.
pub open spec fn labels_channel(low: Seq<char>) -> bool {
    has_substring(low, "channel"@) || has_substring(low, "\u{43a}\u{430}\u{43d}\u{430}\u{43b}"@)
}

/// The line gives the way of authentication.
pub open spec fn labels_auth(low: Seq<char>) -> bool {
    has_substring(low, "authentication"@) || has_substring(
        low,
        "\u{430}\u{443}\u{442}\u{435}\u{43d}\u{442}\u{438}\u{444}\u{438}\u{43a}\u{430}\u{446}\u{438}\u{44f}"@,
    ) || has_substring(low, "auth"@)
}

/// The line gives the way of encryption.
pub open spec fn labels_encryption(low: Seq<char>) -> bool {
    has_substring(low, "encryption"@) || has_substring(
        low,
        "\u{448}\u{438}\u{444}\u{440}\u{43e}\u{432}\u{430}\u{43d}\u{438}\u{435}"@,
    )
}

/// What a trimmed line says behind its first colon; empty where it has no
/// colon.
pub open spec fn said(line: Seq<char>) -> Seq<char> {
    match value_after_colon(line) {
        Some(value) => value,
        None => Seq::empty(),
    }
}

/// The state after one more line of a network listing. A line is told by
/// its label in lower case, and only a line with a colon tells anything.
/// A network name that is not empty starts an access point.
pub open spec fn netsh_step(state: ScanState, raw: Seq<char>) -> ScanState {
    let line = trim(raw);
    let low = lower(line);
    let current = state.current;
    let colon = has_substring(line, ":"@);
    if labels_ssid(low) && colon {
        if said(line).len() > 0 {
            ScanState {
                current: ApView { ssid: said(line), ..blank_ap() },
                ..next_ap(state)
            }
        } else {
            state
        }
    } else if has_substring(low, "bssid"@) && colon {
        if first_hex(line) < line.len() {
            ScanState {
                current: ApView {
                    bssid: trim(
                        up_to(line.subrange(first_hex(line) as int, line.len() as int), " "@),
                    ),
                    ..current
                },
                ..state
            }
        } else {
            state
        }
    } else if labels_signal(low) && colon {
        match i32_value(strip_end(said(line), '%')) {
            Some(percent) => ScanState { current: ApView { rssi: dbm(percent), ..current }, ..state },
            None => state,
        }
    } else if labels_channel(low) && colon {
        match i32_value(said(line)) {
            Some(channel) => ScanState {
                current: ApView {
                    channel: channel,
                    frequency: frequency_of(channel as int) as i32,
                    ..current
                },
                ..state
            },
            None => state,
        }
    } else if labels_auth(low) && colon {
        ScanState { current: ApView { security: said(line), ..current }, ..state }
    } else if labels_encryption(low) && colon && current.security.len() == 0 {
        ScanState { current: ApView { security: said(line), ..current }, ..state }
    } else {
        state
    }
}

/// The state after all the lines of a network listing.
pub open spec fn netsh_scan(lines: Seq<Seq<char>>) -> ScanState
    decreases lines.len(),
{
    if lines.len() == 0 {
        scan_start()
    } else {
        netsh_step(netsh_scan(lines.drop_last()), lines.last())
    }
}

/// The access points of a network listing: those that are done, and the
/// last one if it has a name, its security `Unknown` where none was told.
pub open spec fn netsh_result(state: ScanState) -> Seq<ApView> {
    if state.current.ssid.len() > 0 {
        state.done.push(
            ApView {
                security: if state.current.security.len() == 0 {
                    "Unknown"@
                } else {
                    state.current.security
                },
                ..state.current
            },
        )
    } else {
        state.done
    }
}

/// What a trimmed line says behind its first colon.
fn said_text(line: &[char]) -> (out: Vec<char>)
    ensures
        out@ == said(line@),
{
    match behind_colon(line) {
        Some(value) => value,
        None => Vec::new(),
    }
}

/// The labels of a line, read once.
struct Labels {
    ssid: bool,
    bssid: bool,
    signal: bool,
    channel: bool,
    auth: bool,
    encryption: bool,
    colon: bool,
}

/// Reads the labels of a trimmed line.
fn labels_of(line: &[char]) -> (labels: Labels)
    ensures
        labels.ssid == labels_ssid(lower(line@)),
        labels.bssid == has_substring(lower(line@), "bssid"@),
        labels.signal == labels_signal(lower(line@)),
        labels.channel == labels_channel(lower(line@)),
        labels.auth == labels_auth(lower(line@)),
        labels.encryption == labels_encryption(lower(line@)),
        labels.colon == has_substring(line@, ":"@),
{
    let low_vec = lowercase(line);
    let low = low_vec.as_slice();
    Labels {
        ssid: begins_with(low, "ssid") || holds(
            low,
            "\u{438}\u{43c}\u{44f} \u{441}\u{435}\u{442}\u{438}",
        ),
        bssid: holds(low, "bssid"),
        signal: holds(low, "signal") || holds(low, "\u{441}\u{438}\u{433}\u{43d}\u{430}\u{43b}"),
        channel: holds(low, "channel") || holds(low, "\u{43a}\u{430}\u{43d}\u{430}\u{43b}"),
        auth: holds(low, "authentication") || holds(
            low,
            "\u{430}\u{443}\u{442}\u{435}\u{43d}\u{442}\u{438}\u{444}\u{438}\u{43a}\u{430}\u{446}\u{438}\u{44f}",
        ) || holds(low, "auth"),
        encryption: holds(low, "encryption") || holds(
            low,
            "\u{448}\u{438}\u{444}\u{440}\u{43e}\u{432}\u{430}\u{43d}\u{438}\u{435}",
        ),
        colon: holds(line, ":"),
    }
}

/// Reads a network listing of the platform shell.
pub fn scan_nearby_aps_windows(listing: &str) -> (aps: Vec<AccessPoint>)
    ensures
        ap_views(aps@) == netsh_result(netsh_scan(lines_of(listing@))),
{
    let chars = chars_of(listing);
    let lines = split_lines(chars.as_slice());
    let mut aps: Vec<AccessPoint> = Vec::new();
    let mut current = AccessPoint::blank();
    let mut i: usize = 0;
    proof {
        assert(texts(lines@).subrange(0, 0) =~= Seq::<Seq<char>>::empty());
        assert(ap_views(aps@) =~= Seq::<ApView>::empty());
    }
    while i < lines.len()
        invariant
            i <= lines.len(),
            (ScanState { done: ap_views(aps@), current: current@ }) == netsh_scan(
                texts(lines@).subrange(0, i as int),
            ),
        decreases lines.len() - i,
    {
        proof {
            let seen = texts(lines@).subrange(0, i + 1);
            assert(seen.drop_last() =~= texts(lines@).subrange(0, i as int));
            assert(seen.last() == lines@[i as int]@);
        }
        let line_vec = trimmed(lines[i].as_slice());
        let line = line_vec.as_slice();
        let labels = labels_of(line);
        if labels.ssid && labels.colon {
            let name = said_text(line);
            if name.len() > 0 {
                begin_next(&mut aps, &mut current);
                current.ssid = string_of(name.as_slice());
            }
        } else if labels.bssid && labels.colon {
            let mut start: usize = 0;
            while start < line.len() && !char_is_hex_digit(line[start])
                invariant
                    start <= line.len(),
                    forall|j: int| 0 <= j < start ==> !is_hex_digit(#[trigger] line@[j]),
                decreases line.len() - start,
            {
                start += 1;
            }
            proof {
                lemma_first_where_is(line@, |c: char| is_hex_digit(c), start as int);
            }
            if start < line.len() {
                let rest = copy_range(line, start, line.len());
                let blank = chars_of(" ");
                let head = crate::cut::piece_before(rest.as_slice(), blank.as_slice());
                let address = trimmed(head.as_slice());
                current.bssid = string_of(address.as_slice());
            }
        } else if labels.signal && labels.colon {
            let value = said_text(line);
            let number = without_trailing(value.as_slice(), '%');
            match parse_i32(number.as_slice()) {
                Some(percent) => {
                    current.rssi = percent_to_dbm(percent);
                },
                None => {},
            }
        } else if labels.channel && labels.colon {
            let value = said_text(line);
            match parse_i32(value.as_slice()) {
                Some(channel) => {
                    current.channel = channel;
                    current.frequency = channel_to_frequency(channel);
                },
                None => {},
            }
        } else if labels.auth && labels.colon {
            let value = said_text(line);
            current.security = string_of(value.as_slice());
        } else if labels.encryption && labels.colon && current.security.as_str().is_empty() {
            let value = said_text(line);
            current.security = string_of(value.as_slice());
        }
        i += 1;
    }
    proof {
        assert(texts(lines@).subrange(0, lines.len() as int) =~= texts(lines@));
    }
    if !current.ssid.as_str().is_empty() {
        if current.security.as_str().is_empty() {
            current.security = "Unknown".to_owned();
        }
        let ghost before = ap_views(aps@);
        let ghost view = current@;
        aps.push(current);
        proof {
            assert(ap_views(aps@) =~= before.push(view));
        }
    }
    aps
}

// ---------------------------------------------------------------------------
// Saved profiles
// ---------------------------------------------------------------------------

/// The line, in lower case, names a saved profile.
pub open spec fn labels_profile(low: Seq<char>) -> bool {
    has_substring(low, "all user profile"@) || has_substring(
        low,
        "\u{43f}\u{440}\u{43e}\u{444}\u{438}\u{43b}\u{44c} \u{432}\u{441}\u{435}\u{445} \u{43f}\u{43e}\u{43b}\u{44c}\u{437}\u{43e}\u{432}\u{430}\u{442}\u{435}\u{43b}\u{435}\u{439}"@,
    )
}

/// The network that a line of the profile listing names: on a line that
/// names a saved profile, what stands behind the first colon, trimmed,
/// unless it is empty.
pub open spec fn profile_in(line: Seq<char>) -> Option<Seq<char>> {
    if labels_profile(lower(line)) && value_after_colon(line) is Some && value_after_colon(
        line,
    )->0.len() > 0 {
        value_after_colon(line)
    } else {
        None
    }
}

/// The access point that stands for a saved profile: nothing is known of
/// it but its name, so the rest is what is most common.
pub open spec fn profile_ap(name: Seq<char>) -> ApView {
    ApView {
        ssid: name,
        bssid: "Unknown"@,
        rssi: -60i32,
        channel: 6,
        security: "WPA2"@,
        frequency: 2437,
    }
}

/// The access points of a profile listing, in order.
pub open spec fn profile_aps(lines: Seq<Seq<char>>) -> Seq<ApView>
    decreases lines.len(),
{
    if lines.len() == 0 {
        Seq::empty()
    } else {
        match profile_in(lines.last()) {
            Some(name) => profile_aps(lines.drop_last()).push(profile_ap(name)),
            None => profile_aps(lines.drop_last()),
        }
    }
}

/// Reads a listing of saved profiles as access points.
pub fn scan_saved_profiles(listing: &str) -> (aps: Vec<AccessPoint>)
    ensures
        ap_views(aps@) == profile_aps(lines_of(listing@)),
{
    let chars = chars_of(listing);
    let lines = split_lines(chars.as_slice());
    let mut aps: Vec<AccessPoint> = Vec::new();
    let mut i: usize = 0;
    proof {
        assert(texts(lines@).subrange(0, 0) =~= Seq::<Seq<char>>::empty());
        assert(ap_views(aps@) =~= Seq::<ApView>::empty());
    }
    while i < lines.len()
        invariant
            i <= lines.len(),
            ap_views(aps@) == profile_aps(texts(lines@).subrange(0, i as int)),
        decreases lines.len() - i,
    {
        proof {
            let seen = texts(lines@).subrange(0, i + 1);
            assert(seen.drop_last() =~= texts(lines@).subrange(0, i as int));
            assert(seen.last() == lines@[i as int]@);
        }
        let line = lines[i].as_slice();
        let low = lowercase(line);
        if holds(low.as_slice(), "all user profile") || holds(
            low.as_slice(),
            "\u{43f}\u{440}\u{43e}\u{444}\u{438}\u{43b}\u{44c} \u{432}\u{441}\u{435}\u{445} \u{43f}\u{43e}\u{43b}\u{44c}\u{437}\u{43e}\u{432}\u{430}\u{442}\u{435}\u{43b}\u{435}\u{439}",
        ) {
            match behind_colon(line) {
                Some(name) => {
                    if name.len() > 0 {
                        let ap = AccessPoint {
                            ssid: string_of(name.as_slice()),
                            bssid: "Unknown".to_owned(),
                            rssi: -60,
                            channel: 6,
                            security: "WPA2".to_owned(),
                            frequency: 2437,
                        };
                        let ghost before = ap_views(aps@);
                        aps.push(ap);
                        proof {
                            assert(ap_views(aps@) =~= before.push(profile_ap(name@)));
                        }
                    }
                },
                None => {},
            }
        }
        i += 1;
    }
    proof {
        assert(texts(lines@).subrange(0, lines.len() as int) =~= texts(lines@));
    }
    aps
}

} // verus!
