//! Service discovery: what a device says of itself in its reply to a
//! multicast search, and in the description that the reply points to.

use crate::case::{lower, lowercase};
use crate::device::{DeviceRecord, NetworkDevice};
use crate::search::{find, has_substring, holds, occurs_at, position_of};
use crate::split::{find_char, first_index, lines_of, split_lines, texts};
use crate::text::{append_chars, chars_of, copy_range, opt_text, string_of, trim, trimmed};
use vstd::prelude::*;

verus! {

// ---------------------------------------------------------------------------
// Reply headers
// ---------------------------------------------------------------------------

/// The header that a line holds: the name in front of the first colon,
/// trimmed and in lower case, and the trimmed value behind it. A line
/// without a colon holds none.
pub open spec fn header_of(line: Seq<char>) -> Option<(Seq<char>, Seq<char>)> {
    let i = first_index(line, ':');
    if i < line.len() {
        Some(
            (
                lower(trim(line.subrange(0, i as int))),
                trim(line.subrange(i as int + 1, line.len() as int)),
            ),
        )
    } else {
        None
    }
}

/// The headers of the lines, by name. Where a name comes twice, the later
/// line counts.
pub open spec fn headers_of(lines: Seq<Seq<char>>) -> Map<Seq<char>, Seq<char>>
    decreases lines.len(),
{
    if lines.len() == 0 {
        Map::empty()
    } else {
        match header_of(lines.last()) {
            Some((name, value)) => headers_of(lines.drop_last()).insert(name, value),
            None => headers_of(lines.drop_last()),
        }
    }
}

/// The map that a list of entries stands for: a later entry replaces an
/// earlier one of the same name.
pub open spec fn entries_map(entries: Seq<(String, String)>) -> Map<Seq<char>, Seq<char>>
    decreases entries.len(),
{
    if entries.len() == 0 {
        Map::empty()
    } else {
        entries_map(entries.drop_last()).insert(entries.last().0@, entries.last().1@)
    }
}

/// The headers of a reply, by name in lower case.
pub struct Headers {
    pub entries: Vec<(String, String)>,
}

impl View for Headers {
    type V = Map<Seq<char>, Seq<char>>;

    open spec fn view(&self) -> Map<Seq<char>, Seq<char>> {
        entries_map(self.entries@)
    }
}

/// The value that the map holds for `name`, or the empty text.
pub open spec fn value_or_empty(map: Map<Seq<char>, Seq<char>>, name: Seq<char>) -> Seq<char> {
    if map.contains_key(name) {
        map[name]
    } else {
        Seq::empty()
    }
}

impl Headers {
    /// The value of the header `name`, where the reply has it.
    pub fn get(&self, name: &str) -> (r: Option<String>)
        ensures
            r is Some <==> self@.contains_key(name@),
            r matches Some(v) ==> v@ == self@[name@],
    {
        let wanted = name.to_owned();
        let mut i: usize = self.entries.len();
        proof {
            assert(self.entries@.subrange(0, i as int) =~= self.entries@);
        }
        while i > 0
            invariant
                i <= self.entries.len(),
                wanted@ == name@,
                self@.contains_key(name@) <==> entries_map(
                    self.entries@.subrange(0, i as int),
                ).contains_key(name@),
                self@.contains_key(name@) ==> self@[name@] == entries_map(
                    self.entries@.subrange(0, i as int),
                )[name@],
            decreases i,
        {
            proof {
                let seen = self.entries@.subrange(0, i as int);
                assert(seen.drop_last() =~= self.entries@.subrange(0, i - 1));
                assert(seen.last() == self.entries@[i - 1]);
            }
            if self.entries[i - 1].0 == wanted {
                return Some(self.entries[i - 1].1.clone());
            }
            i -= 1;
        }
        None
    }

    /// The value of the header `name`, or the empty text where the reply has
    /// none of that name.
    pub fn get_or_empty(&self, name: &str) -> (r: String)
        ensures
            r@ == value_or_empty(self@, name@),
    {
        match self.get(name) {
            Some(v) => v,
            None => String::new(),
        }
    }
}

/// Reads the headers of a reply.
pub fn parse_http_headers(s: &str) -> (headers: Headers)
    ensures
        headers@ == headers_of(lines_of(s@)),
{
    let chars = chars_of(s);
    let lines = split_lines(chars.as_slice());
    let mut entries: Vec<(String, String)> = Vec::new();
    let mut i: usize = 0;
    proof {
        assert(texts(lines@).subrange(0, 0) =~= Seq::<Seq<char>>::empty());
    }
    while i < lines.len()
        invariant
            i <= lines.len(),
            entries_map(entries@) == headers_of(texts(lines@).subrange(0, i as int)),
        decreases lines.len() - i,
    {
        let line = lines[i].as_slice();
        proof {
            let seen = texts(lines@).subrange(0, i + 1);
            assert(seen.drop_last() =~= texts(lines@).subrange(0, i as int));
            assert(seen.last() == line@);
            assert(line@.subrange(0, line.len() as int) =~= line@);
        }
        let colon = find_char(line, 0, ':');
        if colon < line.len() {
            let raw_name = copy_range(line, 0, colon);
            let clean_name = trimmed(raw_name.as_slice());
            let name = lowercase(clean_name.as_slice());
            let raw_value = copy_range(line, colon + 1, line.len());
            let value = trimmed(raw_value.as_slice());
            let ghost before = entries@;
            entries.push((string_of(name.as_slice()), string_of(value.as_slice())));
            proof {
                assert(entries@.drop_last() =~= before);
            }
        }
        i += 1;
    }
    proof {
        assert(texts(lines@).subrange(0, lines.len() as int) =~= texts(lines@));
    }
    Headers { entries }
}

// ---------------------------------------------------------------------------
// Description documents
// ---------------------------------------------------------------------------

/// The opening mark of the element `tag`.
pub open spec fn open_mark(tag: Seq<char>) -> Seq<char> {
    seq!['<'] + tag + seq!['>']
}

/// The closing mark of the element `tag`.
pub open spec fn close_mark(tag: Seq<char>) -> Seq<char> {
    seq!['<', '/'] + tag + seq!['>']
}

/// The document holds the element: its first opening mark ends at or before
/// the start of its first closing mark.
pub open spec fn has_element(xml: Seq<char>, tag: Seq<char>) -> bool {
    &&& has_substring(xml, open_mark(tag))
    &&& has_substring(xml, close_mark(tag))
    &&& position_of(xml, open_mark(tag)) + open_mark(tag).len() <= position_of(
        xml,
        close_mark(tag),
    )
}

/// The trimmed text between the first opening mark of the element and its
/// first closing mark.
pub open spec fn element_text(xml: Seq<char>, tag: Seq<char>) -> Seq<char> {
    trim(
        xml.subrange(
            position_of(xml, open_mark(tag)) + open_mark(tag).len(),
            position_of(xml, close_mark(tag)),
        ),
    )
}

/// The opening mark of the element `tag`.
fn opening(tag: &[char]) -> (out: Vec<char>)
    ensures
        out@ == open_mark(tag@),
{
    let mut out: Vec<char> = Vec::new();
    out.push('<');
    append_chars(&mut out, tag);
    out.push('>');
    proof {
        assert(out@ =~= open_mark(tag@));
    }
    out
}

/// The closing mark of the element `tag`.
fn closing(tag: &[char]) -> (out: Vec<char>)
    ensures
        out@ == close_mark(tag@),
{
    let mut out: Vec<char> = Vec::new();
    out.push('<');
    out.push('/');
    append_chars(&mut out, tag);
    out.push('>');
    proof {
        assert(out@ =~= close_mark(tag@));
    }
    out
}

/// The text of the element `tag` in the document, where it holds one.
pub fn extract_xml_tag(xml: &str, tag: &str) -> (r: Option<String>)
    ensures
        r is Some <==> has_element(xml@, tag@),
        r matches Some(text) ==> text@ == element_text(xml@, tag@),
{
    let doc = chars_of(xml);
    let name = chars_of(tag);
    let open = opening(name.as_slice());
    let close = closing(name.as_slice());
    let start = match find(doc.as_slice(), open.as_slice()) {
        Some(i) => i,
        None => {
            return None;
        },
    };
    let end = match find(doc.as_slice(), close.as_slice()) {
        Some(j) => j,
        None => {
            return None;
        },
    };
    assert(start + open.len() <= doc.len()) by {
        assert(occurs_at(doc@, open@, start as int));
    }
    if end < start + open.len() {
        return None;
    }
    let inner = copy_range(doc.as_slice(), start + open.len(), end);
    let text = trimmed(inner.as_slice());
    Some(string_of(text.as_slice()))
}

// ---------------------------------------------------------------------------
// Guesses from the headers
// ---------------------------------------------------------------------------

/// The kind of device that the advertised service, name and server, put
/// together in lower case, suggest.
pub open spec fn ssdp_type_of(combined: Seq<char>) -> Seq<char> {
    if has_substring(combined, "printer"@) {
        "Printer"@
    } else if has_substring(combined, "camera"@) {
        "Camera"@
    } else if has_substring(combined, "tv"@) || has_substring(combined, "dlna"@) || has_substring(
        combined,
        "media"@,
    ) {
        "TV"@
    } else if has_substring(combined, "igd"@) || has_substring(combined, "gateway"@)
        || has_substring(combined, "router"@) {
        "Router"@
    } else {
        "Unknown"@
    }
}

/// The service, the unique name and the server of a reply, with a blank
/// between them; a header that is missing counts as empty.
pub open spec fn advertised(headers: Map<Seq<char>, Seq<char>>) -> Seq<char> {
    value_or_empty(headers, "st"@) + seq![' '] + value_or_empty(headers, "usn"@) + seq![' ']
        + value_or_empty(headers, "server"@)
}

/// The kind of device that the text `combined`, in lower case, suggests.
pub fn ssdp_type_for(combined: &[char]) -> (out: String)
    ensures
        out@ == ssdp_type_of(combined@),
{
    if holds(combined, "printer") {
        "Printer".to_owned()
    } else if holds(combined, "camera") {
        "Camera".to_owned()
    } else if holds(combined, "tv") || holds(combined, "dlna") || holds(combined, "media") {
        "TV".to_owned()
    } else if holds(combined, "igd") || holds(combined, "gateway") || holds(combined, "router") {
        "Router".to_owned()
    } else {
        "Unknown".to_owned()
    }
}

/// The kind of device that the headers of a reply suggest.
pub fn guess_type_from_ssdp(h: &Headers) -> (out: String)
    ensures
        out@ == ssdp_type_of(lower(advertised(h@))),
{
    let st = h.get_or_empty("st");
    let usn = h.get_or_empty("usn");
    let server = h.get_or_empty("server");
    let mut combined: Vec<char> = chars_of(st.as_str());
    combined.push(' ');
    let usn_chars = chars_of(usn.as_str());
    append_chars(&mut combined, usn_chars.as_slice());
    combined.push(' ');
    let server_chars = chars_of(server.as_str());
    append_chars(&mut combined, server_chars.as_slice());
    proof {
        assert(combined@ =~= advertised(h@));
    }
    let lowered = lowercase(combined.as_slice());
    ssdp_type_for(lowered.as_slice())
}

/// The platform that a server header names: a well-known one where its
/// lower-case form `low` holds that name, the header itself otherwise.
pub open spec fn platform_of(server: Seq<char>, low: Seq<char>) -> Seq<char> {
    if has_substring(low, "android"@) {
        "Android"@
    } else if has_substring(low, "darwin"@) || has_substring(low, "mac os"@) || has_substring(
        low,
        "macos"@,
    ) {
        "macOS"@
    } else if has_substring(low, "ios"@) {
        "iOS"@
    } else if has_substring(low, "windows"@) {
        "Windows"@
    } else if has_substring(low, "linux"@) {
        "Linux"@
    } else {
        server
    }
}

/// The platform of a device by its server header; empty where it sent none.
pub open spec fn os_of(server: Option<Seq<char>>) -> Seq<char> {
    match server {
        Some(s) => platform_of(s, lower(s)),
        None => Seq::empty(),
    }
}

/// The platform that the server header `server` names, given its lower-case
/// form `low`.
pub fn platform_for(server: &String, low: &[char]) -> (out: String)
    ensures
        out@ == platform_of(server@, low@),
{
    if holds(low, "android") {
        "Android".to_owned()
    } else if holds(low, "darwin") || holds(low, "mac os") || holds(low, "macos") {
        "macOS".to_owned()
    } else if holds(low, "ios") {
        "iOS".to_owned()
    } else if holds(low, "windows") {
        "Windows".to_owned()
    } else if holds(low, "linux") {
        "Linux".to_owned()
    } else {
        server.clone()
    }
}

/// The view of an optional string.
pub open spec fn text_of(s: Option<&String>) -> Option<Seq<char>> {
    match s {
        Some(s) => Some(s@),
        None => None,
    }
}

/// The platform of a device by its server header.
pub fn extract_os_from_server(server: Option<&String>) -> (out: String)
    ensures
        out@ == os_of(text_of(server)),
{
    match server {
        Some(s) => {
            let chars = chars_of(s.as_str());
            let low = lowercase(chars.as_slice());
            platform_for(s, low.as_slice())
        },
        None => String::new(),
    }
}

// ---------------------------------------------------------------------------
// From a reply to a sighting
// ---------------------------------------------------------------------------

/// The maker that a reply names: its server header, or `"Unknown"`.
pub open spec fn ssdp_vendor_of(headers: Map<Seq<char>, Seq<char>>) -> Seq<char> {
    if headers.contains_key("server"@) {
        headers["server"@]
    } else {
        "Unknown"@
    }
}

/// The server header of a reply, where it has one.
pub open spec fn server_of(headers: Map<Seq<char>, Seq<char>>) -> Option<Seq<char>> {
    if headers.contains_key("server"@) {
        Some(headers["server"@])
    } else {
        None
    }
}

/// The sighting that the reply `reply`, come from the address `ip` at time
/// `now`, amounts to. A reply tells no hardware address.
pub open spec fn ssdp_record(reply: Seq<char>, ip: Seq<char>, now: u64) -> DeviceRecord {
    let headers = headers_of(lines_of(reply));
    DeviceRecord {
        ip: ip,
        mac: Seq::empty(),
        hostname: Seq::empty(),
        vendor: ssdp_vendor_of(headers),
        device_type: ssdp_type_of(lower(advertised(headers))),
        first_seen: now,
        last_seen: now,
        status: "online"@,
        tags: Seq::empty(),
        notes: Seq::empty(),
        os: os_of(server_of(headers)),
    }
}

/// Where the reply says its description can be fetched.
pub open spec fn location_of(reply: Seq<char>) -> Option<Seq<char>> {
    let headers = headers_of(lines_of(reply));
    if headers.contains_key("location"@) {
        Some(headers["location"@])
    } else {
        None
    }
}

/// Where the reply says its description can be fetched.
pub fn description_url(reply: &str) -> (r: Option<String>)
    ensures
        opt_text(r) == location_of(reply@),
{
    let headers = parse_http_headers(reply);
    headers.get("location")
}

/// Turns one reply into a sighting, and tells where its description can be
/// fetched, if it says so.
pub fn ssdp_sighting(reply: &str, ip: &str, now: u64) -> (r: (NetworkDevice, Option<String>))
    ensures
        r.0@ == ssdp_record(reply@, ip@, now),
        opt_text(r.1) == location_of(reply@),
{
    let headers = parse_http_headers(reply);
    let server = headers.get("server");
    let vendor = match &server {
        Some(s) => s.clone(),
        None => "Unknown".to_owned(),
    };
    let device = NetworkDevice {
        ip: ip.to_owned(),
        mac: String::new(),
        hostname: String::new(),
        vendor,
        device_type: guess_type_from_ssdp(&headers),
        first_seen: now,
        last_seen: now,
        status: "online".to_owned(),
        tags: Vec::new(),
        notes: String::new(),
        os: extract_os_from_server(server.as_ref()),
    };
    proof {
        assert(device@.tags =~= Seq::<Seq<char>>::empty());
    }
    (device, headers.get("location"))
}

/// The record after the description `body` has been read: the friendly name
/// becomes the host name; a platform that is still unknown is taken from the
/// model description, or else from the manufacturer.
pub open spec fn described(d: DeviceRecord, body: Seq<char>) -> DeviceRecord {
    let hostname = if has_element(body, "friendlyName"@) {
        element_text(body, "friendlyName"@)
    } else {
        d.hostname
    };
    let os1 = if d.os.len() == 0 && has_element(body, "modelDescription"@) {
        element_text(body, "modelDescription"@)
    } else {
        d.os
    };
    let os2 = if os1.len() == 0 && has_element(body, "manufacturer"@) {
        element_text(body, "manufacturer"@)
    } else {
        os1
    };
    DeviceRecord { hostname: hostname, os: os2, ..d }
}

/// Fills the sighting in from the description that its reply pointed to.
pub fn apply_description(device: &mut NetworkDevice, body: &str)
    ensures
        final(device)@ == described(old(device)@, body@),
{
    match extract_xml_tag(body, "friendlyName") {
        Some(name) => {
            device.hostname = name;
        },
        None => {},
    }
    if device.os.as_str().is_empty() {
        match extract_xml_tag(body, "modelDescription") {
            Some(text) => {
                device.os = text;
            },
            None => {},
        }
    }
    if device.os.as_str().is_empty() {
        match extract_xml_tag(body, "manufacturer") {
            Some(text) => {
                device.os = text;
            },
            None => {},
        }
    }
}

} // verus!
