//! What a captured packet says: the request line and the host of a
//! plain-text HTTP request, and which way the packet went.

use crate::case::{lower, lowercase};
use crate::cut::{strip_end, without_trailing};
use crate::number::{decimal_text, format_decimal};
use crate::packets::dotted;
use crate::search::{find, has_prefix, has_substring, position_of, starts_with};
use crate::split::{fields_of, find_char, first_index, split_fields, texts};
use crate::text::{
    append_chars, chars_of, copy_range, opt_text, same_chars, string_of, trim, trimmed,
};
use pnet::packet::Packet;
use pnet::packet::ethernet::EthernetPacket;
use pnet::packet::ipv4::Ipv4Packet;
use pnet::packet::tcp::TcpPacket;
use vstd::prelude::*;
use vstd::utf8::{decode_utf8, valid_utf8};

verus! {

/// What to sniff: the address of the device of interest and the interface
/// to listen on.
#[derive(Debug, Clone, Default)]
pub struct SniffParams {
    pub ip: Option<String>,
    pub iface: Option<String>,
}

// ---------------------------------------------------------------------------
// Direction
// ---------------------------------------------------------------------------

/// Which way a packet went, seen from the selected device: `out` where the
/// source begins with the selected address, `in` where it does not,
/// `unknown` where no device is selected.
pub open spec fn direction_of(sel: Option<Seq<char>>, src: Seq<char>) -> Seq<char> {
    match sel {
        Some(s) => if starts_with(src, s) {
            "out"@
        } else {
            "in"@
        },
        None => "unknown"@,
    }
}

/// Which way a packet from `src` went, seen from the selected device.
pub fn dir(sel: &Option<String>, src: &str) -> (r: &'static str)
    ensures
        r@ == direction_of(opt_text(*sel), src@),
{
    match sel {
        Some(s) => {
            let source = chars_of(src);
            let wanted = chars_of(s.as_str());
            if has_prefix(source.as_slice(), wanted.as_slice()) {
                "out"
            } else {
                "in"
            }
        },
        None => "unknown",
    }
}

// ---------------------------------------------------------------------------
// Request line and host
// ---------------------------------------------------------------------------

/// The earlier of two places, either of which may be missing.
pub open spec fn earlier(a: Option<int>, b: Option<int>) -> Option<int> {
    match (a, b) {
        (Some(x), Some(y)) => if y < x {
            Some(y)
        } else {
            Some(x)
        },
        (Some(x), None) => Some(x),
        (None, _) => b,
    }
}

/// Where `word` first stands in `text`, if it does.
pub open spec fn place_of(text: Seq<char>, word: Seq<char>) -> Option<int> {
    if has_substring(text, word) {
        Some(position_of(text, word))
    } else {
        None
    }
}

/// Where a request begins in the text: the first place where a method name
/// stands with a blank behind it.
pub open spec fn request_start(text: Seq<char>) -> Option<int> {
    earlier(
        earlier(
            earlier(
                earlier(
                    earlier(
                        earlier(place_of(text, "GET "@), place_of(text, "POST "@)),
                        place_of(text, "PUT "@),
                    ),
                    place_of(text, "DELETE "@),
                ),
                place_of(text, "HEAD "@),
            ),
            place_of(text, "OPTIONS "@),
        ),
        place_of(text, "PATCH "@),
    )
}

/// The first line of `rest`, without the carriage returns at its end.
pub open spec fn request_line(rest: Seq<char>) -> Seq<char> {
    strip_end(rest.subrange(0, first_index(rest, '\n') as int), '\r')
}

/// What stands behind the first colon of a header, trimmed; empty where it
/// has no colon.
pub open spec fn header_value(header: Seq<char>) -> Seq<char> {
    let i = first_index(header, ':');
    if i < header.len() {
        trim(header.subrange(i as int + 1, header.len() as int))
    } else {
        Seq::empty()
    }
}

/// The host that the request names: the value of the first header line
/// that begins with `host:`, in whatever case; empty where there is none.
pub open spec fn request_host(rest: Seq<char>) -> Seq<char> {
    let low = lower(rest);
    if has_substring(low, "\nhost:"@) && position_of(low, "\nhost:"@) + 1 <= rest.len() {
        let after = rest.subrange(position_of(low, "\nhost:"@) + 1, rest.len() as int);
        header_value(trim(after.subrange(0, first_index(after, '\n') as int)))
    } else {
        Seq::empty()
    }
}

/// An HTTP request as read from a packet.
pub struct HttpRequest {
    pub method: String,
    pub path: String,
    pub host: String,
}

/// The request is the one that stands in the text from `start` on: its
/// method is the first field of the request line, its path the second, or
/// `/` where the line has none.
pub open spec fn is_request_at(text: Seq<char>, start: int, request: HttpRequest) -> bool {
    let rest = text.subrange(start, text.len() as int);
    let f = fields_of(request_line(rest));
    &&& f.len() >= 1
    &&& request.method@ == f[0]
    &&& request.path@ == if f.len() >= 2 {
        f[1]
    } else {
        "/"@
    }
    &&& request.host@ == request_host(rest)
}

/// The text holds a request: a method name stands in it, and the line that
/// begins there has a field.
pub open spec fn holds_request(text: Seq<char>) -> bool {
    request_start(text) is Some && fields_of(
        request_line(text.subrange(request_start(text)->0, text.len() as int)),
    ).len() >= 1
}

/// Where `word` first stands in `text`.
fn place(text: &[char], word: &str) -> (r: Option<usize>)
    ensures
        match r {
            Some(i) => place_of(text@, word@) == Some(i as int) && i <= text.len(),
            None => place_of(text@, word@) is None,
        },
{
    let w = chars_of(word);
    find(text, w.as_slice())
}

/// The earlier of two places.
fn earliest(a: Option<usize>, b: Option<usize>, limit: usize) -> (r: Option<usize>)
    requires
        a matches Some(x) ==> x <= limit,
        b matches Some(y) ==> y <= limit,
    ensures
        match r {
            Some(i) => earlier(place_int(a), place_int(b)) == Some(i as int) && i <= limit,
            None => earlier(place_int(a), place_int(b)) is None,
        },
{
    match (a, b) {
        (Some(x), Some(y)) => if y < x {
            Some(y)
        } else {
            Some(x)
        },
        (Some(x), None) => Some(x),
        (None, _) => b,
    }
}

/// A place as a mathematical integer.
pub open spec fn place_int(a: Option<usize>) -> Option<int> {
    match a {
        Some(x) => Some(x as int),
        None => None,
    }
}

/// Reads the request line and the host of an HTTP request out of the text
/// of a packet. A text in which no method name stands holds no request.
pub fn parse_http_text(text: &str) -> (r: Option<HttpRequest>)
    ensures
        r is Some <==> holds_request(text@),
        r matches Some(request) ==> is_request_at(text@, request_start(text@)->0, request),
{
    let chars = chars_of(text);
    let all = chars.as_slice();
    let n = all.len();
    let mut first = earliest(place(all, "GET "), place(all, "POST "), n);
    first = earliest(first, place(all, "PUT "), n);
    first = earliest(first, place(all, "DELETE "), n);
    first = earliest(first, place(all, "HEAD "), n);
    first = earliest(first, place(all, "OPTIONS "), n);
    first = earliest(first, place(all, "PATCH "), n);
    let start = match first {
        Some(i) => i,
        None => {
            return None;
        },
    };
    assert(request_start(text@) == Some(start as int));
    let rest_vec = copy_range(all, start, all.len());
    let rest = rest_vec.as_slice();
    let line_end = find_char(rest, 0, '\n');
    proof {
        assert(rest@.subrange(0, rest.len() as int) =~= rest@);
    }
    let raw = copy_range(rest, 0, line_end);
    let line = without_trailing(raw.as_slice(), '\r');
    let fields = split_fields(line.as_slice());
    if fields.len() == 0 {
        return None;
    }
    proof {
        assert(texts(fields@)[0] == fields@[0]@);
        if fields.len() >= 2 {
            assert(texts(fields@)[1] == fields@[1]@);
        }
    }
    let method = string_of(fields[0].as_slice());
    let path = if fields.len() >= 2 {
        string_of(fields[1].as_slice())
    } else {
        "/".to_owned()
    };
    let low = lowercase(rest);
    let host = match place(low.as_slice(), "\nhost:") {
        Some(p) => {
            if p < rest.len() {
                let after = copy_range(rest, p + 1, rest.len());
                let stop = find_char(after.as_slice(), 0, '\n');
                proof {
                    assert(after@.subrange(0, after.len() as int) =~= after@);
                }
                let piece = copy_range(after.as_slice(), 0, stop);
                let header = trimmed(piece.as_slice());
                let colon = find_char(header.as_slice(), 0, ':');
                proof {
                    assert(header@.subrange(0, header.len() as int) =~= header@);
                }
                if colon < header.len() {
                    let raw = copy_range(header.as_slice(), colon + 1, header.len());
                    let value = trimmed(raw.as_slice());
                    string_of(value.as_slice())
                } else {
                    String::new()
                }
            } else {
                String::new()
            }
        },
        None => String::new(),
    };
    Some(HttpRequest { method, path, host })
}

// ---------------------------------------------------------------------------
// From bytes to text
// ---------------------------------------------------------------------------

/// The text that bytes stand for when each run of bytes that is no valid
/// UTF-8 is replaced by the replacement character.
pub uninterp spec fn lossy_text(bytes: Seq<u8>) -> Seq<char>;

/// Calls `String::from_utf8_lossy`. The contract gives its result the name
/// `lossy_text`, and claims that bytes which are valid UTF-8 are decoded as
/// they stand.
#[verifier::external_body]
fn decode_lossy(bytes: &[u8]) -> (out: String)
    ensures
        out@ == lossy_text(bytes@),
        valid_utf8(bytes@) ==> out@ == decode_utf8(bytes@),
{
    String::from_utf8_lossy(bytes).into_owned()
}

/// Reads the request line and the host of an HTTP request out of the
/// payload of a packet. An empty payload holds none.
pub fn parse_http_request(payload: &[u8]) -> (r: Option<HttpRequest>)
    ensures
        r is Some <==> payload@.len() > 0 && holds_request(lossy_text(payload@)),
        r matches Some(request) ==> is_request_at(
            lossy_text(payload@),
            request_start(lossy_text(payload@))->0,
            request,
        ),
{
    if payload.len() == 0 {
        return None;
    }
    let text = decode_lossy(payload);
    parse_http_text(text.as_str())
}

// ---------------------------------------------------------------------------
// Frames, datagrams and segments
// ---------------------------------------------------------------------------

/// What an Ethernet frame carries, as far as it is read here.
pub struct EthernetFacts {
    pub ethertype: u16,
    pub payload: Vec<u8>,
}

/// What an IPv4 datagram carries, as far as it is read here.
pub struct Ipv4Facts {
    pub source: [u8; 4],
    pub destination: [u8; 4],
    pub payload: Vec<u8>,
}

/// What a TCP segment carries, as far as it is read here.
pub struct TcpFacts {
    pub source_port: u16,
    pub destination_port: u16,
    pub payload: Vec<u8>,
}

/// The ether type of a frame that carries an IPv4 datagram.
pub const ETHERTYPE_IPV4: u16 = 0x0800;

/// Two bytes read as one number, the first byte counting more.
pub open spec fn big_endian(high: u8, low: u8) -> u16 {
    (high * 256 + low) as u16
}

/// The ether type and the payload of the Ethernet frame that the bytes
/// make: the header takes fourteen bytes, the ether type stands in the last
/// two of them, and the payload is what follows. Fewer bytes make no frame.
pub open spec fn ethernet_of(bytes: Seq<u8>) -> Option<(u16, Seq<u8>)> {
    if bytes.len() >= 14 {
        Some((big_endian(bytes[12], bytes[13]), bytes.subrange(14, bytes.len() as int)))
    } else {
        None
    }
}

/// Where the payload of an IPv4 datagram begins: behind the twenty bytes of
/// the fixed header and behind the options, whose length the header length
/// in the low half of the first byte gives, counted in words of four bytes.
pub open spec fn ipv4_payload_start(bytes: Seq<u8>) -> int {
    let header = (bytes[0] % 16) * 4;
    if header > 20 {
        header
    } else {
        20
    }
}

/// Where the payload of an IPv4 datagram ends: where the total length in
/// the third and fourth byte says, less the header, but not behind the
/// bytes that are there.
pub open spec fn ipv4_payload_end(bytes: Seq<u8>) -> int {
    let header = (bytes[0] % 16) * 4;
    let total = big_endian(bytes[2], bytes[3]) as int;
    let length = if total > header {
        total - header
    } else {
        0
    };
    if ipv4_payload_start(bytes) + length < bytes.len() {
        ipv4_payload_start(bytes) + length
    } else {
        bytes.len() as int
    }
}

/// Source, destination and payload of the IPv4 datagram that the bytes
/// make: the addresses stand in bytes 12 to 15 and 16 to 19. Fewer than
/// twenty bytes make no datagram.
pub open spec fn ipv4_of(bytes: Seq<u8>) -> Option<(Seq<u8>, Seq<u8>, Seq<u8>)> {
    if bytes.len() >= 20 {
        Some(
            (
                bytes.subrange(12, 16),
                bytes.subrange(16, 20),
                if bytes.len() <= ipv4_payload_start(bytes) {
                    Seq::empty()
                } else {
                    bytes.subrange(ipv4_payload_start(bytes), ipv4_payload_end(bytes))
                },
            ),
        )
    } else {
        None
    }
}

/// Where the payload of a TCP segment begins: behind the twenty bytes of
/// the fixed header and behind the options, whose length the data offset in
/// the high half of byte 12 gives, counted in words of four bytes.
pub open spec fn tcp_payload_start(bytes: Seq<u8>) -> int {
    let offset = bytes[12] / 16;
    if offset > 5 {
        offset * 4
    } else {
        20
    }
}

/// Source port, destination port and payload of the TCP segment that the
/// bytes make: the ports stand in the first four bytes. Fewer than twenty
/// bytes make no segment.
pub open spec fn tcp_of(bytes: Seq<u8>) -> Option<(u16, u16, Seq<u8>)> {
    if bytes.len() >= 20 {
        Some(
            (
                big_endian(bytes[0], bytes[1]),
                big_endian(bytes[2], bytes[3]),
                if bytes.len() <= tcp_payload_start(bytes) {
                    Seq::empty()
                } else {
                    bytes.subrange(tcp_payload_start(bytes), bytes.len() as int)
                },
            ),
        )
    } else {
        None
    }
}

/// The facts of a frame as plain values.
pub open spec fn ethernet_view(facts: Option<EthernetFacts>) -> Option<(u16, Seq<u8>)> {
    match facts {
        Some(f) => Some((f.ethertype, f.payload@)),
        None => None,
    }
}

/// The facts of a datagram as plain values.
pub open spec fn ipv4_view(facts: Option<Ipv4Facts>) -> Option<(Seq<u8>, Seq<u8>, Seq<u8>)> {
    match facts {
        Some(f) => Some((f.source@, f.destination@, f.payload@)),
        None => None,
    }
}

/// The facts of a segment as plain values.
pub open spec fn tcp_view(facts: Option<TcpFacts>) -> Option<(u16, u16, Seq<u8>)> {
    match facts {
        Some(f) => Some((f.source_port, f.destination_port, f.payload@)),
        None => None,
    }
}

/// Calls `EthernetPacket::new` of `pnet` and reads the ether type and the
/// payload off the packet. The contract claims that the packet is made
/// exactly where there are fourteen bytes or more, and that what is read is
/// what `ethernet_of` says.
#[verifier::external_body]
fn read_ethernet(bytes: &[u8]) -> (facts: Option<EthernetFacts>)
    ensures
        ethernet_view(facts) == ethernet_of(bytes@),
{
    match EthernetPacket::new(bytes) {
        Some(frame) => Some(
            EthernetFacts { ethertype: frame.get_ethertype().0, payload: frame.payload().to_vec() },
        ),
        None => None,
    }
}

/// Calls `Ipv4Packet::new` of `pnet` and reads the two addresses and the
/// payload off the packet. The contract claims that the packet is made
/// exactly where there are twenty bytes or more, and that what is read is
/// what `ipv4_of` says: the payload is cut by the header length and the
/// total length that the header gives.
#[verifier::external_body]
fn read_ipv4(bytes: &[u8]) -> (facts: Option<Ipv4Facts>)
    ensures
        ipv4_view(facts) == ipv4_of(bytes@),
{
    match Ipv4Packet::new(bytes) {
        Some(datagram) => Some(
            Ipv4Facts {
                source: datagram.get_source().octets(),
                destination: datagram.get_destination().octets(),
                payload: datagram.payload().to_vec(),
            },
        ),
        None => None,
    }
}

/// Calls `TcpPacket::new` of `pnet` and reads the two ports and the
/// payload off the packet. The contract claims that the packet is made
/// exactly where there are twenty bytes or more, and that what is read is
/// what `tcp_of` says: the payload begins where the data offset of the
/// header says.
#[verifier::external_body]
fn read_tcp(bytes: &[u8]) -> (facts: Option<TcpFacts>)
    ensures
        tcp_view(facts) == tcp_of(bytes@),
{
    match TcpPacket::new(bytes) {
        Some(segment) => Some(
            TcpFacts {
                source_port: segment.get_source(),
                destination_port: segment.get_destination(),
                payload: segment.payload().to_vec(),
            },
        ),
        None => None,
    }
}

// ---------------------------------------------------------------------------
// From a packet to a sighting of a request
// ---------------------------------------------------------------------------

/// An HTTP request seen on the wire.
pub struct HttpSighting {
    pub method: String,
    pub path: String,
    pub host: String,
    pub src: String,
    pub dst: String,
    pub direction: String,
    pub ts: i64,
}

/// An address written as a dotted quad.
pub open spec fn quad(address: Seq<u8>) -> Seq<char> {
    dotted(address[0], address[1], address[2], address[3])
}

/// An endpoint: the address, a dot, and the port.
pub open spec fn endpoint(address: Seq<char>, port: u16) -> Seq<char> {
    address + seq!['.'] + decimal_text(port as nat)
}

/// The packet is of interest: no device is selected, or the selected
/// device is its source or its destination.
pub open spec fn of_interest(sel: Option<Seq<char>>, src: Seq<char>, dst: Seq<char>) -> bool {
    match sel {
        Some(ip) => src == ip || dst == ip,
        None => true,
    }
}

/// The sighting is the one that the request `request`, carried from `src`
/// to `dst`, amounts to.
pub open spec fn is_sighting_of(
    sighting: HttpSighting,
    request: HttpRequest,
    sel: Option<Seq<char>>,
    src: Seq<char>,
    source_port: u16,
    dst: Seq<char>,
    destination_port: u16,
    ts: i64,
) -> bool {
    &&& sighting.method@ == request.method@
    &&& sighting.path@ == request.path@
    &&& sighting.host@ == request.host@
    &&& sighting.src@ == endpoint(src, source_port)
    &&& sighting.dst@ == endpoint(dst, destination_port)
    &&& sighting.direction@ == direction_of(sel, src)
    &&& sighting.ts == ts
}

/// An address as a dotted quad.
fn quad_text(address: &[u8; 4]) -> (out: Vec<char>)
    ensures
        out@ == quad(address@),
{
    let mut text: Vec<char> = format_decimal(address[0] as u64);
    text.push('.');
    let b = format_decimal(address[1] as u64);
    append_chars(&mut text, b.as_slice());
    text.push('.');
    let c = format_decimal(address[2] as u64);
    append_chars(&mut text, c.as_slice());
    text.push('.');
    let d = format_decimal(address[3] as u64);
    append_chars(&mut text, d.as_slice());
    proof {
        assert(text@ =~= quad(address@));
    }
    text
}

/// An endpoint: the address, a dot, and the port.
fn endpoint_text(address: &Vec<char>, port: u16) -> (out: String)
    ensures
        out@ == endpoint(address@, port),
{
    let mut text: Vec<char> = Vec::new();
    append_chars(&mut text, address.as_slice());
    text.push('.');
    let digits = format_decimal(port as u64);
    append_chars(&mut text, digits.as_slice());
    proof {
        assert(text@ =~= endpoint(address@, port));
    }
    string_of(text.as_slice())
}

/// Turns the request carried by a segment into a sighting, seen at the
/// time `ts`. A segment whose datagram is of no interest, or whose payload
/// holds no request, gives none.
pub fn sight_request(
    datagram: &Ipv4Facts,
    segment: &TcpFacts,
    params: &SniffParams,
    ts: i64,
) -> (r: Option<HttpSighting>)
    ensures
        r is Some <==> of_interest(
            opt_text(params.ip),
            quad(datagram.source@),
            quad(datagram.destination@),
        ) && segment.payload@.len() > 0 && holds_request(lossy_text(segment.payload@)),
        r matches Some(sighting) ==> exists|request: HttpRequest|
            is_request_at(
                lossy_text(segment.payload@),
                request_start(lossy_text(segment.payload@))->0,
                request,
            ) && is_sighting_of(
                sighting,
                request,
                opt_text(params.ip),
                quad(datagram.source@),
                segment.source_port,
                quad(datagram.destination@),
                segment.destination_port,
                ts,
            ),
{
    let src = quad_text(&datagram.source);
    let dst = quad_text(&datagram.destination);
    match &params.ip {
        Some(ip) => {
            let wanted = chars_of(ip.as_str());
            if !same_chars(src.as_slice(), wanted.as_slice()) && !same_chars(
                dst.as_slice(),
                wanted.as_slice(),
            ) {
                return None;
            }
        },
        None => {},
    }
    let request = match parse_http_request(segment.payload.as_slice()) {
        Some(request) => request,
        None => {
            return None;
        },
    };
    let src_text = string_of(src.as_slice());
    let sighting = HttpSighting {
        method: request.method.clone(),
        path: request.path.clone(),
        host: request.host.clone(),
        src: endpoint_text(&src, segment.source_port),
        dst: endpoint_text(&dst, segment.destination_port),
        direction: dir(&params.ip, src_text.as_str()).to_owned(),
        ts,
    };
    proof {
        assert(is_sighting_of(
            sighting,
            request,
            opt_text(params.ip),
            quad(datagram.source@),
            segment.source_port,
            quad(datagram.destination@),
            segment.destination_port,
            ts,
        ));
    }
    Some(sighting)
}

/// A TCP segment with the addresses of the datagram that carried it.
pub struct Carried {
    pub source: Seq<u8>,
    pub destination: Seq<u8>,
    pub source_port: u16,
    pub destination_port: u16,
    pub payload: Seq<u8>,
}

/// The segment that a frame carries: the frame must carry an IPv4
/// datagram, and the datagram must be long enough to hold a TCP segment.
pub open spec fn carried(bytes: Seq<u8>) -> Option<Carried> {
    match ethernet_of(bytes) {
        Some((ethertype, frame_payload)) => if ethertype == ETHERTYPE_IPV4 {
            match ipv4_of(frame_payload) {
                Some((source, destination, datagram_payload)) => match tcp_of(datagram_payload) {
                    Some((source_port, destination_port, payload)) => Some(
                        Carried {
                            source: source,
                            destination: destination,
                            source_port: source_port,
                            destination_port: destination_port,
                            payload: payload,
                        },
                    ),
                    None => None,
                },
                None => None,
            }
        } else {
            None
        },
        None => None,
    }
}

/// The frame carries a request that is of interest.
pub open spec fn carries_request(bytes: Seq<u8>, sel: Option<Seq<char>>) -> bool {
    match carried(bytes) {
        Some(c) => of_interest(sel, quad(c.source), quad(c.destination)) && c.payload.len() > 0
            && holds_request(lossy_text(c.payload)),
        None => false,
    }
}

/// The sighting is the one that the request carried by the segment
/// amounts to.
pub open spec fn is_sighting_in(
    sighting: HttpSighting,
    c: Carried,
    sel: Option<Seq<char>>,
    ts: i64,
) -> bool {
    exists|request: HttpRequest|
        is_request_at(lossy_text(c.payload), request_start(lossy_text(c.payload))->0, request)
            && is_sighting_of(
            sighting,
            request,
            sel,
            quad(c.source),
            c.source_port,
            quad(c.destination),
            c.destination_port,
            ts,
        )
}

/// Reads a captured frame down to the HTTP request that it carries, and
/// turns the request into a sighting, seen at the time `ts`.
pub fn parse_packet(packet: &[u8], params: &SniffParams, ts: i64) -> (r: Option<HttpSighting>)
    ensures
        r is Some <==> carries_request(packet@, opt_text(params.ip)),
        r matches Some(sighting) ==> is_sighting_in(
            sighting,
            carried(packet@)->0,
            opt_text(params.ip),
            ts,
        ),
{
    let frame = match read_ethernet(packet) {
        Some(frame) => frame,
        None => {
            return None;
        },
    };
    if frame.ethertype != ETHERTYPE_IPV4 {
        return None;
    }
    let datagram = match read_ipv4(frame.payload.as_slice()) {
        Some(datagram) => datagram,
        None => {
            return None;
        },
    };
    let segment = match read_tcp(datagram.payload.as_slice()) {
        Some(segment) => segment,
        None => {
            return None;
        },
    };
    sight_request(&datagram, &segment, params, ts)
}

} // verus!
