//! Binary frame codec for WebSocket binary messages.
//!
//! Frame layout: `[1B type][8B id (big-endian)][payload…]`. Data travels as
//! raw bytes in a frame, where the JSON protocol carries it base64-encoded.
pub mod msg_type;

use vstd::prelude::*;
use vstd::utf8::{decode_utf8, encode_utf8, valid_utf8};
use base64::Engine as _;
use base64::engine::general_purpose::STANDARD as B64;
use crate::protocol::{Event, EventModel, Request, RequestModel};
use crate::text::{hex2_chars, hex2_spec, string_from_chars, strings_view};
use crate::wire::{
    be_bytes, be_value, lemma_be_bytes_len, lemma_be_roundtrip_small, lemma_pow256_values, push_be,
    read_be,
};

verus! {

// ── what base64, serde_json and std compute ────────────────────────────

/// The character of a 6-bit value in the standard base64 alphabet
/// (RFC 4648): `A`-`Z`, `a`-`z`, `0`-`9`, `+`, `/`.
pub open spec fn b64_char(v: nat) -> char {
    if v < 26 {
        (('A' as nat) + v) as char
    } else if v < 52 {
        (('a' as nat) + v - 26) as char
    } else if v < 62 {
        (('0' as nat) + v - 52) as char
    } else if v == 62 {
        '+'
    } else {
        '/'
    }
}

/// What the standard base64 engine (`base64::engine::general_purpose::STANDARD`)
/// encodes bytes to: each group of three bytes as four characters of six
/// bits each, and a last group of one or two bytes padded with `=`
/// (RFC 4648, padded).
pub open spec fn b64_encode(bytes: Seq<u8>) -> Seq<char>
    decreases bytes.len(),
{
    if bytes.len() == 0 {
        Seq::empty()
    } else if bytes.len() == 1 {
        let a = bytes[0] as nat;
        seq![b64_char(a / 4), b64_char((a % 4) * 16), '=', '=']
    } else if bytes.len() == 2 {
        let a = bytes[0] as nat;
        let b = bytes[1] as nat;
        seq![b64_char(a / 4), b64_char((a % 4) * 16 + b / 16), b64_char((b % 16) * 4), '=']
    } else {
        let a = bytes[0] as nat;
        let b = bytes[1] as nat;
        let c = bytes[2] as nat;
        seq![
            b64_char(a / 4),
            b64_char((a % 4) * 16 + b / 16),
            b64_char((b % 16) * 4 + c / 64),
            b64_char(c % 64),
        ] + b64_encode(bytes.skip(3))
    }
}

/// What the standard base64 engine decodes a text to, if it accepts it.
pub uninterp spec fn b64_decode(text: Seq<char>) -> Option<Seq<u8>>;

/// What `serde_json::to_vec` produces for a list of strings, if it succeeds.
pub uninterp spec fn json_string_list(items: Seq<Seq<char>>) -> Option<Seq<u8>>;

/// The message of the error `String::from_utf8` reports for invalid bytes.
pub uninterp spec fn utf8_error_text(bytes: Seq<u8>) -> Seq<char>;

/// `Engine::encode` on the standard engine: the padded RFC 4648 text
/// (`b64_encode`), which the engine's `decode` accepts and turns back into
/// the same bytes.
#[verifier::external_body]
pub(crate) fn base64_encode(bytes: &[u8]) -> (r: String)
    ensures
        r@ == b64_encode(bytes@),
        b64_decode(r@) == Some(bytes@),
{
    B64.encode(bytes)
}

/// `Engine::decode` on the standard engine; a rejected text gives `None`.
#[verifier::external_body]
pub(crate) fn base64_decode(text: &str) -> (r: Option<Vec<u8>>)
    ensures
        r matches Some(b) ==> b64_decode(text@) == Some(b@),
        r is None ==> b64_decode(text@) is None,
{
    B64.decode(text).ok()
}

/// `serde_json::to_vec` on a list of strings; its result is named
/// (`json_string_list`).
#[verifier::external_body]
fn json_list(items: &Vec<String>) -> (r: Option<Vec<u8>>)
    ensures
        r matches Some(b) ==> json_string_list(strings_view(items@)) == Some(b@),
        r is None ==> json_string_list(strings_view(items@)) is None,
{
    serde_json::to_vec(items).ok()
}

/// `String::from_utf8`: valid UTF-8 gives the string it encodes (std
/// documents exactly that); otherwise the error's message, which is named
/// (`utf8_error_text`).
#[verifier::external_body]
fn utf8_string(bytes: &[u8]) -> (r: Result<String, String>)
    ensures
        r matches Ok(s) ==> valid_utf8(bytes@) && s@ == decode_utf8(bytes@),
        r matches Err(t) ==> !valid_utf8(bytes@) && t@ == utf8_error_text(bytes@),
{
    match String::from_utf8(bytes.to_vec()) {
        Ok(s) => Ok(s),
        Err(e) => Err(e.to_string()),
    }
}

// ── specifications ─────────────────────────────────────────────────────

/// A frame: type byte, big-endian id, payload.
pub open spec fn frame_spec(mt: u8, id: u64, payload: Seq<u8>) -> Seq<u8> {
    seq![mt] + be_bytes(id as nat, 8) + payload
}

/// The bytes a base64 text stands for, or none if it is not base64.
pub open spec fn b64_or_empty(text: Seq<char>) -> Seq<u8> {
    match b64_decode(text) {
        Some(b) => b,
        None => Seq::empty(),
    }
}

/// The request a frame carrying an address decodes to, by its type.
pub open spec fn addressed_request(mt: u8, id: u64, addr: Seq<char>, port: u16) -> RequestModel {
    if mt == msg_type::CONNECT {
        RequestModel::Connect { id, addr, port }
    } else if mt == msg_type::BIND {
        RequestModel::Bind { id, addr, port }
    } else if mt == msg_type::CONNECT_UDP {
        RequestModel::ConnectUdp { id, addr, port }
    } else {
        RequestModel::ConnectTls { id, addr, port }
    }
}

/// What a binary frame decodes to.
pub open spec fn decode_spec(d: Seq<u8>) -> Result<RequestModel, Seq<char>> {
    if d.len() < 9 {
        Err("binary frame too short"@)
    } else {
        let mt = d[0];
        let id = be_value(d.subrange(1, 9)) as u64;
        let p = d.subrange(9, d.len() as int);
        if mt == msg_type::CONNECT || mt == msg_type::BIND || mt == msg_type::CONNECT_UDP || mt
            == msg_type::CONNECT_TLS {
            if p.len() < 2 {
                Err("frame missing port"@)
            } else {
                let port = be_value(p.subrange(0, 2)) as u16;
                let ab = p.subrange(2, p.len() as int);
                if valid_utf8(ab) {
                    Ok(addressed_request(mt, id, decode_utf8(ab), port))
                } else {
                    Err("bad addr: "@ + utf8_error_text(ab))
                }
            }
        } else if mt == msg_type::LISTEN {
            let backlog = if p.len() >= 4 {
                be_value(p.subrange(0, 4)) as u32
            } else {
                128
            };
            Ok(RequestModel::Listen { id, backlog })
        } else if mt == msg_type::SEND {
            Ok(RequestModel::Send { id, data: b64_encode(p) })
        } else if mt == msg_type::CLOSE {
            Ok(RequestModel::Close { id })
        } else if mt == msg_type::SEND_TO {
            if p.len() < 4 {
                Err("send_to frame too short"@)
            } else {
                let port = be_value(p.subrange(0, 2)) as u16;
                let alen = be_value(p.subrange(2, 4)) as int;
                if p.len() < 4 + alen {
                    Err("send_to addr truncated"@)
                } else {
                    let ab = p.subrange(4, 4 + alen);
                    if valid_utf8(ab) {
                        Ok(
                            RequestModel::SendTo {
                                id,
                                addr: decode_utf8(ab),
                                port,
                                data: b64_encode(p.subrange(4 + alen, p.len() as int)),
                            },
                        )
                    } else {
                        Err("bad addr: "@ + utf8_error_text(ab))
                    }
                }
            }
        } else if mt == msg_type::RESOLVE {
            if valid_utf8(p) {
                Ok(RequestModel::Resolve { id, name: decode_utf8(p) })
            } else {
                Err("bad name: "@ + utf8_error_text(p))
            }
        } else {
            Err("unknown message type: 0x"@ + hex2_spec(mt))
        }
    }
}

/// The type byte of an event.
pub open spec fn event_type(e: EventModel) -> u8 {
    match e {
        EventModel::Connected { .. } => msg_type::CONNECTED,
        EventModel::Data { .. } => msg_type::DATA,
        EventModel::DataFrom { .. } => msg_type::DATA_FROM,
        EventModel::Listening { .. } => msg_type::LISTENING,
        EventModel::UdpBound { .. } => msg_type::UDP_BOUND,
        EventModel::Accepted { .. } => msg_type::ACCEPTED,
        EventModel::Closed { .. } => msg_type::CLOSED,
        EventModel::Error { .. } => msg_type::ERROR,
        EventModel::Denied { .. } => msg_type::DENIED,
        EventModel::Resolved { .. } => msg_type::RESOLVED,
    }
}

/// The payload of an event's frame.
pub open spec fn event_payload(e: EventModel) -> Seq<u8> {
    match e {
        EventModel::Connected { .. } => Seq::empty(),
        EventModel::Data { data, .. } => b64_or_empty(data),
        EventModel::DataFrom { data, addr, port, .. } => {
            let ab = encode_utf8(addr);
            be_bytes(port as nat, 2) + be_bytes((ab.len() as u16) as nat, 2) + ab + b64_or_empty(
                data,
            )
        },
        EventModel::Listening { port, .. } => be_bytes(port as nat, 2),
        EventModel::UdpBound { port, .. } => be_bytes(port as nat, 2),
        EventModel::Accepted { conn_id, remote, .. } => be_bytes(conn_id as nat, 8) + encode_utf8(
            remote,
        ),
        EventModel::Closed { .. } => Seq::empty(),
        EventModel::Error { msg, .. } => encode_utf8(msg),
        EventModel::Denied { msg, .. } => encode_utf8(msg),
        EventModel::Resolved { addrs, .. } => match json_string_list(addrs) {
            Some(b) => b,
            None => Seq::empty(),
        },
    }
}

/// The frame an event encodes to.
pub open spec fn encode_spec(e: EventModel) -> Seq<u8> {
    frame_spec(event_type(e), e.id(), event_payload(e))
}

/// A decoding result with its strings as character sequences.
pub open spec fn decoded_model(r: Result<Request, String>) -> Result<RequestModel, Seq<char>> {
    match r {
        Ok(req) => Ok(req@),
        Err(e) => Err(e@),
    }
}

// ── codec ──────────────────────────────────────────────────────────────

fn text_error(head: &str, tail: &str) -> (r: String)
    ensures
        r@ == head@ + tail@,
{
    let mut s = String::from_str(head);
    s.append(tail);
    s
}

/// Decodes a binary request frame.
pub fn decode_request(data: &[u8]) -> (r: Result<Request, String>)
    ensures
        decoded_model(r) == decode_spec(data@),
        r matches Ok(req) ==> req@.id() == be_value(data@.subrange(1, 9)),
        r matches Ok(Request::Send { data: text, .. }) ==> b64_decode(text@) == Some(
            data@.subrange(9, data@.len() as int),
        ),
        r matches Ok(Request::SendTo { data: text, .. }) ==> {
            let start: int = 13 + be_value(data@.subrange(11, 13)) as int;
            &&& start <= data@.len()
            &&& b64_decode(text@) == Some(data@.subrange(start, data@.len() as int))
        },
{
    if data.len() < 9 {
        return Err(String::from_str("binary frame too short"));
    }
    let mt = data[0];
    let id = read_be(data, 1, 8);
    proof {
        lemma_pow256_values();
        crate::wire::lemma_be_value_bound(data@.subrange(1, 9));
    }
    let payload = &data[9..data.len()];
    assert(payload@ =~= data@.subrange(9, data@.len() as int));
    if mt == msg_type::CONNECT || mt == msg_type::BIND || mt == msg_type::CONNECT_UDP || mt
        == msg_type::CONNECT_TLS {
        if payload.len() < 2 {
            return Err(String::from_str("frame missing port"));
        }
        let port = read_be(payload, 0, 2) as u16;
        let ab = &payload[2..payload.len()];
        assert(ab@ =~= payload@.subrange(2, payload@.len() as int));
        let addr = match utf8_string(ab) {
            Ok(s) => s,
            Err(e) => {
                return Err(text_error("bad addr: ", e.as_str()));
            },
        };
        if mt == msg_type::CONNECT {
            Ok(Request::Connect { id, addr, port })
        } else if mt == msg_type::BIND {
            Ok(Request::Bind { id, addr, port })
        } else if mt == msg_type::CONNECT_UDP {
            Ok(Request::ConnectUdp { id, addr, port })
        } else {
            Ok(Request::ConnectTls { id, addr, port })
        }
    } else if mt == msg_type::LISTEN {
        let backlog = if payload.len() >= 4 {
            read_be(payload, 0, 4) as u32
        } else {
            128
        };
        Ok(Request::Listen { id, backlog })
    } else if mt == msg_type::SEND {
        let encoded = base64_encode(payload);
        Ok(Request::Send { id, data: encoded })
    } else if mt == msg_type::CLOSE {
        Ok(Request::Close { id })
    } else if mt == msg_type::SEND_TO {
        if payload.len() < 4 {
            return Err(String::from_str("send_to frame too short"));
        }
        let port = read_be(payload, 0, 2) as u16;
        let addr_len = read_be(payload, 2, 2) as usize;
        proof {
            crate::wire::lemma_be_value_bound(payload@.subrange(2, 4));
        }
        if payload.len() < 4 + addr_len {
            return Err(String::from_str("send_to addr truncated"));
        }
        let ab = &payload[4..4 + addr_len];
        assert(ab@ =~= data@.subrange(9, data@.len() as int).subrange(4, 4 + addr_len));
        let addr = match utf8_string(ab) {
            Ok(s) => s,
            Err(e) => {
                return Err(text_error("bad addr: ", e.as_str()));
            },
        };
        assert(payload@.subrange(2, 4) =~= data@.subrange(11, 13));
        let rest = &payload[4 + addr_len..payload.len()];
        assert(rest@ =~= data@.subrange(13 + addr_len, data@.len() as int));
        let data_text = base64_encode(rest);
        Ok(Request::SendTo { id, addr, port, data: data_text })
    } else if mt == msg_type::RESOLVE {
        let name = match utf8_string(payload) {
            Ok(s) => s,
            Err(e) => {
                return Err(text_error("bad name: ", e.as_str()));
            },
        };
        Ok(Request::Resolve { id, name })
    } else {
        let mut msg = String::from_str("unknown message type: 0x");
        let hex = hex2_chars(mt);
        let hex_text = string_from_chars(hex.as_slice());
        msg.append(hex_text.as_str());
        Err(msg)
    }
}

/// Assembles a frame.
pub fn frame(mt: u8, id: u64, payload: &[u8]) -> (r: Vec<u8>)
    ensures
        r@ == frame_spec(mt, id, payload@),
{
    let mut buf: Vec<u8> = Vec::new();
    buf.push(mt);
    push_be(&mut buf, id, 8);
    let ghost head = buf@;
    let mut i: usize = 0;
    while i < payload.len()
        invariant
            i <= payload.len(),
            buf@ == head + payload@.subrange(0, i as int),
        decreases payload.len() - i,
    {
        buf.push(payload[i]);
        i = i + 1;
        assert(buf@ =~= head + payload@.subrange(0, i as int));
    }
    assert(payload@.subrange(0, payload.len() as int) =~= payload@);
    assert(buf@ =~= frame_spec(mt, id, payload@));
    buf
}

/// The bytes a base64 text stands for, or nothing if it is not base64.
fn decode_or_empty(text: &String) -> (r: Vec<u8>)
    ensures
        r@ == b64_or_empty(text@),
{
    match base64_decode(text.as_str()) {
        Some(b) => b,
        None => Vec::new(),
    }
}

fn append_bytes(out: &mut Vec<u8>, more: &[u8])
    ensures
        final(out)@ == old(out)@ + more@,
{
    let ghost start = out@;
    let mut i: usize = 0;
    while i < more.len()
        invariant
            i <= more.len(),
            out@ == start + more@.subrange(0, i as int),
        decreases more.len() - i,
    {
        out.push(more[i]);
        i = i + 1;
        assert(out@ =~= start + more@.subrange(0, i as int));
    }
    assert(more@.subrange(0, more.len() as int) =~= more@);
}

/// Encodes an event as a binary frame.
pub fn encode_event(event: &Event) -> (r: Vec<u8>)
    ensures
        r@ == encode_spec(event@),
{
    let empty: Vec<u8> = Vec::new();
    match event {
        Event::Connected { id } => frame(msg_type::CONNECTED, *id, empty.as_slice()),
        Event::Data { id, data } => {
            let raw = decode_or_empty(data);
            frame(msg_type::DATA, *id, raw.as_slice())
        },
        Event::Listening { id, port } => {
            let mut p: Vec<u8> = Vec::new();
            push_be(&mut p, *port as u64, 2);
            frame(msg_type::LISTENING, *id, p.as_slice())
        },
        Event::Accepted { id, conn_id, remote } => {
            let mut p: Vec<u8> = Vec::new();
            push_be(&mut p, *conn_id, 8);
            append_bytes(&mut p, remote.as_str().as_bytes());
            frame(msg_type::ACCEPTED, *id, p.as_slice())
        },
        Event::Closed { id } => frame(msg_type::CLOSED, *id, empty.as_slice()),
        Event::Error { id, msg } => frame(msg_type::ERROR, *id, msg.as_str().as_bytes()),
        Event::Denied { id, msg } => frame(msg_type::DENIED, *id, msg.as_str().as_bytes()),
        Event::DataFrom { id, data, addr, port } => {
            let raw = decode_or_empty(data);
            let ab = addr.as_str().as_bytes();
            let mut p: Vec<u8> = Vec::new();
            push_be(&mut p, *port as u64, 2);
            push_be(&mut p, (ab.len() as u16) as u64, 2);
            append_bytes(&mut p, ab);
            append_bytes(&mut p, raw.as_slice());
            frame(msg_type::DATA_FROM, *id, p.as_slice())
        },
        Event::Resolved { id, addrs } => {
            let json = match json_list(addrs) {
                Some(b) => b,
                None => Vec::new(),
            };
            frame(msg_type::RESOLVED, *id, json.as_slice())
        },
        Event::UdpBound { id, port } => {
            let mut p: Vec<u8> = Vec::new();
            push_be(&mut p, *port as u64, 2);
            frame(msg_type::UDP_BOUND, *id, p.as_slice())
        },
    }
}

// ── laws ───────────────────────────────────────────────────────────────

proof fn lemma_frame_parts(mt: u8, id: u64, payload: Seq<u8>)
    ensures
        frame_spec(mt, id, payload).len() == 9 + payload.len(),
        frame_spec(mt, id, payload)[0] == mt,
        frame_spec(mt, id, payload).subrange(1, 9) == be_bytes(id as nat, 8),
        frame_spec(mt, id, payload).subrange(9, 9 + payload.len() as int) == payload,
        be_value(frame_spec(mt, id, payload).subrange(1, 9)) == id,
{
    lemma_be_bytes_len(id as nat, 8);
    let f = frame_spec(mt, id, payload);
    assert(f.subrange(1, 9) =~= be_bytes(id as nat, 8));
    assert(f.subrange(9, 9 + payload.len() as int) =~= payload);
    lemma_pow256_values();
    lemma_be_roundtrip_small(id as nat, 8);
}

/// Every encoded event opens with its type byte, carries its id big-endian
/// in the next eight bytes, and its payload after them.
pub proof fn law_event_frame_layout(e: EventModel)
    ensures
        encode_spec(e)[0] == event_type(e),
        be_value(encode_spec(e).subrange(1, 9)) == e.id(),
        encode_spec(e).subrange(9, encode_spec(e).len() as int) == event_payload(e),
{
    lemma_frame_parts(event_type(e), e.id(), event_payload(e));
}

proof fn lemma_port_bytes(port: u16)
    ensures
        be_bytes(port as nat, 2).len() == 2,
        be_value(be_bytes(port as nat, 2)) == port,
{
    lemma_be_bytes_len(port as nat, 2);
    lemma_pow256_values();
    lemma_be_roundtrip_small(port as nat, 2);
}

/// A `connect`, `bind`, `connect_udp` or `connect_tls` frame holding a port
/// and an address decodes to that request.
pub proof fn law_addressed_frame_decodes(mt: u8, id: u64, addr: Seq<char>, port: u16)
    requires
        mt == msg_type::CONNECT || mt == msg_type::BIND || mt == msg_type::CONNECT_UDP || mt
            == msg_type::CONNECT_TLS,
    ensures
        decode_spec(frame_spec(mt, id, be_bytes(port as nat, 2) + encode_utf8(addr))) == Ok::<
            RequestModel,
            Seq<char>,
        >(addressed_request(mt, id, addr, port)),
{
    let payload = be_bytes(port as nat, 2) + encode_utf8(addr);
    lemma_port_bytes(port);
    lemma_frame_parts(mt, id, payload);
    let f = frame_spec(mt, id, payload);
    let p = f.subrange(9, f.len() as int);
    assert(p =~= payload);
    assert(p.subrange(0, 2) =~= be_bytes(port as nat, 2));
    assert(p.subrange(2, p.len() as int) =~= encode_utf8(addr));
    vstd::utf8::encode_utf8_valid_utf8(addr);
    vstd::utf8::encode_utf8_decode_utf8(addr);
}

/// A `listen` frame with a four-byte backlog decodes to it; one without
/// gets the default backlog of 128.
pub proof fn law_listen_frame_decodes(id: u64, backlog: u32)
    ensures
        decode_spec(frame_spec(msg_type::LISTEN, id, be_bytes(backlog as nat, 4))) == Ok::<
            RequestModel,
            Seq<char>,
        >(RequestModel::Listen { id, backlog }),
        decode_spec(frame_spec(msg_type::LISTEN, id, Seq::empty())) == Ok::<
            RequestModel,
            Seq<char>,
        >(RequestModel::Listen { id, backlog: 128 }),
{
    let payload = be_bytes(backlog as nat, 4);
    lemma_be_bytes_len(backlog as nat, 4);
    lemma_pow256_values();
    lemma_be_roundtrip_small(backlog as nat, 4);
    lemma_frame_parts(msg_type::LISTEN, id, payload);
    let f = frame_spec(msg_type::LISTEN, id, payload);
    assert(f.subrange(9, f.len() as int).subrange(0, 4) =~= payload);
    lemma_frame_parts(msg_type::LISTEN, id, Seq::empty());
}

/// A `close` or `resolve` frame decodes to that request.
pub proof fn law_close_and_resolve_frames_decode(id: u64, name: Seq<char>)
    ensures
        decode_spec(frame_spec(msg_type::CLOSE, id, Seq::empty())) == Ok::<RequestModel, Seq<char>>(
            RequestModel::Close { id },
        ),
        decode_spec(frame_spec(msg_type::RESOLVE, id, encode_utf8(name))) == Ok::<
            RequestModel,
            Seq<char>,
        >(RequestModel::Resolve { id, name }),
{
    lemma_frame_parts(msg_type::CLOSE, id, Seq::empty());
    lemma_frame_parts(msg_type::RESOLVE, id, encode_utf8(name));
    let f = frame_spec(msg_type::RESOLVE, id, encode_utf8(name));
    assert(f.subrange(9, f.len() as int) =~= encode_utf8(name));
    vstd::utf8::encode_utf8_valid_utf8(name);
    vstd::utf8::encode_utf8_decode_utf8(name);
}

/// A `send_to` frame holding a port, an address of fewer than 65536 bytes
/// and a datagram decodes to that target, with the datagram base64-encoded.
pub proof fn law_send_to_frame_decodes(id: u64, addr: Seq<char>, port: u16, datagram: Seq<u8>)
    requires
        encode_utf8(addr).len() < 0x1_0000,
    ensures
        decode_spec(
            frame_spec(
                msg_type::SEND_TO,
                id,
                be_bytes(port as nat, 2) + be_bytes(encode_utf8(addr).len(), 2) + encode_utf8(addr)
                    + datagram,
            ),
        ) == Ok::<RequestModel, Seq<char>>(
            RequestModel::SendTo { id, addr, port, data: b64_encode(datagram) },
        ),
{
    let ab = encode_utf8(addr);
    let payload = be_bytes(port as nat, 2) + be_bytes(ab.len(), 2) + ab + datagram;
    lemma_port_bytes(port);
    lemma_be_bytes_len(ab.len(), 2);
    lemma_pow256_values();
    lemma_be_roundtrip_small(ab.len(), 2);
    lemma_frame_parts(msg_type::SEND_TO, id, payload);
    let f = frame_spec(msg_type::SEND_TO, id, payload);
    let p = f.subrange(9, f.len() as int);
    assert(p =~= payload);
    assert(p.subrange(0, 2) =~= be_bytes(port as nat, 2));
    assert(p.subrange(2, 4) =~= be_bytes(ab.len(), 2));
    assert(p.subrange(4, 4 + ab.len() as int) =~= ab);
    assert(p.subrange(4 + ab.len() as int, p.len() as int) =~= datagram);
    vstd::utf8::encode_utf8_valid_utf8(addr);
    vstd::utf8::encode_utf8_decode_utf8(addr);
}

/// Bytes carried base64-encoded in a `data` event come out of its frame
/// unchanged: what a binary `send` frame carried is what the matching
/// binary `data` frame delivers.
pub proof fn law_data_bytes_pass_through(id: u64, text: Seq<char>, raw: Seq<u8>)
    requires
        b64_decode(text) == Some(raw),
    ensures
        encode_spec(EventModel::Data { id, data: text }) == frame_spec(msg_type::DATA, id, raw),
{
}

/// The kind of request follows the type byte: a frame holding a port and an
/// address decodes to a TCP connect for 0x01, a bind for 0x02, a UDP socket
/// for 0x06 and a TLS connect for 0x09, each with that id, address and port.
pub proof fn law_request_kind_follows_type_byte(id: u64, addr: Seq<char>, port: u16)
    ensures
        decode_spec(frame_spec(0x01, id, be_bytes(port as nat, 2) + encode_utf8(addr)))
            == Ok::<RequestModel, Seq<char>>(RequestModel::Connect { id, addr, port }),
        decode_spec(frame_spec(0x02, id, be_bytes(port as nat, 2) + encode_utf8(addr)))
            == Ok::<RequestModel, Seq<char>>(RequestModel::Bind { id, addr, port }),
        decode_spec(frame_spec(0x06, id, be_bytes(port as nat, 2) + encode_utf8(addr)))
            == Ok::<RequestModel, Seq<char>>(RequestModel::ConnectUdp { id, addr, port }),
        decode_spec(frame_spec(0x09, id, be_bytes(port as nat, 2) + encode_utf8(addr)))
            == Ok::<RequestModel, Seq<char>>(RequestModel::ConnectTls { id, addr, port }),
{
    law_addressed_frame_decodes(0x01, id, addr, port);
    law_addressed_frame_decodes(0x02, id, addr, port);
    law_addressed_frame_decodes(0x06, id, addr, port);
    law_addressed_frame_decodes(0x09, id, addr, port);
}

/// A `data_from` frame (type 0x88) carries, after the id, the port, the
/// address length, the address and the datagram, in the layout of a
/// `send_to` request, so that a reader can split the address from the
/// datagram: reading two bytes gives the port, the next two the length of
/// the address, that many bytes the address, and the rest the datagram.
pub proof fn law_data_from_frame_layout(id: u64, data: Seq<char>, addr: Seq<char>, port: u16)
    requires
        encode_utf8(addr).len() < 0x1_0000,
    ensures
        ({
            let f = encode_spec(EventModel::DataFrom { id, data, addr, port });
            let n = encode_utf8(addr).len() as int;
            &&& f[0] == 0x88
            &&& f.len() == 13 + n + b64_or_empty(data).len()
            &&& be_value(f.subrange(1, 9)) == id
            &&& be_value(f.subrange(9, 11)) == port
            &&& be_value(f.subrange(11, 13)) == n
            &&& f.subrange(13, 13 + n) == encode_utf8(addr)
            &&& f.subrange(13 + n, f.len() as int) == b64_or_empty(data)
        }),
{
    let e = EventModel::DataFrom { id, data, addr, port };
    let ab = encode_utf8(addr);
    let n = ab.len() as int;
    let pl = event_payload(e);
    lemma_port_bytes(port);
    lemma_be_bytes_len(ab.len(), 2);
    lemma_pow256_values();
    lemma_be_roundtrip_small(ab.len(), 2);
    assert((ab.len() as u16) as nat == ab.len());
    lemma_frame_parts(0x88, id, pl);
    let f = encode_spec(e);
    assert(f.subrange(9, f.len() as int) =~= pl);
    assert(f.subrange(9, 11) =~= be_bytes(port as nat, 2));
    assert(f.subrange(11, 13) =~= be_bytes(ab.len(), 2));
    assert(f.subrange(13, 13 + n) =~= ab);
    assert(f.subrange(13 + n, f.len() as int) =~= b64_or_empty(data));
}

/// The other events as frames: the type byte, the id, then for `listening`
/// and `udp_bound` the two-byte port, for `accepted` the eight-byte
/// connection id and the remote address, for `error` and `denied` the
/// message, for `data` the datagram; `connected` and `closed` carry
/// nothing more.
pub proof fn law_event_payloads(id: u64, port: u16, conn_id: u64, text: Seq<char>)
    ensures
        encode_spec(EventModel::Connected { id }) == seq![0x81u8] + be_bytes(id as nat, 8),
        encode_spec(EventModel::Closed { id }) == seq![0x85u8] + be_bytes(id as nat, 8),
        encode_spec(EventModel::Data { id, data: text }) == seq![0x82u8] + be_bytes(id as nat, 8)
            + b64_or_empty(text),
        encode_spec(EventModel::Listening { id, port }) == seq![0x83u8] + be_bytes(id as nat, 8)
            + be_bytes(port as nat, 2),
        encode_spec(EventModel::UdpBound { id, port }) == seq![0x8Au8] + be_bytes(id as nat, 8)
            + be_bytes(port as nat, 2),
        encode_spec(EventModel::Accepted { id, conn_id, remote: text }) == seq![0x84u8] + be_bytes(
            id as nat,
            8,
        ) + be_bytes(conn_id as nat, 8) + encode_utf8(text),
        encode_spec(EventModel::Error { id, msg: text }) == seq![0x86u8] + be_bytes(id as nat, 8)
            + encode_utf8(text),
        encode_spec(EventModel::Denied { id, msg: text }) == seq![0x87u8] + be_bytes(id as nat, 8)
            + encode_utf8(text),
{
    assert(encode_spec(EventModel::Connected { id }) =~= seq![0x81u8] + be_bytes(id as nat, 8));
    assert(encode_spec(EventModel::Closed { id }) =~= seq![0x85u8] + be_bytes(id as nat, 8));
    assert(encode_spec(EventModel::Accepted { id, conn_id, remote: text }) =~= seq![0x84u8]
        + be_bytes(id as nat, 8) + be_bytes(conn_id as nat, 8) + encode_utf8(text));
    assert(encode_spec(EventModel::Listening { id, port }) =~= seq![0x83u8] + be_bytes(id as nat, 8)
        + be_bytes(port as nat, 2));
    assert(encode_spec(EventModel::UdpBound { id, port }) =~= seq![0x8Au8] + be_bytes(id as nat, 8)
        + be_bytes(port as nat, 2));
    assert(encode_spec(EventModel::Error { id, msg: text }) =~= seq![0x86u8] + be_bytes(id as nat, 8)
        + encode_utf8(text));
    assert(encode_spec(EventModel::Denied { id, msg: text }) =~= seq![0x87u8] + be_bytes(id as nat, 8)
        + encode_utf8(text));
    assert(encode_spec(EventModel::Data { id, data: text }) =~= seq![0x82u8] + be_bytes(id as nat, 8)
        + b64_or_empty(text));
}

/// The other requests by their type byte: 0x03 is `listen` (with its
/// backlog, or 128), 0x04 `send` (the rest of the frame as its data), 0x05
/// `close`, 0x07 `send_to` (port, address length, address, datagram) and
/// 0x08 `resolve`.
pub proof fn law_other_request_kinds(
    id: u64,
    backlog: u32,
    raw: Seq<u8>,
    addr: Seq<char>,
    port: u16,
)
    requires
        encode_utf8(addr).len() < 0x1_0000,
    ensures
        decode_spec(frame_spec(0x03, id, be_bytes(backlog as nat, 4))) == Ok::<
            RequestModel,
            Seq<char>,
        >(RequestModel::Listen { id, backlog }),
        decode_spec(frame_spec(0x03, id, Seq::empty())) == Ok::<RequestModel, Seq<char>>(
            RequestModel::Listen { id, backlog: 128 },
        ),
        decode_spec(frame_spec(0x04, id, raw)) == Ok::<RequestModel, Seq<char>>(
            RequestModel::Send { id, data: b64_encode(raw) },
        ),
        decode_spec(frame_spec(0x05, id, Seq::empty())) == Ok::<RequestModel, Seq<char>>(
            RequestModel::Close { id },
        ),
        decode_spec(
            frame_spec(
                0x07,
                id,
                be_bytes(port as nat, 2) + be_bytes(encode_utf8(addr).len(), 2) + encode_utf8(addr)
                    + raw,
            ),
        ) == Ok::<RequestModel, Seq<char>>(
            RequestModel::SendTo { id, addr, port, data: b64_encode(raw) },
        ),
        decode_spec(frame_spec(0x08, id, encode_utf8(addr))) == Ok::<RequestModel, Seq<char>>(
            RequestModel::Resolve { id, name: addr },
        ),
{
    law_listen_frame_decodes(id, backlog);
    law_close_and_resolve_frames_decode(id, addr);
    law_send_to_frame_decodes(id, addr, port, raw);
    lemma_frame_parts(0x04, id, raw);
    let f = frame_spec(0x04, id, raw);
    assert(f.subrange(9, f.len() as int) =~= raw);
}

/// A `resolved` frame (type 0x89) carries the addresses as the JSON list
/// serde_json writes for them.
pub proof fn law_resolved_frame(id: u64, addrs: Seq<Seq<char>>)
    ensures
        json_string_list(addrs) matches Some(b) ==> encode_spec(EventModel::Resolved { id, addrs })
            == seq![0x89u8] + be_bytes(id as nat, 8) + b,
{
    if let Some(b) = json_string_list(addrs) {
        assert(encode_spec(EventModel::Resolved { id, addrs }) =~= seq![0x89u8] + be_bytes(
            id as nat,
            8,
        ) + b);
    }
}

} // verus!
