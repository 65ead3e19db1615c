use base64::engine::general_purpose::STANDARD as B64;
use base64::Engine;
use wasmnet::binary::msg_type;
use wasmnet::binary::{decode_request, encode_event, frame};
use wasmnet::protocol::{Event, Request};

#[test]
fn roundtrip_connect() {
    let req = Request::Connect {
        id: 42,
        addr: "example.com".into(),
        port: 443,
    };
    let mut data = vec![msg_type::CONNECT];
    data.extend_from_slice(&42u64.to_be_bytes());
    data.extend_from_slice(&443u16.to_be_bytes());
    data.extend_from_slice(b"example.com");

    let decoded = decode_request(&data).unwrap();
    assert_eq!(decoded.id(), req.id());
}

#[test]
fn roundtrip_data_event() {
    let raw = b"hello world";
    let ev = Event::Data {
        id: 7,
        data: B64.encode(raw),
    };
    let encoded = encode_event(&ev);
    assert_eq!(encoded[0], msg_type::DATA);
    let id = u64::from_be_bytes(encoded[1..9].try_into().unwrap());
    assert_eq!(id, 7);
    assert_eq!(&encoded[9..], raw);
}

#[test]
fn send_carries_raw_bytes() {
    let raw = vec![0xDE, 0xAD, 0xBE, 0xEF];
    let mut data = vec![msg_type::SEND];
    data.extend_from_slice(&1u64.to_be_bytes());
    data.extend_from_slice(&raw);

    let decoded = decode_request(&data).unwrap();
    if let Request::Send { data, .. } = decoded {
        assert_eq!(B64.decode(&data).unwrap(), raw);
    } else {
        panic!("expected Send");
    }
}

#[test]
fn too_short_rejected() {
    assert!(decode_request(&[0x01, 0, 0, 0]).is_err());
}

fn request_frame(mt: u8, id: u64, payload: &[u8]) -> Vec<u8> {
    let mut data = vec![mt];
    data.extend_from_slice(&id.to_be_bytes());
    data.extend_from_slice(payload);
    data
}

#[test]
fn decode_errors_name_what_is_wrong() {
    assert_eq!(decode_request(&[1, 2, 3]).unwrap_err(), "binary frame too short");
    assert_eq!(
        decode_request(&request_frame(msg_type::CONNECT, 1, &[0])).unwrap_err(),
        "frame missing port"
    );
    assert_eq!(
        decode_request(&request_frame(msg_type::SEND_TO, 1, &[0, 53, 0])).unwrap_err(),
        "send_to frame too short"
    );
    assert_eq!(
        decode_request(&request_frame(msg_type::SEND_TO, 1, &[0, 53, 0, 9, b'a'])).unwrap_err(),
        "send_to addr truncated"
    );
    assert_eq!(
        decode_request(&request_frame(msg_type::CONNECT, 1, &[0, 80, 0xff])).unwrap_err(),
        "bad addr: invalid utf-8 sequence of 1 bytes from index 0"
    );
    assert_eq!(
        decode_request(&request_frame(msg_type::RESOLVE, 1, &[0xc3])).unwrap_err(),
        "bad name: incomplete utf-8 byte sequence from index 0"
    );
    assert_eq!(
        decode_request(&request_frame(0x7f, 1, &[])).unwrap_err(),
        "unknown message type: 0x7f"
    );
}

#[test]
fn decode_every_request_kind() {
    let mut connect_tls = vec![0x01, 0xbb];
    connect_tls.extend_from_slice(b"example.com");
    match decode_request(&request_frame(msg_type::CONNECT_TLS, 9, &connect_tls)).unwrap() {
        Request::ConnectTls { id, addr, port } => {
            assert_eq!((id, addr.as_str(), port), (9, "example.com", 443))
        }
        other => panic!("unexpected {other:?}"),
    }
    match decode_request(&request_frame(msg_type::LISTEN, 2, &[])).unwrap() {
        Request::Listen { id, backlog } => assert_eq!((id, backlog), (2, 128)),
        other => panic!("unexpected {other:?}"),
    }
    match decode_request(&request_frame(msg_type::LISTEN, 2, &[0, 0, 1, 0])).unwrap() {
        Request::Listen { backlog, .. } => assert_eq!(backlog, 256),
        other => panic!("unexpected {other:?}"),
    }
    match decode_request(&request_frame(msg_type::SEND_TO, 3, &[0, 53, 0, 3, b'a', b'.', b'b', b'h', b'i'])).unwrap() {
        Request::SendTo { id, addr, port, data } => {
            assert_eq!((id, addr.as_str(), port, data.as_str()), (3, "a.b", 53, "aGk="))
        }
        other => panic!("unexpected {other:?}"),
    }
    match decode_request(&request_frame(msg_type::CLOSE, 4, &[])).unwrap() {
        Request::Close { id } => assert_eq!(id, 4),
        other => panic!("unexpected {other:?}"),
    }
    match decode_request(&request_frame(msg_type::RESOLVE, 5, b"example.org")).unwrap() {
        Request::Resolve { id, name } => assert_eq!((id, name.as_str()), (5, "example.org")),
        other => panic!("unexpected {other:?}"),
    }
}

#[test]
fn encode_events_as_frames() {
    assert_eq!(
        encode_event(&Event::Denied { id: 1, msg: "no".into() }),
        vec![msg_type::DENIED, 0, 0, 0, 0, 0, 0, 0, 1, b'n', b'o']
    );
    assert_eq!(
        encode_event(&Event::Listening { id: 2, port: 8080 }),
        vec![msg_type::LISTENING, 0, 0, 0, 0, 0, 0, 0, 2, 0x1f, 0x90]
    );
    let resolved = encode_event(&Event::Resolved {
        id: 3,
        addrs: vec!["1.1.1.1".into(), "::1".into()],
    });
    assert_eq!(resolved[0], msg_type::RESOLVED);
    assert_eq!(&resolved[9..], br#"["1.1.1.1","::1"]"#);
    let bad_data = encode_event(&Event::Data { id: 4, data: "not base64!".into() });
    assert_eq!(bad_data, vec![msg_type::DATA, 0, 0, 0, 0, 0, 0, 0, 4]);
    assert_eq!(frame(0x81, 5, &[9]), vec![0x81, 0, 0, 0, 0, 0, 0, 0, 5, 9]);
}
