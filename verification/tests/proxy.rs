use wasmnet::ip::IpAddress;
use wasmnet::policy::{NetworkPolicy, Policy};
use wasmnet::protocol::{Event, Request};
use wasmnet::proxy::{
    approve_resolved, datagram_event, lookup_target, read_event, ReadOutcome, ReadSide,
    resolution_event, ConnectKind, Incoming, Plan, Session, SocketKind, Step,
};
use wasmnet::ip::SocketAddress;

/// An address written the usual way, as the library's plain value.
fn ip(s: &str) -> IpAddress {
    match s.parse::<core::net::IpAddr>().unwrap() {
        core::net::IpAddr::V4(a) => IpAddress { v6: false, bits: u32::from(a) as u128 },
        core::net::IpAddr::V6(a) => IpAddress { v6: true, bits: u128::from(a) },
    }
}

/// Plans a request and, when it names a host, approves what the host
/// resolved to; returns the event the client gets, if any.
fn answer(policy: &Policy, session: &mut Session, req: Request, resolved: &[&str]) -> Option<Event> {
    let addrs: Vec<_> = resolved.iter().map(|a| ip(a)).collect();
    match session.plan(policy, req) {
        Plan::Reply(ev) => Some(ev),
        Plan::ResolveThenOpen { id, host, port, .. } => {
            approve_resolved(policy, id, &host, &addrs, port).err()
        }
        Plan::ResolveThenSendTo { id, host, port, .. } => {
            approve_resolved(policy, id, &host, &addrs, port).err()
        }
        _ => None,
    }
}

#[test]
fn hostname_cannot_reach_a_denied_range() {
    let policy = Policy::new(&NetworkPolicy::default());
    let mut session = Session::new();
    for op in ["connect", "connect_tls", "connect_udp"] {
        for addr in ["127.0.0.1", "localhost", "localhost."] {
            let (id, port, addr) = (1, 7000, addr.to_string());
            let req = match op {
                "connect" => Request::Connect { id, addr: addr.clone(), port },
                "connect_tls" => Request::ConnectTls { id, addr: addr.clone(), port },
                _ => Request::ConnectUdp { id, addr: addr.clone(), port },
            };
            let ev = answer(&policy, &mut session, req, &["127.0.0.1", "::1"]);
            assert!(
                matches!(ev, Some(Event::Denied { id: 1, .. })),
                "{op} to {addr} should be denied, got {ev:?}"
            );
        }
    }
}

#[test]
fn udp_send_to_is_policy_checked() {
    let policy = Policy::new(&NetworkPolicy::default());
    let mut session = Session::new();
    let bind = Request::ConnectUdp { id: 1, addr: "8.8.8.8".into(), port: 53 };
    match session.plan(&policy, bind) {
        Plan::Open { id, kind, target, port, .. } => {
            assert_eq!((id, kind, port), (1, ConnectKind::Udp, 53));
            assert_eq!(target, ip("8.8.8.8"));
        }
        other => panic!("expected the UDP bind to succeed, got {other:?}"),
    }
    session.add_socket(1, SocketKind::Udp);
    let send_to = Request::SendTo {
        id: 1,
        addr: "localhost".into(),
        port: 7000,
        data: "cGluZw==".into(),
    };
    let ev = answer(&policy, &mut session, send_to, &["127.0.0.1"]);
    assert!(matches!(ev, Some(Event::Denied { .. })), "send_to should be denied, got {ev:?}");
}

#[test]
fn an_approved_name_connects_to_the_first_address() {
    let policy = Policy::new(&NetworkPolicy::default());
    let addrs = vec![ip("8.8.8.8"), ip("8.8.4.4")];
    assert_eq!(approve_resolved(&policy, 1, "dns.google", &addrs, 53).unwrap(), addrs[0]);
    match approve_resolved(&policy, 2, "nowhere", &vec![], 53) {
        Err(Event::Error { id, msg }) => {
            assert_eq!((id, msg.as_str()), (2, "no addresses found for nowhere"))
        }
        other => panic!("unexpected {other:?}"),
    }
    let mixed = vec![ip("8.8.8.8"), ip("10.0.0.1")];
    match approve_resolved(&policy, 3, "mixed", &mixed, 53) {
        Err(Event::Denied { id, msg }) => {
            assert_eq!((id, msg.as_str()), (3, "private IP range blocked: 10.0.0.0/8"))
        }
        other => panic!("unexpected {other:?}"),
    }
}

#[test]
fn connections_are_limited_per_session() {
    let policy = Policy::new(&NetworkPolicy { max_connections: 1, ..Default::default() });
    let mut session = Session::new();
    let req = |id| Request::Connect { id, addr: "8.8.8.8".into(), port: 443 };
    assert!(matches!(session.plan(&policy, req(1)), Plan::Open { .. }));
    session.add_socket(1, SocketKind::Tcp);
    match session.plan(&policy, req(2)) {
        Plan::Reply(Event::Error { id, msg }) => {
            assert_eq!((id, msg.as_str()), (2, "max connections reached"))
        }
        other => panic!("unexpected {other:?}"),
    }
    assert!(matches!(session.plan(&policy, Request::Close { id: 1 }), Plan::CloseSocket { id: 1 }));
    assert_eq!(session.active(), 0);
    assert!(matches!(session.plan(&policy, req(3)), Plan::Open { .. }));
}

#[test]
fn sends_go_to_the_socket_kind_they_name() {
    let policy = Policy::allow_all();
    let mut session = Session::new();
    session.add_socket(1, SocketKind::Tcp);
    session.add_socket(2, SocketKind::Udp);
    session.add_socket(3, SocketKind::Listener);
    let send = |id| Request::Send { id, data: "aGk=".into() };
    match session.plan(&policy, send(1)) {
        Plan::Write { id, bytes } => assert_eq!((id, bytes), (1, b"hi".to_vec())),
        other => panic!("unexpected {other:?}"),
    }
    assert!(matches!(session.plan(&policy, send(2)), Plan::SendDefault { id: 2, .. }));
    assert!(matches!(session.plan(&policy, send(3)), Plan::Nothing));
    assert!(matches!(session.plan(&policy, send(9)), Plan::Nothing));
    let bad = Request::Send { id: 1, data: "%%%".into() };
    assert!(matches!(session.plan(&policy, bad), Plan::Nothing));
    assert!(matches!(session.plan(&policy, Request::Close { id: 3 }), Plan::StopListener { id: 3 }));
    assert_eq!(session.socket(3), None);
    assert_eq!(session.active(), 2);
}

#[test]
fn binds_are_checked_against_the_port_ranges() {
    let policy = Policy::new(&NetworkPolicy::default());
    let mut session = Session::new();
    let bind = |port| Request::Bind { id: 5, addr: "0.0.0.0".into(), port };
    assert!(matches!(session.plan(&policy, bind(3000)), Plan::Bind { id: 5, port: 3000, .. }));
    assert!(matches!(session.plan(&policy, bind(80)), Plan::Reply(Event::Denied { id: 5, .. })));
    assert!(matches!(
        session.plan(&policy, Request::Listen { id: 5, backlog: 128 }),
        Plan::Reply(Event::Listening { id: 5, port: 0 })
    ));
}

#[test]
fn receive_switches_the_framing() {
    let mut session = Session::new();
    assert!(!session.binary_mode());
    let frame = vec![0x05, 0, 0, 0, 0, 0, 0, 0, 7];
    assert!(matches!(session.receive(Incoming::Binary(frame)), Step::Handle(Request::Close { id: 7 })));
    assert!(session.binary_mode());
    match session.receive(Incoming::Binary(vec![1])) {
        Step::Reply(Event::Error { id, msg }) => {
            assert_eq!((id, msg.as_str()), (0, "invalid binary frame: binary frame too short"))
        }
        _ => panic!("expected an error event"),
    }
    match session.receive(Incoming::Text(Err("eof".into()))) {
        Step::Reply(Event::Error { id, msg }) => {
            assert_eq!((id, msg.as_str()), (0, "invalid request: eof"))
        }
        _ => panic!("expected an error event"),
    }
    assert!(!session.binary_mode());
    assert!(matches!(session.receive(Incoming::Close), Step::Stop));
    assert!(matches!(session.receive(Incoming::Other), Step::Skip));
}

#[test]
fn small_helpers() {
    assert_eq!(lookup_target("example.com"), "example.com:0");
    assert_eq!(lookup_target("example.com:80"), "example.com:80");
    match resolution_event(4, "x", vec![]) {
        Event::Error { id, msg } => assert_eq!((id, msg.as_str()), (4, "no addresses found for x")),
        other => panic!("unexpected {other:?}"),
    }
    assert!(matches!(
        resolution_event(4, "x", vec!["1.1.1.1".into()]),
        Event::Resolved { id: 4, .. }
    ));
}

#[test]
fn what_a_read_gives_becomes_an_event() {
    assert!(matches!(read_event(5, &[]), Event::Closed { id: 5 }));
    match read_event(5, b"hello world") {
        Event::Data { id, data } => assert_eq!((id, data.as_str()), (5, "aGVsbG8gd29ybGQ=")),
        other => panic!("unexpected {other:?}"),
    }
    let from = SocketAddress { ip: ip("fd00::1"), port: 53, flowinfo: 0, scope_id: 0 };
    match datagram_event(6, b"hi", &from) {
        Event::DataFrom { id, data, addr, port } => {
            assert_eq!((id, data.as_str(), addr.as_str(), port), (6, "aGk=", "fd00::1", 53))
        }
        other => panic!("unexpected {other:?}"),
    }
}

#[test]
fn a_closed_connection_is_counted_down_once() {
    let policy = Policy::allow_all();
    let mut session = Session::new();
    session.add_socket(1, SocketKind::Tcp);
    assert_eq!(session.active(), 1);
    assert!(matches!(session.plan(&policy, Request::Close { id: 1 }), Plan::CloseSocket { id: 1 }));
    assert_eq!(session.active(), 0);
    // The socket's task ends afterwards.
    session.remove_socket(1);
    assert_eq!(session.active(), 0);
    // Replacing a counted socket by another keeps one count.
    session.add_socket(2, SocketKind::Udp);
    session.add_socket(2, SocketKind::Tcp);
    assert_eq!(session.active(), 1);
    session.add_socket(2, SocketKind::Listener);
    assert_eq!(session.active(), 0);
}

#[test]
fn accepted_connections_get_new_ids() {
    let mut session = Session::new();
    session.add_socket(1, SocketKind::Listener);
    session.add_socket(1_000_001, SocketKind::Tcp);
    let first = session.accept_connection(1).unwrap();
    assert_eq!(first, 1_000_002);
    assert_eq!(session.socket(first), Some(SocketKind::Accepted));
    assert_eq!(session.socket(1_000_001), Some(SocketKind::Tcp));
    let second = session.accept_connection(1).unwrap();
    assert_eq!(second, 1_000_003);
    // Closing one does not make its id come back.
    session.remove_socket(first);
    assert_eq!(session.accept_connection(1), Some(1_000_004));
    // Accepted connections do not count against the limit.
    assert_eq!(session.active(), 1);
    // Listener 0 numbers from 1; id 1 is the listener itself and is passed over.
    assert_eq!(session.accept_connection(0), Some(2));
    // Listener 3's range starts above.
    assert_eq!(session.accept_connection(3), Some(3_000_001));
    assert_eq!(session.accept_connection(u64::MAX), None);
}

#[test]
fn a_stream_ends_with_one_terminal_event() {
    let mut side = ReadSide::new(9);
    match side.next(ReadOutcome::Bytes(b"ab".to_vec())) {
        Some(Event::Data { id, data }) => assert_eq!((id, data.as_str()), (9, "YWI=")),
        other => panic!("unexpected {other:?}"),
    }
    assert!(!side.is_done());
    assert!(matches!(side.next(ReadOutcome::Bytes(vec![])), Some(Event::Closed { id: 9 })));
    assert!(side.is_done());
    assert!(side.next(ReadOutcome::Bytes(b"late".to_vec())).is_none());
    let mut failing = ReadSide::new(4);
    match failing.next(ReadOutcome::Failed("reset".into())) {
        Some(Event::Error { id, msg }) => assert_eq!((id, msg.as_str()), (4, "reset")),
        other => panic!("unexpected {other:?}"),
    }
    assert!(failing.next(ReadOutcome::Failed("again".into())).is_none());
}

#[test]
fn each_listener_numbers_its_own_connections() {
    let mut session = Session::new();
    session.add_socket(1, SocketKind::Listener);
    session.add_socket(2, SocketKind::Listener);
    assert_eq!(session.accept_connection(1), Some(1_000_001));
    assert_eq!(session.accept_connection(2), Some(2_000_001));
    assert_eq!(session.accept_connection(1), Some(1_000_002));
}
