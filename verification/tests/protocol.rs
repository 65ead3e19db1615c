use wasmnet::protocol::{default_backlog, Event, Request};

#[test]
fn every_request_carries_its_id() {
    let reqs = vec![
        Request::Connect { id: 1, addr: "a".into(), port: 1 },
        Request::ConnectTls { id: 2, addr: "a".into(), port: 1 },
        Request::ConnectUdp { id: 3, addr: "a".into(), port: 1 },
        Request::Bind { id: 4, addr: "a".into(), port: 1 },
        Request::Listen { id: 5, backlog: default_backlog() },
        Request::Send { id: 6, data: String::new() },
        Request::SendTo { id: 7, addr: "a".into(), port: 1, data: String::new() },
        Request::Close { id: 8 },
        Request::Resolve { id: 9, name: "a".into() },
    ];
    let ids: Vec<u64> = reqs.iter().map(|r| r.id()).collect();
    assert_eq!(ids, (1..=9).collect::<Vec<u64>>());
}

#[test]
fn default_backlog_is_128() {
    assert_eq!(default_backlog(), 128);
}

#[test]
fn error_and_denied_events() {
    match Event::error(3, "boom".into()) {
        Event::Error { id, msg } => assert_eq!((id, msg.as_str()), (3, "boom")),
        other => panic!("unexpected {other:?}"),
    }
    match Event::denied(4, "no".into()) {
        Event::Denied { id, msg } => assert_eq!((id, msg.as_str()), (4, "no")),
        other => panic!("unexpected {other:?}"),
    }
}
