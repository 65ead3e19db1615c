//! The request/event messages exchanged with the browser.
use vstd::prelude::*;
use crate::text::strings_view;

verus! {

/// A request from the browser.
#[derive(Debug, Clone)]
pub enum Request {
    Connect { id: u64, addr: String, port: u16 },
    ConnectTls { id: u64, addr: String, port: u16 },
    ConnectUdp { id: u64, addr: String, port: u16 },
    Bind { id: u64, addr: String, port: u16 },
    Listen { id: u64, backlog: u32 },
    Send { id: u64, data: String },
    SendTo { id: u64, addr: String, port: u16, data: String },
    Close { id: u64 },
    Resolve { id: u64, name: String },
}

/// A request with its strings as character sequences.
pub enum RequestModel {
    Connect { id: u64, addr: Seq<char>, port: u16 },
    ConnectTls { id: u64, addr: Seq<char>, port: u16 },
    ConnectUdp { id: u64, addr: Seq<char>, port: u16 },
    Bind { id: u64, addr: Seq<char>, port: u16 },
    Listen { id: u64, backlog: u32 },
    Send { id: u64, data: Seq<char> },
    SendTo { id: u64, addr: Seq<char>, port: u16, data: Seq<char> },
    Close { id: u64 },
    Resolve { id: u64, name: Seq<char> },
}

impl View for Request {
    type V = RequestModel;

    open spec fn view(&self) -> RequestModel {
        match self {
            Request::Connect { id, addr, port } => RequestModel::Connect {
                id: *id,
                addr: addr@,
                port: *port,
            },
            Request::ConnectTls { id, addr, port } => RequestModel::ConnectTls {
                id: *id,
                addr: addr@,
                port: *port,
            },
            Request::ConnectUdp { id, addr, port } => RequestModel::ConnectUdp {
                id: *id,
                addr: addr@,
                port: *port,
            },
            Request::Bind { id, addr, port } => RequestModel::Bind {
                id: *id,
                addr: addr@,
                port: *port,
            },
            Request::Listen { id, backlog } => RequestModel::Listen { id: *id, backlog: *backlog },
            Request::Send { id, data } => RequestModel::Send { id: *id, data: data@ },
            Request::SendTo { id, addr, port, data } => RequestModel::SendTo {
                id: *id,
                addr: addr@,
                port: *port,
                data: data@,
            },
            Request::Close { id } => RequestModel::Close { id: *id },
            Request::Resolve { id, name } => RequestModel::Resolve { id: *id, name: name@ },
        }
    }
}

impl RequestModel {
    /// The id every request carries.
    pub open spec fn id(self) -> u64 {
        match self {
            RequestModel::Connect { id, .. } => id,
            RequestModel::ConnectTls { id, .. } => id,
            RequestModel::ConnectUdp { id, .. } => id,
            RequestModel::Bind { id, .. } => id,
            RequestModel::Listen { id, .. } => id,
            RequestModel::Send { id, .. } => id,
            RequestModel::SendTo { id, .. } => id,
            RequestModel::Close { id } => id,
            RequestModel::Resolve { id, .. } => id,
        }
    }
}

/// The backlog a `listen` request gets when it names none.
pub fn default_backlog() -> (r: u32)
    ensures
        r == 128,
{
    128
}

impl Request {
    /// The socket id the request is about.
    pub fn id(&self) -> (r: u64)
        ensures
            r == self@.id(),
    {
        match self {
            Request::Connect { id, .. }
            | Request::ConnectTls { id, .. }
            | Request::ConnectUdp { id, .. }
            | Request::Bind { id, .. }
            | Request::Listen { id, .. }
            | Request::Send { id, .. }
            | Request::SendTo { id, .. }
            | Request::Close { id, .. }
            | Request::Resolve { id, .. } => *id,
        }
    }
}

/// An event for the browser.
#[derive(Debug, Clone)]
pub enum Event {
    Connected { id: u64 },
    Data { id: u64, data: String },
    DataFrom { id: u64, data: String, addr: String, port: u16 },
    Listening { id: u64, port: u16 },
    UdpBound { id: u64, port: u16 },
    Accepted { id: u64, conn_id: u64, remote: String },
    Closed { id: u64 },
    Error { id: u64, msg: String },
    Denied { id: u64, msg: String },
    Resolved { id: u64, addrs: Vec<String> },
}

/// An event with its strings as character sequences.
pub enum EventModel {
    Connected { id: u64 },
    Data { id: u64, data: Seq<char> },
    DataFrom { id: u64, data: Seq<char>, addr: Seq<char>, port: u16 },
    Listening { id: u64, port: u16 },
    UdpBound { id: u64, port: u16 },
    Accepted { id: u64, conn_id: u64, remote: Seq<char> },
    Closed { id: u64 },
    Error { id: u64, msg: Seq<char> },
    Denied { id: u64, msg: Seq<char> },
    Resolved { id: u64, addrs: Seq<Seq<char>> },
}

impl View for Event {
    type V = EventModel;

    open spec fn view(&self) -> EventModel {
        match self {
            Event::Connected { id } => EventModel::Connected { id: *id },
            Event::Data { id, data } => EventModel::Data { id: *id, data: data@ },
            Event::DataFrom { id, data, addr, port } => EventModel::DataFrom {
                id: *id,
                data: data@,
                addr: addr@,
                port: *port,
            },
            Event::Listening { id, port } => EventModel::Listening { id: *id, port: *port },
            Event::UdpBound { id, port } => EventModel::UdpBound { id: *id, port: *port },
            Event::Accepted { id, conn_id, remote } => EventModel::Accepted {
                id: *id,
                conn_id: *conn_id,
                remote: remote@,
            },
            Event::Closed { id } => EventModel::Closed { id: *id },
            Event::Error { id, msg } => EventModel::Error { id: *id, msg: msg@ },
            Event::Denied { id, msg } => EventModel::Denied { id: *id, msg: msg@ },
            Event::Resolved { id, addrs } => EventModel::Resolved {
                id: *id,
                addrs: strings_view(addrs@),
            },
        }
    }
}

impl EventModel {
    /// The id every event carries.
    pub open spec fn id(self) -> u64 {
        match self {
            EventModel::Connected { id } => id,
            EventModel::Data { id, .. } => id,
            EventModel::DataFrom { id, .. } => id,
            EventModel::Listening { id, .. } => id,
            EventModel::UdpBound { id, .. } => id,
            EventModel::Accepted { id, .. } => id,
            EventModel::Closed { id } => id,
            EventModel::Error { id, .. } => id,
            EventModel::Denied { id, .. } => id,
            EventModel::Resolved { id, .. } => id,
        }
    }
}

impl Event {
    /// An `error` event about socket `id`.
    pub fn error(id: u64, msg: String) -> (r: Event)
        ensures
            r@ == (EventModel::Error { id, msg: msg@ }),
    {
        Event::Error { id, msg }
    }

    /// A `denied` event about socket `id`.
    pub fn denied(id: u64, msg: String) -> (r: Event)
        ensures
            r@ == (EventModel::Denied { id, msg: msg@ }),
    {
        Event::Denied { id, msg }
    }
}

} // verus!
