//! The decisions of a proxy session.
//!
//! A session reads requests from the browser and answers with events; the
//! sockets themselves are opened and driven by the embedding runtime. This
//! module holds what is decided along the way: how an incoming message is
//! read, what a request asks the runtime to do (after the policy and the
//! connection limit have had their say), which resolved address a hostname
//! may be connected to, and the session's socket table and connection count.
use vstd::prelude::*;
use std::collections::HashMap;
use crate::binary::{b64_decode, b64_encode, base64_decode, base64_encode, decode_request, decode_spec};
use crate::ip::{
    IpAddress, SocketAddress, address_of, address_text, address_to_string, ip_addr_parse,
    parse_ip_address,
};
use crate::policy::{
    Policy, PolicyModel, bind_verdict, connect_verdict, deny_net_verdict, verdict_of,
};
use crate::protocol::{Event, EventModel, Request, RequestModel};

verus! {

broadcast use vstd::std_specs::hash::group_hash_axioms;

/// What a socket of the session is.
#[derive(Clone, Copy, Debug, PartialEq, Eq, Structural)]
pub enum SocketKind {
    /// A TCP or TLS stream.
    Tcp,
    /// A UDP socket with a default target.
    Udp,
    /// A TCP listener.
    Listener,
    /// A TCP stream a listener accepted.
    Accepted,
}

/// The kind of outbound connection a request asks for.
#[derive(Clone, Copy, Debug, PartialEq, Eq, Structural)]
pub enum ConnectKind {
    Tcp,
    Tls,
    Udp,
}

/// A session's state as a mathematical value: its sockets by id, the
/// number of outbound connections, the framing of the last request, and the
/// floor below which every id handed to an accepted connection lies.
#[verifier::ext_equal]
pub struct SessionModel {
    pub sockets: Map<u64, SocketKind>,
    pub active: usize,
    pub binary_mode: bool,
    pub next_accept: Map<u64, u128>,
}

/// The state of one browser session: its sockets by id, the number of
/// outbound connections counted against the policy's limit, whether events
/// go out as binary frames (the framing of the last request), and where the
/// ids of accepted connections continue from.
pub struct Session {
    table: SocketTable,
    binary_mode: bool,
    next_accept: HashMap<u64, u128>,
}

/// The socket table and the connection count, kept in step: the count is
/// the number of counted sockets in the table.
struct SocketTable {
    sockets: HashMap<u64, SocketKind>,
    active: usize,
}

impl View for Session {
    type V = SessionModel;

    closed spec fn view(&self) -> SessionModel {
        SessionModel {
            sockets: self.table.sockets@,
            active: self.table.active,
            binary_mode: self.binary_mode,
            next_accept: self.next_accept@,
        }
    }
}

/// A message read from the transport.
#[derive(Debug)]
pub enum Incoming {
    /// A text frame, already parsed as a JSON request (or the parse error).
    Text(Result<Request, String>),
    /// A binary frame.
    Binary(Vec<u8>),
    /// The peer closed the session.
    Close,
    /// Anything else (pings and the like).
    Other,
}

/// What to do with an incoming message.
#[derive(Debug)]
pub enum Step {
    Handle(Request),
    Reply(Event),
    Stop,
    Skip,
}

/// What a request asks of the runtime.
#[derive(Debug)]
pub enum Plan {
    /// Send this event and do nothing else.
    Reply(Event),
    /// Open a connection of `kind` to the literal address `target`; `host`
    /// is the name as the client spelled it (TLS uses it for SNI).
    Open { id: u64, kind: ConnectKind, host: String, port: u16, target: IpAddress },
    /// Resolve `host`, have the addresses approved ([`approve_resolved`]),
    /// then open the connection to the approved address.
    ResolveThenOpen { id: u64, kind: ConnectKind, host: String, port: u16 },
    /// Bind a listener.
    Bind { id: u64, addr: String, port: u16 },
    /// Write the bytes to the stream `id`.
    Write { id: u64, bytes: Vec<u8> },
    /// Send the bytes as a datagram to the UDP socket's own target.
    SendDefault { id: u64, bytes: Vec<u8> },
    /// Send the bytes as a datagram to the approved literal address.
    SendTo { id: u64, bytes: Vec<u8>, target: IpAddress, port: u16 },
    /// Resolve `host`, have the addresses approved, then send the datagram.
    ResolveThenSendTo { id: u64, bytes: Vec<u8>, host: String, port: u16 },
    /// Drop the stream or datagram socket `id`.
    CloseSocket { id: u64 },
    /// Shut the listener `id` down.
    StopListener { id: u64 },
    /// Look `name` up and answer with the addresses.
    Resolve { id: u64, name: String },
    Nothing,
}

/// A plan as a mathematical value.
pub enum PlanModel {
    Reply(EventModel),
    Open { id: u64, kind: ConnectKind, host: Seq<char>, port: u16, target: IpAddress },
    ResolveThenOpen { id: u64, kind: ConnectKind, host: Seq<char>, port: u16 },
    Bind { id: u64, addr: Seq<char>, port: u16 },
    Write { id: u64, bytes: Seq<u8> },
    SendDefault { id: u64, bytes: Seq<u8> },
    SendTo { id: u64, bytes: Seq<u8>, target: IpAddress, port: u16 },
    ResolveThenSendTo { id: u64, bytes: Seq<u8>, host: Seq<char>, port: u16 },
    CloseSocket { id: u64 },
    StopListener { id: u64 },
    Resolve { id: u64, name: Seq<char> },
    Nothing,
}

impl View for Plan {
    type V = PlanModel;

    open spec fn view(&self) -> PlanModel {
        match self {
            Plan::Reply(e) => PlanModel::Reply(e@),
            Plan::Open { id, kind, host, port, target } => PlanModel::Open {
                id: *id,
                kind: *kind,
                host: host@,
                port: *port,
                target: *target,
            },
            Plan::ResolveThenOpen { id, kind, host, port } => PlanModel::ResolveThenOpen {
                id: *id,
                kind: *kind,
                host: host@,
                port: *port,
            },
            Plan::Bind { id, addr, port } => PlanModel::Bind { id: *id, addr: addr@, port: *port },
            Plan::Write { id, bytes } => PlanModel::Write { id: *id, bytes: bytes@ },
            Plan::SendDefault { id, bytes } => PlanModel::SendDefault { id: *id, bytes: bytes@ },
            Plan::SendTo { id, bytes, target, port } => PlanModel::SendTo {
                id: *id,
                bytes: bytes@,
                target: *target,
                port: *port,
            },
            Plan::ResolveThenSendTo { id, bytes, host, port } => PlanModel::ResolveThenSendTo {
                id: *id,
                bytes: bytes@,
                host: host@,
                port: *port,
            },
            Plan::CloseSocket { id } => PlanModel::CloseSocket { id: *id },
            Plan::StopListener { id } => PlanModel::StopListener { id: *id },
            Plan::Resolve { id, name } => PlanModel::Resolve { id: *id, name: name@ },
            Plan::Nothing => PlanModel::Nothing,
        }
    }
}

// ── specifications ─────────────────────────────────────────────────────

/// Outbound streams and UDP sockets count against the connection limit;
/// listeners and the connections they accept do not.
pub open spec fn counts(k: SocketKind) -> bool {
    k is Tcp || k is Udp
}

/// The ids of the sockets that count against the connection limit.
pub open spec fn counted_ids(m: Map<u64, SocketKind>) -> Set<u64> {
    m.dom().filter(|id: u64| counts(m[id]))
}

impl SessionModel {
    /// The connection count is the number of counted sockets in the table,
    /// and every accepted id handed out lies below a floor within `u64`.
    pub open spec fn wf(self) -> bool {
        &&& self.sockets.dom().finite()
        &&& self.active == counted_ids(self.sockets).len()
    }
}

/// The session after the socket `id` is gone: a counted one no longer
/// counts.
pub open spec fn after_remove(s: SessionModel, id: u64) -> SessionModel {
    if s.sockets.contains_key(id) {
        SessionModel {
            sockets: s.sockets.remove(id),
            active: if counts(s.sockets[id]) {
                (s.active - 1) as usize
            } else {
                s.active
            },
            ..s
        }
    } else {
        s
    }
}

/// The session after the socket `id` of `kind` is recorded, replacing any
/// socket of that id.
pub open spec fn after_add(s: SessionModel, id: u64, kind: SocketKind) -> SessionModel {
    SessionModel {
        sockets: s.sockets.insert(id, kind),
        active: counted_ids(s.sockets.insert(id, kind)).len() as usize,
        ..s
    }
}

/// Where the search for the next id of a connection listener
/// `listener_id` accepts starts: its first is `listener_id * 1_000_000 + 1`,
/// and each later one goes on from just after the one before.
pub open spec fn accept_start(s: SessionModel, listener_id: u64) -> nat {
    if s.next_accept.contains_key(listener_id) {
        s.next_accept[listener_id] as nat
    } else {
        (listener_id * 1_000_000 + 1) as nat
    }
}

/// Whether a socket of this kind counts against the limit.
fn is_counted(k: SocketKind) -> (r: bool)
    ensures
        r == counts(k),
{
    match k {
        SocketKind::Tcp | SocketKind::Udp => true,
        SocketKind::Listener | SocketKind::Accepted => false,
    }
}

proof fn lemma_counted_finite(m: Map<u64, SocketKind>)
    requires
        m.dom().finite(),
    ensures
        counted_ids(m).finite(),
        counted_ids(m).len() <= m.dom().len(),
{
    vstd::set_lib::lemma_len_subset(counted_ids(m), m.dom());
}

proof fn lemma_counted_remove(m: Map<u64, SocketKind>, id: u64)
    requires
        m.dom().finite(),
    ensures
        counted_ids(m.remove(id)) == counted_ids(m).remove(id),
        counted_ids(m.remove(id)).len() == if m.contains_key(id) && counts(m[id]) {
            counted_ids(m).len() - 1
        } else {
            counted_ids(m).len() as int
        },
        m.contains_key(id) && counts(m[id]) ==> counted_ids(m).len() >= 1,
{
    lemma_counted_finite(m);
    assert(counted_ids(m.remove(id)) =~= counted_ids(m).remove(id));
    if m.contains_key(id) && counts(m[id]) {
        assert(counted_ids(m).contains(id));
    } else {
        assert(counted_ids(m).remove(id) =~= counted_ids(m));
    }
}

proof fn lemma_counted_insert(m: Map<u64, SocketKind>, id: u64, kind: SocketKind)
    requires
        m.dom().finite(),
    ensures
        counted_ids(m.insert(id, kind)) == if counts(kind) {
            counted_ids(m.remove(id)).insert(id)
        } else {
            counted_ids(m.remove(id))
        },
        counted_ids(m.insert(id, kind)).len() == counted_ids(m.remove(id)).len() + if counts(
            kind,
        ) {
            1int
        } else {
            0int
        },
        m.insert(id, kind).dom().finite(),
{
    lemma_counted_finite(m.remove(id));
    if counts(kind) {
        assert(counted_ids(m.insert(id, kind)) =~= counted_ids(m.remove(id)).insert(id));
        assert(!counted_ids(m.remove(id)).contains(id));
    } else {
        assert(counted_ids(m.insert(id, kind)) =~= counted_ids(m.remove(id)));
    }
}

/// The plan for an outbound connection request.
pub open spec fn connect_plan(
    m: PolicyModel,
    s: SessionModel,
    id: u64,
    kind: ConnectKind,
    addr: Seq<char>,
    port: u16,
) -> PlanModel {
    if s.active >= m.max_connections {
        PlanModel::Reply(EventModel::Error { id, msg: "max connections reached"@ })
    } else {
        match connect_verdict(m, addr, port) {
            Err(msg) => PlanModel::Reply(EventModel::Denied { id, msg }),
            Ok(()) => match ip_addr_parse(addr) {
                Some(t) => PlanModel::Open { id, kind, host: addr, port, target: address_of(t) },
                None => PlanModel::ResolveThenOpen { id, kind, host: addr, port },
            },
        }
    }
}

/// The plan for a datagram to an explicit destination.
pub open spec fn send_to_plan(
    m: PolicyModel,
    s: SessionModel,
    id: u64,
    addr: Seq<char>,
    port: u16,
    data: Seq<char>,
) -> PlanModel {
    match b64_decode(data) {
        None => PlanModel::Nothing,
        Some(bytes) => if s.sockets.contains_key(id) && s.sockets[id] == SocketKind::Udp {
            match connect_verdict(m, addr, port) {
                Err(msg) => PlanModel::Reply(EventModel::Denied { id, msg }),
                Ok(()) => match ip_addr_parse(addr) {
                    Some(t) => PlanModel::SendTo { id, bytes, target: address_of(t), port },
                    None => PlanModel::ResolveThenSendTo { id, bytes, host: addr, port },
                },
            }
        } else {
            PlanModel::Nothing
        },
    }
}

/// The plan for data on an existing socket.
pub open spec fn send_plan(s: SessionModel, id: u64, data: Seq<char>) -> PlanModel {
    match b64_decode(data) {
        None => PlanModel::Nothing,
        Some(bytes) => if s.sockets.contains_key(id) {
            match s.sockets[id] {
                SocketKind::Tcp => PlanModel::Write { id, bytes },
                SocketKind::Accepted => PlanModel::Write { id, bytes },
                SocketKind::Udp => PlanModel::SendDefault { id, bytes },
                SocketKind::Listener => PlanModel::Nothing,
            }
        } else {
            PlanModel::Nothing
        },
    }
}

/// The session after a `close`: the socket is forgotten, and a counted one
/// no longer counts.
pub open spec fn after_close(s: SessionModel, id: u64) -> SessionModel {
    after_remove(s, id)
}

/// The plan for a `close`.
pub open spec fn close_plan(s: SessionModel, id: u64) -> PlanModel {
    if s.sockets.contains_key(id) {
        match s.sockets[id] {
            SocketKind::Listener => PlanModel::StopListener { id },
            _ => PlanModel::CloseSocket { id },
        }
    } else {
        PlanModel::Nothing
    }
}

/// What a request asks for, given the policy and the session.
pub open spec fn plan_spec(m: PolicyModel, s: SessionModel, r: RequestModel) -> PlanModel {
    match r {
        RequestModel::Connect { id, addr, port } => connect_plan(
            m,
            s,
            id,
            ConnectKind::Tcp,
            addr,
            port,
        ),
        RequestModel::ConnectTls { id, addr, port } => connect_plan(
            m,
            s,
            id,
            ConnectKind::Tls,
            addr,
            port,
        ),
        RequestModel::ConnectUdp { id, addr, port } => connect_plan(
            m,
            s,
            id,
            ConnectKind::Udp,
            addr,
            port,
        ),
        RequestModel::Bind { id, addr, port } => match bind_verdict(m, port) {
            Err(msg) => PlanModel::Reply(EventModel::Denied { id, msg }),
            Ok(()) => PlanModel::Bind { id, addr, port },
        },
        RequestModel::Listen { id, .. } => PlanModel::Reply(EventModel::Listening { id, port: 0 }),
        RequestModel::Send { id, data } => send_plan(s, id, data),
        RequestModel::SendTo { id, addr, port, data } => send_to_plan(m, s, id, addr, port, data),
        RequestModel::Close { id } => close_plan(s, id),
        RequestModel::Resolve { id, name } => PlanModel::Resolve { id, name },
    }
}

/// The session after a request: only a `close` changes it.
pub open spec fn after_request(s: SessionModel, r: RequestModel) -> SessionModel {
    match r {
        RequestModel::Close { id } => after_close(s, id),
        _ => s,
    }
}

/// The index of the first address the CIDR deny rules refuse.
pub open spec fn first_denied(m: PolicyModel, addrs: Seq<IpAddress>, port: u16) -> Option<int>
    decreases addrs.len(),
{
    if addrs.len() == 0 {
        None
    } else {
        match first_denied(m, addrs.drop_last(), port) {
            Some(i) => Some(i),
            None => if deny_net_verdict(m, addrs.last(), port) is Err {
                Some(addrs.len() - 1)
            } else {
                None
            },
        }
    }
}

/// The verdict on the addresses a hostname resolved to: there must be at
/// least one, every one of them must clear the CIDR deny rules, and the
/// connection then goes to the first.
pub open spec fn approve_spec(
    m: PolicyModel,
    id: u64,
    host: Seq<char>,
    addrs: Seq<IpAddress>,
    port: u16,
) -> Result<IpAddress, EventModel> {
    if addrs.len() == 0 {
        Err(EventModel::Error { id, msg: "no addresses found for "@ + host })
    } else {
        match first_denied(m, addrs, port) {
            Some(i) => Err(
                EventModel::Denied { id, msg: deny_net_verdict(m, addrs[i], port)->Err_0 },
            ),
            None => Ok(addrs[0]),
        }
    }
}

/// What a message read from the transport becomes.
pub open spec fn step_model(st: Step) -> Option<Result<RequestModel, EventModel>> {
    match st {
        Step::Handle(r) => Some(Ok(r@)),
        Step::Reply(e) => Some(Err(e@)),
        _ => None,
    }
}

// ── the session ────────────────────────────────────────────────────────

fn join(head: &str, tail: &str) -> (r: String)
    ensures
        r@ == head@ + tail@,
{
    let mut s = String::from_str(head);
    s.append(tail);
    s
}

impl SocketTable {
    #[verifier::type_invariant]
    spec fn inv(self) -> bool {
        &&& self.sockets@.dom().finite()
        &&& self.active == counted_ids(self.sockets@).len()
    }

    fn empty() -> (r: SocketTable)
        ensures
            r.sockets@ == Map::<u64, SocketKind>::empty(),
            r.active == 0,
    {
        let sockets: HashMap<u64, SocketKind> = HashMap::new();
        assert(counted_ids(sockets@) =~= Set::<u64>::empty());
        SocketTable { sockets, active: 0 }
    }

    /// The table without socket `id`, and what that socket was.
    fn without(self, id: u64) -> (r: (SocketTable, Option<SocketKind>))
        ensures
            r.0.sockets@ == self.sockets@.remove(id),
            r.0.active == if self.sockets@.contains_key(id) && counts(self.sockets@[id]) {
                self.active - 1
            } else {
                self.active as int
            },
            r.1 matches Some(k) ==> self.sockets@.contains_key(id) && self.sockets@[id] == k,
            r.1 is None ==> !self.sockets@.contains_key(id),
    {
        proof {
            use_type_invariant(&self);
            lemma_counted_remove(self.sockets@, id);
        }
        let SocketTable { mut sockets, mut active } = self;
        let was = sockets.remove(&id);
        match was {
            Some(k) => {
                if is_counted(k) {
                    active = active - 1;
                }
            },
            None => {
                assert(sockets@ =~= self.sockets@.remove(id));
            },
        }
        (SocketTable { sockets, active }, was)
    }

    /// The table with socket `id` recorded as `kind`, replacing any socket
    /// of that id.
    fn with(self, id: u64, kind: SocketKind) -> (r: SocketTable)
        ensures
            r.sockets@ == self.sockets@.insert(id, kind),
            r.active == counted_ids(self.sockets@.insert(id, kind)).len(),
    {
        proof {
            use_type_invariant(&self);
            lemma_counted_remove(self.sockets@, id);
            lemma_counted_insert(self.sockets@, id, kind);
        }
        let SocketTable { mut sockets, mut active } = self;
        let was = sockets.insert(id, kind);
        let size = sockets.len();
        proof {
            vstd::set_lib::lemma_len_subset(counted_ids(sockets@), sockets@.dom());
        }
        match was {
            Some(k) => {
                if is_counted(k) {
                    active = active - 1;
                }
            },
            None => {},
        }
        if is_counted(kind) {
            active = active + 1;
        }
        SocketTable { sockets, active }
    }
}

impl Session {
    /// A session with no sockets, in text mode.
    pub fn new() -> (r: Session)
        ensures
            r@.sockets == Map::<u64, SocketKind>::empty(),
            r@.active == 0,
            !r@.binary_mode,
            r@.next_accept == Map::<u64, u128>::empty(),
            r@.wf(),
    {
        let r = Session { table: SocketTable::empty(), binary_mode: false, next_accept: HashMap::new() };
        assert(counted_ids(r@.sockets) =~= Set::<u64>::empty());
        r
    }

    /// Whether events go out as binary frames.
    pub fn binary_mode(&self) -> (r: bool)
        ensures
            r == self@.binary_mode,
    {
        self.binary_mode
    }

    /// The number of outbound connections counted against the limit.
    pub fn active(&self) -> (r: usize)
        ensures
            r == self@.active,
    {
        self.table.active
    }

    /// The kind of socket `id`, if the session has one.
    pub fn socket(&self, id: u64) -> (r: Option<SocketKind>)
        ensures
            r matches Some(k) ==> self@.sockets.contains_key(id) && self@.sockets[id] == k,
            r is None ==> !self@.sockets.contains_key(id),
    {
        match self.table.sockets.get(&id) {
            Some(k) => Some(*k),
            None => None,
        }
    }

    /// Reads a message: a text frame switches the session to JSON events, a
    /// binary frame to binary events; a frame that does not parse is answered
    /// with an `error` event for id 0.
    pub fn receive(&mut self, msg: Incoming) -> (r: Step)
        ensures
            final(self)@.sockets == old(self)@.sockets,
            final(self)@.active == old(self)@.active,
            final(self)@.next_accept == old(self)@.next_accept,
            final(self)@.wf(),
            match msg {
                Incoming::Text(Ok(req)) => !final(self)@.binary_mode && step_model(r) == Some(
                    Ok::<RequestModel, EventModel>(req@),
                ),
                Incoming::Text(Err(e)) => !final(self)@.binary_mode && step_model(r) == Some(
                    Err::<RequestModel, EventModel>(
                        EventModel::Error { id: 0, msg: "invalid request: "@ + e@ },
                    ),
                ),
                Incoming::Binary(b) => final(self)@.binary_mode && step_model(r) == match decode_spec(
                    b@,
                ) {
                    Ok(req) => Some(Ok::<RequestModel, EventModel>(req)),
                    Err(e) => Some(
                        Err::<RequestModel, EventModel>(
                            EventModel::Error { id: 0, msg: "invalid binary frame: "@ + e },
                        ),
                    ),
                },
                Incoming::Close => r is Stop && final(self)@.binary_mode == old(self)@.binary_mode,
                Incoming::Other => r is Skip && final(self)@.binary_mode == old(self)@.binary_mode,
            },
    {
        proof {
            use_type_invariant(&self.table);
        }
        match msg {
            Incoming::Text(parsed) => {
                self.binary_mode = false;
                match parsed {
                    Ok(req) => Step::Handle(req),
                    Err(e) => Step::Reply(Event::error(0, join("invalid request: ", e.as_str()))),
                }
            },
            Incoming::Binary(bytes) => {
                self.binary_mode = true;
                match decode_request(bytes.as_slice()) {
                    Ok(req) => Step::Handle(req),
                    Err(e) => Step::Reply(
                        Event::error(0, join("invalid binary frame: ", e.as_str())),
                    ),
                }
            },
            Incoming::Close => Step::Stop,
            Incoming::Other => Step::Skip,
        }
    }

    fn connect(&self, policy: &Policy, id: u64, kind: ConnectKind, addr: String, port: u16) -> (r:
        Plan)
        ensures
            r@ == connect_plan(policy@, self@, id, kind, addr@, port),
    {
        if self.table.active >= policy.max_connections() {
            return Plan::Reply(Event::error(id, String::from_str("max connections reached")));
        }
        match policy.check_connect(addr.as_str(), port) {
            Err(msg) => Plan::Reply(Event::denied(id, msg)),
            Ok(()) => match parse_ip_address(addr.as_str()) {
                Some(target) => Plan::Open { id, kind, host: addr, port, target },
                None => Plan::ResolveThenOpen { id, kind, host: addr, port },
            },
        }
    }

    /// Decides what a request asks of the runtime. Outbound connections are
    /// refused once the session has `max_connections` of them, and targets
    /// the policy refuses are answered with a `denied` event; a hostname
    /// that the domain rules accept still has its addresses checked once
    /// resolved. A `close` forgets the socket.
    pub fn plan(&mut self, policy: &Policy, req: Request) -> (r: Plan)
        ensures
            r@ == plan_spec(policy@, old(self)@, req@),
            final(self)@ == after_request(old(self)@, req@),
            final(self)@.wf(),
    {
        proof {
            use_type_invariant(&self.table);
        }
        match req {
            Request::Connect { id, addr, port } => self.connect(
                policy,
                id,
                ConnectKind::Tcp,
                addr,
                port,
            ),
            Request::ConnectTls { id, addr, port } => self.connect(
                policy,
                id,
                ConnectKind::Tls,
                addr,
                port,
            ),
            Request::ConnectUdp { id, addr, port } => self.connect(
                policy,
                id,
                ConnectKind::Udp,
                addr,
                port,
            ),
            Request::Bind { id, addr, port } => match policy.check_bind(port) {
                Err(msg) => Plan::Reply(Event::denied(id, msg)),
                Ok(()) => Plan::Bind { id, addr, port },
            },
            Request::Listen { id, .. } => Plan::Reply(Event::Listening { id, port: 0 }),
            Request::Send { id, data } => match base64_decode(data.as_str()) {
                None => Plan::Nothing,
                Some(bytes) => match self.socket(id) {
                    Some(SocketKind::Tcp) => Plan::Write { id, bytes },
                    Some(SocketKind::Accepted) => Plan::Write { id, bytes },
                    Some(SocketKind::Udp) => Plan::SendDefault { id, bytes },
                    _ => Plan::Nothing,
                },
            },
            Request::SendTo { id, addr, port, data } => match base64_decode(data.as_str()) {
                None => Plan::Nothing,
                Some(bytes) => match self.socket(id) {
                    Some(SocketKind::Udp) => match policy.check_connect(addr.as_str(), port) {
                        Err(msg) => Plan::Reply(Event::denied(id, msg)),
                        Ok(()) => match parse_ip_address(addr.as_str()) {
                            Some(target) => Plan::SendTo { id, bytes, target, port },
                            None => Plan::ResolveThenSendTo { id, bytes, host: addr, port },
                        },
                    },
                    _ => Plan::Nothing,
                },
            },
            Request::Close { id } => {
                let was = self.forget(id);
                match was {
                    Some(SocketKind::Listener) => Plan::StopListener { id },
                    Some(_) => Plan::CloseSocket { id },
                    None => Plan::Nothing,
                }
            },
            Request::Resolve { id, name } => Plan::Resolve { id, name },
        }
    }

    /// Forgets the socket `id`, if the session has it, and returns what it
    /// was; a counted socket stops counting.
    fn forget(&mut self, id: u64) -> (r: Option<SocketKind>)
        ensures
            final(self)@ == after_remove(old(self)@, id),
            final(self)@.wf(),
            r matches Some(k) ==> old(self)@.sockets.contains_key(id) && old(self)@.sockets[id] == k,
            r is None ==> !old(self)@.sockets.contains_key(id),
    {
        proof {
            use_type_invariant(&self.table);
        }
        let mut t = SocketTable::empty();
        std::mem::swap(&mut t, &mut self.table);
        let (t2, was) = t.without(id);
        self.table = t2;
        proof {
            use_type_invariant(&self.table);
        }
        assert(self@ =~= after_remove(old(self)@, id));
        was
    }

    /// Records a socket that the runtime opened, replacing any socket of
    /// that id; outbound streams and UDP sockets count against the limit.
    pub fn add_socket(&mut self, id: u64, kind: SocketKind)
        ensures
            final(self)@ == after_add(old(self)@, id, kind),
            final(self)@.wf(),
    {
        let mut t = SocketTable::empty();
        std::mem::swap(&mut t, &mut self.table);
        self.table = t.with(id, kind);
        proof {
            use_type_invariant(&self.table);
        }
        assert(self@ =~= after_add(old(self)@, id, kind));
    }

    /// Records that a socket's task ended: the socket is forgotten if the
    /// session still has it. A socket already closed by request is not
    /// counted down a second time.
    pub fn remove_socket(&mut self, id: u64)
        ensures
            final(self)@ == after_remove(old(self)@, id),
            final(self)@.wf(),
    {
        self.forget(id);
    }

    /// Takes an id for a connection listener `listener_id` accepted and
    /// records the connection under it. A listener numbers its connections
    /// `listener_id * 1_000_000 + 1`, `+ 2`, and so on; an id the session
    /// already uses for another socket is passed over, so no socket is
    /// replaced. The listener's ids only grow, so none comes back. `None`
    /// when every id from there up to `u64::MAX` is taken.
    pub fn accept_connection(&mut self, listener_id: u64) -> (r: Option<u64>)
        ensures
            final(self)@.wf(),
            match r {
                Some(id) => {
                    &&& !old(self)@.sockets.contains_key(id)
                    &&& accept_start(old(self)@, listener_id) <= id
                    &&& forall|k: u64|
                        accept_start(old(self)@, listener_id) <= k < id
                            ==> old(self)@.sockets.contains_key(k)
                    &&& accept_start(final(self)@, listener_id) == id + 1
                    &&& final(self)@ == (SessionModel {
                        next_accept: old(self)@.next_accept.insert(listener_id, (id + 1) as u128),
                        ..after_add(old(self)@, id, SocketKind::Accepted)
                    })
                },
                None => {
                    &&& final(self)@ == old(self)@
                    &&& forall|k: u64|
                        accept_start(old(self)@, listener_id) <= k ==> old(self)@.sockets.contains_key(k)
                },
            },
    {
        proof {
            use_type_invariant(&self.table);
        }
        let mut candidate: u128 = match self.next_accept.get(&listener_id) {
            Some(next) => *next,
            None => listener_id as u128 * 1_000_000 + 1,
        };
        if candidate > 0xffff_ffff_ffff_ffff {
            return None;
        }
        while candidate <= 0xffff_ffff_ffff_ffff && self.table.sockets.contains_key(&(candidate as u64))
            invariant
                accept_start(self@, listener_id) <= candidate <= 0x1_0000_0000_0000_0000,
                forall|k: u64|
                    accept_start(self@, listener_id) <= k < candidate ==> self@.sockets.contains_key(k),
            decreases 0x1_0000_0000_0000_0000 - candidate,
        {
            candidate = candidate + 1;
        }
        if candidate > 0xffff_ffff_ffff_ffff {
            return None;
        }
        let id = candidate as u64;
        self.add_socket(id, SocketKind::Accepted);
        self.next_accept.insert(listener_id, candidate + 1);
        Some(id)
    }
}

proof fn lemma_first_denied_is(m: PolicyModel, addrs: Seq<IpAddress>, port: u16, i: int)
    requires
        0 <= i < addrs.len(),
        deny_net_verdict(m, addrs[i], port) is Err,
        forall|j: int| 0 <= j < i ==> deny_net_verdict(m, addrs[j], port) is Ok,
    ensures
        first_denied(m, addrs, port) == Some(i),
    decreases addrs.len(),
{
    if i == addrs.len() - 1 {
        lemma_first_denied_none(m, addrs.drop_last(), port);
    } else {
        lemma_first_denied_is(m, addrs.drop_last(), port, i);
    }
}

proof fn lemma_first_denied_none(m: PolicyModel, addrs: Seq<IpAddress>, port: u16)
    requires
        forall|j: int| 0 <= j < addrs.len() ==> deny_net_verdict(m, addrs[j], port) is Ok,
    ensures
        first_denied(m, addrs, port) is None,
    decreases addrs.len(),
{
    if addrs.len() > 0 {
        lemma_first_denied_none(m, addrs.drop_last(), port);
    }
}

/// A verdict on resolved addresses as mathematical values.
pub open spec fn approval_model(r: Result<IpAddress, Event>) -> Result<IpAddress, EventModel> {
    match r {
        Ok(ip) => Ok(ip),
        Err(e) => Err(e@),
    }
}

/// Decides about the addresses `host` resolved to: refused with an `error`
/// event when there are none, with a `denied` event for the first one the
/// CIDR deny rules cover, and otherwise approved, naming the address to
/// connect to (the first), so that no second lookup decides the target.
pub fn approve_resolved(
    policy: &Policy,
    id: u64,
    host: &str,
    addrs: &Vec<IpAddress>,
    port: u16,
) -> (r: Result<IpAddress, Event>)
    ensures
        approval_model(r) == approve_spec(policy@, id, host@, addrs@, port),
{
    if addrs.len() == 0 {
        return Err(Event::error(id, join("no addresses found for ", host)));
    }
    let mut i: usize = 0;
    while i < addrs.len()
        invariant
            i <= addrs.len(),
            forall|j: int| 0 <= j < i ==> deny_net_verdict(policy@, addrs@[j], port) is Ok,
        decreases addrs.len() - i,
    {
        match policy.check_resolved(&addrs[i], port) {
            Err(msg) => {
                proof {
                    lemma_first_denied_is(policy@, addrs@, port, i as int);
                }
                return Err(Event::denied(id, msg));
            },
            Ok(()) => {},
        }
        i = i + 1;
    }
    proof {
        lemma_first_denied_none(policy@, addrs@, port);
    }
    Ok(addrs[0])
}

/// The answer to a `resolve` request: the addresses, or an error when the
/// lookup found none.
pub fn resolution_event(id: u64, name: &str, addrs: Vec<String>) -> (r: Event)
    ensures
        addrs@.len() > 0 ==> r == (Event::Resolved { id, addrs }),
        addrs@.len() == 0 ==> r@ == (EventModel::Error { id, msg: "no addresses found for "@ + name@ }),
{
    if addrs.len() == 0 {
        Event::error(id, join("no addresses found for ", name))
    } else {
        Event::Resolved { id, addrs }
    }
}

/// The string handed to the system resolver: the name as it is when it
/// carries a port, else with port 0.
pub fn lookup_target(name: &str) -> (r: String)
    ensures
        crate::text::first_index(name@, ':') is Some ==> r@ == name@,
        crate::text::first_index(name@, ':') is None ==> r@ == name@ + ":0"@,
{
    let cs = crate::text::chars_of(name);
    match crate::text::find_from(&cs, ':', 0) {
        Some(_) => {
            assert(cs@.subrange(0, cs@.len() as int) =~= name@);
            name.to_owned()
        },
        None => {
            assert(cs@.subrange(0, cs@.len() as int) =~= name@);
            join(name, ":0")
        },
    }
}

/// The event for what one read from a stream gave: `closed` when the peer
/// closed it (nothing read), else the bytes as a `data` event.
pub fn read_event(id: u64, bytes: &[u8]) -> (r: Event)
    ensures
        bytes@.len() == 0 ==> r@ == (EventModel::Closed { id }),
        bytes@.len() > 0 ==> r@ == (EventModel::Data { id, data: b64_encode(bytes@) }),
        bytes@.len() > 0 ==> b64_decode(r@->Data_data) == Some(bytes@),
{
    if bytes.len() == 0 {
        Event::Closed { id }
    } else {
        Event::Data { id, data: base64_encode(bytes) }
    }
}

/// What one read from a stream gave: bytes (none when the peer closed the
/// stream) or a failure with its message.
pub enum ReadOutcome {
    Bytes(Vec<u8>),
    Failed(String),
}

/// A read outcome as mathematical values.
pub enum ReadOutcomeModel {
    Bytes(Seq<u8>),
    Failed(Seq<char>),
}

impl View for ReadOutcome {
    type V = ReadOutcomeModel;

    open spec fn view(&self) -> ReadOutcomeModel {
        match self {
            ReadOutcome::Bytes(b) => ReadOutcomeModel::Bytes(b@),
            ReadOutcome::Failed(m) => ReadOutcomeModel::Failed(m@),
        }
    }
}

/// The outcome ends the stream: the peer closed it, or the read failed.
pub open spec fn ends_stream(o: ReadOutcomeModel) -> bool {
    match o {
        ReadOutcomeModel::Bytes(b) => b.len() == 0,
        ReadOutcomeModel::Failed(_) => true,
    }
}

/// The event an outcome gives: `data`, or the terminal `closed` or `error`.
pub open spec fn outcome_event(id: u64, o: ReadOutcomeModel) -> EventModel {
    match o {
        ReadOutcomeModel::Bytes(b) => if b.len() == 0 {
            EventModel::Closed { id }
        } else {
            EventModel::Data { id, data: b64_encode(b) }
        },
        ReadOutcomeModel::Failed(m) => EventModel::Error { id, msg: m },
    }
}

/// The events a run of reads on stream `id` gives, and whether the stream
/// has ended: one event per read up to and including the first that ends
/// the stream, nothing after it.
pub open spec fn read_run(id: u64, outs: Seq<ReadOutcomeModel>) -> (Seq<EventModel>, bool)
    decreases outs.len(),
{
    if outs.len() == 0 {
        (Seq::empty(), false)
    } else {
        let (evs, done) = read_run(id, outs.drop_last());
        if done {
            (evs, true)
        } else {
            (evs.push(outcome_event(id, outs.last())), ends_stream(outs.last()))
        }
    }
}

/// The index of the first read that ends the stream.
pub open spec fn first_end(outs: Seq<ReadOutcomeModel>) -> Option<int>
    decreases outs.len(),
{
    if outs.len() == 0 {
        None
    } else {
        match first_end(outs.drop_last()) {
            Some(i) => Some(i),
            None => if ends_stream(outs.last()) {
                Some(outs.len() - 1)
            } else {
                None
            },
        }
    }
}

/// The bytes of the reads before the stream ended, put together.
pub open spec fn bytes_read(outs: Seq<ReadOutcomeModel>) -> Seq<u8>
    decreases outs.len(),
{
    if outs.len() == 0 {
        Seq::empty()
    } else if first_end(outs.drop_last()) is Some {
        bytes_read(outs.drop_last())
    } else {
        match outs.last() {
            ReadOutcomeModel::Bytes(b) => bytes_read(outs.drop_last()) + b,
            ReadOutcomeModel::Failed(_) => bytes_read(outs.drop_last()),
        }
    }
}

/// The bytes a run's `data` events carry, put together, given the bytes
/// each read gave.
pub open spec fn data_bytes(outs: Seq<ReadOutcomeModel>, n: int) -> Seq<u8>
    decreases n,
{
    if n <= 0 {
        Seq::empty()
    } else {
        match outs[n - 1] {
            ReadOutcomeModel::Bytes(b) => data_bytes(outs, n - 1) + b,
            ReadOutcomeModel::Failed(_) => data_bytes(outs, n - 1),
        }
    }
}

/// Reading a stream: every read before the end gives one `data` event with
/// that read's bytes, in order, so that the `data` events carry exactly the
/// bytes read; the read that ends the stream gives exactly one terminal
/// event (`closed` when the peer closed it, `error` when the read failed),
/// and nothing follows it.
pub proof fn law_stream_reads_become_events(id: u64, outs: Seq<ReadOutcomeModel>)
    ensures
        ({
            let (evs, done) = read_run(id, outs);
            match first_end(outs) {
                None => {
                    &&& !done
                    &&& evs.len() == outs.len()
                    &&& forall|i: int| 0 <= i < outs.len() ==> evs[i] == outcome_event(id, outs[i])
                        && evs[i] is Data
                    &&& data_bytes(outs, outs.len() as int) == bytes_read(outs)
                },
                Some(k) => {
                    &&& done
                    &&& evs.len() == k + 1
                    &&& forall|i: int| 0 <= i < k ==> evs[i] == outcome_event(id, outs[i])
                        && evs[i] is Data
                    &&& evs[k] == outcome_event(id, outs[k])
                    &&& (evs[k] is Closed || evs[k] is Error)
                    &&& data_bytes(outs, k) == bytes_read(outs)
                },
            }
        }),
    decreases outs.len(),
{
    if outs.len() > 0 {
        let d = outs.drop_last();
        law_stream_reads_become_events(id, d);
        lemma_first_end(d);
        lemma_first_end(outs);
        assert forall|i: int| 0 <= i < d.len() implies #[trigger] outs[i] == d[i] by {}
        assert forall|n: int| n <= d.len() implies data_bytes(outs, n) == data_bytes(d, n) by {
            lemma_data_bytes_prefix(outs, d, n);
        }
        let (evs_d, done_d) = read_run(id, d);
        let (evs, done) = read_run(id, outs);
        match first_end(d) {
            Some(k) => {
                assert(evs == evs_d);
                assert forall|i: int| 0 <= i < k implies evs[i] == outcome_event(id, outs[i])
                    && evs[i] is Data by {
                    assert(evs_d[i] == outcome_event(id, d[i]));
                    assert(outs[i] == d[i]);
                }
            },
            None => {
                assert(evs == evs_d.push(outcome_event(id, outs.last())));
                assert forall|i: int| 0 <= i < d.len() implies evs[i] == outcome_event(id, outs[i])
                    && evs[i] is Data by {
                    assert(evs_d[i] == outcome_event(id, d[i]));
                    assert(outs[i] == d[i]);
                }
                assert(data_bytes(outs, outs.len() as int) == data_bytes(outs, d.len() as int)
                    + match outs.last() {
                    ReadOutcomeModel::Bytes(b) => b,
                    ReadOutcomeModel::Failed(_) => Seq::<u8>::empty(),
                }) by {
                    match outs.last() {
                        ReadOutcomeModel::Failed(_) => {
                            assert(data_bytes(outs, d.len() as int) + Seq::<u8>::empty()
                                =~= data_bytes(outs, d.len() as int));
                        },
                        _ => {},
                    }
                }
                match outs.last() {
                    ReadOutcomeModel::Failed(_) => {},
                    ReadOutcomeModel::Bytes(b) => {
                        if b.len() == 0 {
                            assert(bytes_read(d) + b =~= bytes_read(d));
                        }
                    },
                }
            },
        }
    }
}

proof fn lemma_first_end(outs: Seq<ReadOutcomeModel>)
    ensures
        first_end(outs) matches Some(k) ==> 0 <= k < outs.len() && ends_stream(outs[k]),
    decreases outs.len(),
{
    if outs.len() > 0 {
        lemma_first_end(outs.drop_last());
    }
}

proof fn lemma_data_bytes_prefix(outs: Seq<ReadOutcomeModel>, d: Seq<ReadOutcomeModel>, n: int)
    requires
        d.len() <= outs.len(),
        n <= d.len(),
        forall|i: int| 0 <= i < d.len() ==> outs[i] == d[i],
    ensures
        data_bytes(outs, n) == data_bytes(d, n),
    decreases n,
{
    if n > 0 {
        lemma_data_bytes_prefix(outs, d, n - 1);
    }
}

/// The read side of a stream: turns each read into its event, up to and
/// including the one that ends the stream.
pub struct ReadSide {
    id: u64,
    done: bool,
}

impl ReadSide {
    /// The read side of stream `id`, not ended.
    pub fn new(id: u64) -> (r: ReadSide)
        ensures
            r.id() == id,
            !r.is_done_spec(),
    {
        ReadSide { id, done: false }
    }

    pub closed spec fn id(&self) -> u64 {
        self.id
    }

    pub closed spec fn is_done_spec(&self) -> bool {
        self.done
    }

    /// Whether the stream has ended.
    pub fn is_done(&self) -> (r: bool)
        ensures
            r == self.is_done_spec(),
    {
        self.done
    }

    /// The event for one more read: none once the stream has ended, and
    /// otherwise the read's event, as [`read_run`] adds it. A `data` event's
    /// text decodes back to the bytes read.
    pub fn next(&mut self, outcome: ReadOutcome) -> (r: Option<Event>)
        ensures
            final(self).id() == old(self).id(),
            old(self).is_done_spec() ==> r is None && final(self).is_done_spec(),
            !old(self).is_done_spec() ==> {
                &&& r matches Some(e) && e@ == outcome_event(old(self).id(), outcome@)
                &&& final(self).is_done_spec() == ends_stream(outcome@)
            },
            r matches Some(Event::Data { data, .. }) ==> outcome@ matches ReadOutcomeModel::Bytes(
                b,
            ) && b64_decode(data@) == Some(b),
    {
        if self.done {
            return None;
        }
        match outcome {
            ReadOutcome::Bytes(b) => {
                if b.len() == 0 {
                    self.done = true;
                }
                Some(read_event(self.id, b.as_slice()))
            },
            ReadOutcome::Failed(msg) => {
                self.done = true;
                Some(Event::error(self.id, msg))
            },
        }
    }
}

/// Feeding a read side the reads of a run one after another gives the
/// run's events: one more read adds exactly what [`read_run`] adds.
pub proof fn law_read_side_follows_the_run(id: u64, outs: Seq<ReadOutcomeModel>, o: ReadOutcomeModel)
    ensures
        read_run(id, outs).1 ==> read_run(id, outs.push(o)) == read_run(id, outs),
        !read_run(id, outs).1 ==> read_run(id, outs.push(o)) == (
            read_run(id, outs).0.push(outcome_event(id, o)),
            ends_stream(o),
        ),
{
    assert(outs.push(o).drop_last() =~= outs);
}

/// The event for a datagram that arrived on UDP socket `id` from `from`.
pub fn datagram_event(id: u64, bytes: &[u8], from: &SocketAddress) -> (r: Event)
    ensures
        r@ == (EventModel::DataFrom {
            id,
            data: b64_encode(bytes@),
            addr: address_text(from.ip),
            port: from.port,
        }),
        b64_decode(r@->DataFrom_data) == Some(bytes@),
{
    Event::DataFrom {
        id,
        data: base64_encode(bytes),
        addr: address_to_string(&from.ip),
        port: from.port,
    }
}

// ── laws ───────────────────────────────────────────────────────────────

proof fn lemma_first_denied_none_means_all_clear(m: PolicyModel, addrs: Seq<IpAddress>, port: u16)
    requires
        first_denied(m, addrs, port) is None,
    ensures
        forall|j: int| 0 <= j < addrs.len() ==> deny_net_verdict(m, addrs[j], port) is Ok,
    decreases addrs.len(),
{
    if addrs.len() > 0 {
        lemma_first_denied_none_means_all_clear(m, addrs.drop_last(), port);
        assert forall|j: int| 0 <= j < addrs.len() implies deny_net_verdict(m, addrs[j], port) is Ok by {
            if j < addrs.len() - 1 {
                assert(addrs.drop_last()[j] == addrs[j]);
            }
        }
    }
}

/// A hostname is checked twice: a connection to a name is only opened when
/// the name clears the domain rules, the session is under its connection
/// limit, the name resolved to at least one address, every address it
/// resolved to clears the CIDR deny rules, and the connection then goes to
/// one of those approved addresses.
pub proof fn law_hostname_is_checked_twice(
    m: PolicyModel,
    s: SessionModel,
    r: RequestModel,
    id: u64,
    kind: ConnectKind,
    host: Seq<char>,
    port: u16,
    addrs: Seq<IpAddress>,
    target: IpAddress,
)
    requires
        plan_spec(m, s, r) == (PlanModel::ResolveThenOpen { id, kind, host, port }),
        approve_spec(m, id, host, addrs, port) == Ok::<IpAddress, EventModel>(target),
    ensures
        s.active < m.max_connections,
        connect_verdict(m, host, port) is Ok,
        ip_addr_parse(host) is None,
        forall|i: int| 0 <= i < addrs.len() ==> deny_net_verdict(m, addrs[i], port) is Ok,
        addrs.len() > 0 && target == addrs[0],
{
    lemma_first_denied_none_means_all_clear(m, addrs, port);
}

/// A datagram to a named destination is checked the same way: the name
/// against the domain rules, then every address it resolved to against the
/// CIDR deny rules.
pub proof fn law_datagram_destination_is_checked_twice(
    m: PolicyModel,
    s: SessionModel,
    r: RequestModel,
    id: u64,
    bytes: Seq<u8>,
    host: Seq<char>,
    port: u16,
    addrs: Seq<IpAddress>,
    target: IpAddress,
)
    requires
        plan_spec(m, s, r) == (PlanModel::ResolveThenSendTo { id, bytes, host, port }),
        approve_spec(m, id, host, addrs, port) == Ok::<IpAddress, EventModel>(target),
    ensures
        s.sockets.contains_key(id) && s.sockets[id] == SocketKind::Udp,
        connect_verdict(m, host, port) is Ok,
        forall|i: int| 0 <= i < addrs.len() ==> deny_net_verdict(m, addrs[i], port) is Ok,
        addrs.len() > 0 && target == addrs[0],
{
    lemma_first_denied_none_means_all_clear(m, addrs, port);
}

/// A literal address is opened only if the CIDR rules accept it on that
/// port, and the connection goes to exactly that address.
pub proof fn law_literal_target_is_the_approved_address(
    m: PolicyModel,
    s: SessionModel,
    r: RequestModel,
    id: u64,
    kind: ConnectKind,
    host: Seq<char>,
    port: u16,
    target: IpAddress,
)
    requires
        plan_spec(m, s, r) == (PlanModel::Open { id, kind, host, port, target }),
    ensures
        s.active < m.max_connections,
        ip_addr_parse(host) == Some((target.v6, target.bits)),
        crate::policy::ip_verdict(m, target, port) is Ok,
{
}

/// A session at its connection limit opens nothing more: every outbound
/// connection request is answered with an error.
pub proof fn law_connection_limit(m: PolicyModel, s: SessionModel, r: RequestModel)
    requires
        s.active >= m.max_connections,
        r is Connect || r is ConnectTls || r is ConnectUdp,
    ensures
        plan_spec(m, s, r) == PlanModel::Reply(
            EventModel::Error { id: r.id(), msg: "max connections reached"@ },
        ),
{
}

/// The connection count is kept exactly: recording or forgetting a socket
/// leaves `active` equal to the number of counted sockets in the table (a
/// table that fits in memory, as the session's own does).
pub proof fn law_count_is_the_counted_sockets(s: SessionModel, id: u64, kind: SocketKind)
    requires
        s.wf(),
        s.sockets.insert(id, kind).dom().len() <= usize::MAX,
    ensures
        after_add(s, id, kind).wf(),
        after_remove(s, id).wf(),
        after_add(s, id, kind).active == counted_ids(s.sockets.insert(id, kind)).len(),
        after_remove(s, id).active == counted_ids(s.sockets.remove(id)).len(),
{
    lemma_counted_remove(s.sockets, id);
    lemma_counted_insert(s.sockets, id, kind);
    lemma_counted_finite(s.sockets.insert(id, kind));
}

/// A connection closed by request is counted down once: the close forgets
/// it and lowers the count by one, and the end of its task afterwards
/// changes nothing.
pub proof fn law_close_counts_down_once(s: SessionModel, id: u64)
    requires
        s.wf(),
        s.sockets.contains_key(id),
        counts(s.sockets[id]),
    ensures
        after_close(s, id).active == s.active - 1,
        after_close(s, id).wf(),
        after_remove(after_close(s, id), id) == after_close(s, id),
{
    lemma_counted_remove(s.sockets, id);
}

/// A connection is only opened while fewer than `max_connections` counted
/// sockets are open in the session.
pub proof fn law_open_connections_stay_below_the_limit(m: PolicyModel, s: SessionModel, r: RequestModel)
    requires
        s.wf(),
        plan_spec(m, s, r) is Open || plan_spec(m, s, r) is ResolveThenOpen,
    ensures
        counted_ids(s.sockets).len() < m.max_connections,
{
}

/// Data sent on a socket goes where the socket's kind says: written to a
/// stream, whether the session opened it or a listener accepted it; sent as
/// a datagram to a UDP socket's own target; dropped on a listener, on an id
/// the session does not hold, and when the data is not base64. Sending
/// changes nothing in the session.
pub proof fn law_send_goes_to_the_socket(
    m: PolicyModel,
    s: SessionModel,
    id: u64,
    data: Seq<char>,
    bytes: Seq<u8>,
)
    ensures
        after_request(s, RequestModel::Send { id, data }) == s,
        b64_decode(data) is None ==> plan_spec(m, s, RequestModel::Send { id, data })
            == PlanModel::Nothing,
        !s.sockets.contains_key(id) ==> plan_spec(m, s, RequestModel::Send { id, data })
            == PlanModel::Nothing,
        (b64_decode(data) == Some(bytes) && s.sockets.contains_key(id) && (s.sockets[id]
            == SocketKind::Tcp || s.sockets[id] == SocketKind::Accepted)) ==> plan_spec(
            m,
            s,
            RequestModel::Send { id, data },
        ) == (PlanModel::Write { id, bytes }),
        (b64_decode(data) == Some(bytes) && s.sockets.contains_key(id) && s.sockets[id]
            == SocketKind::Udp) ==> plan_spec(m, s, RequestModel::Send { id, data })
            == (PlanModel::SendDefault { id, bytes }),
        (s.sockets.contains_key(id) && s.sockets[id] == SocketKind::Listener) ==> plan_spec(
            m,
            s,
            RequestModel::Send { id, data },
        ) == PlanModel::Nothing,
{
}

/// A `close` forgets the socket: a listener is shut down, any other socket
/// is closed, and an id the session does not hold changes nothing.
pub proof fn law_close_forgets_the_socket(m: PolicyModel, s: SessionModel, id: u64)
    ensures
        after_request(s, RequestModel::Close { id }).sockets == s.sockets.remove(id),
        !s.sockets.contains_key(id) ==> plan_spec(m, s, RequestModel::Close { id })
            == PlanModel::Nothing && after_request(s, RequestModel::Close { id }) == s,
        (s.sockets.contains_key(id) && s.sockets[id] == SocketKind::Listener) ==> plan_spec(
            m,
            s,
            RequestModel::Close { id },
        ) == (PlanModel::StopListener { id }),
        (s.sockets.contains_key(id) && s.sockets[id] != SocketKind::Listener) ==> plan_spec(
            m,
            s,
            RequestModel::Close { id },
        ) == (PlanModel::CloseSocket { id }),
{
    if !s.sockets.contains_key(id) {
        assert(s.sockets.remove(id) =~= s.sockets);
    }
}

} // verus!
