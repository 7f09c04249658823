//! Forwarding of TCP connections: which connections are open, and what is done
//! with what comes in on either side.
use vstd::prelude::*;

use crate::auth::{AuthDecision, AuthRequest, AuthRequestView};
use crate::controller::Traffic;
use crate::forward_args::{forward_key, key_of, last_port};
use crate::model::{copy_bytes, lemma_views_push, opt_view, views};
use crate::number::{decimal, decimal_i64};
use crate::rtc::tunnel_message::{TunnelMessage, TunnelMessageView};
use crate::text;
use crate::text::texts;
use crate::text_map::{sorted, TextMap};
use crate::text_set::TextSet;

pub mod sequence;

use sequence::{SeqDecision, SeqState};

verus! {

/// How many bytes are read from a connection at once.
pub const TCP_BUFFER_SIZE: usize = 4096;

/// How long a local connection waits for a serving peer, in milliseconds.
pub const TUNNEL_READY_TIMEOUT_MS: u64 = 30000;

/// How often it looks for one, in milliseconds.
pub const RETRY_INTERVAL_MS: u64 = 50;

/// How long the connections of a peer that left are kept, in milliseconds.
pub const PEER_LEAVE_GRACE_MS: u64 = 10000;

/// How often the peers with open connections are pinged, in milliseconds.
pub const TUNNEL_KEEPALIVE_INTERVAL_MS: u64 = 15000;

/// The address that a forward connects to; a port alone stands for one on this
/// machine.
pub open spec fn resolved(remote_addr: Seq<char>) -> Seq<char> {
    if remote_addr.len() > 0 && !remote_addr.contains(':') {
        "127.0.0.1:"@ + remote_addr
    } else {
        remote_addr
    }
}

/// The target of a forward that was given none.
pub open spec fn default_target(proto: Seq<char>, listen_port: int, remote_addr: Seq<char>) -> Seq<
    char,
> {
    if remote_addr.len() == 0 {
        key_of(proto, listen_port)
    } else {
        key_of(proto, last_port(remote_addr) as int)
    }
}

/// Finds the target of a forward that was given none.
pub fn target_for(proto: &str, listen_port: i32, remote_addr: &str) -> (r: String)
    ensures
        r@ == default_target(proto@, listen_port as int, remote_addr@),
{
    if remote_addr.unicode_len() == 0 {
        let port = decimal_i64(listen_port as i64);
        text::cat3(proto, ":", port.as_str())
    } else {
        forward_key(proto, remote_addr)
    }
}

/// The address on which a forward listens, unless its port says that it does
/// not.
pub open spec fn bind_address(listen_port: i32) -> Option<Seq<char>> {
    if listen_port == -1 {
        None
    } else {
        Some("0.0.0.0:"@ + decimal(listen_port as int))
    }
}

/// Finds the address on which a forward listens.
pub fn bind_address_for(listen_port: i32) -> (r: Option<String>)
    ensures
        opt_view(r) == bind_address(listen_port),
{
    if listen_port == -1 {
        None
    } else {
        let port = decimal_i64(listen_port as i64);
        Some(text::cat2("0.0.0.0:", port.as_str()))
    }
}

/// Whether a local connection can go ahead.
#[derive(Debug, PartialEq, Eq)]
pub enum Readiness {
    /// To this peer.
    Ready(String),
    /// Not yet: look again later.
    Retry,
    /// No: no peer came in time.
    TimedOut,
}

/// Decides whether a local connection can go ahead: to the first of the serving
/// peers, where there is one.
pub fn tunnel_ready(peers: &Vec<String>, now_ms: u64, deadline_ms: u64) -> (r: Readiness)
    ensures
        match r {
            Readiness::Ready(peer_id) => peers@.len() > 0 && peer_id@ == peers@[0]@,
            Readiness::TimedOut => peers@.len() == 0 && now_ms >= deadline_ms,
            Readiness::Retry => peers@.len() == 0 && now_ms < deadline_ms,
        },
{
    if peers.len() > 0 {
        Readiness::Ready(text::copy(peers[0].as_str()))
    } else if now_ms >= deadline_ms {
        Readiness::TimedOut
    } else {
        Readiness::Retry
    }
}

/// A connection that is open.
pub struct TunnelConn {
    peer_id: String,
    notify_remote: bool,
    recv_seq: SeqState,
}

/// The model of `TunnelConn`.
pub struct ConnView {
    pub peer_id: Seq<char>,
    /// The peer is told when the connection closes here.
    pub notify_remote: bool,
    pub recv_seq: SeqState,
}

impl View for TunnelConn {
    type V = ConnView;

    closed spec fn view(&self) -> ConnView {
        ConnView {
            peer_id: self.peer_id@,
            notify_remote: self.notify_remote,
            recv_seq: self.recv_seq,
        }
    }
}

/// The connections of one forward.
pub struct TcpManager {
    target: String,
    remote_addr: String,
    conns: TextMap<TunnelConn>,
    peer_close_epoch: TextMap<u64>,
    keepalive_running: bool,
}

/// The model of `TcpManager`.
#[verifier::ext_equal]
pub struct TcpView {
    pub target: Seq<char>,
    pub remote_addr: Seq<char>,
    pub conns: Map<Seq<char>, ConnView>,
    /// How often closing the connections of each peer was planned or called
    /// off.
    pub close_epochs: Map<Seq<char>, u64>,
    pub keepalive: bool,
}

impl View for TcpManager {
    type V = TcpView;

    closed spec fn view(&self) -> TcpView {
        TcpView {
            target: self.target@,
            remote_addr: self.remote_addr@,
            conns: self.conns@,
            close_epochs: self.peer_close_epoch@,
            keepalive: self.keepalive_running,
        }
    }
}

/// A message about a connection without data.
pub open spec fn control_message(
    msg_type: Seq<char>,
    conn_id: Seq<char>,
    target: Seq<char>,
) -> TunnelMessageView {
    TunnelMessageView { msg_type, conn_id, target, payload: None, seq: None }
}

fn control(msg_type: &str, conn_id: &str, target: &str) -> (r: TunnelMessage)
    ensures
        r@ == control_message(msg_type@, conn_id@, target@),
{
    TunnelMessage {
        msg_type: text::copy(msg_type),
        conn_id: text::copy(conn_id),
        target: text::copy(target),
        payload: None,
        seq: None,
    }
}

fn counted(peer_id: &str, traffic: Traffic) -> (r: Vec<TcpAction>)
    ensures
        views(r@) == seq![TcpActionView::Count { peer_id: peer_id@, traffic }],
{
    let mut out: Vec<TcpAction> = Vec::new();
    out.push(TcpAction::Count { peer_id: text::copy(peer_id), traffic });
    assert(views(out@) =~= seq![TcpActionView::Count { peer_id: peer_id@, traffic }]);
    out
}

/// Something that is to be done for a forward.
#[derive(Debug, PartialEq, Eq)]
pub enum TcpAction {
    /// Send a message to a peer.
    Send { peer_id: String, message: TunnelMessage },
    /// Count traffic with a peer.
    Count { peer_id: String, traffic: Traffic },
    /// Start pinging the peers.
    StartKeepalive,
    /// Ask whether a peer may connect, and for which connection.
    Authorize { request: AuthRequest, conn_id: String },
    /// Connect to an address for a peer.
    Connect { addr: String, peer_id: String, conn_id: String },
    /// Write data of a peer to a connection.
    Write { peer_id: String, conn_id: String, payload: Vec<u8> },
}

/// The model of `TcpAction`.
pub enum TcpActionView {
    Send { peer_id: Seq<char>, message: TunnelMessageView },
    Count { peer_id: Seq<char>, traffic: Traffic },
    StartKeepalive,
    Authorize { request: AuthRequestView, conn_id: Seq<char> },
    Connect { addr: Seq<char>, peer_id: Seq<char>, conn_id: Seq<char> },
    Write { peer_id: Seq<char>, conn_id: Seq<char>, payload: Seq<u8> },
}

impl View for TcpAction {
    type V = TcpActionView;

    open spec fn view(&self) -> TcpActionView {
        match self {
            TcpAction::Send { peer_id, message } => TcpActionView::Send {
                peer_id: peer_id@,
                message: message@,
            },
            TcpAction::Count { peer_id, traffic } => TcpActionView::Count {
                peer_id: peer_id@,
                traffic: *traffic,
            },
            TcpAction::StartKeepalive => TcpActionView::StartKeepalive,
            TcpAction::Authorize { request, conn_id } => TcpActionView::Authorize {
                request: request@,
                conn_id: conn_id@,
            },
            TcpAction::Connect { addr, peer_id, conn_id } => TcpActionView::Connect {
                addr: addr@,
                peer_id: peer_id@,
                conn_id: conn_id@,
            },
            TcpAction::Write { peer_id, conn_id, payload } => TcpActionView::Write {
                peer_id: peer_id@,
                conn_id: conn_id@,
                payload: payload@,
            },
        }
    }
}

/// No action.
pub open spec fn no_action() -> Seq<TcpActionView> {
    Seq::empty()
}

impl TcpView {
    /// The state after a connection was opened; it takes the place of one with
    /// the same id.
    pub open spec fn opened(
        self,
        conn_id: Seq<char>,
        peer_id: Seq<char>,
        notify_remote: bool,
    ) -> TcpView {
        TcpView {
            conns: self.conns.insert(
                conn_id,
                ConnView { peer_id, notify_remote, recv_seq: sequence::fresh_seq() },
            ),
            keepalive: true,
            ..self
        }
    }

    /// What opening a connection sets off: it is counted where it is new, and
    /// the peers are pinged from now on.
    pub open spec fn on_track(self, conn_id: Seq<char>, peer_id: Seq<char>) -> Seq<TcpActionView> {
        let counted = if self.conns.contains_key(conn_id) {
            no_action()
        } else {
            seq![TcpActionView::Count { peer_id, traffic: Traffic::Opened }]
        };
        if self.keepalive {
            counted
        } else {
            counted.push(TcpActionView::StartKeepalive)
        }
    }

    /// The state after a connection was closed.
    pub open spec fn without(self, conn_id: Seq<char>) -> TcpView {
        TcpView { conns: self.conns.remove(conn_id), ..self }
    }

    /// What closing a connection sets off: it is counted, and the peer is told
    /// where that is wanted. A connection that is not open sets off nothing.
    pub open spec fn on_close(self, conn_id: Seq<char>, notify_remote: bool) -> Seq<TcpActionView> {
        if !self.conns.contains_key(conn_id) {
            no_action()
        } else {
            let conn = self.conns[conn_id];
            let counted = seq![
                TcpActionView::Count { peer_id: conn.peer_id, traffic: Traffic::Closed },
            ];
            if notify_remote && conn.notify_remote {
                counted.push(
                    TcpActionView::Send {
                        peer_id: conn.peer_id,
                        message: control_message("close"@, conn_id, self.target),
                    },
                )
            } else {
                counted
            }
        }
    }

    /// The request that a peer makes when it wants to connect.
    pub open spec fn request_of(self, peer_id: Seq<char>) -> AuthRequestView {
        AuthRequestView {
            peer_id,
            forward_key: self.target,
            target_addr: self.remote_addr,
            proto: "tcp"@,
        }
    }

    /// Tells a peer that a connection is closed.
    pub open spec fn close_reply(self, peer_id: Seq<char>, conn_id: Seq<char>) -> Seq<
        TcpActionView,
    > {
        seq![
            TcpActionView::Send {
                peer_id,
                message: control_message("close"@, conn_id, self.target),
            },
        ]
    }

    /// What the decision on a request sets off: a connection for an allowed one,
    /// and for a denied one the word that it is closed.
    pub open spec fn on_decision(
        self,
        peer_id: Seq<char>,
        conn_id: Seq<char>,
        decision: AuthDecision,
    ) -> Seq<TcpActionView> {
        if decision.allowed() {
            seq![TcpActionView::Connect { addr: self.remote_addr, peer_id, conn_id }]
        } else {
            self.close_reply(peer_id, conn_id)
        }
    }

    /// What the number of a data message says about it.
    pub open spec fn verdict(self, message: TunnelMessageView) -> SeqDecision {
        sequence::decision(self.conns[message.conn_id].recv_seq, message.seq)
    }

    /// The state after data of a peer. The number of each message counts, also
    /// of one without data; a gap closes the connection.
    pub open spec fn after_data(self, message: TunnelMessageView) -> TcpView {
        if !self.conns.contains_key(message.conn_id) {
            self
        } else {
            match self.verdict(message) {
                SeqDecision::Accept | SeqDecision::Duplicate { .. } => TcpView {
                    conns: self.conns.insert(
                        message.conn_id,
                        ConnView {
                            recv_seq: sequence::observed(
                                self.conns[message.conn_id].recv_seq,
                                message.seq,
                            ),
                            ..self.conns[message.conn_id]
                        },
                    ),
                    ..self
                },
                _ => self.without(message.conn_id),
            }
        }
    }

    /// What data of a peer set off.
    pub open spec fn on_data(self, message: TunnelMessageView) -> Seq<TcpActionView> {
        if !self.conns.contains_key(message.conn_id) {
            no_action()
        } else {
            match self.verdict(message) {
                SeqDecision::Accept => match message.payload {
                    Some(payload) => if payload.len() > 0 {
                        seq![
                            TcpActionView::Write {
                                peer_id: self.conns[message.conn_id].peer_id,
                                conn_id: message.conn_id,
                                payload,
                            },
                        ]
                    } else {
                        no_action()
                    },
                    None => no_action(),
                },
                SeqDecision::Duplicate { .. } => no_action(),
                _ => self.on_close(message.conn_id, true),
            }
        }
    }

    /// The state after a message of a peer.
    pub open spec fn after_message(self, message: TunnelMessageView) -> TcpView {
        if message.msg_type == "data"@ {
            self.after_data(message)
        } else if message.msg_type == "close"@ {
            self.without(message.conn_id)
        } else {
            self
        }
    }

    /// What a message of a peer sets off. Pings and messages of unknown kinds
    /// set off nothing.
    pub open spec fn on_message(self, peer_id: Seq<char>, message: TunnelMessageView) -> Seq<
        TcpActionView,
    > {
        if message.msg_type == "connect"@ {
            seq![
                TcpActionView::Authorize {
                    request: self.request_of(peer_id),
                    conn_id: message.conn_id,
                },
            ]
        } else if message.msg_type == "data"@ {
            self.on_data(message)
        } else if message.msg_type == "close"@ {
            self.on_close(message.conn_id, false)
        } else {
            no_action()
        }
    }

    /// What a local connection to a peer sets off: beside being noted, the peer is
    /// asked to connect.
    pub open spec fn on_open_local(self, conn_id: Seq<char>, peer_id: Seq<char>) -> Seq<
        TcpActionView,
    > {
        self.on_track(conn_id, peer_id).push(
            TcpActionView::Send {
                peer_id,
                message: control_message("connect"@, conn_id, self.target),
            },
        )
    }

    /// The state after the connection for a peer was made, or failed.
    pub open spec fn after_connect(
        self,
        conn_id: Seq<char>,
        peer_id: Seq<char>,
        connected: bool,
    ) -> TcpView {
        if connected {
            self.opened(conn_id, peer_id, true)
        } else {
            self
        }
    }

    /// What that sets off.
    pub open spec fn on_connect(
        self,
        conn_id: Seq<char>,
        peer_id: Seq<char>,
        connected: bool,
    ) -> Seq<TcpActionView> {
        if connected {
            self.on_track(conn_id, peer_id)
        } else {
            self.close_reply(peer_id, conn_id)
        }
    }

    /// The state after data went on from one side to the other, or could not.
    pub open spec fn after_passing(self, conn_id: Seq<char>, passed: bool) -> TcpView {
        if passed {
            self
        } else {
            self.without(conn_id)
        }
    }

    /// What writing the data of a peer sets off, or that it failed.
    pub open spec fn on_write(
        self,
        peer_id: Seq<char>,
        conn_id: Seq<char>,
        len: usize,
        written: bool,
    ) -> Seq<TcpActionView> {
        if written {
            seq![TcpActionView::Count { peer_id, traffic: Traffic::BytesOut(len) }]
        } else {
            self.on_close(conn_id, true)
        }
    }

    /// What sending local data sets off, or that it failed.
    pub open spec fn on_send(
        self,
        peer_id: Seq<char>,
        conn_id: Seq<char>,
        len: usize,
        sent: bool,
    ) -> Seq<TcpActionView> {
        if sent {
            seq![TcpActionView::Count { peer_id, traffic: Traffic::BytesIn(len) }]
        } else {
            self.on_close(conn_id, false)
        }
    }

    /// The state after a plan to close the connections of a peer was called off.
    pub open spec fn called_off(self, peer_id: Seq<char>) -> TcpView {
        if self.close_epochs.contains_key(peer_id) {
            self.next_close_epoch(peer_id)
        } else {
            self
        }
    }

    /// The state after the grace time of a plan.
    pub open spec fn after_grace(self, peer_id: Seq<char>, plan: u64) -> TcpView {
        if self.close_epoch(peer_id) == plan {
            self.without_peer(peer_id)
        } else {
            self
        }
    }

    /// The connections that end with it.
    pub open spec fn ended_by_grace(self, peer_id: Seq<char>, plan: u64) -> Seq<Seq<char>> {
        if self.close_epoch(peer_id) == plan {
            self.conns_of(peer_id)
        } else {
            Seq::empty()
        }
    }

    /// A ping for each peer with open connections.
    pub open spec fn pings(self) -> Seq<TcpActionView> {
        sorted(self.active_peers()).map_values(
            |peer_id: Seq<char>|
                TcpActionView::Send {
                    peer_id,
                    message: control_message("ping"@, ""@, self.target),
                },
        )
    }

    /// The state after it was time to ping the peers.
    pub open spec fn after_tick(self) -> TcpView {
        if self.pings().len() == 0 {
            TcpView { keepalive: false, ..self }
        } else {
            self
        }
    }

    /// The connections of a peer, in the order of their ids.
    pub open spec fn conns_of(self, peer_id: Seq<char>) -> Seq<Seq<char>> {
        sorted(self.conns.dom()).filter(|id: Seq<char>| self.conns[id].peer_id == peer_id)
    }

    /// The state after all connections of a peer were closed.
    pub open spec fn without_peer(self, peer_id: Seq<char>) -> TcpView {
        TcpView {
            conns: Map::new(
                |id: Seq<char>| self.conns.contains_key(id) && self.conns[id].peer_id != peer_id,
                |id: Seq<char>| self.conns[id],
            ),
            ..self
        }
    }

    /// The peers with open connections.
    pub open spec fn active_peers(self) -> Set<Seq<char>> {
        Set::new(
            |peer_id: Seq<char>|
                exists|id: Seq<char>|
                    #[trigger] self.conns.contains_key(id) && self.conns[id].peer_id == peer_id,
        )
    }

    /// How often closing the connections of a peer was planned or called off.
    pub open spec fn close_epoch(self, peer_id: Seq<char>) -> u64 {
        if self.close_epochs.contains_key(peer_id) {
            self.close_epochs[peer_id]
        } else {
            0
        }
    }

    /// The state after that count went up; it wraps around.
    pub open spec fn next_close_epoch(self, peer_id: Seq<char>) -> TcpView {
        TcpView {
            close_epochs: self.close_epochs.insert(
                peer_id,
                if self.close_epoch(peer_id) == u64::MAX {
                    0
                } else {
                    (self.close_epoch(peer_id) + 1) as u64
                },
            ),
            ..self
        }
    }
}

impl TcpManager {
    /// A forward without connections.
    pub fn new(target: &str, remote_addr: &str) -> (r: Self)
        ensures
            r@ == (TcpView {
                target: target@,
                remote_addr: resolved(remote_addr@),
                conns: Map::empty(),
                close_epochs: Map::empty(),
                keepalive: false,
            }),
    {
        let addr = if remote_addr.unicode_len() > 0 && !text::contains_char(remote_addr, ':') {
            text::cat2("127.0.0.1:", remote_addr)
        } else {
            text::copy(remote_addr)
        };
        TcpManager {
            target: text::copy(target),
            remote_addr: addr,
            conns: TextMap::new(),
            peer_close_epoch: TextMap::new(),
            keepalive_running: false,
        }
    }

    /// Whether the target of the forward is announced to the peers: where it
    /// connects to an address.
    pub fn publishes(&self) -> (r: bool)
        ensures
            r == (self@.remote_addr.len() > 0),
    {
        self.remote_addr.as_str().unicode_len() > 0
    }

    /// Whether a connection is open.
    pub fn has_conn(&self, conn_id: &str) -> (r: bool)
        ensures
            r == self@.conns.contains_key(conn_id@),
    {
        self.conns.contains_key(conn_id)
    }

    /// Whether the peers are being pinged.
    pub fn keepalive_running(&self) -> (r: bool)
        ensures
            r == self@.keepalive,
    {
        self.keepalive_running
    }

    /// Whether closing the connections of a peer was ever planned.
    pub fn has_close_epoch(&self, peer_id: &str) -> (r: bool)
        ensures
            r == self@.close_epochs.contains_key(peer_id@),
    {
        self.peer_close_epoch.contains_key(peer_id)
    }

    /// Notes a connection that was opened.
    pub fn track_conn(&mut self, conn_id: &str, peer_id: &str, notify_remote: bool) -> (r: Vec<
        TcpAction,
    >)
        ensures
            final(self)@ == old(self)@.opened(conn_id@, peer_id@, notify_remote),
            views(r@) == old(self)@.on_track(conn_id@, peer_id@),
    {
        let mut out: Vec<TcpAction> = Vec::new();
        if !self.conns.contains_key(conn_id) {
            out.push(
                TcpAction::Count { peer_id: text::copy(peer_id), traffic: Traffic::Opened },
            );
        }
        self.conns.insert(
            text::copy(conn_id),
            TunnelConn { peer_id: text::copy(peer_id), notify_remote, recv_seq: SeqState::new() },
        );
        if !self.keepalive_running {
            self.keepalive_running = true;
            out.push(TcpAction::StartKeepalive);
        }
        assert(views(out@) =~= old(self)@.on_track(conn_id@, peer_id@));
        out
    }

    /// A local connection goes to a peer: it is noted, and the peer is asked to
    /// connect.
    pub fn open_local(&mut self, conn_id: &str, peer_id: &str) -> (r: Vec<TcpAction>)
        ensures
            final(self)@ == old(self)@.opened(conn_id@, peer_id@, true),
            views(r@) == old(self)@.on_open_local(conn_id@, peer_id@),
    {
        let mut out = self.track_conn(conn_id, peer_id, true);
        let message = control("connect", conn_id, self.target.as_str());
        let action = TcpAction::Send { peer_id: text::copy(peer_id), message };
        proof {
            lemma_views_push(out@, action);
        }
        out.push(action);
        out
    }

    /// Closes a connection, and tells the peer where that is wanted.
    pub fn close_conn(&mut self, conn_id: &str, notify_remote: bool) -> (r: Vec<TcpAction>)
        ensures
            final(self)@ == old(self)@.without(conn_id@),
            views(r@) == old(self)@.on_close(conn_id@, notify_remote),
    {
        let mut out: Vec<TcpAction> = Vec::new();
        match self.conns.remove(conn_id) {
            Some(conn) => {
                out.push(
                    TcpAction::Count {
                        peer_id: text::copy(conn.peer_id.as_str()),
                        traffic: Traffic::Closed,
                    },
                );
                if notify_remote && conn.notify_remote {
                    let message = control("close", conn_id, self.target.as_str());
                    out.push(TcpAction::Send { peer_id: conn.peer_id, message });
                }
            },
            None => {},
        }
        assert(views(out@) =~= old(self)@.on_close(conn_id@, notify_remote));
        out
    }

    fn send_close(&self, peer_id: &str, conn_id: &str) -> (r: Vec<TcpAction>)
        ensures
            views(r@) == self@.close_reply(peer_id@, conn_id@),
    {
        let mut out: Vec<TcpAction> = Vec::new();
        let message = control("close", conn_id, self.target.as_str());
        out.push(TcpAction::Send { peer_id: text::copy(peer_id), message });
        assert(views(out@) =~= self@.close_reply(peer_id@, conn_id@));
        out
    }

    /// A message of a peer for this forward.
    pub fn on_tunnel_message(&mut self, peer_id: &str, tm: &TunnelMessage) -> (r: Vec<TcpAction>)
        ensures
            final(self)@ == old(self)@.after_message(tm@),
            views(r@) == old(self)@.on_message(peer_id@, tm@),
    {
        proof {
            reveal_strlit("connect");
            reveal_strlit("data");
            reveal_strlit("close");
            assert("connect"@[1] == 'o' && "data"@[1] == 'a' && "close"@[1] == 'l');
        }
        let kind = tm.msg_type.as_str();
        if text::same(kind, "connect") {
            let mut out: Vec<TcpAction> = Vec::new();
            let request = AuthRequest {
                peer_id: text::copy(peer_id),
                forward_key: text::copy(self.target.as_str()),
                target_addr: text::copy(self.remote_addr.as_str()),
                proto: text::copy("tcp"),
            };
            out.push(TcpAction::Authorize { request, conn_id: text::copy(tm.conn_id.as_str()) });
            assert(views(out@) =~= old(self)@.on_message(peer_id@, tm@));
            out
        } else if text::same(kind, "data") {
            self.handle_remote_data(tm)
        } else if text::same(kind, "close") {
            self.close_conn(tm.conn_id.as_str(), false)
        } else {
            let out: Vec<TcpAction> = Vec::new();
            assert(views(out@) =~= no_action());
            out
        }
    }

    /// A peer's request to connect was decided: a connection is made for it, or
    /// the peer is told that it is closed.
    pub fn on_authorized(&self, peer_id: &str, conn_id: &str, decision: AuthDecision) -> (r: Vec<
        TcpAction,
    >)
        ensures
            views(r@) == self@.on_decision(peer_id@, conn_id@, decision),
    {
        if !decision.is_allowed() {
            return self.send_close(peer_id, conn_id);
        }
        let mut out: Vec<TcpAction> = Vec::new();
        out.push(
            TcpAction::Connect {
                addr: text::copy(self.remote_addr.as_str()),
                peer_id: text::copy(peer_id),
                conn_id: text::copy(conn_id),
            },
        );
        assert(views(out@) =~= self@.on_decision(peer_id@, conn_id@, decision));
        out
    }

    /// The connection for a peer was made, or it failed: then the peer is told
    /// that it is closed.
    pub fn on_connected(&mut self, peer_id: &str, conn_id: &str, connected: bool) -> (r: Vec<
        TcpAction,
    >)
        ensures
            final(self)@ == old(self)@.after_connect(conn_id@, peer_id@, connected),
            views(r@) == old(self)@.on_connect(conn_id@, peer_id@, connected),
    {
        if connected {
            self.track_conn(conn_id, peer_id, true)
        } else {
            self.send_close(peer_id, conn_id)
        }
    }

    /// Data of a peer for a connection.
    pub fn handle_remote_data(&mut self, tm: &TunnelMessage) -> (r: Vec<TcpAction>)
        ensures
            final(self)@ == old(self)@.after_data(tm@),
            views(r@) == old(self)@.on_data(tm@),
    {
        let mut out: Vec<TcpAction> = Vec::new();
        let conn_id = tm.conn_id.as_str();
        let mut conn = match self.conns.remove(conn_id) {
            Some(conn) => conn,
            None => {
                assert(views(out@) =~= no_action());
                assert(self@.conns =~= old(self)@.conns);
                return out;
            },
        };
        let peer_id = text::copy(conn.peer_id.as_str());
        let decision = conn.recv_seq.observe(tm.seq);
        let ghost after = conn@;
        self.conns.insert(text::copy(conn_id), conn);
        let ghost mid = self@;
        assert(mid.conns =~= old(self)@.conns.insert(conn_id@, after));
        match decision {
            SeqDecision::Duplicate { .. } => {
                assert(views(out@) =~= no_action());
                out
            },
            SeqDecision::Gap { .. } | SeqDecision::Inconsistent => {
                let closed = self.close_conn(conn_id, true);
                assert(mid.conns.remove(conn_id@) =~= old(self)@.conns.remove(conn_id@));
                assert(mid.on_close(conn_id@, true) == old(self)@.on_close(conn_id@, true));
                closed
            },
            SeqDecision::Accept => {
                if let Some(payload) = &tm.payload {
                    if payload.len() > 0 {
                        out.push(
                            TcpAction::Write {
                                peer_id,
                                conn_id: text::copy(conn_id),
                                payload: copy_bytes(payload.as_slice()),
                            },
                        );
                    }
                }
                assert(views(out@) =~= old(self)@.on_data(tm@));
                out
            },
        }
    }

    /// The data of a peer were written to a connection, or it failed: then the
    /// connection is closed.
    pub fn on_written(&mut self, peer_id: &str, conn_id: &str, len: usize, written: bool) -> (r:
        Vec<TcpAction>)
        ensures
            final(self)@ == old(self)@.after_passing(conn_id@, written),
            views(r@) == old(self)@.on_write(peer_id@, conn_id@, len, written),
    {
        if !written {
            return self.close_conn(conn_id, true);
        }
        counted(peer_id, Traffic::BytesOut(len))
    }

    /// Local data were sent to the peer, or it failed: then the connection is
    /// closed without telling the peer.
    pub fn on_sent(&mut self, peer_id: &str, conn_id: &str, len: usize, sent: bool) -> (r: Vec<
        TcpAction,
    >)
        ensures
            final(self)@ == old(self)@.after_passing(conn_id@, sent),
            views(r@) == old(self)@.on_send(peer_id@, conn_id@, len, sent),
    {
        if !sent {
            return self.close_conn(conn_id, false);
        }
        counted(peer_id, Traffic::BytesIn(len))
    }

    fn conn_ids_of(&self, peer_id: &str) -> (r: Vec<String>)
        ensures
            texts(r@) == self@.conns_of(peer_id@),
            self@.conns.dom().finite(),
    {
        let n = self.conns.len();
        let ghost m = self.conns@;
        let ghost keys = self.conns.keys();
        let ghost is_its = |id: Seq<char>| m[id].peer_id == peer_id@;
        let mut out: Vec<String> = Vec::new();
        let mut i: usize = 0;
        assert(keys.take(0) =~= Seq::empty());
        assert(texts(out@) =~= keys.take(0).filter(is_its)) by {
            reveal(Seq::filter);
        }
        while i < n
            invariant
                i <= n,
                n == keys.len(),
                keys == self.conns.keys(),
                m == self.conns@,
                is_its == (|id: Seq<char>| m[id].peer_id == peer_id@),
                texts(out@) == keys.take(i as int).filter(is_its),
            decreases n - i,
        {
            proof {
                let head = keys.take(i + 1);
                assert(head.drop_last() =~= keys.take(i as int));
                assert(head.last() == keys[i as int]);
                reveal(Seq::filter);
            }
            if text::same(self.conns.value_at(i).peer_id.as_str(), peer_id) {
                let ghost before = out@;
                let id = text::copy(self.conns.key_at(i));
                out.push(id);
                assert(texts(out@) =~= texts(before).push(id@));
            }
            i = i + 1;
        }
        assert(keys.take(i as int) =~= keys);
        out
    }

    /// Closes all connections of a peer, without telling it, and gives their
    /// ids, so that the end of each can be counted.
    pub fn close_all_for_peer(&mut self, peer_id: &str) -> (r: Vec<String>)
        ensures
            final(self)@ == old(self)@.without_peer(peer_id@),
            texts(r@) == old(self)@.conns_of(peer_id@),
            old(self)@.conns.dom().finite(),
    {
        let ids = self.conn_ids_of(peer_id);
        let ghost all = texts(ids@);
        let ghost m = self.conns@;
        let mut i: usize = 0;
        assert(m.remove_keys(all.take(0).to_set()) =~= m);
        while i < ids.len()
            invariant
                i <= ids@.len(),
                all == texts(ids@),
                self.target == old(self).target,
                self.remote_addr == old(self).remote_addr,
                self.peer_close_epoch == old(self).peer_close_epoch,
                self.keepalive_running == old(self).keepalive_running,
                self.conns@ == m.remove_keys(all.take(i as int).to_set()),
            decreases ids@.len() - i,
        {
            proof {
                let head = all.take(i as int);
                let next = all.take(i + 1);
                let key = ids@[i as int]@;
                assert(next =~= head.push(key));
                assert forall|x: Seq<char>| next.to_set().contains(x) == head.to_set().insert(
                    key,
                ).contains(x) by {
                    if head.contains(x) {
                        let k = choose|k: int| 0 <= k < head.len() && head[k] == x;
                        assert(next[k] == x);
                    }
                    if next.contains(x) {
                        let k = choose|k: int| 0 <= k < next.len() && next[k] == x;
                        if k < i {
                            assert(head[k] == x);
                        }
                    }
                    assert(next[i as int] == key);
                }
                assert(m.remove_keys(head.to_set()).remove(key) =~= m.remove_keys(next.to_set()));
            }
            let _ = self.conns.remove(ids[i].as_str());
            i = i + 1;
        }
        proof {
            assert(all.take(i as int) =~= all);
            lemma_conns_of(old(self)@, peer_id@);
            assert(self@.conns =~= old(self)@.without_peer(peer_id@).conns);
        }
        ids
    }

    /// A peer left: closing its connections is planned for after the grace time.
    /// Gives the number of the plan.
    pub fn schedule_close_all_for_peer(&mut self, peer_id: &str) -> (r: u64)
        ensures
            final(self)@ == old(self)@.next_close_epoch(peer_id@),
            r == final(self)@.close_epoch(peer_id@),
    {
        let epoch: u64 = match self.peer_close_epoch.get(peer_id) {
            Some(n) => *n,
            None => 0,
        };
        let next = epoch.wrapping_add(1);
        self.peer_close_epoch.insert(text::copy(peer_id), next);
        next
    }

    /// A peer is back: a plan to close its connections is called off. Without a
    /// plan nothing changes.
    pub fn cancel_pending_close(&mut self, peer_id: &str)
        ensures
            final(self)@ == old(self)@.called_off(peer_id@),
    {
        if self.peer_close_epoch.contains_key(peer_id) {
            let _ = self.schedule_close_all_for_peer(peer_id);
        }
    }

    /// The grace time of a plan is over: where it was neither called off nor
    /// replaced, the connections of the peer are closed.
    pub fn on_grace_elapsed(&mut self, peer_id: &str, plan: u64) -> (r: Vec<String>)
        ensures
            final(self)@ == old(self)@.after_grace(peer_id@, plan),
            texts(r@) == old(self)@.ended_by_grace(peer_id@, plan),
            old(self)@.close_epoch(peer_id@) == plan ==> old(self)@.conns.dom().finite(),
    {
        let epoch: u64 = match self.peer_close_epoch.get(peer_id) {
            Some(n) => *n,
            None => 0,
        };
        if epoch == plan {
            self.close_all_for_peer(peer_id)
        } else {
            let none: Vec<String> = Vec::new();
            assert(texts(none@) =~= Seq::empty());
            none
        }
    }

    fn active_peer_set(&self) -> (r: TextSet)
        ensures
            r@ == self@.active_peers(),
    {
        let n = self.conns.len();
        let ghost keys = self.conns.keys();
        let mut out = TextSet::new();
        let mut i: usize = 0;
        while i < n
            invariant
                i <= n,
                n == keys.len(),
                keys == self.conns.keys(),
                keys.to_set() == self.conns@.dom(),
                forall|p: Seq<char>| #[trigger]
                    out@.contains(p) <==> exists|k: int|
                        0 <= k < i && self.conns@[#[trigger] keys[k]].peer_id == p,
            decreases n - i,
        {
            let ghost before = out@;
            let conn = self.conns.value_at(i);
            let ghost peer = conn@.peer_id;
            let _ = out.insert(text::copy(conn.peer_id.as_str()));
            i = i + 1;
            proof {
                assert forall|p: Seq<char>| #[trigger] out@.contains(p) <==> exists|k: int|
                    0 <= k < i && self.conns@[#[trigger] keys[k]].peer_id == p by {
                    if before.contains(p) {
                        let k = choose|k: int|
                            0 <= k < i - 1 && self.conns@[#[trigger] keys[k]].peer_id == p;
                        assert(self.conns@[keys[k]].peer_id == p);
                    }
                    if p == peer {
                        assert(self.conns@[keys[i - 1]].peer_id == p);
                    }
                    if exists|k: int| 0 <= k < i && self.conns@[#[trigger] keys[k]].peer_id == p {
                        let k = choose|k: int|
                            0 <= k < i && self.conns@[#[trigger] keys[k]].peer_id == p;
                        if k < i - 1 {
                            assert(before.contains(p));
                        }
                    }
                }
            }
        }
        proof {
            assert forall|p: Seq<char>| out@.contains(p) == self@.active_peers().contains(p) by {
                if out@.contains(p) {
                    let k = choose|k: int|
                        0 <= k < n && self.conns@[#[trigger] keys[k]].peer_id == p;
                    assert(keys.to_set().contains(keys[k]));
                    assert(self@.conns.contains_key(keys[k]));
                }
                if self@.active_peers().contains(p) {
                    let id = choose|id: Seq<char>|
                        #[trigger] self@.conns.contains_key(id) && self@.conns[id].peer_id == p;
                    assert(keys.to_set().contains(id));
                    let k = choose|k: int| 0 <= k < keys.len() && keys[k] == id;
                    assert(self.conns@[keys[k]].peer_id == p);
                }
            }
            assert(out@ =~= self@.active_peers());
        }
        out
    }

    /// The peers with open connections, each of them once, sorted.
    pub fn active_peer_ids(&self) -> (r: Vec<String>)
        ensures
            texts(r@) == sorted(self@.active_peers()),
            self@.active_peers().finite(),
    {
        self.active_peer_set().to_vec()
    }

    /// The pings that keep the channels to the peers open: one for each peer with
    /// open connections. Whether they arrive changes nothing.
    pub fn send_keepalive_pings(&self) -> (r: Vec<TcpAction>)
        ensures
            views(r@) == self@.pings(),
            self@.active_peers().finite(),
    {
        let peers = self.active_peer_ids();
        let ghost ids = texts(peers@);
        let ghost ping = |peer_id: Seq<char>|
            TcpActionView::Send {
                peer_id,
                message: control_message("ping"@, ""@, self@.target),
            };
        let mut out: Vec<TcpAction> = Vec::new();
        let mut i: usize = 0;
        while i < peers.len()
            invariant
                i <= peers@.len(),
                ids == texts(peers@),
                ping == (|peer_id: Seq<char>|
                    TcpActionView::Send {
                        peer_id,
                        message: control_message("ping"@, ""@, self@.target),
                    }),
                views(out@) == ids.take(i as int).map_values(ping),
            decreases peers@.len() - i,
        {
            let message = control("ping", "", self.target.as_str());
            let action = TcpAction::Send { peer_id: text::copy(peers[i].as_str()), message };
            proof {
                lemma_views_push(out@, action);
                assert(ids[i as int] == peers@[i as int]@);
            }
            out.push(action);
            i = i + 1;
            assert(views(out@) =~= ids.take(i as int).map_values(ping));
        }
        assert(ids.take(i as int) =~= ids);
        out
    }

    /// It is time to ping the peers. Where no connection is open the pinging
    /// ends.
    pub fn keepalive_tick(&mut self) -> (r: Option<Vec<TcpAction>>)
        ensures
            old(self)@.active_peers().finite(),
            match r {
                Some(pings) => views(pings@) == old(self)@.pings() && old(self)@.pings().len() > 0,
                None => old(self)@.pings().len() == 0,
            },
            final(self)@ == old(self)@.after_tick(),
    {
        let pings = self.send_keepalive_pings();
        if pings.len() == 0 {
            assert(views(pings@).len() == 0);
            self.keepalive_running = false;
            None
        } else {
            assert(views(pings@).len() > 0);
            Some(pings)
        }
    }
}

proof fn lemma_conns_of(v: TcpView, peer_id: Seq<char>)
    requires
        v.conns.dom().finite(),
    ensures
        forall|id: Seq<char>|
            v.conns.contains_key(id) ==> (#[trigger] v.conns_of(peer_id).to_set().contains(id) == (
            v.conns[id].peer_id == peer_id)),
{
    broadcast use vstd::seq_lib::group_filter_ensures;

    let keys = sorted(v.conns.dom());
    crate::text_map::lemma_sorted_exists(v.conns.dom());
    let p = |id: Seq<char>| v.conns[id].peer_id == peer_id;
    assert forall|id: Seq<char>| v.conns.contains_key(id) implies (#[trigger] v.conns_of(
        peer_id,
    ).to_set().contains(id) == (v.conns[id].peer_id == peer_id)) by {
        assert(keys.to_set().contains(id));
        let i = choose|i: int| 0 <= i < keys.len() && keys[i] == id;
        if v.conns[id].peer_id == peer_id {
            assert(p(keys[i]));
            assert(keys.filter(p).contains(keys[i]));
        }
        if keys.filter(p).contains(id) {
            let j = choose|j: int| 0 <= j < keys.filter(p).len() && keys.filter(p)[j] == id;
            assert(p(keys.filter(p)[j]));
        }
    }
}

/// Whether what came over the tunnel can be a message of this kind of forward.
pub fn is_message(data: &[u8]) -> (r: bool)
    ensures
        r == (data@.len() > 0 && data@[0] == 0x7b),
{
    data.len() > 0 && data[0] == 0x7b
}

/// Whether some action makes a connection.
pub open spec fn dials(actions: Seq<TcpActionView>) -> bool {
    exists|i: int| 0 <= i < actions.len() && (#[trigger] actions[i]) is Connect
}

/// No connection is made for a peer before its request was decided, and then only
/// where it was allowed. The request names the peer and the target.
pub proof fn law_only_allowed_requests_are_dialed(
    v: TcpView,
    peer_id: Seq<char>,
    message: TunnelMessageView,
    decision: AuthDecision,
    notify: bool,
)
    ensures
        !dials(v.on_message(peer_id, message)),
        !dials(v.on_track(message.conn_id, peer_id)),
        !dials(v.on_close(message.conn_id, notify)),
        dials(v.on_decision(peer_id, message.conn_id, decision)) <==> decision.allowed(),
        message.msg_type == "connect"@ ==> v.on_message(peer_id, message) == seq![
            TcpActionView::Authorize {
                request: v.request_of(peer_id),
                conn_id: message.conn_id,
            },
        ],
        v.request_of(peer_id).peer_id == peer_id && v.request_of(peer_id).forward_key == v.target,
{
    let decided = v.on_decision(peer_id, message.conn_id, decision);
    assert(decided[0] is Connect <==> decision.allowed());
}

/// What one side sends next over a connection is written on the other side
/// unchanged, as long as the other side has received all that came before.
pub proof fn law_data_is_written(v: TcpView, sender: sequence::SenderView, data: Seq<u8>)
    requires
        v.conns.contains_key(sender.conn_id),
        v.conns[sender.conn_id].recv_seq.next_expected == sender.next_seq,
        data.len() > 0,
    ensures
        v.on_data(sender.message(data)) == seq![
            TcpActionView::Write {
                peer_id: v.conns[sender.conn_id].peer_id,
                conn_id: sender.conn_id,
                payload: data,
            },
        ],
        v.after_data(sender.message(data)).conns[sender.conn_id].recv_seq.next_expected
            == sender.advanced().next_seq,
        v.on_data(sender.message(Seq::empty())) == no_action(),
        v.after_data(sender.message(Seq::empty())).conns[sender.conn_id].recv_seq.next_expected
            == sender.advanced().next_seq,
{
}

/// A message that is missing closes the connection, and nothing is written.
pub proof fn law_gap_closes_connection(v: TcpView, message: TunnelMessageView, seq: u64)
    requires
        v.conns.contains_key(message.conn_id),
        message.seq == Some(seq),
        seq > v.conns[message.conn_id].recv_seq.next_expected,
    ensures
        !v.after_data(message).conns.contains_key(message.conn_id),
        forall|i: int|
            0 <= i < v.on_data(message).len() ==> !((#[trigger] v.on_data(message)[i]) is Write),
{
}

/// A plan to close the connections of a peer that was called off closes nothing.
pub proof fn law_rejoin_calls_off_close(v: TcpView, peer_id: Seq<char>)
    ensures
        ({
            let planned = v.next_close_epoch(peer_id);
            let plan = planned.close_epoch(peer_id);
            let called_off = planned.next_close_epoch(peer_id);
            &&& called_off.close_epoch(peer_id) != plan
            &&& called_off.conns == v.conns
        }),
{
}

/// While closing is only planned, connections and the messages for them are
/// treated as before.
pub proof fn law_planned_close_changes_nothing(
    v: TcpView,
    peer_id: Seq<char>,
    from: Seq<char>,
    message: TunnelMessageView,
)
    ensures
        v.next_close_epoch(peer_id).conns == v.conns,
        v.next_close_epoch(peer_id).on_message(from, message) == v.on_message(from, message),
        v.next_close_epoch(peer_id).after_message(message).conns == v.after_message(message).conns,
{
}

/// While a connection is open the peers are pinged: opening one starts it, closing
/// does not end it, and it ends only where no connection is open.
pub proof fn law_open_connections_are_pinged(
    v: TcpView,
    conn_id: Seq<char>,
    peer_id: Seq<char>,
    notify: bool,
    message: TunnelMessageView,
)
    requires
        !v.keepalive ==> v.conns.dom() == Set::<Seq<char>>::empty(),
    ensures
        v.opened(conn_id, peer_id, notify).keepalive,
        !v.keepalive ==> v.without(conn_id).conns.dom() == Set::<Seq<char>>::empty(),
        !v.keepalive ==> v.without_peer(peer_id).conns.dom() == Set::<Seq<char>>::empty(),
        !v.keepalive ==> v.after_message(message).conns.dom() == Set::<Seq<char>>::empty(),
        v.without(conn_id).keepalive == v.keepalive,
        v.without_peer(peer_id).keepalive == v.keepalive,
        v.after_message(message).keepalive == v.keepalive,
        v.active_peers().finite() && sorted(v.active_peers()).len() == 0 ==> v.conns.dom()
            == Set::<Seq<char>>::empty(),
{
    if !v.keepalive {
        assert(v.without(conn_id).conns.dom() =~= Set::<Seq<char>>::empty());
        assert(v.without_peer(peer_id).conns.dom() =~= Set::<Seq<char>>::empty());
    }
    if v.active_peers().finite() && sorted(v.active_peers()).len() == 0 {
        crate::text_map::lemma_sorted_exists(v.active_peers());
        assert forall|id: Seq<char>| !v.conns.dom().contains(id) by {
            if v.conns.contains_key(id) {
                assert(v.active_peers().contains(v.conns[id].peer_id));
                assert(sorted(v.active_peers()).to_set().contains(v.conns[id].peer_id));
            }
        }
        assert(v.conns.dom() =~= Set::<Seq<char>>::empty());
    }
}

/// Closing the connections of a peer leaves those of the others.
pub proof fn law_close_all_takes_only_that_peer(v: TcpView, peer_id: Seq<char>, conn_id: Seq<char>)
    requires
        v.conns.contains_key(conn_id),
    ensures
        v.without_peer(peer_id).conns.contains_key(conn_id) <==> v.conns[conn_id].peer_id
            != peer_id,
        !v.without_peer(peer_id).active_peers().contains(peer_id),
{
}

/// Pings and messages of unknown kinds change nothing.
pub proof fn law_other_messages_are_ignored(
    v: TcpView,
    peer_id: Seq<char>,
    message: TunnelMessageView,
)
    requires
        message.msg_type != "connect"@,
        message.msg_type != "data"@,
        message.msg_type != "close"@,
    ensures
        v.after_message(message) == v,
        v.on_message(peer_id, message) == no_action(),
{
}

/// Each connection is counted once when it opens and once when it closes.
pub proof fn law_connections_are_counted(
    v: TcpView,
    conn_id: Seq<char>,
    peer_id: Seq<char>,
    notify: bool,
)
    requires
        v.conns.dom().finite(),
    ensures
        v.opened(conn_id, peer_id, notify).conns.dom().len() == v.conns.dom().len() + (
        if v.on_track(conn_id, peer_id).contains(
            TcpActionView::Count { peer_id, traffic: Traffic::Opened },
        ) {
            1int
        } else {
            0
        }),
        v.without(conn_id).conns.dom().len() == v.conns.dom().len() - (if v.on_close(
            conn_id,
            notify,
        ).len() > 0 {
            1int
        } else {
            0
        }),
        v.on_close(conn_id, notify).len() > 0 ==> v.on_close(conn_id, notify)[0]
            == (TcpActionView::Count {
            peer_id: v.conns[conn_id].peer_id,
            traffic: Traffic::Closed,
        }),
{
    let count = TcpActionView::Count { peer_id, traffic: Traffic::Opened };
    let actions = v.on_track(conn_id, peer_id);
    if !v.conns.contains_key(conn_id) {
        assert(actions[0] == count);
    }
    assert(v.opened(conn_id, peer_id, notify).conns.dom() =~= v.conns.dom().insert(conn_id));
    assert(v.without(conn_id).conns.dom() =~= v.conns.dom().remove(conn_id));
}

/// Two states of a forward that differ in no more than their connections.
pub open spec fn same_forward(a: TcpView, b: TcpView) -> bool {
    a.target == b.target && a.remote_addr == b.remote_addr && a.close_epochs == b.close_epochs
        && a.keepalive == b.keepalive
}

/// What one side sends when it closes a connection closes it on the other side,
/// where it is counted as closed and nothing is sent back. No other connection is
/// touched.
pub proof fn law_remote_close_closes(
    v: TcpView,
    peer_id: Seq<char>,
    message: TunnelMessageView,
    other: Seq<char>,
)
    requires
        message.msg_type == "close"@,
    ensures
        same_forward(v.after_message(message), v),
        !v.after_message(message).conns.contains_key(message.conn_id),
        other != message.conn_id ==> (v.after_message(message).conns.contains_key(other)
            <==> v.conns.contains_key(other)),
        other != message.conn_id && v.conns.contains_key(other) ==> v.after_message(
            message,
        ).conns[other] == v.conns[other],
        v.conns.contains_key(message.conn_id) ==> v.on_message(peer_id, message) == seq![
            TcpActionView::Count {
                peer_id: v.conns[message.conn_id].peer_id,
                traffic: Traffic::Closed,
            },
        ],
        !v.conns.contains_key(message.conn_id) ==> v.on_message(peer_id, message).len() == 0,
{
    reveal_strlit("connect");
    reveal_strlit("data");
    reveal_strlit("close");
    assert("connect"@[1] == 'o' && "data"@[1] == 'a' && "close"@[1] == 'l');
}

/// A connection that is closed here is closed on the side of its peer too: the
/// peer, and no one else, is sent a message that names the connection and the
/// target, and that closes it there. Where the peer is not to be told nothing is
/// sent.
pub proof fn law_close_reaches_the_other_side(near: TcpView, far: TcpView, conn_id: Seq<char>)
    requires
        near.conns.contains_key(conn_id),
    ensures
        same_forward(near.without(conn_id), near),
        !near.without(conn_id).conns.contains_key(conn_id),
        forall|other: Seq<char>|
            other != conn_id && near.conns.contains_key(other) ==> #[trigger] near.without(
                conn_id,
            ).conns.contains_key(other) && near.without(conn_id).conns[other]
                == near.conns[other],
        near.on_close(conn_id, false) == seq![
            TcpActionView::Count {
                peer_id: near.conns[conn_id].peer_id,
                traffic: Traffic::Closed,
            },
        ],
        !near.conns[conn_id].notify_remote ==> near.on_close(conn_id, true) == near.on_close(
            conn_id,
            false,
        ),
        near.conns[conn_id].notify_remote ==> {
            let done = near.on_close(conn_id, true);
            &&& done.len() == 2
            &&& done[0] == near.on_close(conn_id, false)[0]
            &&& done[1] matches TcpActionView::Send { peer_id, message }
            &&& peer_id == near.conns[conn_id].peer_id
            &&& message.target == near.target
            &&& message.conn_id == conn_id
            &&& !far.after_message(message).conns.contains_key(conn_id)
            &&& far.conns.remove(conn_id) == far.after_message(message).conns
        },
{
    reveal_strlit("connect");
    reveal_strlit("data");
    reveal_strlit("close");
    assert("connect"@[1] == 'o' && "data"@[1] == 'a' && "close"@[1] == 'l');
}

/// A connection that is not open cannot be closed: nothing happens.
pub proof fn law_closing_twice(v: TcpView, conn_id: Seq<char>, first: bool, second: bool)
    ensures
        v.without(conn_id).on_close(conn_id, second).len() == 0,
        v.without(conn_id).without(conn_id).conns == v.without(conn_id).conns,
        !v.conns.contains_key(conn_id) ==> v.without(conn_id).conns =~= v.conns && v.on_close(
            conn_id,
            first,
        ).len() == 0,
{
    assert(v.without(conn_id).without(conn_id).conns =~= v.without(conn_id).conns);
}

/// A connection that opens belongs to the peer it was opened for, has received
/// nothing, and takes the place of no other one. It is counted where it is new, and
/// the first one starts the pings.
pub proof fn law_opening_adds_one_connection(
    v: TcpView,
    conn_id: Seq<char>,
    peer_id: Seq<char>,
    notify: bool,
    other: Seq<char>,
)
    ensures
        ({
            let next = v.opened(conn_id, peer_id, notify);
            let done = v.on_track(conn_id, peer_id);
            let count = TcpActionView::Count { peer_id, traffic: Traffic::Opened };
            &&& next.target == v.target && next.remote_addr == v.remote_addr && next.close_epochs
                == v.close_epochs && next.keepalive
            &&& next.conns.contains_key(conn_id)
            &&& next.conns[conn_id].peer_id == peer_id
            &&& next.conns[conn_id].notify_remote == notify
            &&& next.conns[conn_id].recv_seq.next_expected == 1
            &&& !next.conns[conn_id].recv_seq.seq_seen
            &&& other != conn_id ==> (next.conns.contains_key(other) <==> v.conns.contains_key(
                other,
            ))
            &&& other != conn_id && v.conns.contains_key(other) ==> next.conns[other]
                == v.conns[other]
            &&& v.keepalive && v.conns.contains_key(conn_id) ==> done.len() == 0
            &&& v.keepalive && !v.conns.contains_key(conn_id) ==> done == seq![count]
            &&& !v.keepalive && v.conns.contains_key(conn_id) ==> done == seq![
                TcpActionView::StartKeepalive,
            ]
            &&& !v.keepalive && !v.conns.contains_key(conn_id) ==> done == seq![
                count,
                TcpActionView::StartKeepalive,
            ]
        }),
{
    let count = TcpActionView::Count { peer_id, traffic: Traffic::Opened };
    let done = v.on_track(conn_id, peer_id);
    if !v.keepalive && !v.conns.contains_key(conn_id) {
        assert(done =~= seq![count, TcpActionView::StartKeepalive]);
    } else if !v.keepalive {
        assert(done =~= seq![TcpActionView::StartKeepalive]);
    }
}

/// A local connection reaches the other side: the peer is sent a request that,
/// there, asks whether this node may connect to the address of the forward. Where
/// it may, that address is dialed for the same connection, and once it is reached
/// the connection stands on both sides, each naming the other. Where it may not, or
/// the address cannot be reached, the connection is closed on both sides.
pub proof fn law_connection_stands_on_both_sides(
    near: TcpView,
    far: TcpView,
    near_id: Seq<char>,
    far_id: Seq<char>,
    conn_id: Seq<char>,
    decision: AuthDecision,
)
    ensures
        ({
            let opened = near.opened(conn_id, far_id, true);
            let done = near.on_open_local(conn_id, far_id);
            &&& done.drop_last() == near.on_track(conn_id, far_id)
            &&& done.last() matches TcpActionView::Send { peer_id, message }
            &&& peer_id == far_id
            &&& message.target == near.target
            &&& far.after_message(message) == far
            &&& far.on_message(near_id, message) == seq![
                TcpActionView::Authorize {
                    request: AuthRequestView {
                        peer_id: near_id,
                        forward_key: far.target,
                        target_addr: far.remote_addr,
                        proto: "tcp"@,
                    },
                    conn_id,
                },
            ]
            &&& decision.allowed() ==> {
                let dialed = far.after_connect(conn_id, near_id, true);
                &&& far.on_decision(near_id, conn_id, decision) == seq![
                    TcpActionView::Connect { addr: far.remote_addr, peer_id: near_id, conn_id },
                ]
                &&& dialed.conns.contains_key(conn_id)
                &&& dialed.conns[conn_id].peer_id == near_id
                &&& dialed.conns[conn_id].notify_remote
                &&& dialed.conns.remove(conn_id) == far.conns.remove(conn_id)
                &&& far.on_connect(conn_id, near_id, true) == far.on_track(conn_id, near_id)
                &&& opened.conns[conn_id].peer_id == far_id
                &&& opened.conns[conn_id].recv_seq == dialed.conns[conn_id].recv_seq
            }
            &&& !decision.allowed() ==> closes_at(
                far.on_decision(near_id, conn_id, decision),
                near_id,
                opened,
                conn_id,
            )
            &&& far.after_connect(conn_id, near_id, false) == far
            &&& closes_at(far.on_connect(conn_id, near_id, false), near_id, opened, conn_id)
        }),
{
    reveal_strlit("connect");
    reveal_strlit("data");
    reveal_strlit("close");
    assert("connect"@[1] == 'o' && "data"@[1] == 'a' && "close"@[1] == 'l');
    assert(near.on_open_local(conn_id, far_id).drop_last() =~= near.on_track(conn_id, far_id));
    assert(far.after_connect(conn_id, near_id, true).conns.remove(conn_id) =~= far.conns.remove(
        conn_id,
    ));
}

/// Whether some actions are one message to a peer that closes a connection there,
/// and nothing else.
pub open spec fn closes_at(
    actions: Seq<TcpActionView>,
    to: Seq<char>,
    there: TcpView,
    conn_id: Seq<char>,
) -> bool {
    &&& actions.len() == 1
    &&& actions[0] matches TcpActionView::Send { peer_id, message }
    &&& peer_id == to
    &&& message.conn_id == conn_id
    &&& there.after_message(message).conns == there.conns.remove(conn_id)
}

/// Data for one connection leave all others alone, and the owner of its own. Data
/// for no connection do nothing.
pub proof fn law_data_touch_one_connection(
    v: TcpView,
    peer_id: Seq<char>,
    message: TunnelMessageView,
    other: Seq<char>,
)
    requires
        message.msg_type == "data"@,
    ensures
        ({
            let next = v.after_message(message);
            &&& same_forward(next, v)
            &&& other != message.conn_id ==> (next.conns.contains_key(other)
                <==> v.conns.contains_key(other))
            &&& other != message.conn_id && v.conns.contains_key(other) ==> next.conns[other]
                == v.conns[other]
            &&& next.conns.contains_key(message.conn_id) ==> {
                &&& v.conns.contains_key(message.conn_id)
                &&& next.conns[message.conn_id].peer_id == v.conns[message.conn_id].peer_id
                &&& next.conns[message.conn_id].notify_remote
                    == v.conns[message.conn_id].notify_remote
            }
            &&& !v.conns.contains_key(message.conn_id) ==> next == v && v.on_message(
                peer_id,
                message,
            ).len() == 0
        }),
{
    reveal_strlit("connect");
    reveal_strlit("data");
    assert("connect"@[1] == 'o' && "data"@[1] == 'a');
}

/// What becomes of numbered data: the expected ones are written and the next ones
/// expected; older ones are dropped and nothing changes; with later ones, and with
/// ones without a number after numbered ones, the connection ends, and its peer is
/// told.
pub proof fn law_data_by_number(v: TcpView, peer_id: Seq<char>, message: TunnelMessageView)
    requires
        message.msg_type == "data"@,
        v.conns.contains_key(message.conn_id),
    ensures
        ({
            let conn = v.conns[message.conn_id];
            let next = v.after_message(message);
            let done = v.on_message(peer_id, message);
            let data = if message.payload is Some {
                message.payload->0
            } else {
                Seq::empty()
            };
            let written = TcpActionView::Write {
                peer_id: conn.peer_id,
                conn_id: message.conn_id,
                payload: data,
            };
            match message.seq {
                Some(n) => {
                    &&& n == conn.recv_seq.next_expected ==> {
                        &&& done == if data.len() > 0 {
                            seq![written]
                        } else {
                            Seq::empty()
                        }
                        &&& next.conns.contains_key(message.conn_id)
                        &&& next.conns[message.conn_id].recv_seq.seq_seen
                        &&& n < u64::MAX ==> next.conns[message.conn_id].recv_seq.next_expected == n
                            + 1
                    }
                    &&& n < conn.recv_seq.next_expected ==> {
                        &&& done.len() == 0
                        &&& next.conns.contains_key(message.conn_id)
                        &&& next.conns[message.conn_id].recv_seq.seq_seen
                        &&& next.conns[message.conn_id].recv_seq.next_expected
                            == conn.recv_seq.next_expected
                    }
                    &&& n > conn.recv_seq.next_expected ==> {
                        &&& done == v.on_close(message.conn_id, true)
                        &&& next.conns == v.conns.remove(message.conn_id)
                    }
                },
                None => {
                    &&& !conn.recv_seq.seq_seen ==> {
                        &&& done == if data.len() > 0 {
                            seq![written]
                        } else {
                            Seq::empty()
                        }
                        &&& next.conns == v.conns
                    }
                    &&& conn.recv_seq.seq_seen ==> {
                        &&& done == v.on_close(message.conn_id, true)
                        &&& next.conns == v.conns.remove(message.conn_id)
                    }
                },
            }
        }),
{
    reveal_strlit("connect");
    reveal_strlit("data");
    assert("connect"@[1] == 'o' && "data"@[1] == 'a');
    assert(v.conns.insert(message.conn_id, v.conns[message.conn_id]) =~= v.conns);
}

/// The writes that a run of messages of a peer sets off, in their order.
pub open spec fn written_by(
    v: TcpView,
    peer_id: Seq<char>,
    messages: Seq<TunnelMessageView>,
) -> Seq<TcpActionView>
    decreases messages.len(),
{
    if messages.len() == 0 {
        Seq::empty()
    } else {
        v.on_message(peer_id, messages[0]) + written_by(
            v.after_message(messages[0]),
            peer_id,
            messages.drop_first(),
        )
    }
}

/// The messages in which a sender sends pieces of data, one after the other.
pub open spec fn sent_in_turn(sender: sequence::SenderView, pieces: Seq<Seq<u8>>) -> Seq<
    TunnelMessageView,
>
    decreases pieces.len(),
{
    if pieces.len() == 0 {
        Seq::empty()
    } else {
        seq![sender.message(pieces[0])] + sent_in_turn(sender.advanced(), pieces.drop_first())
    }
}

/// A connection carries its bytes in order: whatever pieces one side sends from the
/// start of the connection on, the other side writes those pieces, each of them once,
/// unchanged and in their order, and the connection stays open.
pub proof fn law_bytes_arrive_in_order(
    v: TcpView,
    peer_id: Seq<char>,
    sender: sequence::SenderView,
    pieces: Seq<Seq<u8>>,
)
    requires
        v.conns.contains_key(sender.conn_id),
        v.conns[sender.conn_id].recv_seq.next_expected == sender.next_seq,
        forall|i: int| 0 <= i < pieces.len() ==> (#[trigger] pieces[i]).len() > 0,
    ensures
        written_by(v, peer_id, sent_in_turn(sender, pieces)) == pieces.map_values(
            |piece: Seq<u8>|
                TcpActionView::Write {
                    peer_id: v.conns[sender.conn_id].peer_id,
                    conn_id: sender.conn_id,
                    payload: piece,
                },
        ),
    decreases pieces.len(),
{
    let write = |piece: Seq<u8>|
        TcpActionView::Write {
            peer_id: v.conns[sender.conn_id].peer_id,
            conn_id: sender.conn_id,
            payload: piece,
        };
    if pieces.len() == 0 {
        assert(pieces.map_values(write) =~= Seq::empty());
    } else {
        let message = sender.message(pieces[0]);
        let rest = sent_in_turn(sender.advanced(), pieces.drop_first());
        let all = sent_in_turn(sender, pieces);
        law_data_is_written(v, sender, pieces[0]);
        reveal_strlit("connect");
        reveal_strlit("data");
        assert("connect"@[1] == 'o' && "data"@[1] == 'a');
        let next = v.after_message(message);
        assert(all.drop_first() =~= rest);
        assert forall|i: int| 0 <= i < pieces.drop_first().len() implies (
        #[trigger] pieces.drop_first()[i]).len() > 0 by {
            assert(pieces[i + 1].len() > 0);
        }
        law_bytes_arrive_in_order(next, peer_id, sender.advanced(), pieces.drop_first());
        assert(pieces.map_values(write) =~= seq![write(pieces[0])]
            + pieces.drop_first().map_values(write));
    }
}

/// A connection that was just opened is ready for the first message of a new sender
/// on the other side, so that it carries the bytes from their start on.
pub proof fn law_new_connection_carries_bytes(
    v: TcpView,
    peer_id: Seq<char>,
    conn_id: Seq<char>,
    target: Seq<char>,
    pieces: Seq<Seq<u8>>,
)
    requires
        forall|i: int| 0 <= i < pieces.len() ==> (#[trigger] pieces[i]).len() > 0,
    ensures
        written_by(
            v.opened(conn_id, peer_id, true),
            peer_id,
            sent_in_turn(sequence::fresh_sender(conn_id, target), pieces),
        ) == pieces.map_values(
            |piece: Seq<u8>| TcpActionView::Write { peer_id, conn_id, payload: piece },
        ),
{
    let next = v.opened(conn_id, peer_id, true);
    let sender = sequence::fresh_sender(conn_id, target);
    law_bytes_arrive_in_order(next, peer_id, sender, pieces);
    assert(pieces.map_values(
        |piece: Seq<u8>| TcpActionView::Write { peer_id, conn_id, payload: piece },
    ) =~= pieces.map_values(
        |piece: Seq<u8>|
            TcpActionView::Write {
                peer_id: next.conns[sender.conn_id].peer_id,
                conn_id: sender.conn_id,
                payload: piece,
            },
    ));
}

/// Bytes that were passed on are counted as such, and nothing changes. Where they
/// could not be passed on the connection ends, and its peer is told where it is the
/// local side that failed.
pub proof fn law_passed_bytes_are_counted(
    v: TcpView,
    peer_id: Seq<char>,
    conn_id: Seq<char>,
    len: usize,
)
    ensures
        v.after_passing(conn_id, true) == v,
        v.after_passing(conn_id, false).conns == v.conns.remove(conn_id),
        same_forward(v.after_passing(conn_id, false), v),
        v.on_write(peer_id, conn_id, len, true) == seq![
            TcpActionView::Count { peer_id, traffic: Traffic::BytesOut(len) },
        ],
        v.on_send(peer_id, conn_id, len, true) == seq![
            TcpActionView::Count { peer_id, traffic: Traffic::BytesIn(len) },
        ],
        v.on_write(peer_id, conn_id, len, false) == v.on_close(conn_id, true),
        v.on_send(peer_id, conn_id, len, false) == v.on_close(conn_id, false),
{
}

/// A peer that left and did not come back loses its connections, and no one else
/// does. One that came back in time, or left again, keeps them for now.
pub proof fn law_only_departed_peers_lose_connections(
    v: TcpView,
    peer_id: Seq<char>,
    other: Seq<char>,
    conn_id: Seq<char>,
)
    ensures
        ({
            let planned = v.next_close_epoch(peer_id);
            let plan = planned.close_epoch(peer_id);
            let ended = planned.after_grace(peer_id, plan);
            let back = planned.called_off(peer_id);
            let again = planned.next_close_epoch(peer_id);
            &&& planned.conns == v.conns && planned.target == v.target && planned.remote_addr
                == v.remote_addr && planned.keepalive == v.keepalive
            &&& other != peer_id ==> planned.close_epoch(other) == v.close_epoch(other)
            &&& other != peer_id ==> (planned.close_epochs.contains_key(other)
                <==> v.close_epochs.contains_key(other))
            &&& ended.conns.contains_key(conn_id) <==> v.conns.contains_key(conn_id)
                && v.conns[conn_id].peer_id != peer_id
            &&& ended.conns.contains_key(conn_id) ==> ended.conns[conn_id] == v.conns[conn_id]
            &&& same_forward(ended, planned)
            &&& back.after_grace(peer_id, plan) == back && back.conns == v.conns
            &&& back.ended_by_grace(peer_id, plan).len() == 0
            &&& again.after_grace(peer_id, plan) == again
            &&& other != peer_id ==> v.next_close_epoch(other).close_epoch(peer_id)
                == v.close_epoch(peer_id)
        }),
        !v.close_epochs.contains_key(peer_id) ==> v.called_off(peer_id) == v,
{
}

/// The connections that end with a departed peer are given, each of them once and
/// in the order of their ids, and no other one is.
pub proof fn law_ended_connections_are_named(
    v: TcpView,
    peer_id: Seq<char>,
    plan: u64,
    conn_id: Seq<char>,
)
    requires
        v.conns.dom().finite(),
    ensures
        v.conns_of(peer_id).contains(conn_id) <==> v.conns.contains_key(conn_id)
            && v.conns[conn_id].peer_id == peer_id,
        v.conns_of(peer_id).no_duplicates(),
        v.ended_by_grace(peer_id, plan).contains(conn_id) <==> v.conns.contains_key(conn_id)
            && !v.after_grace(peer_id, plan).conns.contains_key(conn_id),
{
    broadcast use vstd::seq_lib::group_filter_ensures;

    let keys = sorted(v.conns.dom());
    crate::text_map::lemma_sorted_exists(v.conns.dom());
    let p = |id: Seq<char>| v.conns[id].peer_id == peer_id;
    lemma_conns_of(v, peer_id);
    if v.conns.contains_key(conn_id) {
        assert(v.conns_of(peer_id).to_set().contains(conn_id) == (v.conns[conn_id].peer_id
            == peer_id));
    }
    if v.conns_of(peer_id).contains(conn_id) {
        keys.lemma_filter_contains_rev(p, conn_id);
        assert(keys.to_set().contains(conn_id));
    }
    crate::text_map::lemma_ascending_differ(keys);
    lemma_filter_keeps_unique(keys, p);
}

proof fn lemma_filter_keeps_unique<A>(s: Seq<A>, p: spec_fn(A) -> bool)
    requires
        s.no_duplicates(),
    ensures
        s.filter(p).no_duplicates(),
    decreases s.len(),
{
    reveal(Seq::filter);
    if s.len() > 0 {
        let init = s.drop_last();
        assert(init.no_duplicates());
        lemma_filter_keeps_unique(init, p);
        if p(s.last()) && init.filter(p).contains(s.last()) {
            init.lemma_filter_contains_rev(p, s.last());
            let k = choose|k: int| 0 <= k < init.len() && init[k] == s.last();
            assert(s[k] == s[s.len() - 1]);
        }
        assert forall|i: int, j: int|
            0 <= i < s.filter(p).len() && 0 <= j < s.filter(p).len() && i != j implies s.filter(
            p,
        )[i] != s.filter(p)[j] by {
            let kept = init.filter(p);
            if i < kept.len() {
                assert(kept.contains(kept[i]));
            }
            if j < kept.len() {
                assert(kept.contains(kept[j]));
            }
        }
    }
}

/// Each peer with an open connection is pinged, once, and no other one is. A ping
/// names the forward, and does nothing on the other side. The pings end only where
/// there is no one left to ping.
pub proof fn law_pings_go_to_active_peers(v: TcpView, far: TcpView, from: Seq<char>, conn_id: Seq<char>)
    requires
        v.active_peers().finite(),
    ensures
        forall|i: int|
            0 <= i < v.pings().len() ==> {
                &&& #[trigger] v.pings()[i] matches TcpActionView::Send { peer_id, message }
                &&& message.target == v.target
                &&& far.after_message(message) == far
                &&& far.on_message(from, message).len() == 0
                &&& exists|id: Seq<char>|
                    #[trigger] v.conns.contains_key(id) && v.conns[id].peer_id == peer_id
            },
        forall|i: int, j: int|
            0 <= i < j < v.pings().len() ==> #[trigger] v.pings()[i] != #[trigger] v.pings()[j],
        v.conns.contains_key(conn_id) ==> exists|i: int|
            {
                &&& 0 <= i < v.pings().len()
                &&& #[trigger] v.pings()[i] matches TcpActionView::Send { peer_id, .. }
                &&& peer_id == v.conns[conn_id].peer_id
            },
        v.conns.contains_key(conn_id) ==> v.after_tick() == v,
        v.conns.dom() == Set::<Seq<char>>::empty() ==> !v.after_tick().keepalive,
        v.after_tick().conns == v.conns && v.after_tick().target == v.target
            && v.after_tick().remote_addr == v.remote_addr && v.after_tick().close_epochs
            == v.close_epochs,
        v.conns.dom() == Set::<Seq<char>>::empty() ==> !v.after_tick().keepalive
            && v.pings().len() == 0,
{
    reveal_strlit("connect");
    reveal_strlit("data");
    reveal_strlit("close");
    reveal_strlit("ping");
    assert("connect"@[0] == 'c' && "data"@[0] == 'd' && "close"@[0] == 'c' && "ping"@[0] == 'p');
    let peers = sorted(v.active_peers());
    crate::text_map::lemma_sorted_exists(v.active_peers());
    crate::text_map::lemma_ascending_differ(peers);
    assert forall|i: int| 0 <= i < v.pings().len() implies {
        &&& #[trigger] v.pings()[i] matches TcpActionView::Send { peer_id, message }
        &&& message.target == v.target
        &&& far.after_message(message) == far
        &&& far.on_message(from, message).len() == 0
        &&& exists|id: Seq<char>|
            #[trigger] v.conns.contains_key(id) && v.conns[id].peer_id == peer_id
    } by {
        assert(peers.to_set().contains(peers[i]));
        assert(v.active_peers().contains(peers[i]));
    }
    assert forall|i: int, j: int| 0 <= i < j < v.pings().len() implies #[trigger] v.pings()[i]
        != #[trigger] v.pings()[j] by {
        assert(peers[i] != peers[j]);
    }
    if v.conns.contains_key(conn_id) {
        let peer = v.conns[conn_id].peer_id;
        assert(v.active_peers().contains(peer));
        assert(peers.to_set().contains(peer));
        let i = choose|i: int| 0 <= i < peers.len() && peers[i] == peer;
        assert(v.pings()[i] matches TcpActionView::Send { peer_id, .. } && peer_id == peer);
    }
    if v.conns.dom() == Set::<Seq<char>>::empty() && peers.len() > 0 {
        assert(peers.to_set().contains(peers[0]));
        assert(v.active_peers().contains(peers[0]));
        let id = choose|id: Seq<char>|
            #[trigger] v.conns.contains_key(id) && v.conns[id].peer_id == peers[0];
        assert(v.conns.dom().contains(id));
    }
}

/// The address of a forward says where to connect: where it names a host it stays as
/// it is, and a port alone means that port on this machine. None stays none.
pub proof fn law_address_names_a_host(addr: Seq<char>)
    ensures
        resolved(resolved(addr)) == resolved(addr),
        addr.contains(':') ==> resolved(addr) == addr,
        resolved(addr).len() == 0 <==> addr.len() == 0,
        addr.len() > 0 ==> resolved(addr).contains(':'),
        addr.len() > 0 && !addr.contains(':') ==> resolved(addr) == "127.0.0.1:"@ + addr,
{
    reveal_strlit("127.0.0.1:");
    if addr.len() > 0 && !addr.contains(':') {
        assert(resolved(addr)[9] == ':');
    }
}

/// A forward listens on its port, unless that is the one that stands for none, and
/// two forwards on different ports at different addresses.
pub proof fn law_listens_on_its_port(a: i32, b: i32)
    ensures
        bind_address(a) is None <==> a == -1,
        bind_address(a) == bind_address(b) <==> a == b,
        bind_address(a) matches Some(addr) ==> addr == "0.0.0.0:"@ + decimal(a as int),
{
    if a != -1 && b != -1 && bind_address(a) == bind_address(b) {
        let head = "0.0.0.0:"@;
        let x = decimal(a as int);
        let y = decimal(b as int);
        assert((head + x).skip(head.len() as int) =~= x);
        assert((head + y).skip(head.len() as int) =~= y);
        crate::number::law_decimal_injective(a as int, b as int);
    }
}

/// Without a target of its own a forward has the protocol and a port as its key: the port of
/// the address that it serves, or else the one that it listens on.
pub proof fn law_forward_is_named_by_its_port(
    proto: Seq<char>,
    listen_port: int,
    remote_addr: Seq<char>,
)
    ensures
        remote_addr.len() == 0 ==> default_target(proto, listen_port, remote_addr) == proto + ":"@
            + crate::number::decimal(listen_port),
        remote_addr.len() > 0 ==> default_target(proto, listen_port, remote_addr) == proto + ":"@
            + crate::number::decimal(last_port(remote_addr) as int),
{
}

} // verus!
