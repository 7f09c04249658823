//! Forwarding of UDP packets: which sessions are open, and what is done with what
//! comes in on either side.
use vstd::prelude::*;

use crate::auth::{AuthDecision, AuthRequest, AuthRequestView};
use crate::model::{copy_bytes, opt_view};
use crate::rtc::tunnel_message::{TunnelMessage, TunnelMessageView};
use crate::text;
use crate::text::texts;
use crate::text_map::{sorted, TextMap};

verus! {

/// How long a session lives without packets, in nanoseconds.
pub const UDP_TIMEOUT_NS: u64 = 30_000_000_000;

/// How long a local packet waits for a serving peer, in milliseconds.
pub const TUNNEL_READY_TIMEOUT_MS: u64 = 30000;

/// The largest packet.
pub const MAX_UDP_SIZE: usize = 65535;

/// How often old sessions are cleared out, in milliseconds.
pub const CLEANUP_INTERVAL_MS: u64 = 10000;

/// How often a waiting packet looks for a serving peer, in milliseconds.
pub const RETRY_INTERVAL_MS: u64 = 100;

/// A session: the packets between one local address and one peer.
pub struct UdpConn {
    has_target: bool,
    last_seen_ns: u64,
    peer_id: String,
    client_addr: Option<String>,
}

/// The model of `UdpConn`.
pub struct UdpConnView {
    /// There is a socket of this session to the address of the forward.
    pub has_target: bool,
    pub last_seen_ns: u64,
    pub peer_id: Seq<char>,
    /// The local address that the packets come from.
    pub client_addr: Option<Seq<char>>,
}

impl View for UdpConn {
    type V = UdpConnView;

    closed spec fn view(&self) -> UdpConnView {
        UdpConnView {
            has_target: self.has_target,
            last_seen_ns: self.last_seen_ns,
            peer_id: self.peer_id@,
            client_addr: opt_view(self.client_addr),
        }
    }
}

/// The sessions of one forward.
pub struct UdpManager {
    target: String,
    remote_addr: String,
    has_local_socket: bool,
    conns: TextMap<UdpConn>,
}

/// The model of `UdpManager`.
#[verifier::ext_equal]
pub struct UdpView {
    pub target: Seq<char>,
    pub remote_addr: Seq<char>,
    pub has_local_socket: bool,
    pub conns: Map<Seq<char>, UdpConnView>,
}

impl View for UdpManager {
    type V = UdpView;

    closed spec fn view(&self) -> UdpView {
        UdpView {
            target: self.target@,
            remote_addr: self.remote_addr@,
            has_local_socket: self.has_local_socket,
            conns: self.conns@,
        }
    }
}

/// A packet in a session.
pub open spec fn packet_message(
    conn_id: Seq<char>,
    target: Seq<char>,
    payload: Seq<u8>,
) -> TunnelMessageView {
    TunnelMessageView { msg_type: "data"@, conn_id, target, payload: Some(payload), seq: None }
}

/// Where a packet from a peer goes.
#[derive(Debug, PartialEq, Eq)]
pub enum UdpStep {
    /// Nowhere.
    Ignore,
    /// Over the socket of its session.
    SendToTarget { conn_id: String, payload: Vec<u8> },
    /// To the local address of its session.
    SendToClient { addr: String, payload: Vec<u8> },
    /// To the local address that the session is named after, where it is one.
    SendToAddress { conn_id: String, payload: Vec<u8> },
    /// To a new session, if the peer may have one.
    Authorize { request: AuthRequest },
}

/// The model of `UdpStep`.
pub enum UdpStepView {
    Ignore,
    SendToTarget { conn_id: Seq<char>, payload: Seq<u8> },
    SendToClient { addr: Seq<char>, payload: Seq<u8> },
    SendToAddress { conn_id: Seq<char>, payload: Seq<u8> },
    Authorize { request: AuthRequestView },
}

impl View for UdpStep {
    type V = UdpStepView;

    open spec fn view(&self) -> UdpStepView {
        match self {
            UdpStep::Ignore => UdpStepView::Ignore,
            UdpStep::SendToTarget { conn_id, payload } => UdpStepView::SendToTarget {
                conn_id: conn_id@,
                payload: payload@,
            },
            UdpStep::SendToClient { addr, payload } => UdpStepView::SendToClient {
                addr: addr@,
                payload: payload@,
            },
            UdpStep::SendToAddress { conn_id, payload } => UdpStepView::SendToAddress {
                conn_id: conn_id@,
                payload: payload@,
            },
            UdpStep::Authorize { request } => UdpStepView::Authorize { request: request@ },
        }
    }
}

/// A forward without sessions.
pub open spec fn fresh_udp(
    target: Seq<char>,
    remote_addr: Seq<char>,
    has_local_socket: bool,
) -> UdpView {
    UdpView { target, remote_addr, has_local_socket, conns: Map::empty() }
}

/// A session between a local address and a peer.
pub open spec fn local_session(addr: Seq<char>, peer_id: Seq<char>, now_ns: u64) -> UdpConnView {
    UdpConnView { has_target: false, last_seen_ns: now_ns, peer_id, client_addr: Some(addr) }
}

/// A session of a peer with a socket of its own.
pub open spec fn remote_session(peer_id: Seq<char>, now_ns: u64) -> UdpConnView {
    UdpConnView { has_target: true, last_seen_ns: now_ns, peer_id, client_addr: None }
}

impl UdpView {
    /// Where a local packet goes, and in which message, where it has a session.
    pub open spec fn on_local(self, addr: Seq<char>, payload: Seq<u8>) -> Option<
        (Seq<char>, TunnelMessageView),
    > {
        if self.conns.contains_key(addr) {
            Some((self.conns[addr].peer_id, packet_message(addr, self.target, payload)))
        } else {
            None
        }
    }

    /// The request that a peer makes when it wants a session.
    pub open spec fn request_of(self, peer_id: Seq<char>) -> AuthRequestView {
        AuthRequestView {
            peer_id,
            forward_key: self.target,
            target_addr: self.remote_addr,
            proto: "udp"@,
        }
    }

    /// Where a message of a peer goes. Only data messages carry a packet.
    pub open spec fn route(self, peer_id: Seq<char>, message: TunnelMessageView) -> UdpStepView {
        if message.msg_type != "data"@ {
            UdpStepView::Ignore
        } else {
            self.route_packet(peer_id, message)
        }
    }

    /// Where a packet from a peer goes. An empty one goes nowhere.
    pub open spec fn route_packet(
        self,
        peer_id: Seq<char>,
        message: TunnelMessageView,
    ) -> UdpStepView {
        if message.payload is None || message.payload->0.len() == 0 {
            UdpStepView::Ignore
        } else {
            let payload = message.payload->0;
            let conn_id = message.conn_id;
            if self.conns.contains_key(conn_id) {
                let conn = self.conns[conn_id];
                if conn.has_target {
                    UdpStepView::SendToTarget { conn_id, payload }
                } else if conn.client_addr is Some && self.has_local_socket {
                    UdpStepView::SendToClient { addr: conn.client_addr->0, payload }
                } else {
                    UdpStepView::Ignore
                }
            } else if self.remote_addr.len() > 0 {
                UdpStepView::Authorize { request: self.request_of(peer_id) }
            } else if self.has_local_socket {
                UdpStepView::SendToAddress { conn_id, payload }
            } else {
                UdpStepView::Ignore
            }
        }
    }

    /// The address that a new session sends to, where the request for it was
    /// allowed.
    pub open spec fn dialed(self, decision: AuthDecision) -> Option<Seq<char>> {
        if decision.allowed() {
            Some(self.remote_addr)
        } else {
            None
        }
    }

    /// The state after a session was opened; it takes the place of one with the
    /// same id.
    pub open spec fn opened(self, conn_id: Seq<char>, conn: UdpConnView) -> UdpView {
        UdpView { conns: self.conns.insert(conn_id, conn), ..self }
    }

    /// The state after a packet of a session: it lives on.
    pub open spec fn touched(self, conn_id: Seq<char>, now_ns: u64) -> UdpView {
        if self.conns.contains_key(conn_id) {
            UdpView {
                conns: self.conns.insert(
                    conn_id,
                    UdpConnView { last_seen_ns: now_ns, ..self.conns[conn_id] },
                ),
                ..self
            }
        } else {
            self
        }
    }

    /// A session that had no packets for too long.
    pub open spec fn expired(self, conn_id: Seq<char>, now_ns: u64) -> bool {
        now_ns - self.conns[conn_id].last_seen_ns > UDP_TIMEOUT_NS
    }

    /// The state after old sessions were cleared out.
    pub open spec fn cleaned(self, now_ns: u64) -> UdpView {
        UdpView {
            conns: Map::new(
                |id: Seq<char>| self.conns.contains_key(id) && !self.expired(id, now_ns),
                |id: Seq<char>| self.conns[id],
            ),
            ..self
        }
    }

    /// The peers of the sessions that are cleared out, in the order of the
    /// sessions' ids.
    pub open spec fn expired_peers(self, now_ns: u64) -> Seq<Seq<char>> {
        sorted(self.conns.dom()).filter(|id: Seq<char>| self.expired(id, now_ns)).map_values(
            |id: Seq<char>| self.conns[id].peer_id,
        )
    }
}

impl UdpManager {
    /// A forward without sessions.
    pub fn new(target: &str, remote_addr: &str, has_local_socket: bool) -> (r: Self)
        ensures
            r@ == fresh_udp(target@, remote_addr@, has_local_socket),
    {
        UdpManager {
            target: text::copy(target),
            remote_addr: text::copy(remote_addr),
            has_local_socket,
            conns: TextMap::new(),
        }
    }

    /// Whether the target of the forward is announced to the peers: where it
    /// sends to an address.
    pub fn publishes(&self) -> (r: bool)
        ensures
            r == (self@.remote_addr.len() > 0),
    {
        self.remote_addr.as_str().unicode_len() > 0
    }

    /// The peer of a session.
    pub fn peer_of(&self, conn_id: &str) -> (r: Option<String>)
        ensures
            opt_view(r) == if self@.conns.contains_key(conn_id@) {
                Some(self@.conns[conn_id@].peer_id)
            } else {
                None
            },
    {
        match self.conns.get(conn_id) {
            Some(conn) => Some(text::copy(conn.peer_id.as_str())),
            None => None,
        }
    }

    /// A session between a local address and a peer is opened. Says whether it
    /// is new, and is then to be counted.
    pub fn open_local(&mut self, addr: &str, peer_id: &str, now_ns: u64) -> (r: bool)
        ensures
            r == !old(self)@.conns.contains_key(addr@),
            final(self)@ == old(self)@.opened(addr@, local_session(addr@, peer_id@, now_ns)),
    {
        let fresh = !self.conns.contains_key(addr);
        self.conns.insert(
            text::copy(addr),
            UdpConn {
                has_target: false,
                last_seen_ns: now_ns,
                peer_id: text::copy(peer_id),
                client_addr: Some(text::copy(addr)),
            },
        );
        fresh
    }

    /// A session of a peer with a socket of its own is opened. Says whether it is
    /// new, and is then to be counted.
    pub fn open_remote(&mut self, conn_id: &str, peer_id: &str, now_ns: u64) -> (r: bool)
        ensures
            r == !old(self)@.conns.contains_key(conn_id@),
            final(self)@ == old(self)@.opened(conn_id@, remote_session(peer_id@, now_ns)),
    {
        let fresh = !self.conns.contains_key(conn_id);
        self.conns.insert(
            text::copy(conn_id),
            UdpConn {
                has_target: true,
                last_seen_ns: now_ns,
                peer_id: text::copy(peer_id),
                client_addr: None,
            },
        );
        fresh
    }

    /// A packet of a session came: it lives on.
    pub fn touch(&mut self, conn_id: &str, now_ns: u64)
        ensures
            final(self)@ == old(self)@.touched(conn_id@, now_ns),
    {
        match self.conns.remove(conn_id) {
            Some(mut conn) => {
                conn.last_seen_ns = now_ns;
                self.conns.insert(text::copy(conn_id), conn);
                assert(self@.conns =~= old(self)@.touched(conn_id@, now_ns).conns);
            },
            None => {
                assert(self@.conns =~= old(self)@.conns);
            },
        }
    }

    /// The message that carries a packet to the peer.
    pub fn message(&self, conn_id: &str, payload: &[u8]) -> (r: TunnelMessage)
        ensures
            r@ == packet_message(conn_id@, self@.target, payload@),
    {
        TunnelMessage {
            msg_type: text::copy("data"),
            conn_id: text::copy(conn_id),
            target: text::copy(self.target.as_str()),
            payload: Some(copy_bytes(payload)),
            seq: None,
        }
    }

    /// A local packet: its session lives on, and the packet goes to the peer of
    /// the session. Without a session a peer has to be found first.
    pub fn local_packet(&mut self, addr: &str, payload: &[u8], now_ns: u64) -> (r: Option<
        (String, TunnelMessage),
    >)
        ensures
            final(self)@ == old(self)@.touched(addr@, now_ns),
            match r {
                Some((peer_id, message)) => old(self)@.on_local(addr@, payload@) == Some(
                    (peer_id@, message@),
                ),
                None => old(self)@.on_local(addr@, payload@) is None,
            },
    {
        let peer = self.peer_of(addr);
        self.touch(addr, now_ns);
        match peer {
            Some(peer_id) => Some((peer_id, self.message(addr, payload))),
            None => None,
        }
    }

    /// Decides where a message of a peer goes.
    pub fn on_tunnel_message(&self, peer_id: &str, tm: &TunnelMessage) -> (r: UdpStep)
        ensures
            r@ == self@.route(peer_id@, tm@),
    {
        if !text::same(tm.msg_type.as_str(), "data") {
            return UdpStep::Ignore;
        }
        self.handle_data(peer_id, tm)
    }

    /// Decides where a packet from a peer goes.
    pub fn handle_data(&self, peer_id: &str, tm: &TunnelMessage) -> (r: UdpStep)
        ensures
            r@ == self@.route_packet(peer_id@, tm@),
    {
        let payload = match &tm.payload {
            Some(payload) => {
                if payload.len() == 0 {
                    return UdpStep::Ignore;
                }
                copy_bytes(payload.as_slice())
            },
            None => {
                return UdpStep::Ignore;
            },
        };
        let conn_id = tm.conn_id.as_str();
        if let Some(conn) = self.conns.get(conn_id) {
            if conn.has_target {
                return UdpStep::SendToTarget { conn_id: text::copy(conn_id), payload };
            }
            if let Some(addr) = &conn.client_addr {
                if self.has_local_socket {
                    return UdpStep::SendToClient { addr: text::copy(addr.as_str()), payload };
                }
            }
            return UdpStep::Ignore;
        }
        if self.remote_addr.as_str().unicode_len() > 0 {
            UdpStep::Authorize {
                request: AuthRequest {
                    peer_id: text::copy(peer_id),
                    forward_key: text::copy(self.target.as_str()),
                    target_addr: text::copy(self.remote_addr.as_str()),
                    proto: text::copy("udp"),
                },
            }
        } else if self.has_local_socket {
            UdpStep::SendToAddress { conn_id: text::copy(conn_id), payload }
        } else {
            UdpStep::Ignore
        }
    }

    /// A peer's request for a session was decided. Gives the address to which a
    /// socket is opened for it, where it was allowed.
    pub fn on_authorized(&self, decision: AuthDecision) -> (r: Option<String>)
        ensures
            opt_view(r) == self@.dialed(decision),
    {
        if decision.is_allowed() {
            Some(text::copy(self.remote_addr.as_str()))
        } else {
            None
        }
    }

    /// Clears out old sessions and gives the peer of each, so that its end can be
    /// counted.
    pub fn cleanup(&mut self, now_ns: u64) -> (r: Vec<String>)
        ensures
            final(self)@ == old(self)@.cleaned(now_ns),
            texts(r@) == old(self)@.expired_peers(now_ns),
            old(self)@.conns.dom().finite(),
    {
        let n = self.conns.len();
        let ghost v = self@;
        let ghost keys = self.conns.keys();
        let ghost is_old = |id: Seq<char>| v.expired(id, now_ns);
        let ghost peer = |id: Seq<char>| v.conns[id].peer_id;
        let mut kept: TextMap<UdpConn> = TextMap::new();
        let mut out: Vec<String> = Vec::new();
        let mut i: usize = 0;
        assert(keys.take(0) =~= Seq::empty());
        assert(texts(out@) =~= keys.take(0).filter(is_old).map_values(peer)) by {
            reveal(Seq::filter);
        }
        while i < n
            invariant
                i <= n,
                n == keys.len(),
                keys == self.conns.keys(),
                keys == sorted(v.conns.dom()),
                v == self@,
                v == old(self)@,
                v.conns == self.conns@,
                is_old == (|id: Seq<char>| v.expired(id, now_ns)),
                peer == (|id: Seq<char>| v.conns[id].peer_id),
                texts(out@) == keys.take(i as int).filter(is_old).map_values(peer),
                kept_sessions(kept@, v, keys.take(i as int), now_ns),
            decreases n - i,
        {
            let ghost key = keys[i as int];
            let ghost head = keys.take(i as int);
            let conn = self.conns.value_at(i);
            let old_one = now_ns > conn.last_seen_ns && now_ns - conn.last_seen_ns > UDP_TIMEOUT_NS;
            proof {
                let next = keys.take(i + 1);
                assert(next =~= head.push(key));
                assert(next.drop_last() =~= head);
                assert(next.last() == key);
                reveal(Seq::filter);
                assert forall|id: Seq<char>| next.contains(id) == (head.contains(id) || id == key) by {
                    if head.contains(id) {
                        let k = choose|k: int| 0 <= k < head.len() && head[k] == id;
                        assert(next[k] == id);
                    }
                    if next.contains(id) {
                        let k = choose|k: int| 0 <= k < next.len() && next[k] == id;
                        if k < i {
                            assert(head[k] == id);
                        }
                    }
                    assert(next[i as int] == key);
                }
            }
            if old_one {
                let ghost before = out@;
                let peer_id = text::copy(conn.peer_id.as_str());
                out.push(peer_id);
                proof {
                    let f = head.filter(is_old);
                    assert(texts(out@) =~= texts(before).push(peer_id@));
                    assert(f.push(key).map_values(peer) =~= f.map_values(peer).push(peer_id@));
                }
            } else {
                let copy = UdpConn {
                    has_target: conn.has_target,
                    last_seen_ns: conn.last_seen_ns,
                    peer_id: text::copy(conn.peer_id.as_str()),
                    client_addr: match &conn.client_addr {
                        Some(addr) => Some(text::copy(addr.as_str())),
                        None => None,
                    },
                };
                assert(copy@ == conn@);
                kept.insert(text::copy(self.conns.key_at(i)), copy);
            }
            assert(kept_sessions(kept@, v, keys.take(i + 1), now_ns));
            i = i + 1;
        }
        proof {
            assert(keys.take(i as int) =~= keys);
            assert forall|id: Seq<char>| v.conns.contains_key(id) implies keys.contains(id) by {
                assert(keys.to_set().contains(id));
            }
            assert(kept@ =~= v.cleaned(now_ns).conns);
        }
        self.conns = kept;
        out
    }
}

/// The sessions with some ids that are not too old.
spec fn kept_sessions(
    kept: Map<Seq<char>, UdpConnView>,
    v: UdpView,
    keys: Seq<Seq<char>>,
    now_ns: u64,
) -> bool {
    &&& forall|id: Seq<char>|
        #[trigger] kept.contains_key(id) <==> keys.contains(id) && v.conns.contains_key(id)
            && !v.expired(id, now_ns)
    &&& forall|id: Seq<char>| #[trigger] kept.contains_key(id) ==> kept[id] == v.conns[id]
}

/// A packet that one side sends reaches the session on the other side unchanged.
pub proof fn law_packet_is_delivered(
    v: UdpView,
    peer_id: Seq<char>,
    conn_id: Seq<char>,
    payload: Seq<u8>,
)
    requires
        payload.len() > 0,
        v.conns.contains_key(conn_id),
        v.conns[conn_id].has_target,
    ensures
        v.route(peer_id, packet_message(conn_id, v.target, payload)) == (UdpStepView::SendToTarget {
            conn_id,
            payload,
        }),
{
}

/// The answer to a local packet goes back to the address that the packet came
/// from.
pub proof fn law_answer_goes_back(
    v: UdpView,
    addr: Seq<char>,
    peer_id: Seq<char>,
    now_ns: u64,
    payload: Seq<u8>,
)
    requires
        payload.len() > 0,
        v.has_local_socket,
    ensures
        v.opened(addr, local_session(addr, peer_id, now_ns)).route(
            peer_id,
            packet_message(addr, v.target, payload),
        ) == (UdpStepView::SendToClient { addr, payload }),
{
}

/// A session with a packet within its time is not cleared out; one without is.
pub proof fn law_sessions_live_while_used(
    v: UdpView,
    conn_id: Seq<char>,
    used_ns: u64,
    now_ns: u64,
)
    requires
        v.conns.contains_key(conn_id),
    ensures
        v.touched(conn_id, used_ns).cleaned(now_ns).conns.contains_key(conn_id) <==> now_ns
            - used_ns <= UDP_TIMEOUT_NS,
{
}

/// A session is asked for only where the forward sends to an address, and with
/// the key of the forward; and a socket is opened for it only where it is allowed.
pub proof fn law_only_new_sessions_are_authorized(
    v: UdpView,
    peer_id: Seq<char>,
    message: TunnelMessageView,
    decision: AuthDecision,
)
    ensures
        v.dialed(decision) is Some <==> decision.allowed(),
        v.route(peer_id, message) is Authorize ==> !v.conns.contains_key(message.conn_id)
            && v.remote_addr.len() > 0,
        v.route(peer_id, message) matches UdpStepView::Authorize { request } ==> request.peer_id
            == peer_id && request.forward_key == v.target,
{
}

/// A session that opens takes the place of no other one, and belongs to the peer and the
/// address that it was opened for.
pub proof fn law_opening_adds_one_session(
    v: UdpView,
    conn_id: Seq<char>,
    conn: UdpConnView,
    peer_id: Seq<char>,
    now_ns: u64,
    other: Seq<char>,
)
    ensures
        v.opened(conn_id, conn).conns.contains_key(conn_id),
        v.opened(conn_id, conn).conns[conn_id] == conn,
        other != conn_id ==> (v.opened(conn_id, conn).conns.contains_key(other)
            <==> v.conns.contains_key(other)),
        other != conn_id && v.conns.contains_key(other) ==> v.opened(conn_id, conn).conns[other]
            == v.conns[other],
        v.opened(conn_id, conn).target == v.target,
        v.opened(conn_id, conn).remote_addr == v.remote_addr,
        v.opened(conn_id, conn).has_local_socket == v.has_local_socket,
        local_session(conn_id, peer_id, now_ns).peer_id == peer_id,
        local_session(conn_id, peer_id, now_ns).client_addr == Some(conn_id),
        local_session(conn_id, peer_id, now_ns).last_seen_ns == now_ns,
        !local_session(conn_id, peer_id, now_ns).has_target,
        remote_session(peer_id, now_ns).peer_id == peer_id,
        remote_session(peer_id, now_ns).last_seen_ns == now_ns,
        remote_session(peer_id, now_ns).has_target,
        remote_session(peer_id, now_ns).client_addr is None,
        fresh_udp(v.target, v.remote_addr, v.has_local_socket).conns.dom() == Set::<
            Seq<char>,
        >::empty(),
        fresh_udp(v.target, v.remote_addr, true).has_local_socket,
        !fresh_udp(v.target, v.remote_addr, false).has_local_socket,
        fresh_udp(v.target, v.remote_addr, true).target == v.target,
        fresh_udp(v.target, v.remote_addr, true).remote_addr == v.remote_addr,
{
}

/// A local packet goes to the peer of its session, under the address that it came from.
/// There the first one asks whether this node may have a session to the address of the
/// forward; where it may, that address is dialed, and from then on the packets go over
/// that session, unchanged. What comes back over it reaches the address that the packets
/// came from, and no other one.
pub proof fn law_packets_go_both_ways(
    near: UdpView,
    far: UdpView,
    near_id: Seq<char>,
    addr: Seq<char>,
    there: Seq<u8>,
    back: Seq<u8>,
    decision: AuthDecision,
    now_ns: u64,
)
    requires
        near.conns.contains_key(addr),
        near.conns[addr].client_addr == Some(addr),
        !near.conns[addr].has_target,
        near.has_local_socket,
        there.len() > 0,
        back.len() > 0,
        far.remote_addr.len() > 0,
        !far.conns.contains_key(addr),
    ensures
        near.on_local(addr, there) matches Some((to, message)) && {
            &&& to == near.conns[addr].peer_id
            &&& message.target == near.target
            &&& far.route(near_id, message) == (UdpStepView::Authorize {
                request: AuthRequestView {
                    peer_id: near_id,
                    forward_key: far.target,
                    target_addr: far.remote_addr,
                    proto: "udp"@,
                },
            })
            &&& decision.allowed() ==> far.dialed(decision) == Some(far.remote_addr)
            &&& !decision.allowed() ==> far.dialed(decision) is None
            &&& ({
                let open = far.opened(message.conn_id, remote_session(near_id, now_ns));
                &&& open.route(near_id, message) == (UdpStepView::SendToTarget {
                    conn_id: addr,
                    payload: there,
                })
                &&& open.on_local(addr, back) matches Some((to, answer)) && to == near_id
                    && near.route(near.conns[addr].peer_id, answer) == (UdpStepView::SendToClient {
                    addr,
                    payload: back,
                })
            })
        },
{
}

/// What carries no packet goes nowhere: a message of another kind, or one without bytes.
/// A packet for a session goes over its socket, or to its local address where there is a
/// socket for that. One for no session asks for one where the forward sends to an address,
/// and else goes to the local address that it names.
pub proof fn law_where_packets_go(v: UdpView, peer_id: Seq<char>, message: TunnelMessageView)
    ensures
        message.msg_type != "data"@ ==> v.route(peer_id, message) is Ignore,
        message.payload is None ==> v.route(peer_id, message) is Ignore,
        message.payload matches Some(p) ==> p.len() == 0 ==> v.route(peer_id, message) is Ignore,
        message.msg_type == "data"@ && message.payload is Some && message.payload->0.len() > 0 ==> {
            let payload = message.payload->0;
            let conn_id = message.conn_id;
            let conn = v.conns[conn_id];
            let step = v.route(peer_id, message);
            &&& v.conns.contains_key(conn_id) && conn.has_target ==> step == (
            UdpStepView::SendToTarget { conn_id, payload })
            &&& v.conns.contains_key(conn_id) && !conn.has_target ==> {
                &&& v.has_local_socket && conn.client_addr is Some ==> step == (
                UdpStepView::SendToClient { addr: conn.client_addr->0, payload })
                &&& !v.has_local_socket || conn.client_addr is None ==> step is Ignore
            }
            &&& !v.conns.contains_key(conn_id) && v.remote_addr.len() > 0 ==> step == (
            UdpStepView::Authorize {
                request: AuthRequestView {
                    peer_id,
                    forward_key: v.target,
                    target_addr: v.remote_addr,
                    proto: "udp"@,
                },
            })
            &&& !v.conns.contains_key(conn_id) && v.remote_addr.len() == 0 && v.has_local_socket
                ==> step == (UdpStepView::SendToAddress { conn_id, payload })
            &&& !v.conns.contains_key(conn_id) && v.remote_addr.len() == 0 && !v.has_local_socket
                ==> step is Ignore
        },
{
}

/// A packet keeps its own session alive and changes nothing else. A session ends when it
/// had no packet for more than thirty seconds, and no other one does; the peer of each is
/// given.
pub proof fn law_idle_sessions_end(
    v: UdpView,
    conn_id: Seq<char>,
    now_ns: u64,
    other: Seq<char>,
)
    requires
        v.conns.dom().finite(),
    ensures
        ({
            let next = v.touched(conn_id, now_ns);
            &&& next.conns.contains_key(other) <==> v.conns.contains_key(other)
            &&& other != conn_id && v.conns.contains_key(other) ==> next.conns[other]
                == v.conns[other]
            &&& v.conns.contains_key(conn_id) ==> {
                &&& next.conns[conn_id].last_seen_ns == now_ns
                &&& next.conns[conn_id].peer_id == v.conns[conn_id].peer_id
                &&& next.conns[conn_id].client_addr == v.conns[conn_id].client_addr
                &&& next.conns[conn_id].has_target == v.conns[conn_id].has_target
            }
            &&& next.target == v.target && next.remote_addr == v.remote_addr
                && next.has_local_socket == v.has_local_socket
        }),
        ({
            let next = v.cleaned(now_ns);
            let idle = now_ns - v.conns[other].last_seen_ns > 30_000_000_000;
            &&& next.conns.contains_key(other) <==> v.conns.contains_key(other) && !idle
            &&& next.conns.contains_key(other) ==> next.conns[other] == v.conns[other]
            &&& v.conns.contains_key(other) && idle ==> v.expired_peers(now_ns).contains(
                v.conns[other].peer_id,
            )
            &&& next.target == v.target && next.remote_addr == v.remote_addr
                && next.has_local_socket == v.has_local_socket
        }),
        v.expired_peers(now_ns).len() + v.cleaned(now_ns).conns.dom().len() == v.conns.dom().len(),
{
    broadcast use vstd::seq_lib::group_filter_ensures;

    let keys = sorted(v.conns.dom());
    let is_old = |id: Seq<char>| v.expired(id, now_ns);
    let old = keys.filter(is_old);
    crate::text_map::lemma_sorted_exists(v.conns.dom());
    crate::text_map::lemma_ascending_differ(keys);
    if v.conns.contains_key(other) && is_old(other) {
        assert(keys.to_set().contains(other));
        let k = choose|k: int| 0 <= k < keys.len() && keys[k] == other;
        assert(is_old(keys[k]));
        assert(old.contains(other));
        let j = choose|j: int| 0 <= j < old.len() && old[j] == other;
        assert(v.expired_peers(now_ns)[j] == v.conns[other].peer_id);
    }
    let kept = v.cleaned(now_ns).conns.dom();
    lemma_split_old(keys, is_old, kept);
    keys.unique_seq_to_set();
}

proof fn lemma_split_old(
    keys: Seq<Seq<char>>,
    is_old: spec_fn(Seq<char>) -> bool,
    kept: Set<Seq<char>>,
)
    requires
        keys.no_duplicates(),
        forall|id: Seq<char>| #[trigger]
            kept.contains(id) <==> keys.to_set().contains(id) && !is_old(id),
    ensures
        kept.finite(),
        keys.filter(is_old).len() + kept.len() == keys.len(),
    decreases keys.len(),
{
    reveal(Seq::filter);
    if keys.len() == 0 {
        assert(kept =~= Set::empty());
    } else {
        let init = keys.drop_last();
        let last = keys.last();
        assert(init.no_duplicates());
        assert forall|id: Seq<char>| keys.to_set().contains(id) <==> init.to_set().contains(id)
            || id == last by {
            if init.contains(id) {
                let k = choose|k: int| 0 <= k < init.len() && init[k] == id;
                assert(keys[k] == id);
            }
            if keys.contains(id) {
                let k = choose|k: int| 0 <= k < keys.len() && keys[k] == id;
                if k < init.len() {
                    assert(init[k] == id);
                }
            }
            assert(keys[keys.len() - 1] == last);
        }
        assert(!init.contains(last)) by {
            if init.contains(last) {
                let k = choose|k: int| 0 <= k < init.len() && init[k] == last;
                assert(keys[k] == keys[keys.len() - 1]);
            }
        }
        let rest = kept.remove(last);
        assert forall|id: Seq<char>| #[trigger] rest.contains(id) <==> init.to_set().contains(id)
            && !is_old(id) by {
            assert(keys.to_set().contains(id) <==> init.to_set().contains(id) || id == last);
        }
        lemma_split_old(init, is_old, rest);
        if is_old(last) {
            assert(kept =~= rest);
        } else {
            assert(keys.to_set().contains(last));
            assert(kept =~= rest.insert(last));
        }
    }
}

/// A local packet from an address without a session goes nowhere yet; one from an address
/// with a session goes to its peer, whole and under that address.
pub proof fn law_sessions_carry_local_packets(v: UdpView, addr: Seq<char>, payload: Seq<u8>)
    ensures
        v.on_local(addr, payload) is Some <==> v.conns.contains_key(addr),
        v.on_local(addr, payload) matches Some((to, message)) ==> to == v.conns[addr].peer_id
            && message.conn_id == addr && message.target == v.target && message.payload == Some(
            payload,
        ) && message.msg_type == "data"@,
{
}

} // verus!
