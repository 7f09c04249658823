//! What a node knows of its peers, and which handlers a message goes to.
use vstd::prelude::*;

use crate::model::{first_where, lemma_first_where, lemma_views_push, opt_view, views};
use crate::text;
use crate::text::texts;
use crate::text_map::{ascending, sorted, TextMap};
use crate::text_set::TextSet;

pub mod event;
pub mod payload;

pub use payload::{ForwardRequestEvent, ForwardResponseEvent};

use payload::{
    ForwardRequestView, ForwardResponseView, Outgoing, OutgoingView, P2pPayload, PayloadView,
};

verus! {

/// The part that a peer plays.
#[derive(Debug, Clone, Copy, PartialEq, Eq, Structural)]
pub enum PeerRole {
    Client,
    Server,
}

impl View for PeerRole {
    type V = PeerRole;

    open spec fn view(&self) -> PeerRole {
        *self
    }
}

/// The role of a name; any name but `server` stands for a client.
pub open spec fn role_named(name: Seq<char>) -> PeerRole {
    if name == "server"@ {
        PeerRole::Server
    } else {
        PeerRole::Client
    }
}

impl PeerRole {
    /// The name of a role.
    pub open spec fn name(self) -> Seq<char> {
        match self {
            PeerRole::Client => "client"@,
            PeerRole::Server => "server"@,
        }
    }

    /// The name of the role.
    pub fn as_str(&self) -> (r: &'static str)
        ensures
            r@ == self.name(),
    {
        match self {
            PeerRole::Client => "client",
            PeerRole::Server => "server",
        }
    }

    /// Finds a role by its name.
    pub fn from_str(s: &str) -> (r: Self)
        ensures
            r == role_named(s@),
    {
        if text::same(s, "server") {
            PeerRole::Server
        } else {
            PeerRole::Client
        }
    }
}

/// A role is found by its own name.
pub proof fn law_role_name_round_trip(role: PeerRole)
    ensures
        role_named(role.name()) == role,
{
    reveal_strlit("client");
    reveal_strlit("server");
    assert("client"@[0] != "server"@[0]);
}

/// A handler of tunnel messages: of those to one target, or of all of them.
pub struct TunnelHandler {
    pub id: u64,
    pub target: Option<String>,
}

/// The model of `TunnelHandler`.
pub struct TunnelHandlerView {
    pub id: u64,
    pub target: Option<Seq<char>>,
}

impl View for TunnelHandler {
    type V = TunnelHandlerView;

    open spec fn view(&self) -> TunnelHandlerView {
        TunnelHandlerView { id: self.id, target: opt_view(self.target) }
    }
}

/// A node among its peers.
pub struct RTCManagerHandle {
    self_id: String,
    self_role: PeerRole,
    peers: TextSet,
    peer_roles: TextMap<PeerRole>,
    peer_forward_keys: TextMap<TextSet>,
    peer_epochs: TextMap<u64>,
    peer_rr_cursor: TextMap<usize>,
    self_forward_keys: TextSet,
    next_tunnel_handler_id: u64,
    tunnel_handlers: Vec<TunnelHandler>,
    default_tunnel_target: Option<String>,
}

pub type RTCManager = RTCManagerHandle;

/// The model of `RTCManagerHandle`.
#[verifier::ext_equal]
pub struct ManagerView {
    pub self_id: Seq<char>,
    pub self_role: PeerRole,
    /// The peers that are connected.
    pub peers: Set<Seq<char>>,
    pub roles: Map<Seq<char>, PeerRole>,
    /// The targets that each peer announced.
    pub forward_keys: Map<Seq<char>, Set<Seq<char>>>,
    /// How often each peer has joined.
    pub epochs: Map<Seq<char>, u64>,
    /// How often a peer was picked for each target.
    pub cursors: Map<Seq<char>, usize>,
    /// The targets that this node announces.
    pub own_keys: Set<Seq<char>>,
    pub next_handler: u64,
    pub handlers: Seq<TunnelHandlerView>,
    pub default_target: Option<Seq<char>>,
}

impl View for RTCManagerHandle {
    type V = ManagerView;

    closed spec fn view(&self) -> ManagerView {
        ManagerView {
            self_id: self.self_id@,
            self_role: self.self_role,
            peers: self.peers@,
            roles: self.peer_roles@,
            forward_keys: self.peer_forward_keys@,
            epochs: self.peer_epochs@,
            cursors: self.peer_rr_cursor@,
            own_keys: self.self_forward_keys@,
            next_handler: self.next_tunnel_handler_id,
            handlers: views(self.tunnel_handlers@),
            default_target: opt_view(self.default_tunnel_target),
        }
    }
}

/// The target of the first handler that has one.
pub open spec fn first_target(handlers: Seq<TunnelHandlerView>) -> Option<Seq<char>> {
    let i = first_where(handlers, |h: TunnelHandlerView| h.target is Some);
    if i < handlers.len() {
        handlers[i].target
    } else {
        None
    }
}

/// The handler that follows another; the numbers wrap around.
pub open spec fn next_id(id: u64) -> u64 {
    if id == u64::MAX {
        0
    } else {
        (id + 1) as u64
    }
}

/// The handlers with another number.
pub open spec fn without_handler(handlers: Seq<TunnelHandlerView>, id: u64) -> Seq<
    TunnelHandlerView,
> {
    handlers.filter(|h: TunnelHandlerView| h.id != id)
}

/// Whether a handler has a number.
pub open spec fn has_handler(handlers: Seq<TunnelHandlerView>, id: u64) -> bool {
    exists|i: int| 0 <= i < handlers.len() && #[trigger] handlers[i].id == id
}

/// The first handler with a number is one for a target.
pub open spec fn is_targeted(handlers: Seq<TunnelHandlerView>, id: u64) -> bool {
    let i = first_where(handlers, |h: TunnelHandlerView| h.id == id);
    i < handlers.len() && handlers[i].target is Some
}

impl ManagerView {
    /// The connected peers that announced a target.
    pub open spec fn announcers(self, target: Seq<char>) -> Set<Seq<char>> {
        Set::new(
            |id: Seq<char>|
                self.forward_keys.contains_key(id) && self.forward_keys[id].contains(target)
                    && self.peers.contains(id),
        )
    }

    /// The connected peers that serve.
    pub open spec fn servers(self) -> Set<Seq<char>> {
        Set::new(
            |id: Seq<char>|
                self.roles.contains_key(id) && self.roles[id] == PeerRole::Server
                    && self.peers.contains(id),
        )
    }

    /// The peers to which a connection for a target can go: those that announced
    /// it, or else all that serve.
    pub open spec fn candidates(self, target: Seq<char>) -> Set<Seq<char>> {
        if target.len() > 0 && self.announcers(target) != Set::<Seq<char>>::empty() {
            self.announcers(target)
        } else {
            self.servers()
        }
    }

    /// How often a peer was picked for a target.
    pub open spec fn cursor(self, target: Seq<char>) -> usize {
        if self.cursors.contains_key(target) {
            self.cursors[target]
        } else {
            0
        }
    }

    /// The peer that is picked next for a target.
    pub open spec fn pick(self, target: Seq<char>) -> Option<Seq<char>> {
        let peers = sorted(self.candidates(target));
        if peers.len() == 0 {
            None
        } else {
            Some(peers[self.cursor(target) as int % peers.len() as int])
        }
    }

    /// The state after a peer was picked for a target.
    pub open spec fn picked(self, target: Seq<char>) -> ManagerView {
        if sorted(self.candidates(target)).len() == 0 {
            self
        } else {
            let n = self.cursor(target);
            ManagerView {
                cursors: self.cursors.insert(
                    target,
                    if n == usize::MAX {
                        0
                    } else {
                        (n + 1) as usize
                    },
                ),
                ..self
            }
        }
    }

    /// How often a peer has joined.
    pub open spec fn epoch(self, peer_id: Seq<char>) -> u64 {
        if self.epochs.contains_key(peer_id) {
            self.epochs[peer_id]
        } else {
            0
        }
    }

    /// The message that announces the targets of this node.
    pub open spec fn announcement(self, peer_id: Seq<char>) -> OutgoingView {
        OutgoingView {
            peer_id,
            payload: PayloadView::Capabilities { forwards: sorted(self.own_keys) },
        }
    }

    /// The state after a target was added to those that this node announces.
    pub open spec fn published(self, target: Seq<char>) -> ManagerView {
        ManagerView { own_keys: self.own_keys.insert(target), ..self }
    }

    /// The state after a target was withdrawn.
    pub open spec fn unpublished(self, target: Seq<char>) -> ManagerView {
        ManagerView { own_keys: self.own_keys.remove(target), ..self }
    }

    /// The message that tells all peers the role of this node.
    pub open spec fn role_message(self) -> OutgoingView {
        OutgoingView { peer_id: ""@, payload: PayloadView::Role { role: self.self_role.name() } }
    }

    /// The state after a handler was added.
    pub open spec fn with_handler(self, target: Option<Seq<char>>) -> ManagerView {
        ManagerView {
            next_handler: next_id(self.next_handler),
            handlers: self.handlers.push(TunnelHandlerView { id: self.next_handler, target }),
            default_target: if self.default_target is None {
                target
            } else {
                self.default_target
            },
            ..self
        }
    }

    /// The state after the handlers with a number were removed. Where the first
    /// of them was for a target, the default target is found anew.
    pub open spec fn without(self, id: u64) -> ManagerView {
        let rest = without_handler(self.handlers, id);
        ManagerView {
            handlers: rest,
            default_target: if is_targeted(self.handlers, id) {
                first_target(rest)
            } else {
                self.default_target
            },
            ..self
        }
    }
}

/// A chat message to all peers.
pub open spec fn chat_message(text: Seq<char>) -> OutgoingView {
    OutgoingView { peer_id: ""@, payload: PayloadView::Chat { text } }
}

/// A tunnel message to a peer.
pub open spec fn tunnel_message(peer_id: Seq<char>, data: Seq<u8>) -> OutgoingView {
    OutgoingView { peer_id, payload: PayloadView::Tunnel { data } }
}

/// A message of the standard streams to a peer.
pub open spec fn streams_message(peer_id: Seq<char>, data: Seq<u8>) -> OutgoingView {
    OutgoingView { peer_id, payload: PayloadView::Stdio { data } }
}

/// A proposal to a peer.
pub open spec fn request_message(peer_id: Seq<char>, request: ForwardRequestView) -> OutgoingView {
    OutgoingView { peer_id, payload: PayloadView::ForwardRequest(request) }
}

/// The answer to a proposal.
pub open spec fn response_message(
    peer_id: Seq<char>,
    response: ForwardResponseView,
) -> OutgoingView {
    OutgoingView { peer_id, payload: PayloadView::ForwardResponse(response) }
}

/// The role of a node that serves, or that does not.
pub open spec fn role_for(is_server: bool) -> PeerRole {
    if is_server {
        PeerRole::Server
    } else {
        PeerRole::Client
    }
}

/// The state of a node that knows of no peer.
pub open spec fn fresh_manager(self_id: Seq<char>, role: PeerRole) -> ManagerView {
    ManagerView {
        self_id,
        self_role: role,
        peers: Set::empty(),
        roles: Map::empty(),
        forward_keys: Map::empty(),
        epochs: Map::empty(),
        cursors: Map::empty(),
        own_keys: Set::empty(),
        next_handler: 1,
        handlers: Seq::empty(),
        default_target: None,
    }
}

impl RTCManagerHandle {
    /// A node that knows of no peer.
    pub fn new(self_id: String, is_server: bool) -> (r: Self)
        ensures
            r@ == fresh_manager(self_id@, role_for(is_server)),
    {
        let role = if is_server {
            PeerRole::Server
        } else {
            PeerRole::Client
        };
        let r = RTCManagerHandle {
            self_id,
            self_role: role,
            peers: TextSet::new(),
            peer_roles: TextMap::new(),
            peer_forward_keys: TextMap::new(),
            peer_epochs: TextMap::new(),
            peer_rr_cursor: TextMap::new(),
            self_forward_keys: TextSet::new(),
            next_tunnel_handler_id: 1,
            tunnel_handlers: Vec::new(),
            default_tunnel_target: None,
        };
        assert(r@.handlers =~= Seq::empty());
        r
    }

    /// The id of this node.
    pub fn self_id(&self) -> (r: &str)
        ensures
            r@ == self@.self_id,
    {
        self.self_id.as_str()
    }

    /// The peers that serve, sorted.
    pub fn get_server_peers(&self) -> (r: Vec<String>)
        ensures
            texts(r@) == sorted(self@.servers()),
            self@.servers().finite(),
    {
        proof {
            reveal_strlit("");
            assert(""@.len() == 0);
        }
        self.get_server_peers_for("")
    }

    /// The connected peers that announced a target, sorted; where there are none
    /// or the target is empty, all connected peers that serve.
    pub fn get_server_peers_for(&self, target: &str) -> (r: Vec<String>)
        ensures
            texts(r@) == sorted(self@.candidates(target@)),
            self@.candidates(target@).finite(),
    {
        if target.unicode_len() > 0 {
            let matched = self.announcing_peers(target);
            if matched.len() > 0 {
                proof {
                    assert(texts(matched@).to_set().contains(texts(matched@)[0]));
                }
                return matched;
            }
            proof {
                assert(texts(matched@).to_set() =~= Set::<Seq<char>>::empty());
            }
        }
        self.serving_peers()
    }

    fn announcing_peers(&self, target: &str) -> (r: Vec<String>)
        ensures
            texts(r@) == sorted(self@.announcers(target@)),
            texts(r@).to_set() == self@.announcers(target@),
            self@.announcers(target@).finite(),
    {
        let n = self.peer_forward_keys.len();
        let ghost keys = self.peer_forward_keys.keys();
        let ghost wanted = self@.announcers(target@);
        let mut out: Vec<String> = Vec::new();
        let mut i: usize = 0;
        while i < n
            invariant
                i <= n,
                n == keys.len(),
                keys == self.peer_forward_keys.keys(),
                ascending(keys),
                wanted == self@.announcers(target@),
                selected(texts(out@), keys, i as int, wanted),
            decreases n - i,
        {
            let id = self.peer_forward_keys.key_at(i);
            let take = self.peer_forward_keys.value_at(i).contains(target) && self.peers.contains(
                id,
            );
            let ghost before = out@;
            if take {
                let id = text::copy(id);
                out.push(id);
                assert(texts(out@) =~= texts(before).push(id@));
            }
            proof {
                lemma_selected(texts(before), keys, i as int, wanted);
            }
            i = i + 1;
        }
        proof {
            assert forall|id: Seq<char>| wanted.contains(id) implies keys.contains(id) by {
                assert(self.peer_forward_keys@.dom().contains(id));
                assert(keys.to_set().contains(id));
            }
            lemma_all_selected(texts(out@), keys, wanted);
        }
        out
    }

    fn serving_peers(&self) -> (r: Vec<String>)
        ensures
            texts(r@) == sorted(self@.servers()),
            texts(r@).to_set() == self@.servers(),
            self@.servers().finite(),
    {
        let n = self.peer_roles.len();
        let ghost keys = self.peer_roles.keys();
        let ghost wanted = self@.servers();
        let mut out: Vec<String> = Vec::new();
        let mut i: usize = 0;
        while i < n
            invariant
                i <= n,
                n == keys.len(),
                keys == self.peer_roles.keys(),
                ascending(keys),
                wanted == self@.servers(),
                selected(texts(out@), keys, i as int, wanted),
            decreases n - i,
        {
            let id = self.peer_roles.key_at(i);
            let take = *self.peer_roles.value_at(i) == PeerRole::Server && self.peers.contains(id);
            let ghost before = out@;
            if take {
                let id = text::copy(id);
                out.push(id);
                assert(texts(out@) =~= texts(before).push(id@));
            }
            proof {
                lemma_selected(texts(before), keys, i as int, wanted);
            }
            i = i + 1;
        }
        proof {
            assert forall|id: Seq<char>| wanted.contains(id) implies keys.contains(id) by {
                assert(self.peer_roles@.dom().contains(id));
                assert(keys.to_set().contains(id));
            }
            lemma_all_selected(texts(out@), keys, wanted);
        }
        out
    }

    /// Picks a peer for a target, each of the candidates in turn. There is none
    /// where no candidate is connected.
    pub fn select_server_peer_for(&mut self, target: &str) -> (r: Option<String>)
        ensures
            opt_view(r) == old(self)@.pick(target@),
            final(self)@ == old(self)@.picked(target@),
            old(self)@.candidates(target@).finite(),
    {
        let peers = self.get_server_peers_for(target);
        if peers.len() == 0 {
            return None;
        }
        let cursor: usize = match self.peer_rr_cursor.get(target) {
            Some(n) => *n,
            None => 0,
        };
        let idx: usize = cursor % peers.len();
        self.peer_rr_cursor.insert(text::copy(target), cursor.wrapping_add(1));
        assert(texts(peers@)[idx as int] == peers@[idx as int]@);
        Some(text::copy(peers[idx].as_str()))
    }

    /// How often a peer has joined; zero for one that never did.
    pub fn peer_epoch(&self, peer_id: &str) -> (r: u64)
        ensures
            r == self@.epoch(peer_id@),
    {
        match self.peer_epochs.get(peer_id) {
            Some(n) => *n,
            None => 0,
        }
    }

    /// The connected peers, sorted.
    pub fn connected_peers(&self) -> (r: Vec<String>)
        ensures
            texts(r@) == sorted(self@.peers),
            self@.peers.finite(),
    {
        self.peers.to_vec()
    }

    /// The announcement of this node's targets, to a peer or to all.
    fn capabilities(&self, peer_id: &str) -> (r: Outgoing)
        ensures
            r@ == self@.announcement(peer_id@),
            self@.own_keys.finite(),
    {
        Outgoing {
            peer_id: text::copy(peer_id),
            payload: P2pPayload::Capabilities { forwards: self.self_forward_keys.to_vec() },
        }
    }

    /// Adds a target to those that this node announces; the announcement is to
    /// be sent to all.
    pub fn publish_tunnel_target(&mut self, target: &str) -> (r: Outgoing)
        ensures
            final(self)@ == old(self)@.published(target@),
            r@ == final(self)@.announcement(""@),
            final(self)@.own_keys.finite(),
    {
        let _ = self.self_forward_keys.insert(text::copy(target));
        self.capabilities("")
    }

    /// Withdraws a target; the announcement is to be sent to all.
    pub fn unpublish_tunnel_target(&mut self, target: &str) -> (r: Outgoing)
        ensures
            final(self)@ == old(self)@.unpublished(target@),
            r@ == final(self)@.announcement(""@),
            final(self)@.own_keys.finite(),
    {
        let _ = self.self_forward_keys.remove(target);
        self.capabilities("")
    }

    /// The message that tells all peers the role of this node.
    pub fn send_role_to_all(&self) -> (r: Outgoing)
        ensures
            r@ == self@.role_message(),
    {
        Outgoing {
            peer_id: text::copy(""),
            payload: P2pPayload::Role { role: text::copy(self.self_role.as_str()) },
        }
    }

    /// A chat message to all peers.
    pub fn send_chat_to_all(&self, msg: &str) -> (r: Outgoing)
        ensures
            r@ == chat_message(msg@),
    {
        Outgoing {
            peer_id: text::copy(""),
            payload: P2pPayload::Chat { text: text::copy(msg) },
        }
    }

    /// A tunnel message to a peer.
    pub fn send_tunnel_to(&self, peer_id: &str, data: Vec<u8>) -> (r: Outgoing)
        ensures
            r@ == tunnel_message(peer_id@, data@),
    {
        Outgoing { peer_id: text::copy(peer_id), payload: P2pPayload::Tunnel { data } }
    }

    /// A message of the standard streams to a peer.
    pub fn send_stdio_to(&self, peer_id: &str, data: Vec<u8>) -> (r: Outgoing)
        ensures
            r@ == streams_message(peer_id@, data@),
    {
        Outgoing { peer_id: text::copy(peer_id), payload: P2pPayload::Stdio { data } }
    }

    /// A proposal to a peer.
    pub fn send_forward_request(&self, peer_id: &str, ev: ForwardRequestEvent) -> (r: Outgoing)
        ensures
            r@ == request_message(peer_id@, ev@),
    {
        Outgoing {
            peer_id: text::copy(peer_id),
            payload: P2pPayload::ForwardRequest {
                req_id: ev.req_id,
                proto: ev.proto,
                remote_addr: ev.remote_addr,
                target: ev.target,
            },
        }
    }

    /// The answer to a proposal.
    pub fn send_forward_response(&self, peer_id: &str, ev: ForwardResponseEvent) -> (r: Outgoing)
        ensures
            r@ == response_message(peer_id@, ev@),
    {
        Outgoing {
            peer_id: text::copy(peer_id),
            payload: P2pPayload::ForwardResponse {
                req_id: ev.req_id,
                target: ev.target,
                accepted: ev.accepted,
            },
        }
    }

    /// Adds a handler for all tunnel messages and gives its number.
    pub fn on_tunnel_message(&mut self) -> (r: u64)
        ensures
            r == old(self)@.next_handler,
            final(self)@ == old(self)@.with_handler(None),
    {
        let id = self.next_tunnel_handler_id;
        self.next_tunnel_handler_id = id.wrapping_add(1);
        let handler = TunnelHandler { id, target: None };
        proof {
            lemma_views_push(self.tunnel_handlers@, handler);
        }
        self.tunnel_handlers.push(handler);
        id
    }

    /// Adds a handler for the tunnel messages to a target and gives its number.
    /// The first target becomes the default one.
    pub fn on_tunnel_message_for(&mut self, target: &str) -> (r: u64)
        ensures
            r == old(self)@.next_handler,
            final(self)@ == old(self)@.with_handler(Some(target@)),
    {
        if self.default_tunnel_target.is_none() {
            self.default_tunnel_target = Some(text::copy(target));
        }
        let id = self.next_tunnel_handler_id;
        self.next_tunnel_handler_id = id.wrapping_add(1);
        let handler = TunnelHandler { id, target: Some(text::copy(target)) };
        proof {
            lemma_views_push(self.tunnel_handlers@, handler);
        }
        self.tunnel_handlers.push(handler);
        id
    }

    /// Removes a handler and says whether there was one.
    pub fn remove_tunnel_message_handler(&mut self, id: u64) -> (r: bool)
        ensures
            final(self)@ == old(self)@.without(id),
            r == has_handler(old(self)@.handlers, id),
    {
        let ghost all = self@.handlers;
        let ghost is_it = |h: TunnelHandlerView| h.id == id;
        let mut kept: Vec<TunnelHandler> = Vec::new();
        let mut found = false;
        let mut targeted = false;
        let mut i: usize = 0;
        assert(all.take(0) =~= Seq::empty());
        assert(views(kept@) =~= without_handler(all.take(0), id));
        while i < self.tunnel_handlers.len()
            invariant
                i <= self.tunnel_handlers@.len(),
                all == views(self.tunnel_handlers@),
                is_it == (|h: TunnelHandlerView| h.id == id),
                views(kept@) == without_handler(all.take(i as int), id),
                !found ==> !targeted,
                !found ==> forall|k: int| 0 <= k < i ==> !is_it(#[trigger] all[k]),
                found ==> has_handler(all, id) && first_where(all, is_it) < all.len() && targeted
                    == (all[first_where(all, is_it)].target is Some),
            decreases self.tunnel_handlers@.len() - i,
        {
            proof {
                let head = all.take(i + 1);
                assert(head.drop_last() =~= all.take(i as int));
                assert(head.last() == self.tunnel_handlers@[i as int]@);
                reveal(Seq::filter);
                assert(all[i as int] == self.tunnel_handlers@[i as int]@);
            }
            let handler = &self.tunnel_handlers[i];
            if handler.id == id {
                if !found {
                    found = true;
                    targeted = handler.target.is_some();
                    proof {
                        lemma_first_where(all, is_it, i as int);
                        assert(all[i as int].id == id);
                    }
                }
            } else {
                let copy = TunnelHandler {
                    id: handler.id,
                    target: match &handler.target {
                        Some(target) => Some(text::copy(target.as_str())),
                        None => None,
                    },
                };
                proof {
                    lemma_views_push(kept@, copy);
                }
                kept.push(copy);
            }
            i = i + 1;
        }
        proof {
            assert(all.take(i as int) =~= all);
            if !found {
                lemma_first_where(all, is_it, all.len() as int);
                if has_handler(all, id) {
                    let k = choose|k: int| 0 <= k < all.len() && #[trigger] all[k].id == id;
                    assert(!is_it(all[k]));
                }
            }
        }
        self.tunnel_handlers = kept;
        if targeted {
            self.refresh_default_tunnel_target();
        }
        found
    }

    fn refresh_default_tunnel_target(&mut self)
        ensures
            final(self)@ == (ManagerView {
                default_target: first_target(old(self)@.handlers),
                ..old(self)@
            }),
    {
        let ghost all = self@.handlers;
        let ghost has_target = |h: TunnelHandlerView| h.target is Some;
        let mut i: usize = 0;
        while i < self.tunnel_handlers.len()
            invariant
                i <= self.tunnel_handlers@.len(),
                all == views(self.tunnel_handlers@),
                self@ == old(self)@,
                all == old(self)@.handlers,
                has_target == (|h: TunnelHandlerView| h.target is Some),
                forall|k: int| 0 <= k < i ==> !has_target(#[trigger] all[k]),
            decreases self.tunnel_handlers@.len() - i,
        {
            assert(all[i as int] == self.tunnel_handlers@[i as int]@);
            if let Some(target) = &self.tunnel_handlers[i].target {
                proof {
                    lemma_first_where(all, has_target, i as int);
                }
                self.default_tunnel_target = Some(text::copy(target.as_str()));
                return;
            }
            i = i + 1;
        }
        proof {
            lemma_first_where(all, has_target, i as int);
        }
        self.default_tunnel_target = None;
    }
}

/// The wanted ones among the first keys, in order.
spec fn selected(
    out: Seq<Seq<char>>,
    keys: Seq<Seq<char>>,
    i: int,
    wanted: Set<Seq<char>>,
) -> bool {
    &&& ascending(out)
    &&& forall|k: int|
        0 <= k < out.len() ==> wanted.contains(#[trigger] out[k]) && keys.take(i).contains(out[k])
    &&& forall|k: int|
        0 <= k < i && wanted.contains(#[trigger] keys[k]) ==> out.contains(keys[k])
}

proof fn lemma_selected(
    out: Seq<Seq<char>>,
    keys: Seq<Seq<char>>,
    i: int,
    wanted: Set<Seq<char>>,
)
    requires
        0 <= i < keys.len(),
        ascending(keys),
        selected(out, keys, i, wanted),
    ensures
        wanted.contains(keys[i]) ==> selected(out.push(keys[i]), keys, i + 1, wanted),
        !wanted.contains(keys[i]) ==> selected(out, keys, i + 1, wanted),
{
    let next = if wanted.contains(keys[i]) {
        out.push(keys[i])
    } else {
        out
    };
    let head = keys.take(i);
    let wide = keys.take(i + 1);
    assert(wide[i] == keys[i]);
    assert forall|k: int| 0 <= k < next.len() implies wanted.contains(#[trigger] next[k])
        && wide.contains(next[k]) by {
        if k < out.len() {
            assert(head.contains(out[k]));
            let p = choose|p: int| 0 <= p < head.len() && head[p] == out[k];
            assert(wide[p] == out[k]);
        }
    }
    assert forall|k: int| 0 <= k < i + 1 && wanted.contains(#[trigger] keys[k]) implies next.contains(
        keys[k],
    ) by {
        if k < i {
            assert(out.contains(keys[k]));
            let p = choose|p: int| 0 <= p < out.len() && out[p] == keys[k];
            assert(next[p] == keys[k]);
        } else {
            assert(next[out.len() as int] == keys[k]);
        }
    }
    assert forall|a: int, b: int| 0 <= a < b < next.len() implies #[trigger] text::text_before(
        next[a],
        next[b],
    ) by {
        if b < out.len() {
            assert(text::text_before(out[a], out[b]));
        } else {
            assert(head.contains(out[a]));
            let p = choose|p: int| 0 <= p < head.len() && head[p] == out[a];
            assert(text::text_before(keys[p], keys[i]));
        }
    }
}

proof fn lemma_all_selected(out: Seq<Seq<char>>, keys: Seq<Seq<char>>, wanted: Set<Seq<char>>)
    requires
        selected(out, keys, keys.len() as int, wanted),
        forall|id: Seq<char>| wanted.contains(id) ==> keys.contains(id),
    ensures
        out == sorted(wanted),
        out.to_set() == wanted,
        wanted.finite(),
{
    assert forall|id: Seq<char>| out.to_set().contains(id) == wanted.contains(id) by {
        if wanted.contains(id) {
            let k = choose|k: int| 0 <= k < keys.len() && keys[k] == id;
            assert(out.contains(keys[k]));
        }
        if out.contains(id) {
            let k = choose|k: int| 0 <= k < out.len() && out[k] == id;
            assert(wanted.contains(out[k]));
        }
    }
    assert(out.to_set() =~= wanted);
    crate::text_map::lemma_sorted(out);
}

} // verus!
