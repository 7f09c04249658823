//! What happens when a peer joins, leaves or sends a message.
use vstd::prelude::*;

use crate::model::{
    first_where, lemma_first_where, lemma_first_where_bounds, lemma_views_push, opt_view, views,
};
use crate::rtc::manager::payload::{
    tunnel_delivery, Delivery, DeliveryView, ForwardRequestEvent, ForwardRequestView,
    ForwardResponseEvent, ForwardResponseView, Outgoing, OutgoingView, P2pPayload, PayloadView,
};
use crate::rtc::manager::{
    chat_message, first_target, fresh_manager, has_handler, is_targeted, request_message,
    response_message, role_for, role_named, streams_message, tunnel_message, without_handler,
    ManagerView, PeerRole, RTCManagerHandle, TunnelHandlerView,
};
use crate::rtc::tunnel_message::{TunnelMessage, TunnelMessageView};
use crate::text;
use crate::text_map::sorted;
use crate::text_set::TextSet;

verus! {

/// Whether a handler receives a tunnel message: one for all targets receives
/// every message, one for a target those that name it, and, where it is the
/// default target, those that name none.
pub open spec fn handler_matches(
    target: Option<Seq<char>>,
    msg: Option<TunnelMessageView>,
    default_target: Option<Seq<char>>,
) -> bool {
    match target {
        None => true,
        Some(t) => match msg {
            None => false,
            Some(m) => m.target == t || (m.target.len() == 0 && default_target == Some(t)),
        },
    }
}

/// Whether a handler receives a tunnel message.
pub fn tunnel_handler_matches(
    handler_target: Option<&str>,
    msg: Option<&TunnelMessage>,
    default_target: &Option<String>,
) -> (r: bool)
    ensures
        r == handler_matches(opt_view(handler_target), opt_view(msg), opt_view(*default_target)),
{
    match handler_target {
        None => true,
        Some(target) => match msg {
            None => false,
            Some(msg) => {
                if text::same(msg.target.as_str(), target) {
                    return true;
                }
                if msg.target.as_str().unicode_len() != 0 {
                    return false;
                }
                match default_target {
                    Some(default) => text::same(default.as_str(), target),
                    None => false,
                }
            },
        },
    }
}

/// What a newly connected peer sets off.
pub open spec fn connected(peer_id: Seq<char>) -> Seq<DeliveryView> {
    seq![
        DeliveryView::PeerConnected(peer_id),
        DeliveryView::TunnelOpen(peer_id),
        DeliveryView::StdioOpen(peer_id),
    ]
}

/// The deliveries of a tunnel message, one for each handler that receives it.
pub open spec fn tunnel_deliveries(
    handlers: Seq<TunnelHandlerView>,
    default_target: Option<Seq<char>>,
    peer_id: Seq<char>,
    data: Seq<u8>,
    msg: Option<TunnelMessageView>,
) -> Seq<DeliveryView> {
    handlers.filter(
        |h: TunnelHandlerView| handler_matches(h.target, msg, default_target),
    ).map_values(
        |h: TunnelHandlerView| DeliveryView::Tunnel { handler: h.id, peer_id, data },
    )
}

impl ManagerView {
    /// The state after a peer joined.
    pub open spec fn joined(self, peer_id: Seq<char>) -> ManagerView {
        if peer_id == self.self_id {
            self
        } else {
            ManagerView {
                peers: self.peers.insert(peer_id),
                epochs: self.epochs.insert(
                    peer_id,
                    if self.epoch(peer_id) == u64::MAX {
                        0
                    } else {
                        (self.epoch(peer_id) + 1) as u64
                    },
                ),
                ..self
            }
        }
    }

    /// What a peer that joins sets off: the handlers are told, and the peer is
    /// sent the role and the targets of this node.
    pub open spec fn on_join(self, peer_id: Seq<char>) -> Seq<DeliveryView> {
        if peer_id == self.self_id {
            Seq::empty()
        } else {
            connected(peer_id) + seq![
                DeliveryView::Send(
                    OutgoingView {
                        peer_id,
                        payload: PayloadView::Role { role: self.self_role.name() },
                    },
                ),
                DeliveryView::Send(self.announcement(peer_id)),
            ]
        }
    }

    /// The state after a peer left.
    pub open spec fn left(self, peer_id: Seq<char>) -> ManagerView {
        ManagerView {
            peers: self.peers.remove(peer_id),
            roles: self.roles.remove(peer_id),
            forward_keys: self.forward_keys.remove(peer_id),
            ..self
        }
    }

    /// What a peer that leaves sets off.
    pub open spec fn on_leave(self, peer_id: Seq<char>) -> Seq<DeliveryView> {
        seq![
            DeliveryView::TunnelClose(peer_id),
            DeliveryView::StdioClose(peer_id),
            DeliveryView::PeerLeave { peer_id, epoch: self.epoch(peer_id) },
        ]
    }

    /// The state after a message from a peer. Any message shows that the peer is
    /// connected; a message from this node itself is ignored.
    pub open spec fn received(
        self,
        peer_id: Seq<char>,
        payload: Option<PayloadView>,
    ) -> ManagerView {
        if peer_id == self.self_id {
            self
        } else {
            let known = ManagerView { peers: self.peers.insert(peer_id), ..self };
            match payload {
                Some(PayloadView::Role { role }) => ManagerView {
                    roles: self.roles.insert(peer_id, role_named(role)),
                    ..known
                },
                Some(PayloadView::Capabilities { forwards }) => ManagerView {
                    forward_keys: self.forward_keys.insert(peer_id, forwards.to_set()),
                    ..known
                },
                _ => known,
            }
        }
    }

    /// What the content of a message sets off. A message that cannot be read
    /// sets off nothing.
    pub open spec fn on_payload(
        self,
        peer_id: Seq<char>,
        payload: Option<PayloadView>,
        tunnel_msg: Option<TunnelMessageView>,
    ) -> Seq<DeliveryView> {
        match payload {
            Some(PayloadView::Chat { text }) => seq![DeliveryView::Chat { peer_id, text }],
            Some(PayloadView::Tunnel { data }) => tunnel_deliveries(
                self.handlers,
                self.default_target,
                peer_id,
                data,
                tunnel_msg,
            ),
            Some(PayloadView::Stdio { data }) => seq![DeliveryView::Stdio { peer_id, data }],
            Some(PayloadView::ForwardRequest(request)) => seq![
                DeliveryView::ForwardRequest { peer_id, request },
            ],
            Some(PayloadView::ForwardResponse(response)) => seq![
                DeliveryView::ForwardResponse { peer_id, response },
            ],
            _ => Seq::empty(),
        }
    }

    /// What a message from a peer sets off.
    pub open spec fn on_message(
        self,
        peer_id: Seq<char>,
        payload: Option<PayloadView>,
        tunnel_msg: Option<TunnelMessageView>,
    ) -> Seq<DeliveryView> {
        if peer_id == self.self_id {
            Seq::empty()
        } else if self.peers.contains(peer_id) {
            self.on_payload(peer_id, payload, tunnel_msg)
        } else {
            connected(peer_id) + self.on_payload(peer_id, payload, tunnel_msg)
        }
    }
}

fn push_connected(out: &mut Vec<Delivery>, peer_id: &str)
    ensures
        views(final(out)@) == views(old(out)@) + connected(peer_id@),
{
    out.push(Delivery::PeerConnected(text::copy(peer_id)));
    out.push(Delivery::TunnelOpen(text::copy(peer_id)));
    out.push(Delivery::StdioOpen(text::copy(peer_id)));
    assert(views(out@) =~= views(old(out)@) + connected(peer_id@));
}

impl RTCManagerHandle {
    /// A peer joined: it is counted as connected, and greeted.
    pub fn handle_join(&mut self, peer_id: &str) -> (r: Vec<Delivery>)
        ensures
            final(self)@ == old(self)@.joined(peer_id@),
            views(r@) == old(self)@.on_join(peer_id@),
            peer_id@ != old(self)@.self_id ==> old(self)@.own_keys.finite(),
    {
        let mut out: Vec<Delivery> = Vec::new();
        if text::same(peer_id, self.self_id.as_str()) {
            assert(views(out@) =~= Seq::empty());
            return out;
        }
        let _ = self.peers.insert(text::copy(peer_id));
        let epoch = self.peer_epoch(peer_id);
        self.peer_epochs.insert(text::copy(peer_id), epoch.wrapping_add(1));
        push_connected(&mut out, peer_id);
        out.push(
            Delivery::Send(
                Outgoing {
                    peer_id: text::copy(peer_id),
                    payload: P2pPayload::Role { role: text::copy(self.self_role.as_str()) },
                },
            ),
        );
        out.push(Delivery::Send(self.capabilities(peer_id)));
        assert(views(out@) =~= old(self)@.on_join(peer_id@));
        out
    }

    /// A peer left: what it said of itself is forgotten, but not how often it
    /// has joined.
    pub fn handle_leave(&mut self, peer_id: &str) -> (r: Vec<Delivery>)
        ensures
            final(self)@ == old(self)@.left(peer_id@),
            views(r@) == old(self)@.on_leave(peer_id@),
    {
        let _ = self.peers.remove(peer_id);
        let _ = self.peer_roles.remove(peer_id);
        let _ = self.peer_forward_keys.remove(peer_id);
        let mut out: Vec<Delivery> = Vec::new();
        out.push(Delivery::TunnelClose(text::copy(peer_id)));
        out.push(Delivery::StdioClose(text::copy(peer_id)));
        let epoch = self.peer_epoch(peer_id);
        out.push(Delivery::PeerLeave { peer_id: text::copy(peer_id), epoch });
        assert(views(out@) =~= old(self)@.on_leave(peer_id@));
        out
    }

    /// A message came from a peer. `payload` is what could be read of it, and
    /// `tunnel_msg` what could be read of the tunnel message that it carries.
    pub fn handle_payload(
        &mut self,
        peer_id: &str,
        payload: Option<P2pPayload>,
        tunnel_msg: Option<&TunnelMessage>,
    ) -> (r: Vec<Delivery>)
        ensures
            final(self)@ == old(self)@.received(peer_id@, opt_view(payload)),
            views(r@) == old(self)@.on_message(peer_id@, opt_view(payload), opt_view(tunnel_msg)),
    {
        let mut out: Vec<Delivery> = Vec::new();
        if text::same(peer_id, self.self_id.as_str()) {
            assert(views(out@) =~= Seq::empty());
            return out;
        }
        if self.peers.insert(text::copy(peer_id)) {
            push_connected(&mut out, peer_id);
        }
        let ghost before = out@;
        let ghost expected = old(self)@.on_message(
            peer_id@,
            opt_view(payload),
            opt_view(tunnel_msg),
        );
        match payload {
            None => {},
            Some(P2pPayload::Role { role }) => {
                self.peer_roles.insert(text::copy(peer_id), PeerRole::from_str(role.as_str()));
            },
            Some(P2pPayload::Capabilities { forwards }) => {
                self.peer_forward_keys.insert(
                    text::copy(peer_id),
                    TextSet::from_texts(&forwards),
                );
            },
            Some(P2pPayload::Chat { text }) => {
                out.push(Delivery::Chat { peer_id: text::copy(peer_id), text });
            },
            Some(P2pPayload::Tunnel { data }) => {
                self.deliver_tunnel(&mut out, peer_id, &data, tunnel_msg);
            },
            Some(P2pPayload::Stdio { data }) => {
                out.push(Delivery::Stdio { peer_id: text::copy(peer_id), data });
            },
            Some(P2pPayload::ForwardRequest { req_id, proto, remote_addr, target }) => {
                let request = ForwardRequestEvent { req_id, proto, remote_addr, target };
                out.push(Delivery::ForwardRequest { peer_id: text::copy(peer_id), request });
            },
            Some(P2pPayload::ForwardResponse { req_id, target, accepted }) => {
                let response = ForwardResponseEvent { req_id, target, accepted };
                out.push(Delivery::ForwardResponse { peer_id: text::copy(peer_id), response });
            },
        }
        assert(views(out@) =~= expected);
        out
    }

    fn deliver_tunnel(
        &self,
        out: &mut Vec<Delivery>,
        peer_id: &str,
        data: &Vec<u8>,
        tunnel_msg: Option<&TunnelMessage>,
    )
        ensures
            views(final(out)@) == views(old(out)@) + tunnel_deliveries(
                self@.handlers,
                self@.default_target,
                peer_id@,
                data@,
                opt_view(tunnel_msg),
            ),
    {
        let ghost all = self@.handlers;
        let ghost matches_it = |h: TunnelHandlerView|
            handler_matches(h.target, opt_view(tunnel_msg), self@.default_target);
        let ghost deliver = |h: TunnelHandlerView|
            DeliveryView::Tunnel { handler: h.id, peer_id: peer_id@, data: data@ };
        let ghost start = views(out@);
        let mut i: usize = 0;
        proof {
            reveal(Seq::filter);
            assert(all.take(0) =~= Seq::empty());
            assert(start =~= start + all.take(0).filter(matches_it).map_values(deliver));
        }
        while i < self.tunnel_handlers.len()
            invariant
                i <= self.tunnel_handlers@.len(),
                all == views(self.tunnel_handlers@),
                self@.handlers == all,
                opt_view(self.default_tunnel_target) == self@.default_target,
                matches_it == (|h: TunnelHandlerView|
                    handler_matches(h.target, opt_view(tunnel_msg), self@.default_target)),
                deliver == (|h: TunnelHandlerView|
                    DeliveryView::Tunnel { handler: h.id, peer_id: peer_id@, data: data@ }),
                views(out@) == start + all.take(i as int).filter(matches_it).map_values(deliver),
            decreases self.tunnel_handlers@.len() - i,
        {
            let handler = &self.tunnel_handlers[i];
            let target: Option<&str> = match &handler.target {
                Some(target) => Some(target.as_str()),
                None => None,
            };
            let ghost kept = all.take(i as int).filter(matches_it);
            proof {
                let head = all.take(i + 1);
                assert(head.drop_last() =~= all.take(i as int));
                assert(head.last() == handler@);
                reveal(Seq::filter);
                assert(opt_view(target) == handler@.target);
            }
            if tunnel_handler_matches(target, tunnel_msg, &self.default_tunnel_target) {
                let delivery = tunnel_delivery(handler.id, peer_id, data);
                proof {
                    lemma_views_push(out@, delivery);
                    assert(kept.push(handler@).map_values(deliver) =~= kept.map_values(
                        deliver,
                    ).push(delivery@));
                }
                out.push(delivery);
                assert(views(out@) =~= start + kept.push(handler@).map_values(deliver));
            }
            i = i + 1;
        }
        assert(all.take(i as int) =~= all);
    }
}

/// A node never counts itself among its peers.
pub proof fn law_self_is_no_peer(
    v: ManagerView,
    peer_id: Seq<char>,
    payload: Option<PayloadView>,
    tunnel_msg: Option<TunnelMessageView>,
    target: Option<Seq<char>>,
    id: u64,
)
    requires
        !v.peers.contains(v.self_id),
    ensures
        !fresh_manager(v.self_id, v.self_role).peers.contains(v.self_id),
        target matches Some(t) ==> !v.picked(t).peers.contains(v.self_id),
        !v.with_handler(target).peers.contains(v.self_id),
        !v.without(id).peers.contains(v.self_id),
        !v.joined(peer_id).peers.contains(v.self_id),
        !v.left(peer_id).peers.contains(v.self_id),
        !v.received(peer_id, payload).peers.contains(v.self_id),
        v.received(v.self_id, payload) == v,
        v.on_message(v.self_id, payload, tunnel_msg).len() == 0,
{
}

/// After a peer left it is not connected, nothing it announced is remembered, and
/// no connection goes to it.
pub proof fn law_departed_peer_is_not_picked(
    v: ManagerView,
    peer_id: Seq<char>,
    target: Seq<char>,
)
    ensures
        !v.left(peer_id).peers.contains(peer_id),
        !v.left(peer_id).roles.contains_key(peer_id),
        !v.left(peer_id).forward_keys.contains_key(peer_id),
        !v.left(peer_id).candidates(target).contains(peer_id),
        v.left(peer_id).epoch(peer_id) == v.epoch(peer_id),
{
}

/// Each join starts a new session of a peer; leaving and sending do not.
pub proof fn law_join_starts_a_session(
    v: ManagerView,
    peer_id: Seq<char>,
    other: Seq<char>,
    payload: Option<PayloadView>,
)
    requires
        peer_id != v.self_id,
        v.epoch(peer_id) < u64::MAX,
    ensures
        v.joined(peer_id).epoch(peer_id) == v.epoch(peer_id) + 1,
        other != peer_id ==> v.joined(peer_id).epoch(other) == v.epoch(other),
        v.left(other).epoch(peer_id) == v.epoch(peer_id),
        v.received(other, payload).epoch(peer_id) == v.epoch(peer_id),
{
}

/// A connected peer that announced a target is a candidate for it, and one that
/// did not is none as long as some other did.
pub proof fn law_announced_target_is_routed(
    v: ManagerView,
    peer_id: Seq<char>,
    forwards: Seq<Seq<char>>,
    target: Seq<char>,
    other: Seq<char>,
)
    requires
        peer_id != v.self_id,
        target.len() > 0,
        forwards.contains(target),
    ensures
        ({
            let next = v.received(peer_id, Some(PayloadView::Capabilities { forwards }));
            &&& next.candidates(target).contains(peer_id)
            &&& next.candidates(target).contains(other) ==> next.announcers(target).contains(other)
        }),
{
    let next = v.received(peer_id, Some(PayloadView::Capabilities { forwards }));
    assert(next.forward_keys[peer_id].contains(target));
    assert(next.announcers(target).contains(peer_id));
}

/// The state after a number of peers were picked for a target.
pub open spec fn picked_times(v: ManagerView, target: Seq<char>, n: nat) -> ManagerView
    decreases n,
{
    if n == 0 {
        v
    } else {
        picked_times(v, target, (n - 1) as nat).picked(target)
    }
}

/// Peers are picked in turn: the pick that follows `n` others is the one `n`
/// places further on, until the count wraps around.
pub proof fn law_round_robin(v: ManagerView, target: Seq<char>, n: nat)
    requires
        sorted(v.candidates(target)).len() > 0,
        v.cursor(target) + n <= usize::MAX,
    ensures
        ({
            let peers = sorted(v.candidates(target));
            picked_times(v, target, n).pick(target) == Some(
                peers[(v.cursor(target) + n) % peers.len() as int],
            )
        }),
{
    lemma_picked_times(v, target, n);
}

proof fn lemma_picked_times(v: ManagerView, target: Seq<char>, n: nat)
    requires
        sorted(v.candidates(target)).len() > 0,
        v.cursor(target) + n <= usize::MAX,
    ensures
        picked_times(v, target, n).candidates(target) == v.candidates(target),
        picked_times(v, target, n).cursor(target) == v.cursor(target) + n,
    decreases n,
{
    if n > 0 {
        let before = picked_times(v, target, (n - 1) as nat);
        lemma_picked_times(v, target, (n - 1) as nat);
        let after = before.picked(target);
        assert(after.announcers(target) =~= before.announcers(target));
        assert(after.servers() =~= before.servers());
    }
}

/// As many picks as there are candidates reach every one of them.
pub proof fn law_round_robin_reaches_all(v: ManagerView, target: Seq<char>, i: int) -> (n: nat)
    requires
        0 <= i < sorted(v.candidates(target)).len(),
        v.cursor(target) + sorted(v.candidates(target)).len() <= usize::MAX,
    ensures
        n < sorted(v.candidates(target)).len(),
        picked_times(v, target, n).pick(target) == Some(sorted(v.candidates(target))[i]),
{
    let len = sorted(v.candidates(target)).len() as int;
    let at = v.cursor(target) as int % len;
    let n: nat = if i >= at {
        (i - at) as nat
    } else {
        (i - at + len) as nat
    };
    law_round_robin(v, target, n);
    let c = v.cursor(target) as int;
    let total = c + n;
    assert(total % len == i) by {
        vstd::arithmetic::div_mod::lemma_fundamental_div_mod(c, len);
        let q = c / len;
        let k = if i >= at {
            q
        } else {
            q + 1
        };
        assert(total == k * len + i) by (nonlinear_arith)
            requires
                c == len * q + at,
                total == c + n,
                i >= at ==> n == i - at && k == q,
                i < at ==> n == i - at + len && k == q + 1,
        ;
        vstd::arithmetic::div_mod::lemma_fundamental_div_mod_converse(total, len, k, i);
    }
    n
}

/// The numbers of the handlers lie below another.
pub open spec fn handlers_below(handlers: Seq<TunnelHandlerView>, next: u64) -> bool {
    forall|i: int| 0 <= i < handlers.len() ==> (#[trigger] handlers[i]).id < next
}

/// The numbers of the handlers differ.
pub open spec fn distinct_handlers(handlers: Seq<TunnelHandlerView>) -> bool {
    forall|i: int, j: int|
        0 <= i < j < handlers.len() ==> (#[trigger] handlers[i]).id != (#[trigger] handlers[j]).id
}

/// The numbers of the handlers differ and lie below the next one, whichever
/// handlers are added and removed, until the numbers wrap around.
pub proof fn law_handlers_stay_distinct(v: ManagerView, target: Option<Seq<char>>, id: u64)
    requires
        distinct_handlers(v.handlers),
        handlers_below(v.handlers, v.next_handler),
        v.next_handler < u64::MAX,
    ensures
        ({
            let more = v.with_handler(target);
            &&& distinct_handlers(more.handlers)
            &&& handlers_below(more.handlers, more.next_handler)
        }),
        ({
            let less = v.without(id);
            &&& distinct_handlers(less.handlers)
            &&& handlers_below(less.handlers, less.next_handler)
        }),
{
    lemma_fewer_handlers(v.handlers, id, v.next_handler);
}

proof fn lemma_fewer_handlers(all: Seq<TunnelHandlerView>, id: u64, next: u64)
    requires
        distinct_handlers(all),
        handlers_below(all, next),
    ensures
        distinct_handlers(without_handler(all, id)),
        handlers_below(without_handler(all, id), next),
    decreases all.len(),
{
    reveal(Seq::filter);
    if all.len() > 0 {
        let others = |h: TunnelHandlerView| h.id != id;
        let init = all.drop_last();
        lemma_fewer_handlers(init, id, next);
        let kept = without_handler(init, id);
        let rest = without_handler(all, id);
        assert forall|k: int| 0 <= k < kept.len() implies (#[trigger] kept[k]).id
            != all.last().id by {
            assert(kept.contains(kept[k]));
            init.lemma_filter_contains_rev(others, kept[k]);
            let j = choose|j: int| 0 <= j < init.len() && init[j] == kept[k];
            assert(all[j].id != all[all.len() - 1].id);
        }
        assert forall|a: int, b: int| 0 <= a < b < rest.len() implies (#[trigger] rest[a]).id != (
        #[trigger] rest[b]).id by {
            assert(rest[a] == kept[a]);
            if b < kept.len() {
                assert(kept[a].id != kept[b].id);
            }
        }
        assert(all[all.len() - 1].id < next);
    }
}

/// Forwards share a room without getting each other's messages: a message that
/// names a target is delivered to the handlers for that target, and to those for
/// all targets, and to no other one.
pub proof fn law_messages_reach_their_forward(
    v: ManagerView,
    peer_id: Seq<char>,
    data: Seq<u8>,
    msg: TunnelMessageView,
    i: int,
)
    requires
        msg.target.len() > 0,
        distinct_handlers(v.handlers),
        0 <= i < v.handlers.len(),
    ensures
        v.on_payload(peer_id, Some(PayloadView::Tunnel { data }), Some(msg)).contains(
            DeliveryView::Tunnel { handler: v.handlers[i].id, peer_id, data },
        ) <==> v.handlers[i].target is None || v.handlers[i].target == Some(msg.target),
{
    broadcast use vstd::seq_lib::group_filter_ensures;

    let receives = |h: TunnelHandlerView| handler_matches(h.target, Some(msg), v.default_target);
    let chosen = v.handlers.filter(receives);
    let all = v.on_payload(peer_id, Some(PayloadView::Tunnel { data }), Some(msg));
    let wanted = DeliveryView::Tunnel { handler: v.handlers[i].id, peer_id, data };
    if receives(v.handlers[i]) {
        assert(chosen.contains(v.handlers[i]));
        let k = choose|k: int| 0 <= k < chosen.len() && chosen[k] == v.handlers[i];
        assert(all[k] == wanted);
    }
    if all.contains(wanted) {
        let k = choose|k: int| 0 <= k < all.len() && all[k] == wanted;
        assert(chosen[k].id == v.handlers[i].id);
        assert(receives(chosen[k]));
        assert(chosen.contains(chosen[k]));
        v.handlers.lemma_filter_contains_rev(receives, chosen[k]);
        let j = choose|j: int| 0 <= j < v.handlers.len() && v.handlers[j] == chosen[k];
        assert(j == i);
    }
}

/// The default target is that of the first handler that has one, whichever
/// handlers are added and removed.
pub proof fn law_default_is_first_target(
    v: ManagerView,
    target: Option<Seq<char>>,
    id: u64,
)
    requires
        v.default_target == first_target(v.handlers),
        distinct_handlers(v.handlers),
    ensures
        v.with_handler(target).default_target == first_target(v.with_handler(target).handlers),
        v.without(id).default_target == first_target(v.without(id).handlers),
        !has_handler(v.without(id).handlers, id),
{
    let has_target = |h: TunnelHandlerView| h.target is Some;
    let all = v.handlers;
    lemma_first_where_bounds(all, has_target);
    let i = first_where(all, has_target);
    let more = v.with_handler(target).handlers;
    assert forall|k: int| 0 <= k < i implies !has_target(#[trigger] more[k]) by {
        assert(!has_target(all[k]));
    }
    if i < all.len() {
        assert(more[i] == all[i]);
        lemma_first_where(more, has_target, i);
    } else if target is Some {
        lemma_first_where(more, has_target, i);
    } else {
        lemma_first_where(more, has_target, i + 1);
    }
    if !is_targeted(all, id) {
        lemma_first_target_kept(all, id);
    }
    let rest = without_handler(all, id);
    if has_handler(rest, id) {
        broadcast use vstd::seq_lib::group_filter_ensures;

        let k = choose|k: int| 0 <= k < rest.len() && #[trigger] rest[k].id == id;
        assert(rest[k].id != id);
    }
}

proof fn lemma_first_target_kept(all: Seq<TunnelHandlerView>, id: u64)
    requires
        distinct_handlers(all),
        !is_targeted(all, id),
    ensures
        first_target(without_handler(all, id)) == first_target(all),
    decreases all.len(),
{
    let has_target = |h: TunnelHandlerView| h.target is Some;
    let is_it = |h: TunnelHandlerView| h.id == id;
    reveal(Seq::filter);
    lemma_first_where_bounds(all, is_it);
    let p = first_where(all, is_it);
    assert forall|k: int| 0 <= k < all.len() && (#[trigger] all[k]).id == id implies all[k].target
        is None by {
        if k < p {
            assert(!is_it(all[k]));
        } else if p < k {
            assert(all[p].id != all[k].id);
        }
    }
    lemma_first_target_without(all, id);
}

proof fn lemma_first_target_without(all: Seq<TunnelHandlerView>, id: u64)
    requires
        forall|k: int|
            0 <= k < all.len() && (#[trigger] all[k]).id == id ==> all[k].target is None,
    ensures
        first_target(without_handler(all, id)) == first_target(all),
    decreases all.len(),
{
    reveal(Seq::filter);
    let has_target = |h: TunnelHandlerView| h.target is Some;
    if all.len() > 0 {
        let init = all.drop_last();
        assert forall|k: int| 0 <= k < init.len() && (#[trigger] init[k]).id == id implies init[k].target
            is None by {
            assert(all[k].id == id);
        }
        lemma_first_target_without(init, id);
        lemma_first_target_push(init, all.last());
        assert(init.push(all.last()) =~= all);
        assert(all[all.len() - 1] == all.last());
        if all.last().id != id {
            lemma_first_target_push(without_handler(init, id), all.last());
        }
    }
}

proof fn lemma_first_target_push(s: Seq<TunnelHandlerView>, h: TunnelHandlerView)
    ensures
        first_target(s.push(h)) == if first_target(s) is Some {
            first_target(s)
        } else {
            h.target
        },
{
    let has_target = |h: TunnelHandlerView| h.target is Some;
    lemma_first_where_bounds(s, has_target);
    let i = first_where(s, has_target);
    let t = s.push(h);
    assert forall|k: int| 0 <= k < i implies !has_target(#[trigger] t[k]) by {
        assert(!has_target(s[k]));
    }
    if i < s.len() {
        assert(t[i] == s[i]);
        lemma_first_where(t, has_target, i);
    } else if h.target is Some {
        lemma_first_where(t, has_target, i);
    } else {
        lemma_first_where(t, has_target, i + 1);
    }
}

/// What a connected peer sends is handed on as it was sent, word for word and byte for
/// byte, under the name of that peer: what one node sends is what the other gets. A
/// role, an announcement and what cannot be read are handed to no one.
pub proof fn law_messages_arrive_as_sent(
    v: ManagerView,
    peer_id: Seq<char>,
    to: Seq<char>,
    text: Seq<char>,
    data: Seq<u8>,
    request: ForwardRequestView,
    response: ForwardResponseView,
    role: Seq<char>,
    forwards: Seq<Seq<char>>,
    msg: Option<TunnelMessageView>,
)
    requires
        peer_id != v.self_id,
        v.peers.contains(peer_id),
    ensures
        v.on_message(peer_id, Some(chat_message(text).payload), msg) == seq![
            DeliveryView::Chat { peer_id, text },
        ],
        v.on_message(peer_id, Some(streams_message(to, data).payload), msg) == seq![
            DeliveryView::Stdio { peer_id, data },
        ],
        v.on_message(peer_id, Some(request_message(to, request).payload), msg) == seq![
            DeliveryView::ForwardRequest { peer_id, request },
        ],
        v.on_message(peer_id, Some(response_message(to, response).payload), msg) == seq![
            DeliveryView::ForwardResponse { peer_id, response },
        ],
        v.on_message(peer_id, Some(PayloadView::ForwardRequest(request)), msg) == seq![
            DeliveryView::ForwardRequest { peer_id, request },
        ],
        v.on_message(peer_id, Some(PayloadView::ForwardResponse(response)), msg) == seq![
            DeliveryView::ForwardResponse { peer_id, response },
        ],
        v.on_message(peer_id, Some(PayloadView::Role { role }), msg).len() == 0,
        v.on_message(peer_id, Some(PayloadView::Capabilities { forwards }), msg).len() == 0,
        v.on_message(peer_id, None, msg).len() == 0,
{
}

/// A message goes to the peer that it is for; a chat message, a role and an
/// announcement go to all.
pub proof fn law_messages_are_addressed(
    v: ManagerView,
    to: Seq<char>,
    text: Seq<char>,
    data: Seq<u8>,
    request: ForwardRequestView,
    response: ForwardResponseView,
)
    ensures
        chat_message(text).peer_id.len() == 0,
        v.role_message().peer_id.len() == 0,
        v.announcement(to).peer_id == to,
        tunnel_message(to, data) == (OutgoingView {
            peer_id: to,
            payload: PayloadView::Tunnel { data },
        }),
        streams_message(to, data).peer_id == to,
        request_message(to, request).peer_id == to,
        response_message(to, response).peer_id == to,
{
    reveal_strlit("");
}

/// The first message of a peer shows that it is connected: the handlers are told, and
/// then the message is handed on as that of any connected peer.
pub proof fn law_first_message_connects(
    v: ManagerView,
    peer_id: Seq<char>,
    payload: Option<PayloadView>,
    msg: Option<TunnelMessageView>,
)
    requires
        peer_id != v.self_id,
        !v.peers.contains(peer_id),
    ensures
        v.on_message(peer_id, payload, msg) == seq![
            DeliveryView::PeerConnected(peer_id),
            DeliveryView::TunnelOpen(peer_id),
            DeliveryView::StdioOpen(peer_id),
        ] + v.joined(peer_id).on_message(peer_id, payload, msg),
        v.received(peer_id, payload).peers.contains(peer_id),
{
}

/// A message changes only what is known of its sender: that it is connected, and what
/// it said of itself. A role says whether it serves, and an announcement which targets
/// it has, in place of what it said before.
pub proof fn law_message_tells_of_its_sender(
    v: ManagerView,
    peer_id: Seq<char>,
    payload: Option<PayloadView>,
    other: Seq<char>,
    target: Seq<char>,
)
    requires
        peer_id != v.self_id,
    ensures
        ({
            let next = v.received(peer_id, payload);
            &&& next.peers.contains(other) <==> v.peers.contains(other) || other == peer_id
            &&& other != peer_id ==> {
                &&& next.announcers(target).contains(other) <==> v.announcers(target).contains(other)
                &&& next.servers().contains(other) <==> v.servers().contains(other)
                &&& next.roles.contains_key(other) <==> v.roles.contains_key(other)
                &&& next.forward_keys.contains_key(other) <==> v.forward_keys.contains_key(other)
            }
            &&& next.self_id == v.self_id && next.self_role == v.self_role && next.epochs
                == v.epochs && next.cursors == v.cursors && next.own_keys == v.own_keys
                && next.next_handler == v.next_handler && next.handlers == v.handlers
                && next.default_target == v.default_target
            &&& match payload {
                Some(PayloadView::Role { role }) => {
                    &&& next.servers().contains(peer_id) <==> role == "server"@
                    &&& next.forward_keys == v.forward_keys
                },
                Some(PayloadView::Capabilities { forwards }) => {
                    &&& next.announcers(target).contains(peer_id) <==> forwards.contains(target)
                    &&& next.roles == v.roles
                },
                _ => next.roles == v.roles && next.forward_keys == v.forward_keys,
            }
        }),
{
}

/// An announcement replaces the one before it: a target that is no longer in it goes
/// to that peer no more, and the other peers that announced it are not affected.
pub proof fn law_withdrawn_target_is_not_routed(
    v: ManagerView,
    peer_id: Seq<char>,
    before: Seq<Seq<char>>,
    after: Seq<Seq<char>>,
    target: Seq<char>,
)
    requires
        peer_id != v.self_id,
    ensures
        ({
            let first = v.received(peer_id, Some(PayloadView::Capabilities { forwards: before }));
            let then = first.received(peer_id, Some(PayloadView::Capabilities { forwards: after }));
            &&& then.announcers(target).contains(peer_id) <==> after.contains(target)
            &&& forall|other: Seq<char>|
                other != peer_id ==> (#[trigger] then.announcers(target).contains(other)
                    <==> v.announcers(target).contains(other))
        }),
{
}

/// A connection for a target can go to exactly the connected peers that announced it;
/// where no connected peer did, or no target is named, to exactly the connected peers
/// that serve.
pub proof fn law_candidates_serve_the_target(v: ManagerView, target: Seq<char>, peer_id: Seq<char>)
    ensures
        ({
            let announced = |p: Seq<char>|
                v.peers.contains(p) && v.forward_keys.contains_key(p)
                    && v.forward_keys[p].contains(target);
            let serves = v.peers.contains(peer_id) && v.roles.contains_key(peer_id)
                && v.roles[peer_id] is Server;
            &&& v.announcers(target).contains(peer_id) <==> announced(peer_id)
            &&& v.servers().contains(peer_id) <==> serves
            &&& target.len() > 0 && announced(peer_id) ==> v.candidates(target).contains(peer_id)
            &&& target.len() == 0 ==> (v.candidates(target).contains(peer_id) <==> serves)
            &&& (forall|p: Seq<char>| !#[trigger] v.announcers(target).contains(p)) ==> (v.candidates(
                target,
            ).contains(peer_id) <==> serves)
            &&& target.len() > 0 && (exists|p: Seq<char>| #[trigger]
                v.announcers(target).contains(p)) ==> (v.candidates(target).contains(peer_id)
                <==> announced(peer_id))
        }),
{
    if forall|p: Seq<char>| !#[trigger] v.announcers(target).contains(p) {
        assert(v.announcers(target) =~= Set::<Seq<char>>::empty());
    }
    if v.announcers(target).contains(peer_id) {
        assert(!Set::<Seq<char>>::empty().contains(peer_id));
    }
    if exists|p: Seq<char>| #[trigger] v.announcers(target).contains(p) {
        let p = choose|p: Seq<char>| #[trigger] v.announcers(target).contains(p);
        assert(!Set::<Seq<char>>::empty().contains(p));
    }
}

/// The peer that is picked is one of the candidates, and there is one wherever there is
/// a candidate. Picking for one target leaves the turns of the others alone, and
/// changes nothing else.
pub proof fn law_pick_is_a_candidate(v: ManagerView, target: Seq<char>, other: Seq<char>)
    requires
        v.candidates(target).finite(),
    ensures
        v.pick(target) is Some <==> v.candidates(target) != Set::<Seq<char>>::empty(),
        v.pick(target) matches Some(p) ==> v.candidates(target).contains(p),
        v.pick(target) is None ==> v.picked(target) == v,
        other != target ==> v.picked(target).pick(other) == v.pick(other),
        ({
            let next = v.picked(target);
            &&& next.self_id == v.self_id && next.self_role == v.self_role && next.peers == v.peers
                && next.roles == v.roles && next.forward_keys == v.forward_keys && next.epochs
                == v.epochs && next.own_keys == v.own_keys && next.next_handler
                == v.next_handler && next.handlers == v.handlers && next.default_target
                == v.default_target
        }),
{
    let peers = sorted(v.candidates(target));
    crate::text_map::lemma_sorted_exists(v.candidates(target));
    if v.candidates(target) != Set::<Seq<char>>::empty() {
        if peers.len() == 0 {
            assert(peers.to_set() =~= Set::<Seq<char>>::empty());
        }
    }
    if peers.len() > 0 {
        let at = v.cursor(target) as int % peers.len() as int;
        assert(peers.to_set().contains(peers[at]));
    }
    let next = v.picked(target);
    assert(next.announcers(other) =~= v.announcers(other));
    assert(next.servers() =~= v.servers());
}

/// What a node announces is known to the peers that hear it: after it published a
/// target they count it among those that have it, and after it withdrew the target
/// they do not. Its other targets stay as they were.
pub proof fn law_published_target_is_found(
    near: ManagerView,
    far: ManagerView,
    target: Seq<char>,
    other: Seq<char>,
    to: Seq<char>,
)
    requires
        near.self_id != far.self_id,
        near.own_keys.finite(),
    ensures
        far.received(near.self_id, Some(near.published(target).announcement(to).payload)).announcers(
            target,
        ).contains(near.self_id),
        !far.received(
            near.self_id,
            Some(near.unpublished(target).announcement(to).payload),
        ).announcers(target).contains(near.self_id),
        far.received(near.self_id, Some(near.announcement(to).payload)).announcers(other).contains(
            near.self_id,
        ) <==> near.own_keys.contains(other),
        other != target ==> (near.published(target).own_keys.contains(other)
            <==> near.own_keys.contains(other)),
        other != target ==> (near.unpublished(target).own_keys.contains(other)
            <==> near.own_keys.contains(other)),
        far.received(near.self_id, Some(near.role_message().payload)).servers().contains(
            near.self_id,
        ) <==> near.self_role is Server,
        ({
            let next = near.published(target);
            &&& next.self_id == near.self_id && next.self_role == near.self_role && next.peers
                == near.peers && next.roles == near.roles && next.forward_keys == near.forward_keys
                && next.epochs == near.epochs && next.cursors == near.cursors && next.handlers
                == near.handlers && next.next_handler == near.next_handler && next.default_target
                == near.default_target
            &&& next.unpublished(target).own_keys == near.own_keys.remove(target)
            &&& next.unpublished(target).handlers == near.handlers && next.unpublished(target).peers
                == near.peers && next.unpublished(target).roles == near.roles && next.unpublished(
                target,
            ).forward_keys == near.forward_keys
        }),
{
    crate::text_map::lemma_sorted_exists(near.own_keys);
    crate::text_map::lemma_sorted_exists(near.published(target).own_keys);
    crate::text_map::lemma_sorted_exists(near.unpublished(target).own_keys);
    crate::rtc::manager::law_role_name_round_trip(near.self_role);
    assert(near.published(target).unpublished(target).own_keys =~= near.own_keys.remove(target));
    assert(sorted(near.published(target).own_keys).to_set().contains(target));
    assert(!sorted(near.unpublished(target).own_keys).to_set().contains(target));
    assert(sorted(near.own_keys).to_set().contains(other) <==> near.own_keys.contains(other));
    reveal_strlit("client");
    reveal_strlit("server");
    assert("client"@[0] != "server"@[0]);
}

/// A peer that joins is connected from then on, and is greeted: the handlers are told
/// of it, and it is told the role of this node and all its targets. Nothing that is
/// known of other peers changes.
pub proof fn law_joining_peer_is_greeted(v: ManagerView, peer_id: Seq<char>, other: Seq<char>)
    requires
        peer_id != v.self_id,
        v.own_keys.finite(),
    ensures
        v.on_join(peer_id).len() == 5,
        v.on_join(peer_id).take(3) == seq![
            DeliveryView::PeerConnected(peer_id),
            DeliveryView::TunnelOpen(peer_id),
            DeliveryView::StdioOpen(peer_id),
        ],
        v.on_join(peer_id)[3] matches DeliveryView::Send(o) && o.peer_id == peer_id && o.payload
            == v.role_message().payload,
        v.on_join(peer_id)[4] matches DeliveryView::Send(o) && o.peer_id == peer_id && (o.payload
            matches PayloadView::Capabilities { forwards } && forwards.to_set() == v.own_keys),
        ({
            let next = v.joined(peer_id);
            &&& next.peers.contains(other) <==> v.peers.contains(other) || other == peer_id
            &&& next.self_id == v.self_id && next.self_role == v.self_role && next.roles == v.roles
                && next.forward_keys == v.forward_keys && next.cursors == v.cursors
                && next.own_keys == v.own_keys && next.next_handler == v.next_handler
                && next.handlers == v.handlers && next.default_target == v.default_target
            &&& other != peer_id ==> (next.epochs.contains_key(other) <==> v.epochs.contains_key(
                other,
            ))
        }),
        v.joined(v.self_id) == v,
        v.on_join(v.self_id).len() == 0,
{
    crate::text_map::lemma_sorted_exists(v.own_keys);
    assert(v.on_join(peer_id).take(3) =~= seq![
        DeliveryView::PeerConnected(peer_id),
        DeliveryView::TunnelOpen(peer_id),
        DeliveryView::StdioOpen(peer_id),
    ]);
}

/// When a peer leaves, its tunnels and streams close and it is reported with the number
/// of its session. Nothing that is known of other peers changes.
pub proof fn law_leaving_peer_is_reported(v: ManagerView, peer_id: Seq<char>, other: Seq<char>)
    ensures
        v.on_leave(peer_id) == seq![
            DeliveryView::TunnelClose(peer_id),
            DeliveryView::StdioClose(peer_id),
            DeliveryView::PeerLeave { peer_id, epoch: v.epoch(peer_id) },
        ],
        v.epochs.contains_key(peer_id) ==> v.epoch(peer_id) == v.epochs[peer_id],
        !v.epochs.contains_key(peer_id) ==> v.epoch(peer_id) == 0,
        ({
            let next = v.left(peer_id);
            &&& next.peers.contains(other) <==> v.peers.contains(other) && other != peer_id
            &&& next.roles.contains_key(other) <==> v.roles.contains_key(other) && other != peer_id
            &&& next.roles.contains_key(other) ==> next.roles[other] == v.roles[other]
            &&& next.forward_keys.contains_key(other) <==> v.forward_keys.contains_key(other)
                && other != peer_id
            &&& next.forward_keys.contains_key(other) ==> next.forward_keys[other]
                == v.forward_keys[other]
            &&& next.self_id == v.self_id && next.self_role == v.self_role && next.epochs
                == v.epochs && next.cursors == v.cursors && next.own_keys == v.own_keys
                && next.next_handler == v.next_handler && next.handlers == v.handlers
                && next.default_target == v.default_target
        }),
{
}

/// A new handler comes last, under the next number, and takes nothing from the others;
/// removing one leaves all others, in their order. Nothing else changes.
pub proof fn law_handlers_come_and_go(
    v: ManagerView,
    target: Option<Seq<char>>,
    id: u64,
    h: TunnelHandlerView,
)
    ensures
        ({
            let more = v.with_handler(target);
            &&& more.handlers.drop_last() == v.handlers
            &&& more.handlers.last().id == v.next_handler
            &&& more.handlers.last().target == target
            &&& v.next_handler < u64::MAX ==> more.next_handler == v.next_handler + 1
            &&& more.self_id == v.self_id && more.self_role == v.self_role && more.peers == v.peers
                && more.roles == v.roles && more.forward_keys == v.forward_keys && more.epochs
                == v.epochs && more.cursors == v.cursors && more.own_keys == v.own_keys
        }),
        ({
            let less = v.without(id);
            &&& less.handlers.contains(h) <==> v.handlers.contains(h) && h.id != id
            &&& !has_handler(v.handlers, id) ==> less == v
            &&& less.next_handler == v.next_handler && less.self_id == v.self_id && less.self_role
                == v.self_role && less.peers == v.peers && less.roles == v.roles
                && less.forward_keys == v.forward_keys && less.epochs == v.epochs && less.cursors
                == v.cursors && less.own_keys == v.own_keys
        }),
        forall|a: Seq<TunnelHandlerView>, b: Seq<TunnelHandlerView>| #[trigger]
            without_handler(a + b, id) == without_handler(a, id) + without_handler(b, id),
        has_handler(v.handlers, id) <==> exists|i: int|
            0 <= i < v.handlers.len() && (#[trigger] v.handlers[i]).id == id,
{
    broadcast use vstd::seq_lib::group_filter_ensures;

    let others = |h: TunnelHandlerView| h.id != id;
    assert(v.with_handler(target).handlers.drop_last() =~= v.handlers);
    let rest = without_handler(v.handlers, id);
    if v.handlers.contains(h) && h.id != id {
        let i = choose|i: int| 0 <= i < v.handlers.len() && v.handlers[i] == h;
        assert(others(v.handlers[i]));
        assert(rest.contains(h));
    }
    if rest.contains(h) {
        v.handlers.lemma_filter_contains_rev(others, h);
        let j = choose|j: int| 0 <= j < rest.len() && rest[j] == h;
        assert(others(rest[j]));
    }
    if !has_handler(v.handlers, id) {
        lemma_nothing_removed(v.handlers, id);
        let is_it = |h: TunnelHandlerView| h.id == id;
        lemma_first_where_bounds(v.handlers, is_it);
        if is_targeted(v.handlers, id) {
            assert(v.handlers[first_where(v.handlers, is_it)].id == id);
        }
    }
    assert forall|a: Seq<TunnelHandlerView>, b: Seq<TunnelHandlerView>| #[trigger]
        without_handler(a + b, id) == without_handler(a, id) + without_handler(b, id) by {
        Seq::filter_distributes_over_add(a, b, others);
    }
}

proof fn lemma_nothing_removed(all: Seq<TunnelHandlerView>, id: u64)
    requires
        !has_handler(all, id),
    ensures
        without_handler(all, id) == all,
    decreases all.len(),
{
    reveal(Seq::filter);
    if all.len() > 0 {
        let init = all.drop_last();
        assert(all[all.len() - 1].id != id);
        if has_handler(init, id) {
            let i = choose|i: int| 0 <= i < init.len() && #[trigger] init[i].id == id;
            assert(all[i].id == id);
        }
        lemma_nothing_removed(init, id);
        assert(init.push(all.last()) =~= all);
    } else {
        assert(without_handler(all, id) =~= all);
    }
}

/// A tunnel message that names no target goes to the handlers for the default target
/// and to those for all targets; one that cannot be read goes only to the latter. Each
/// of them gets the bytes and the name of the peer, unchanged.
pub proof fn law_unnamed_messages_reach_the_default(
    v: ManagerView,
    peer_id: Seq<char>,
    data: Seq<u8>,
    msg: Option<TunnelMessageView>,
    i: int,
)
    requires
        distinct_handlers(v.handlers),
        0 <= i < v.handlers.len(),
        msg matches Some(m) ==> m.target.len() == 0,
    ensures
        v.on_payload(peer_id, Some(PayloadView::Tunnel { data }), msg).contains(
            DeliveryView::Tunnel { handler: v.handlers[i].id, peer_id, data },
        ) <==> v.handlers[i].target is None || msg is Some && (v.handlers[i].target
            == v.default_target || (v.handlers[i].target matches Some(t) && t.len() == 0)),
        forall|k: int|
            0 <= k < v.on_payload(peer_id, Some(PayloadView::Tunnel { data }), msg).len() ==> {
                &&& #[trigger] v.on_payload(
                    peer_id,
                    Some(PayloadView::Tunnel { data }),
                    msg,
                )[k] matches DeliveryView::Tunnel { handler, peer_id: p, data: d }
                &&& p == peer_id && d == data && has_handler(v.handlers, handler)
            },
{
    broadcast use vstd::seq_lib::group_filter_ensures;

    let receives = |h: TunnelHandlerView| handler_matches(h.target, msg, v.default_target);
    let chosen = v.handlers.filter(receives);
    let all = v.on_payload(peer_id, Some(PayloadView::Tunnel { data }), msg);
    let wanted = DeliveryView::Tunnel { handler: v.handlers[i].id, peer_id, data };
    if let Some(m) = msg {
        if let Some(t) = v.handlers[i].target {
            if t.len() == 0 {
                assert(m.target =~= t);
            }
        }
    }
    if receives(v.handlers[i]) {
        assert(chosen.contains(v.handlers[i]));
        let k = choose|k: int| 0 <= k < chosen.len() && chosen[k] == v.handlers[i];
        assert(all[k] == wanted);
    }
    assert forall|k: int| 0 <= k < all.len() implies {
        &&& #[trigger] all[k] matches DeliveryView::Tunnel { handler, peer_id: p, data: d }
        &&& p == peer_id && d == data && has_handler(v.handlers, handler)
    } by {
        assert(chosen.contains(chosen[k]));
        v.handlers.lemma_filter_contains_rev(receives, chosen[k]);
        let j = choose|j: int| 0 <= j < v.handlers.len() && v.handlers[j] == chosen[k];
        assert(v.handlers[j].id == chosen[k].id);
    }
    if all.contains(wanted) {
        let k = choose|k: int| 0 <= k < all.len() && all[k] == wanted;
        assert(chosen[k].id == v.handlers[i].id);
        assert(receives(chosen[k]));
        assert(chosen.contains(chosen[k]));
        v.handlers.lemma_filter_contains_rev(receives, chosen[k]);
        let j = choose|j: int| 0 <= j < v.handlers.len() && v.handlers[j] == chosen[k];
        assert(j == i);
    }
}

/// A new node knows of no peer and has no handler and no target; the first handler gets
/// the number one.
pub proof fn law_new_node_knows_no_one(self_id: Seq<char>, target: Seq<char>, peer_id: Seq<char>)
    ensures
        ({
            let v = fresh_manager(self_id, role_for(true));
            let w = fresh_manager(self_id, role_for(false));
            &&& v.self_id == self_id && w.self_id == self_id
            &&& v.self_role is Server && w.self_role is Client
            &&& !v.peers.contains(peer_id) && !w.peers.contains(peer_id)
            &&& !v.candidates(target).contains(peer_id) && !w.candidates(target).contains(peer_id)
            &&& !v.own_keys.contains(target) && !w.own_keys.contains(target)
            &&& v.epoch(peer_id) == 0 && v.cursor(target) == 0
            &&& v.handlers.len() == 0 && v.next_handler == 1 && v.default_target is None
        }),
{
}

} // verus!
