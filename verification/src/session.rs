//! A running session: the state that every front end shows, and the operations
//! that change it.
use vstd::prelude::*;

use crate::auth::audit::AuthEvent;
use crate::auth::pending::{
    place_of, PendingAuthorization, PendingAuthorizer, PendingAuthorizerView, PendingView,
};
use crate::auth::trust::{
    forgotten, found, is_listing, TrustDecision, TrustEntry, TrustKey, TrustKeyView,
};
use crate::auth::AuthDecision;
use crate::controller::{
    fresh_handle, keyed, proto_named, statuses, with_removed, withdraws, Direction,
    ForwardController, ForwardSpec, ForwardSpecView, ForwardStatus, HandleView, Proto,
    RemovedForward,
};
use crate::forward_store::{added, restored, without_target, ForwardStore, PersistedForwardView};
use crate::identity::{is_uuid, random_uuid};
use crate::model::{keep_last, last_items, lemma_views_push, opt_view, views};
use crate::negotiation::{
    fresh_negotiator, incoming_place, ForwardNegotiator, ForwardOutcome, ForwardOutcomeView,
    IncomingForward, IncomingForwardView, NegotiatorView, OutgoingForward, OutgoingForwardView,
};
use crate::number::{i32_of, parse_i32};
use crate::rtc::manager::payload::{
    DeliveryView, ForwardRequestView, ForwardResponseView, Outgoing, OutgoingView, PayloadView,
};
use crate::rtc::manager::{
    ForwardRequestEvent, ForwardResponseEvent, ManagerView, RTCManagerHandle,
};
use crate::text;
use crate::text::{after_last, texts};
use crate::text_map::sorted;

verus! {

/// How many notices are kept.
pub const MAX_NOTICES: usize = 50;

/// How many of the latest events are shown.
pub const SHOWN_EVENTS: usize = 100;

/// How long the state of a peer that left is kept, in milliseconds.
pub const PEER_LEAVE_GRACE_MS: u64 = 10000;

/// Whether a notice is good or bad news.
#[derive(Debug, Clone, Copy, PartialEq, Eq, Structural)]
pub enum NoticeKind {
    Info,
    Error,
}

/// Something that the user is to know.
#[derive(Debug, PartialEq, Eq)]
pub struct SessionNotice {
    pub timestamp_ms: u128,
    pub kind: NoticeKind,
    pub text: String,
}

/// The model of `SessionNotice`.
pub struct NoticeView {
    pub timestamp_ms: u128,
    pub kind: NoticeKind,
    pub text: Seq<char>,
}

impl View for SessionNotice {
    type V = NoticeView;

    open spec fn view(&self) -> NoticeView {
        NoticeView { timestamp_ms: self.timestamp_ms, kind: self.kind, text: self.text@ }
    }
}

impl Clone for SessionNotice {
    fn clone(&self) -> (r: Self)
        ensures
            r@ == self@,
    {
        SessionNotice {
            timestamp_ms: self.timestamp_ms,
            kind: self.kind,
            text: text::copy(self.text.as_str()),
        }
    }
}

/// Why an operation failed.
#[derive(Debug, PartialEq, Eq)]
pub enum SessionError {
    /// What it was about is no longer there.
    NotFound(String),
    /// It was refused for another reason.
    Invalid(String),
}

/// The model of `SessionError`.
pub enum ErrorView {
    NotFound(Seq<char>),
    Invalid(Seq<char>),
}

impl View for SessionError {
    type V = ErrorView;

    open spec fn view(&self) -> ErrorView {
        match self {
            SessionError::NotFound(m) => ErrorView::NotFound(m@),
            SessionError::Invalid(m) => ErrorView::Invalid(m@),
        }
    }
}

impl ErrorView {
    /// The words of an error.
    pub open spec fn text(self) -> Seq<char> {
        match self {
            ErrorView::NotFound(m) => m,
            ErrorView::Invalid(m) => m,
        }
    }
}

impl SessionError {
    /// The error in words.
    pub fn message(&self) -> (r: String)
        ensures
            r@ == self@.text(),
    {
        match self {
            SessionError::NotFound(m) => text::copy(m.as_str()),
            SessionError::Invalid(m) => text::copy(m.as_str()),
        }
    }
}

/// The view of the outcome of an operation.
pub open spec fn result_view(r: Result<String, SessionError>) -> Result<Seq<char>, ErrorView> {
    match r {
        Ok(s) => Ok(s@),
        Err(e) => Err(e@),
    }
}

/// Everything that the front ends show.
pub struct Snapshot {
    pub self_id: String,
    pub room: String,
    pub peers: Vec<String>,
    pub forwards: Vec<ForwardStatus>,
    pub pending_auth: Vec<PendingAuthorization>,
    pub pending_forwards: Vec<IncomingForward>,
    pub pending_outgoing: Vec<OutgoingForward>,
    pub trust: Vec<TrustEntry>,
    pub events: Vec<AuthEvent>,
    pub notices: Vec<SessionNotice>,
}

/// A running session.
pub struct SessionContext {
    pub room: String,
    pub manager: RTCManagerHandle,
    pub controller: ForwardController,
    /// What is remembered of peers, what waits for a decision, and the log.
    pub auth: PendingAuthorizer,
    pub negotiator: ForwardNegotiator,
    pub forward_store: ForwardStore,
    /// The latest notices, oldest first.
    pub notices: Vec<SessionNotice>,
}

/// The model of `SessionContext`.
#[verifier::ext_equal]
pub struct SessionView {
    pub room: Seq<char>,
    pub manager: ManagerView,
    pub controller: Map<Seq<char>, HandleView>,
    pub auth: PendingAuthorizerView,
    pub negotiator: NegotiatorView,
    pub store: Seq<PersistedForwardView>,
    pub notices: Seq<NoticeView>,
}

impl View for SessionContext {
    type V = SessionView;

    open spec fn view(&self) -> SessionView {
        SessionView {
            room: self.room@,
            manager: self.manager@,
            controller: self.controller@,
            auth: self.auth@,
            negotiator: self.negotiator@,
            store: self.forward_store@,
            notices: views(self.notices@),
        }
    }
}

/// The port of an address: the number behind its last colon.
pub open spec fn addr_port(addr: Seq<char>) -> Option<i32> {
    i32_of(after_last(addr, ':'))
}

/// The port of an address: the number behind its last colon.
pub fn parse_addr_port(addr: &str) -> (r: Option<i32>)
    ensures
        r == addr_port(addr@),
{
    parse_i32(text::last_piece(addr, ':'))
}

/// The forwards after a stored one was set up again. One that cannot be read, or
/// that could not be added, is passed over.
pub open spec fn with_restored(
    m: Map<Seq<char>, HandleView>,
    entry: PersistedForwardView,
) -> Map<Seq<char>, HandleView> {
    match restored(entry) {
        Ok(spec) => if spec.target.len() > 0 && !m.contains_key(spec.target) {
            m.insert(spec.target, fresh_handle(spec))
        } else {
            m
        },
        Err(_) => m,
    }
}

/// The forwards after all stored ones were set up again, oldest first.
pub open spec fn all_restored(entries: Seq<PersistedForwardView>) -> Map<Seq<char>, HandleView>
    decreases entries.len(),
{
    if entries.len() == 0 {
        Map::empty()
    } else {
        with_restored(all_restored(entries.drop_last()), entries.last())
    }
}

/// The stored forwards that are set up again, oldest first.
pub open spec fn restored_specs(entries: Seq<PersistedForwardView>) -> Seq<ForwardSpecView>
    decreases entries.len(),
{
    if entries.len() == 0 {
        Seq::empty()
    } else {
        let before = restored_specs(entries.drop_last());
        match restored(entries.last()) {
            Ok(spec) => if spec.target.len() > 0 && !all_restored(
                entries.drop_last(),
            ).contains_key(spec.target) {
                before.push(spec)
            } else {
                before
            },
            Err(_) => before,
        }
    }
}

/// A session that starts with some stored forwards.
pub open spec fn built(
    room: Seq<char>,
    manager: ManagerView,
    auth: PendingAuthorizerView,
    store: Seq<PersistedForwardView>,
) -> SessionView {
    SessionView {
        room,
        manager,
        controller: all_restored(store),
        auth,
        negotiator: fresh_negotiator(),
        store,
        notices: Seq::empty(),
    }
}

/// The answer to a proposal.
#[derive(Debug, PartialEq, Eq)]
pub struct ForwardReply {
    /// The message that tells the peer.
    pub message: Outgoing,
    pub target: String,
    pub accepted: bool,
    /// The forward that is to be started.
    pub started: Option<ForwardSpec>,
}

/// The model of `ForwardReply`.
pub struct ReplyView {
    pub message: OutgoingView,
    pub target: Seq<char>,
    pub accepted: bool,
    pub started: Option<ForwardSpecView>,
}

impl View for ForwardReply {
    type V = ReplyView;

    open spec fn view(&self) -> ReplyView {
        ReplyView {
            message: self.message@,
            target: self.target@,
            accepted: self.accepted,
            started: opt_view(self.started),
        }
    }
}

/// The answer to a proposal, and the forward that it starts.
pub open spec fn reply_to(
    req: IncomingForwardView,
    accepted: bool,
    started: Option<ForwardSpecView>,
) -> ReplyView {
    ReplyView {
        message: OutgoingView {
            peer_id: req.peer_id,
            payload: PayloadView::ForwardResponse(
                ForwardResponseView {
                    req_id: req.req_id,
                    target: req.target,
                    accepted,
                },
            ),
        },
        target: req.target,
        accepted,
        started,
    }
}

/// The serving forward that a proposal asks for.
pub open spec fn serve_spec(req: IncomingForwardView, proto: Proto) -> ForwardSpecView {
    ForwardSpecView {
        direction: Direction::Serve,
        proto,
        addr: req.remote_addr,
        listen_port: -1i32,
        target: req.target,
    }
}

/// The connecting forward that was proposed to a peer.
pub open spec fn connect_spec(out: OutgoingForwardView, proto: Proto) -> ForwardSpecView {
    ForwardSpecView {
        direction: Direction::Connect,
        proto,
        addr: out.local_addr,
        listen_port: out.listen_port,
        target: out.target,
    }
}

/// Why a forward cannot be added, if so.
pub open spec fn add_error(m: Map<Seq<char>, HandleView>, target: Seq<char>) -> Option<Seq<char>> {
    if target.len() == 0 {
        Some("forward target must not be empty"@)
    } else if m.contains_key(target) {
        Some("forward already exists: "@ + target)
    } else {
        None
    }
}

/// What applying an outcome did.
pub struct AppliedOutcome {
    pub result: Result<String, SessionError>,
    /// The forward that gave way.
    pub replaced: Option<RemovedForward>,
    /// The forward that is to be started.
    pub started: Option<ForwardSpec>,
}

/// The words for a forward that was not accepted.
pub open spec fn refusal(outcome: ForwardOutcomeView) -> Seq<char> {
    match outcome.reason {
        Some(reason) => "forward "@ + outcome.outgoing.target + " failed: "@ + reason,
        None => "peer denied "@ + outcome.outgoing.target,
    }
}

/// What a peer's departure took away.
#[derive(Debug, PartialEq, Eq)]
pub struct Purged {
    /// The numbers of the requests that were denied.
    pub auth: Vec<u64>,
    pub incoming: usize,
    pub outgoing: usize,
}

impl SessionView {
    /// The state with one more notice; only the latest are kept.
    pub open spec fn noticed(self, kind: NoticeKind, text: Seq<char>, now_ms: u128) -> SessionView {
        SessionView {
            notices: last_items(
                self.notices.push(NoticeView { timestamp_ms: now_ms, kind, text }),
                MAX_NOTICES as int,
            ),
            ..self
        }
    }

    /// The state without a proposal.
    pub open spec fn without_proposal(self, i: int) -> SessionView {
        SessionView {
            negotiator: NegotiatorView {
                incoming: self.negotiator.incoming.remove(i),
                ..self.negotiator
            },
            ..self
        }
    }

    /// The state after a proposal was approved: the forward serves, is stored,
    /// and the peer is trusted with it.
    pub open spec fn approved(self, req: IncomingForwardView, proto: Proto) -> SessionView {
        let spec = serve_spec(req, proto);
        SessionView {
            controller: self.controller.insert(spec.target, fresh_handle(spec)),
            store: added(self.store, spec),
            auth: PendingAuthorizerView {
                store: self.auth.store.insert(
                    TrustKeyView { peer_id: req.peer_id, forward_key: req.target },
                    TrustDecision::Allow,
                ),
                ..self.auth
            },
            ..self
        }
    }

    /// Whether a proposal waits under a number.
    pub open spec fn awaits(self, id: u64) -> bool {
        incoming_place(self.negotiator.incoming, id) < self.negotiator.incoming.len()
    }

    /// The state after the user decided on a proposal, and what comes of it.
    pub open spec fn resolved_forward(self, id: u64, allow: bool) -> (
        SessionView,
        Result<ReplyView, ErrorView>,
    ) {
        let i = incoming_place(self.negotiator.incoming, id);
        if !self.awaits(id) {
            (self, Err(ErrorView::NotFound("forward request no longer exists"@)))
        } else {
            let req = self.negotiator.incoming[i];
            let rest = self.without_proposal(i);
            if !allow {
                (rest, Ok(reply_to(req, false, None)))
            } else {
                match proto_named(req.proto) {
                    None => (
                        rest,
                        Err(
                            ErrorView::Invalid("invalid proto: "@ + ("unsupported protocol: "@ + req.proto)),
                        ),
                    ),
                    Some(proto) => match add_error(self.controller, req.target) {
                        Some(e) => (rest, Err(ErrorView::Invalid("add failed: "@ + e))),
                        None => (
                            rest.approved(req, proto),
                            Ok(reply_to(req, true, Some(serve_spec(req, proto)))),
                        ),
                    },
                }
            }
        }
    }

    /// The state after a proposal was recorded as sent.
    pub open spec fn asked(self, req_id: Seq<char>, draft: OutgoingForwardView) -> SessionView {
        SessionView {
            negotiator: NegotiatorView {
                outgoing: self.negotiator.outgoing.insert(req_id, draft),
                ..self.negotiator
            },
            ..self
        }
    }

    /// The state after a peer proposed a forward.
    pub open spec fn heard_request(
        self,
        peer_id: Seq<char>,
        request: ForwardRequestView,
    ) -> SessionView {
        SessionView {
            negotiator: self.negotiator.proposed(
                request.req_id,
                peer_id,
                request.proto,
                request.remote_addr,
                request.target,
            ),
            ..self
        }
    }

    /// The state after a peer answered a proposal.
    pub open spec fn heard_response(self, response: ForwardResponseView) -> SessionView {
        SessionView {
            negotiator: self.negotiator.answered(response.req_id, response.accepted),
            ..self
        }
    }

    /// The state after the outcome of a proposal was applied, and what comes of
    /// it. An accepted forward takes the place of one with the same target.
    pub open spec fn applied(self, outcome: ForwardOutcomeView, now_ms: u128) -> (
        SessionView,
        Result<Seq<char>, ErrorView>,
    ) {
        let out = outcome.outgoing;
        if !outcome.accepted {
            (self.noticed(NoticeKind::Error, refusal(outcome), now_ms), Ok(refusal(outcome)))
        } else {
            match proto_named(out.proto) {
                None => (
                    self,
                    Err(ErrorView::Invalid("invalid proto: "@ + ("unsupported protocol: "@ + out.proto))),
                ),
                Some(proto) => if out.target.len() == 0 && !self.controller.contains_key(
                    out.target,
                ) {
                    let text = "add failed: "@ + "forward target must not be empty"@;
                    (
                        self.noticed(NoticeKind::Error, text, now_ms),
                        Err(ErrorView::Invalid(text)),
                    )
                } else if out.target.len() == 0 {
                    let text = "add failed: "@ + "forward target must not be empty"@;
                    (
                        (SessionView {
                            controller: self.controller.remove(out.target),
                            ..self
                        }).noticed(NoticeKind::Error, text, now_ms),
                        Err(ErrorView::Invalid(text)),
                    )
                } else {
                    let text = "forward established: "@ + out.target;
                    let spec = connect_spec(out, proto);
                    (
                        (SessionView {
                            controller: self.controller.insert(out.target, fresh_handle(spec)),
                            store: added(self.store, spec),
                            ..self
                        }).noticed(NoticeKind::Info, text, now_ms),
                        Ok(text),
                    )
                },
            }
        }
    }

    /// The state after a proposal was sent, or could not be.
    pub open spec fn after_sending(self, req_id: Seq<char>, sent: bool) -> SessionView {
        if sent {
            self
        } else {
            SessionView { negotiator: self.negotiator.forgotten(req_id), ..self }
        }
    }

    /// The state after a forward was to be removed.
    pub open spec fn without_forward(self, key: Seq<char>) -> SessionView {
        if self.controller.contains_key(key) {
            SessionView {
                controller: with_removed(self.controller, key),
                store: without_target(self.store, key),
                ..self
            }
        } else {
            self
        }
    }

    /// The state after what is remembered of a peer and a forward was forgotten.
    pub open spec fn without_trust(self, key: TrustKeyView) -> SessionView {
        SessionView {
            auth: PendingAuthorizerView { store: forgotten(self.auth.store, key), ..self.auth },
            ..self
        }
    }

    /// The state after the user decided on a connection that waits.
    pub open spec fn decided(self, id: u64, decision: AuthDecision, now_ms: u128) -> SessionView {
        SessionView { auth: self.auth.decided(id, decision, now_ms), ..self }
    }

    /// The state after the grace time of a peer that left.
    pub open spec fn after_grace(
        self,
        peer_id: Seq<char>,
        epoch_at_leave: u64,
        now_ms: u128,
    ) -> SessionView {
        if self.manager.epoch(peer_id) == epoch_at_leave {
            self.purged(peer_id, now_ms)
        } else {
            self
        }
    }

    /// The state after the outcomes were taken.
    pub open spec fn drained(self) -> SessionView {
        SessionView {
            negotiator: NegotiatorView { outcomes: Seq::empty(), ..self.negotiator },
            ..self
        }
    }

    /// What applying an outcome tells its caller: the result in words, the forward
    /// that is to be started, and the one that gave way to it.
    pub open spec fn tells(
        self,
        outcome: ForwardOutcomeView,
        now_ms: u128,
        r: AppliedOutcome,
    ) -> bool {
        let out = outcome.outgoing;
        let proto = proto_named(out.proto);
        &&& result_view(r.result) == self.applied(outcome, now_ms).1
        &&& r.started is Some <==> outcome.accepted && r.result is Ok
        &&& r.started matches Some(spec) ==> proto == Some(spec@.proto) && spec@ == connect_spec(
            out,
            spec@.proto,
        )
        &&& r.replaced is Some <==> outcome.accepted && proto is Some
            && self.controller.contains_key(out.target)
        &&& r.replaced matches Some(removed) ==> removed.spec@ == self.controller[out.target].spec
            && removed.unpublish == withdraws(removed.spec@)
    }

    /// The state after a peer is gone for good.
    pub open spec fn purged(self, peer_id: Seq<char>, now_ms: u128) -> SessionView {
        SessionView {
            auth: self.auth.purged(peer_id, now_ms),
            negotiator: self.negotiator.purged(peer_id),
            ..self
        }
    }

    /// What the session lists is finite, so that the lists are complete and in
    /// order.
    pub open spec fn listable(self) -> bool {
        &&& self.manager.peers.finite()
        &&& self.controller.dom().finite()
        &&& forall|key: Seq<char>| #[trigger]
            self.controller.contains_key(key)
                ==> self.controller[key].runtime.per_peer.dom().finite()
        &&& self.negotiator.outgoing.dom().finite()
    }

    /// The forwards are held under their targets, and what waits is numbered
    /// upwards.
    pub open spec fn in_order(self) -> bool {
        &&& keyed(self.controller)
        &&& self.negotiator.numbered()
        &&& self.auth.pending.numbered()
    }

    /// The requests that were sent and not answered, in the order of their ids.
    pub open spec fn unanswered(self) -> Seq<OutgoingForwardView> {
        sorted(self.negotiator.outgoing.dom()).map_values(
            |k: Seq<char>| self.negotiator.outgoing[k],
        )
    }
}

impl SessionContext {
    /// Starts a session: the stored forwards are set up again. Gives those that
    /// are to be started.
    pub fn build(
        room: String,
        manager: RTCManagerHandle,
        auth: PendingAuthorizer,
        forward_store: ForwardStore,
    ) -> (r: (Self, Vec<ForwardSpec>))
        ensures
            r.0@ == built(room@, manager@, auth@, forward_store@),
            views(r.1@) == restored_specs(forward_store@),
            keyed(r.0@.controller) && r.0@.negotiator.numbered(),
    {
        let entries = forward_store.list();
        let ghost all = views(entries@);
        let mut controller = ForwardController::new();
        let mut started: Vec<ForwardSpec> = Vec::new();
        let mut i: usize = 0;
        assert(all.take(0) =~= Seq::empty());
        assert(views(started@) =~= restored_specs(all.take(0)));
        while i < entries.len()
            invariant
                i <= entries@.len(),
                all == views(entries@),
                controller@ == all_restored(all.take(i as int)),
                keyed(controller@),
                views(started@) == restored_specs(all.take(i as int)),
            decreases entries@.len() - i,
        {
            proof {
                let head = all.take(i + 1);
                assert(head.drop_last() =~= all.take(i as int));
                assert(head.last() == entries@[i as int]@);
            }
            if let Ok(spec) = entries[i].to_spec() {
                let outcome = controller.add_forward(&spec);
                if outcome.is_ok() {
                    proof {
                        lemma_views_push(started@, spec);
                    }
                    started.push(spec);
                }
            }
            i = i + 1;
        }
        assert(all.take(i as int) =~= all);
        let session = SessionContext {
            room,
            manager,
            controller,
            auth,
            negotiator: ForwardNegotiator::new(),
            forward_store,
            notices: Vec::new(),
        };
        assert(session@.notices =~= Seq::empty());
        (session, started)
    }

    /// Adds a notice and drops the oldest ones beyond the limit.
    pub fn push_notice(&mut self, kind: NoticeKind, text: &str, now_ms: u128)
        ensures
            final(self)@ == old(self)@.noticed(kind, text@, now_ms),
    {
        let notice = SessionNotice { timestamp_ms: now_ms, kind, text: text::copy(text) };
        proof {
            lemma_views_push(self.notices@, notice);
        }
        self.notices.push(notice);
        keep_last(&mut self.notices, MAX_NOTICES);
    }

    fn list_notices(&self) -> (r: Vec<SessionNotice>)
        ensures
            views(r@) == self@.notices,
    {
        let mut out: Vec<SessionNotice> = Vec::new();
        let mut i: usize = 0;
        while i < self.notices.len()
            invariant
                i <= self.notices@.len(),
                views(out@) == views(self.notices@).take(i as int),
            decreases self.notices@.len() - i,
        {
            let notice = self.notices[i].clone();
            proof {
                lemma_views_push(out@, notice);
            }
            out.push(notice);
            i = i + 1;
            assert(views(out@) =~= views(self.notices@).take(i as int));
        }
        assert(views(out@) =~= views(self.notices@));
        out
    }

    /// Gathers what the front ends show; of the events the latest.
    pub fn snapshot(&self) -> (r: Snapshot)
        ensures
            r.self_id@ == self@.manager.self_id,
            r.room@ == self@.room,
            self@.listable(),
            self@.in_order(),
            texts(r.peers@) == sorted(self@.manager.peers),
            views(r.forwards@) == statuses(self@.controller),
            views(r.pending_auth@) == self@.auth.pending.waiting,
            views(r.pending_forwards@) == self@.negotiator.incoming,
            views(r.pending_outgoing@) == self@.unanswered(),
            is_listing(views(r.trust@), self@.auth.store),
            views(r.events@) == last_items(self@.auth.audit_log.events, SHOWN_EVENTS as int),
            views(r.notices@) == self@.notices,
    {
        let mut events = self.auth.audit_log.list();
        keep_last(&mut events, SHOWN_EVENTS);
        Snapshot {
            self_id: text::copy(self.manager.self_id()),
            room: text::copy(self.room.as_str()),
            peers: self.manager.connected_peers(),
            forwards: self.controller.list_forwards(),
            pending_auth: self.auth.pending.list(),
            pending_forwards: self.negotiator.list_incoming(),
            pending_outgoing: self.negotiator.list_outgoing(),
            trust: self.auth.store.list(),
            events,
            notices: self.list_notices(),
        }
    }

    /// Decides on a connection that waits; false where it no longer does.
    pub fn resolve_pending_auth(&mut self, id: u64, decision: AuthDecision, now_ms: u128) -> (r:
        bool)
        ensures
            r == (place_of(old(self)@.auth.pending.waiting, id) < old(
                self
            )@.auth.pending.waiting.len()),
            final(self)@ == old(self)@.decided(id, decision, now_ms),
            old(self)@.auth.pending.numbered() && final(self)@.auth.pending.numbered(),
            place_of(final(self)@.auth.pending.waiting, id) == final(self)@.auth.pending.waiting.len(),
    {
        self.auth.resolve(id, decision, now_ms)
    }

    /// Decides on a proposal of a peer. On approval the forward serves, is stored,
    /// and the peer is trusted with it. The answer is to be sent to the peer, and
    /// what came of that handed to `finish_resolve`.
    pub fn resolve_forward(&mut self, id: u64, allow: bool) -> (r: Result<
        ForwardReply,
        SessionError,
    >)
        ensures
            final(self)@ == old(self)@.resolved_forward(id, allow).0,
            match r {
                Ok(reply) => old(self)@.resolved_forward(id, allow).1
                    == Ok::<ReplyView, ErrorView>(reply@),
                Err(e) => old(self)@.resolved_forward(id, allow).1
                    == Err::<ReplyView, ErrorView>(e@),
            },
            old(self)@.negotiator.numbered() && final(self)@.negotiator.numbered(),
            !final(self)@.awaits(id),
    {
        let ghost before = self@;
        let ghost place = incoming_place(self@.negotiator.incoming, id);
        proof {
            crate::model::lemma_first_where_bounds(
                self@.negotiator.incoming,
                |f: IncomingForwardView| f.id == id,
            );
        }
        let req = match self.negotiator.take_incoming(id) {
            Some(req) => req,
            None => {
                return Err(
                    SessionError::NotFound(text::copy("forward request no longer exists")),
                );
            },
        };
        assert(self@ == before.without_proposal(place));
        if !allow {
            let message = self.forward_response(&req, false);
            return Ok(
                ForwardReply { message, target: req.target, accepted: false, started: None },
            );
        }
        let proto = match Proto::from_name(req.proto.as_str()) {
            Ok(proto) => proto,
            Err(e) => {
                return Err(SessionError::Invalid(text::cat2("invalid proto: ", e.as_str())));
            },
        };
        let spec = ForwardSpec {
            direction: Direction::Serve,
            proto,
            addr: text::copy(req.remote_addr.as_str()),
            listen_port: -1,
            target: text::copy(req.target.as_str()),
        };
        if let Err(e) = self.controller.add_forward(&spec) {
            let e = e.message();
            return Err(SessionError::Invalid(text::cat2("add failed: ", e.as_str())));
        }
        self.forward_store.add(&spec);
        let key = TrustKey {
            peer_id: text::copy(req.peer_id.as_str()),
            forward_key: text::copy(req.target.as_str()),
        };
        self.auth.store.remember(&key, TrustDecision::Allow);
        let message = self.forward_response(&req, true);
        assert(spec@ == serve_spec(req@, proto));
        assert(key@ == (TrustKeyView { peer_id: req@.peer_id, forward_key: req@.target }));
        Ok(ForwardReply { message, target: req.target, accepted: true, started: Some(spec) })
    }

    fn forward_response(&self, req: &IncomingForward, accepted: bool) -> (r: Outgoing)
        ensures
            r@ == reply_to(req@, accepted, None).message,
    {
        self.manager.send_forward_response(
            req.peer_id.as_str(),
            ForwardResponseEvent {
                req_id: text::copy(req.req_id.as_str()),
                target: text::copy(req.target.as_str()),
                accepted,
            },
        )
    }

    /// Sends a proposal to a peer: it is recorded under a fresh id before it is
    /// sent, so that no answer can come too early. Gives the id and the message;
    /// what came of sending it is handed to `finish_outgoing`.
    pub fn send_outgoing_forward(&mut self, draft: &OutgoingForward) -> (r: (String, Outgoing))
        ensures
            is_uuid(r.0@),
            final(self)@ == old(self)@.asked(r.0@, draft@),
            r.1@ == request_message(r.0@, draft@),
    {
        let req_id = random_uuid();
        let message = self.begin_outgoing(req_id.as_str(), draft);
        (req_id, message)
    }

    /// Records a proposal under an id and makes the message that carries it.
    pub fn begin_outgoing(&mut self, req_id: &str, draft: &OutgoingForward) -> (r: Outgoing)
        ensures
            final(self)@ == old(self)@.asked(req_id@, draft@),
            r@ == request_message(req_id@, draft@),
    {
        self.negotiator.record_outgoing(text::copy(req_id), draft.clone());
        self.manager.send_forward_request(
            draft.peer_id.as_str(),
            ForwardRequestEvent {
                req_id: text::copy(req_id),
                proto: text::copy(draft.proto.as_str()),
                remote_addr: text::copy(draft.remote_addr.as_str()),
                target: text::copy(draft.target.as_str()),
            },
        )
    }

    /// A proposal was sent, or it could not be: then it is forgotten.
    pub fn finish_outgoing(&mut self, req_id: &str, target: &str, sent: Result<(), String>) -> (r:
        Result<String, SessionError>)
        ensures
            final(self)@ == old(self)@.after_sending(req_id@, sent is Ok),
            match sent {
                Ok(_) => result_view(r) == Ok::<Seq<char>, ErrorView>("request sent: "@ + target@),
                Err(e) => result_view(r) == Err::<Seq<char>, ErrorView>(
                    ErrorView::Invalid("send failed: "@ + e@),
                ),
            },
    {
        match sent {
            Ok(_) => Ok(text::cat2("request sent: ", target)),
            Err(e) => {
                self.negotiator.remove_outgoing(req_id);
                Err(SessionError::Invalid(text::cat2("send failed: ", e.as_str())))
            },
        }
    }

    /// Applies the outcome of a proposal of this node and leaves a notice of it.
    /// An accepted forward is started and stored; it takes the place of one with
    /// the same target.
    pub fn apply_forward_outcome(&mut self, outcome: &ForwardOutcome, now_ms: u128) -> (r:
        AppliedOutcome)
        ensures
            final(self)@ == old(self)@.applied(outcome@, now_ms).0,
            old(self)@.tells(outcome@, now_ms, r),
    {
        let ghost before = self@;
        let out = &outcome.outgoing;
        if !outcome.accepted {
            let text = match &outcome.reason {
                Some(reason) => text::cat4(
                    "forward ",
                    out.target.as_str(),
                    " failed: ",
                    reason.as_str(),
                ),
                None => text::cat2("peer denied ", out.target.as_str()),
            };
            self.push_notice(NoticeKind::Error, text.as_str(), now_ms);
            return AppliedOutcome { result: Ok(text), replaced: None, started: None };
        }
        let proto = match Proto::from_name(out.proto.as_str()) {
            Ok(proto) => proto,
            Err(e) => {
                let e = text::cat2("invalid proto: ", e.as_str());
                return AppliedOutcome {
                    result: Err(SessionError::Invalid(e)),
                    replaced: None,
                    started: None,
                };
            },
        };
        let spec = ForwardSpec {
            direction: Direction::Connect,
            proto,
            addr: text::copy(out.local_addr.as_str()),
            listen_port: out.listen_port,
            target: text::copy(out.target.as_str()),
        };
        assert(spec@ == connect_spec(outcome@.outgoing, proto));
        let ghost target = spec@.target;
        let mut replaced: Option<RemovedForward> = None;
        let mut attempt = self.controller.add_forward(&spec);
        if attempt.is_err() && self.controller.has_forward(spec.target.as_str()) {
            match self.controller.remove_forward(spec.target.as_str()) {
                Ok(removed) => {
                    replaced = Some(removed);
                },
                Err(_) => {},
            }
            attempt = self.controller.add_forward(&spec);
        }
        match attempt {
            Err(e) => {
                let e = e.message();
                let text = text::cat2("add failed: ", e.as_str());
                self.push_notice(NoticeKind::Error, text.as_str(), now_ms);
                AppliedOutcome {
                    result: Err(SessionError::Invalid(text)),
                    replaced,
                    started: None,
                }
            },
            Ok(_) => {
                self.forward_store.add(&spec);
                let text = text::cat2("forward established: ", out.target.as_str());
                proof {
                    assert(self@.controller =~= before.controller.insert(
                        target,
                        fresh_handle(spec@),
                    ));
                }
                self.push_notice(NoticeKind::Info, text.as_str(), now_ms);
                AppliedOutcome { result: Ok(text), replaced, started: Some(spec) }
            },
        }
    }

    /// Takes the outcomes that came in and applies them, oldest first.
    pub fn drain_and_apply_outcomes(&mut self, now_ms: u128) -> (r: Vec<AppliedOutcome>)
        ensures
            r@.len() == old(self)@.negotiator.outcomes.len(),
            forall|i: int|
                0 <= i < r@.len() ==> all_applied(
                    old(self)@.drained(),
                    old(self)@.negotiator.outcomes.take(i),
                    now_ms,
                ).tells(old(self)@.negotiator.outcomes[i], now_ms, #[trigger] r@[i]),
            final(self)@ == all_applied(
                old(self)@.drained(),
                old(self)@.negotiator.outcomes,
                now_ms,
            ),
    {
        let outcomes = self.negotiator.drain_outcomes();
        let ghost start = self@;
        let ghost all = views(outcomes@);
        let mut out: Vec<AppliedOutcome> = Vec::new();
        let mut i: usize = 0;
        assert(all.take(0) =~= Seq::empty());
        while i < outcomes.len()
            invariant
                i <= outcomes@.len(),
                out@.len() == i,
                all == views(outcomes@),
                self@ == all_applied(start, all.take(i as int), now_ms),
                forall|k: int|
                    0 <= k < i ==> all_applied(start, all.take(k), now_ms).tells(
                        all[k],
                        now_ms,
                        #[trigger] out@[k],
                    ),
            decreases outcomes@.len() - i,
        {
            proof {
                let head = all.take(i + 1);
                assert(head.drop_last() =~= all.take(i as int));
                assert(head.last() == outcomes@[i as int]@);
            }
            let applied = self.apply_forward_outcome(&outcomes[i], now_ms);
            out.push(applied);
            i = i + 1;
        }
        assert(all.take(i as int) =~= all);
        out
    }

    /// Removes a forward, also from the stored ones.
    pub fn remove_forward(&mut self, key: &str) -> (r: Result<RemovedForward, SessionError>)
        ensures
            final(self)@ == old(self)@.without_forward(key@),
            match r {
                Ok(removed) => {
                    &&& old(self)@.controller.contains_key(key@)
                    &&& removed.spec@ == old(self)@.controller[key@].spec
                    &&& removed.unpublish == withdraws(removed.spec@)
                },
                Err(e) => {
                    &&& !old(self)@.controller.contains_key(key@)
                    &&& e@ == ErrorView::Invalid("remove failed: "@ + ("forward not found: "@ + key@))
                },
            },
    {
        match self.controller.remove_forward(key) {
            Ok(removed) => {
                let _ = self.forward_store.remove(key);
                Ok(removed)
            },
            Err(e) => {
                assert(self@.controller =~= old(self)@.controller);
                let e = e.message();
                Err(SessionError::Invalid(text::cat2("remove failed: ", e.as_str())))
            },
        }
    }

    /// Forgets what is remembered of a peer and a forward, and says whether there
    /// was anything.
    pub fn remove_trust(&mut self, peer_id: &str, forward_key: &str) -> (r: bool)
        ensures
            ({
                let key = TrustKeyView { peer_id: peer_id@, forward_key: forward_key@ };
                &&& r == (found(old(self)@.auth.store, key) is Some)
                &&& final(self)@ == old(self)@.without_trust(key)
            }),
    {
        let key = TrustKey {
            peer_id: text::copy(peer_id),
            forward_key: text::copy(forward_key),
        };
        assert(key@ == (TrustKeyView { peer_id: peer_id@, forward_key: forward_key@ }));
        self.auth.store.remove(&key)
    }

    /// A peer proposed a forward.
    pub fn on_forward_request(&mut self, peer_id: &str, ev: ForwardRequestEvent) -> (r: u64)
        requires
            old(self)@.negotiator.last_id < u64::MAX,
        ensures
            final(self)@ == old(self)@.heard_request(peer_id@, ev@),
            final(self)@.negotiator.numbered() && final(self)@.awaits(r),
            r == final(self)@.negotiator.last_id,
    {
        self.negotiator.record_incoming(
            ev.req_id,
            text::copy(peer_id),
            ev.proto,
            ev.remote_addr,
            ev.target,
        )
    }

    /// A peer answered a proposal.
    pub fn on_forward_response(&mut self, ev: &ForwardResponseEvent)
        ensures
            final(self)@ == old(self)@.heard_response(ev@),
    {
        self.negotiator.record_response(ev.req_id.as_str(), ev.accepted);
    }

    /// The grace time of a peer that left is over. Unless it has joined again in
    /// the meantime, what it asked for is denied, its proposals are dropped, and
    /// what was proposed to it has failed.
    pub fn purge_after_grace(&mut self, peer_id: &str, epoch_at_leave: u64, now_ms: u128) -> (r:
        Option<Purged>)
        ensures
            r is Some <==> old(self)@.manager.epoch(peer_id@) == epoch_at_leave,
            final(self)@ == old(self)@.after_grace(peer_id@, epoch_at_leave, now_ms),
            r matches Some(purged) ==> purged.auth@ == crate::auth::pending::of_peer(
                old(self)@.auth.pending.waiting,
                peer_id@,
            ).map_values(|p: PendingView| p.id) && purged.outgoing
                == crate::negotiation::requests_to(
                old(self)@.negotiator.outgoing,
                peer_id@,
            ).len() && purged.incoming == old(self)@.negotiator.incoming.len()
                - crate::negotiation::incoming_not_of(
                old(self)@.negotiator.incoming,
                peer_id@,
            ).len() && old(self)@.negotiator.outgoing.dom().finite(),
            r is Some ==> final(self)@.negotiator.numbered() && final(self)@.auth.pending.numbered(),
    {
        if self.manager.peer_epoch(peer_id) != epoch_at_leave {
            return None;
        }
        let auth = self.auth.purge_peer(peer_id, now_ms);
        let (incoming, outgoing) = self.negotiator.purge_peer(peer_id);
        Some(Purged { auth, incoming, outgoing })
    }
}

/// The message that carries a proposal.
pub open spec fn request_message(req_id: Seq<char>, draft: OutgoingForwardView) -> OutgoingView {
    OutgoingView {
        peer_id: draft.peer_id,
        payload: PayloadView::ForwardRequest(
            ForwardRequestView {
                req_id,
                proto: draft.proto,
                remote_addr: draft.remote_addr,
                target: draft.target,
            },
        ),
    }
}

/// The state after several outcomes were applied one after the other.
pub open spec fn all_applied(
    v: SessionView,
    outcomes: Seq<ForwardOutcomeView>,
    now_ms: u128,
) -> SessionView
    decreases outcomes.len(),
{
    if outcomes.len() == 0 {
        v
    } else {
        all_applied(v, outcomes.drop_last(), now_ms).applied(outcomes.last(), now_ms).0
    }
}

/// What is said when the answer to a proposal was sent, or could not be.
pub open spec fn answer_words(
    accepted: bool,
    target: Seq<char>,
    error: Option<Seq<char>>,
) -> Seq<char> {
    match error {
        None => (if accepted {
            "accepted forward "@
        } else {
            "denied forward "@
        }) + target,
        Some(e) => (if accepted {
            "accepted locally, but failed to notify peer: "@
        } else {
            "denied locally, but failed to notify peer: "@
        }) + e,
    }
}

/// The answer to a proposal was sent, or it could not be. What was decided stands
/// either way.
pub fn finish_resolve(reply: &ForwardReply, sent: Result<(), String>) -> (r: Result<
    String,
    SessionError,
>)
    ensures
        result_view(r) == match sent {
            Ok(_) => Ok::<Seq<char>, ErrorView>(
                answer_words(reply@.accepted, reply@.target, None),
            ),
            Err(e) => Err(
                ErrorView::Invalid(answer_words(reply@.accepted, reply@.target, Some(e@))),
            ),
        },
{
    match sent {
        Ok(_) => if reply.accepted {
            Ok(text::cat2("accepted forward ", reply.target.as_str()))
        } else {
            Ok(text::cat2("denied forward ", reply.target.as_str()))
        },
        Err(e) => if reply.accepted {
            Err(
                SessionError::Invalid(
                    text::cat2("accepted locally, but failed to notify peer: ", e.as_str()),
                ),
            )
        } else {
            Err(
                SessionError::Invalid(
                    text::cat2("denied locally, but failed to notify peer: ", e.as_str()),
                ),
            )
        },
    }
}

/// What is remembered was written out after something was forgotten, or it could
/// not be. Where nothing was forgotten nothing is written.
pub fn finish_trust_removal(removed: bool, saved: Result<(), String>) -> (r: Result<
    bool,
    SessionError,
>)
    ensures
        match r {
            Ok(b) => b == removed && (!removed || saved is Ok),
            Err(e) => removed && (saved matches Err(s) && e@ == ErrorView::Invalid(
                "remove failed: "@ + s@,
            )),
        },
{
    if !removed {
        return Ok(false);
    }
    match saved {
        Ok(_) => Ok(true),
        Err(e) => Err(SessionError::Invalid(text::cat2("remove failed: ", e.as_str()))),
    }
}

/// The notices never exceed their limit, and the latest one is kept.
pub proof fn law_notices_are_limited(
    v: SessionView,
    kind: NoticeKind,
    text: Seq<char>,
    now_ms: u128,
)
    ensures
        v.noticed(kind, text, now_ms).notices.len() <= MAX_NOTICES,
        v.noticed(kind, text, now_ms).notices.last() == (NoticeView {
            timestamp_ms: now_ms,
            kind,
            text,
        }),
{
}

/// A proposal that was approved serves, is stored, and the peer that made it is
/// let in without a further question.
pub proof fn law_approved_peer_is_let_in(
    v: SessionView,
    id: u64,
    request: crate::auth::AuthRequestView,
    now_ms: u128,
)
    requires
        v.resolved_forward(id, true).1 is Ok,
        request.peer_id == v.negotiator.incoming[incoming_place(
            v.negotiator.incoming,
            id,
        )].peer_id,
        request.forward_key == v.negotiator.incoming[incoming_place(
            v.negotiator.incoming,
            id,
        )].target,
    ensures
        ({
            let next = v.resolved_forward(id, true).0;
            let answer = next.auth.requested(request, now_ms).1;
            &&& answer == crate::auth::pending::Authorization::Decided(AuthDecision::Allow)
            &&& next.controller.contains_key(request.forward_key)
            &&& next.controller[request.forward_key].spec.direction == Direction::Serve
            &&& crate::forward_store::has_target(next.store, request.forward_key)
        }),
{
    let req = v.negotiator.incoming[incoming_place(v.negotiator.incoming, id)];
    let next = v.resolved_forward(id, true).0;
    assert(next.store.last().target == req.target);
    assert(next.store[next.store.len() - 1].target == req.target);
}

/// A forward that one node proposes and another one approves stands on both: the
/// one listens where it asked to, the other serves the address that was asked
/// for, under the same target. Both store it, and the node that serves trusts the
/// other with it.
pub proof fn law_agreed_forward_stands_on_both_sides(
    asker: SessionView,
    asker_id: Seq<char>,
    server: SessionView,
    req_id: Seq<char>,
    draft: OutgoingForwardView,
    now_ms: u128,
)
    requires
        server.negotiator.numbered(),
        server.negotiator.last_id < u64::MAX,
        proto_named(draft.proto) is Some,
        draft.target.len() > 0,
        !server.controller.contains_key(draft.target),
    ensures
        request_message(req_id, draft).payload matches PayloadView::ForwardRequest(request) && ({
            let heard = server.heard_request(asker_id, request);
            let (serving, reply) = heard.resolved_forward(heard.negotiator.last_id, true);
            &&& request_message(req_id, draft).peer_id == draft.peer_id
            &&& reply matches Ok(reply)
            &&& reply.message.peer_id == asker_id
            &&& reply.message.payload matches PayloadView::ForwardResponse(response)
            &&& ({
                let told = asker.asked(req_id, draft).heard_response(response);
                let outcome = told.negotiator.outcomes.last();
                let (connected, said) = told.drained().applied(outcome, now_ms);
                let proto = proto_named(draft.proto)->0;
                let listening = connect_spec(draft, proto);
                let served = ForwardSpecView {
                    direction: Direction::Serve,
                    proto,
                    addr: draft.remote_addr,
                    listen_port: -1i32,
                    target: draft.target,
                };
                &&& said is Ok
                &&& connected.controller.contains_key(draft.target)
                &&& connected.controller[draft.target] == fresh_handle(listening)
                &&& connected.store.contains(crate::forward_store::persisted(listening))
                &&& !connected.negotiator.outgoing.contains_key(req_id)
                &&& serving.controller.contains_key(draft.target)
                &&& serving.controller[draft.target] == fresh_handle(served)
                &&& serving.store.contains(crate::forward_store::persisted(served))
                &&& serving.auth.store.contains_pair(
                    TrustKeyView { peer_id: asker_id, forward_key: draft.target },
                    TrustDecision::Allow,
                )
            })
        }),
{
    let request = ForwardRequestView {
        req_id,
        proto: draft.proto,
        remote_addr: draft.remote_addr,
        target: draft.target,
    };
    let heard = server.heard_request(asker_id, request);
    crate::negotiation::law_proposal_is_found(
        server.negotiator,
        req_id,
        asker_id,
        draft.proto,
        draft.remote_addr,
        draft.target,
    );
    let serving = heard.resolved_forward(heard.negotiator.last_id, true).0;
    assert(serving.store[serving.store.len() - 1].target == draft.target);
    let response = ForwardResponseView { req_id, target: draft.target, accepted: true };
    let told = asker.asked(req_id, draft).heard_response(response);
    law_accepted_forward_replaces(
        told.drained(),
        told.negotiator.outcomes.last(),
        now_ms,
        draft.target,
    );
}

/// A proposal is decided once, whichever way: afterwards nothing waits under its
/// number, and a further decision finds nothing and changes nothing. Where nothing
/// waits the first decision does not either.
pub proof fn law_proposal_is_decided_once(v: SessionView, id: u64, first: bool, second: bool)
    requires
        v.negotiator.numbered(),
    ensures
        ({
            let (next, answer) = v.resolved_forward(id, first);
            let gone = Err::<ReplyView, ErrorView>(
                ErrorView::NotFound("forward request no longer exists"@),
            );
            &&& answer == gone <==> !v.awaits(id)
            &&& answer == gone ==> next == v
            &&& !next.awaits(id)
            &&& next.negotiator.numbered()
            &&& next.resolved_forward(id, second) == (next, gone)
        }),
{
    if v.awaits(id) {
        crate::model::lemma_first_where_bounds(
            v.negotiator.incoming,
            |f: IncomingForwardView| f.id == id,
        );
        crate::negotiation::law_proposal_taken_once(v.negotiator, id);
    }
}

/// Whatever happens in a session, its forwards stay held under their targets and
/// what waits stays numbered upwards.
pub proof fn law_session_stays_in_order(
    v: SessionView,
    id: u64,
    allow: bool,
    decision: AuthDecision,
    peer_id: Seq<char>,
    request: ForwardRequestView,
    response: ForwardResponseView,
    draft: OutgoingForwardView,
    outcome: ForwardOutcomeView,
    now_ms: u128,
)
    requires
        v.in_order(),
    ensures
        v.resolved_forward(id, allow).0.in_order(),
        place_of(v.auth.pending.waiting, id) < v.auth.pending.waiting.len() ==> (SessionView {
            auth: v.auth.resolved(id, decision, now_ms),
            ..v
        }).in_order(),
        v.negotiator.last_id < u64::MAX ==> v.heard_request(peer_id, request).in_order(),
        v.heard_response(response).in_order(),
        v.asked(request.req_id, draft).in_order(),
        v.applied(outcome, now_ms).0.in_order(),
        v.drained().in_order(),
        v.purged(peer_id, now_ms).in_order(),
{
    law_proposal_is_decided_once(v, id, allow, allow);
    if v.negotiator.last_id < u64::MAX {
        crate::negotiation::law_proposal_is_found(
            v.negotiator,
            request.req_id,
            peer_id,
            request.proto,
            request.remote_addr,
            request.target,
        );
    }
    crate::negotiation::law_purge_keeps_numbering(v.negotiator, peer_id);
    crate::auth::pending::law_purge_keeps_numbering(v.auth.pending, peer_id);
    if place_of(v.auth.pending.waiting, id) < v.auth.pending.waiting.len() {
        crate::model::lemma_first_where_bounds(
            v.auth.pending.waiting,
            |p: PendingView| p.id == id,
        );
        crate::auth::pending::lemma_taken_out(
            v.auth.pending,
            place_of(v.auth.pending.waiting, id),
        );
    }
}

/// A proposal that was refused changes no forward, nothing that is stored and
/// nothing that is remembered, and the peer that made it is told.
pub proof fn law_refused_proposal_changes_nothing(v: SessionView, id: u64)
    requires
        v.awaits(id),
    ensures
        ({
            let (next, answer) = v.resolved_forward(id, false);
            let req = v.negotiator.incoming[incoming_place(v.negotiator.incoming, id)];
            &&& next.controller == v.controller
            &&& next.store == v.store
            &&& next.auth == v.auth
            &&& answer matches Ok(reply)
            &&& reply.message.peer_id == req.peer_id
            &&& reply.message.payload matches PayloadView::ForwardResponse(response)
            &&& response.req_id == req.req_id && !response.accepted
            &&& reply.started is None
        }),
{
}

/// An accepted forward is there afterwards as it was agreed, in place of any with
/// the same target; the other forwards stay as they are.
pub proof fn law_accepted_forward_replaces(
    v: SessionView,
    outcome: ForwardOutcomeView,
    now_ms: u128,
    other: Seq<char>,
)
    requires
        outcome.accepted,
        proto_named(outcome.outgoing.proto) is Some,
        outcome.outgoing.target.len() > 0,
    ensures
        ({
            let next = v.applied(outcome, now_ms).0;
            let target = outcome.outgoing.target;
            let spec = connect_spec(outcome.outgoing, proto_named(outcome.outgoing.proto)->0);
            &&& next.controller.contains_key(target)
            &&& next.controller[target] == fresh_handle(spec)
            &&& next.store.contains(crate::forward_store::persisted(spec))
            &&& other != target ==> next.controller.contains_key(other)
                == v.controller.contains_key(other)
            &&& other != target && v.controller.contains_key(other) ==> next.controller[other]
                == v.controller[other]
        }),
{
    let next = v.applied(outcome, now_ms).0;
    let spec = connect_spec(outcome.outgoing, proto_named(outcome.outgoing.proto)->0);
    assert(next.store[next.store.len() - 1] == crate::forward_store::persisted(spec));
}

/// Forwards to the same address on different nodes do not get in each other's
/// way: their targets differ.
pub proof fn law_scoped_targets_coexist(
    v: SessionView,
    first: ForwardOutcomeView,
    second: ForwardOutcomeView,
    target: Seq<char>,
    a: Seq<char>,
    b: Seq<char>,
    now_ms: u128,
)
    requires
        first.accepted && second.accepted,
        proto_named(first.outgoing.proto) is Some && proto_named(second.outgoing.proto) is Some,
        first.outgoing.target == crate::forward_args::scoped_target(target, a),
        second.outgoing.target == crate::forward_args::scoped_target(target, b),
        a != b,
    ensures
        ({
            let next = v.applied(first, now_ms).0.applied(second, now_ms).0;
            &&& next.controller.contains_key(first.outgoing.target)
            &&& next.controller.contains_key(second.outgoing.target)
            &&& first.outgoing.target != second.outgoing.target
        }),
{
    reveal_strlit("@");
    let x = first.outgoing.target;
    let y = second.outgoing.target;
    if x == y {
        assert(x.skip(target.len() as int + 1) =~= a);
        assert(y.skip(target.len() as int + 1) =~= b);
    }
    law_accepted_forward_replaces(v, first, now_ms, y);
    law_accepted_forward_replaces(v.applied(first, now_ms).0, second, now_ms, x);
}

/// A forward that was not accepted changes nothing but the notices.
pub proof fn law_refused_forward_changes_nothing(
    v: SessionView,
    outcome: ForwardOutcomeView,
    now_ms: u128,
)
    requires
        !outcome.accepted,
    ensures
        v.applied(outcome, now_ms).0 == v.noticed(NoticeKind::Error, refusal(outcome), now_ms),
        v.applied(outcome, now_ms).0.controller == v.controller,
        v.applied(outcome, now_ms).0.store == v.store,
{
}

/// A proposal that could not be sent leaves the requests as they were.
pub proof fn law_unsent_request_is_forgotten(
    v: SessionView,
    req_id: Seq<char>,
    draft: OutgoingForwardView,
)
    requires
        !v.negotiator.outgoing.contains_key(req_id),
    ensures
        v.asked(req_id, draft).negotiator.outgoing.remove(req_id) == v.negotiator.outgoing,
{
    assert(v.asked(req_id, draft).negotiator.outgoing.remove(req_id) =~= v.negotiator.outgoing);
}

/// An answer that comes before the request is known to have been sent is not
/// lost.
pub proof fn law_early_answer_is_not_lost(
    v: SessionView,
    req_id: Seq<char>,
    draft: OutgoingForwardView,
    accepted: bool,
)
    ensures
        v.asked(req_id, draft).negotiator.answered(req_id, accepted).outcomes.last() == (
        ForwardOutcomeView { outgoing: draft, accepted, reason: None }),
{
}

/// Every stored forward is set up again on the next start.
pub proof fn law_stored_forwards_come_back(entries: Seq<PersistedForwardView>, i: int)
    requires
        crate::forward_store::one_per_target(entries),
        0 <= i < entries.len(),
        restored(entries[i]) is Ok,
        entries[i].target.len() > 0,
    ensures
        all_restored(entries).contains_key(entries[i].target),
        all_restored(entries)[entries[i].target] == fresh_handle(restored(entries[i])->Ok_0),
    decreases entries.len(),
{
    let rest = entries.drop_last();
    lemma_restored_keys(rest);
    if i == entries.len() - 1 {
        let target = entries[i].target;
        if all_restored(rest).contains_key(target) {
            let k = choose|k: int| 0 <= k < rest.len() && #[trigger] rest[k].target == target;
            assert(entries[k].target != entries[i].target);
        }
    } else {
        assert(crate::forward_store::one_per_target(rest)) by {
            assert forall|a: int, b: int| 0 <= a < b < rest.len() implies #[trigger] rest[a].target
                != #[trigger] rest[b].target by {
                assert(entries[a].target != entries[b].target);
            }
        }
        assert(rest[i] == entries[i]);
        law_stored_forwards_come_back(rest, i);
    }
}

proof fn lemma_restored_keys(entries: Seq<PersistedForwardView>)
    ensures
        forall|key: Seq<char>| #[trigger]
            all_restored(entries).contains_key(key) ==> exists|k: int|
                0 <= k < entries.len() && #[trigger] entries[k].target == key,
    decreases entries.len(),
{
    if entries.len() > 0 {
        let rest = entries.drop_last();
        lemma_restored_keys(rest);
        assert forall|key: Seq<char>| #[trigger] all_restored(entries).contains_key(
            key,
        ) implies exists|k: int| 0 <= k < entries.len() && #[trigger] entries[k].target == key by {
            if all_restored(rest).contains_key(key) {
                let k = choose|k: int| 0 <= k < rest.len() && #[trigger] rest[k].target == key;
                assert(entries[k].target == key);
            } else {
                assert(entries[entries.len() - 1].target == key);
            }
        }
    }
}

/// Whether two states differ in no more than their proposals.
pub open spec fn same_but_proposals(a: SessionView, b: SessionView) -> bool {
    &&& a.room == b.room && a.manager == b.manager && a.controller == b.controller
    &&& a.auth == b.auth && a.store == b.store && a.notices == b.notices
}

/// Whatever the user decides on a proposal, that one no longer waits and all others do;
/// what this node asked of others, its room, its peers and its notices are not touched.
pub proof fn law_decision_takes_one_proposal(
    v: SessionView,
    id: u64,
    allow: bool,
    f: IncomingForwardView,
)
    requires
        v.negotiator.numbered(),
    ensures
        ({
            let next = v.resolved_forward(id, allow).0;
            &&& next.negotiator.incoming.contains(f) <==> v.negotiator.incoming.contains(f)
                && f.id != id
            &&& next.negotiator.outgoing == v.negotiator.outgoing && next.negotiator.outcomes
                == v.negotiator.outcomes && next.negotiator.last_id == v.negotiator.last_id
            &&& next.room == v.room && next.manager == v.manager && next.notices == v.notices
            &&& next.auth.pending == v.auth.pending && next.auth.audit_log == v.auth.audit_log
            &&& v.awaits(id) <==> exists|k: int|
                0 <= k < v.negotiator.incoming.len() && (#[trigger] v.negotiator.incoming[k]).id
                    == id
        }),
{
    crate::negotiation::law_place_finds_what_waits(v.negotiator, id);
    if v.awaits(id) {
        crate::negotiation::law_taking_leaves_the_others(v.negotiator, id, f);
    } else if v.negotiator.incoming.contains(f) {
        let all = v.negotiator.incoming;
        let k = choose|k: int| 0 <= k < all.len() && all[k] == f;
        if f.id == id {
            assert(all[k].id == id);
        }
    }
}

/// Approving a proposal sets up exactly what was proposed, and nothing else: a forward
/// that serves the address under the target, stored, with the peer that made it trusted
/// with that target, and the peer is told yes. It is refused, with the reason and without
/// any change, where the protocol is unknown or the target is missing or taken.
pub proof fn law_approval_sets_up_what_was_proposed(
    v: SessionView,
    id: u64,
    other: Seq<char>,
    key: TrustKeyView,
    e: PersistedForwardView,
)
    requires
        v.awaits(id),
    ensures
        ({
            let req = v.negotiator.incoming[incoming_place(v.negotiator.incoming, id)];
            let (next, answer) = v.resolved_forward(id, true);
            let known = req.proto == "tcp"@ || req.proto == "udp"@;
            let free = req.target.len() > 0 && !v.controller.contains_key(req.target);
            let theirs = TrustKeyView { peer_id: req.peer_id, forward_key: req.target };
            &&& answer is Ok <==> known && free
            &&& !(known && free) ==> next.controller == v.controller && next.store == v.store
                && next.auth == v.auth && answer->Err_0 is Invalid
            &&& !known ==> answer->Err_0.text() == "invalid proto: "@ + (
            "unsupported protocol: "@ + req.proto)
            &&& known && req.target.len() == 0 ==> answer->Err_0.text() == "add failed: "@
                + "forward target must not be empty"@
            &&& known && req.target.len() > 0 && !free ==> answer->Err_0.text() == "add failed: "@
                + ("forward already exists: "@ + req.target)
            &&& known && free ==> {
                let spec = next.controller[req.target].spec;
                &&& next.controller.contains_key(req.target)
                &&& next.controller[req.target] == fresh_handle(spec)
                &&& spec.direction is Serve && spec.addr == req.remote_addr && spec.target
                    == req.target && spec.listen_port == -1
                &&& spec.proto is Tcp <==> req.proto == "tcp"@
                &&& other != req.target ==> (next.controller.contains_key(other)
                    <==> v.controller.contains_key(other))
                &&& other != req.target && v.controller.contains_key(other)
                    ==> next.controller[other] == v.controller[other]
                &&& next.store.contains(crate::forward_store::persisted(spec))
                &&& e.target != req.target ==> (next.store.contains(e) <==> v.store.contains(e))
                &&& found(next.auth.store, theirs) == Some(TrustDecision::Allow)
                &&& key != theirs ==> found(next.auth.store, key) == found(v.auth.store, key)
                &&& answer->Ok_0.started == Some(spec)
                &&& answer->Ok_0.accepted && answer->Ok_0.target == req.target
                &&& answer->Ok_0.message.peer_id == req.peer_id
                &&& answer->Ok_0.message.payload == PayloadView::ForwardResponse(
                    ForwardResponseView {
                        req_id: req.req_id,
                        target: req.target,
                        accepted: true,
                    },
                )
            }
        }),
{
    reveal_strlit("tcp");
    reveal_strlit("udp");
    assert("tcp"@[0] != "udp"@[0]);
    let req = v.negotiator.incoming[incoming_place(v.negotiator.incoming, id)];
    if let Some(proto) = proto_named(req.proto) {
        let spec = serve_spec(req, proto);
        crate::forward_store::law_other_forwards_are_kept(v.store, spec, e);
        let stored = added(v.store, spec);
        assert(stored[stored.len() - 1] == crate::forward_store::persisted(spec));
    }
}

/// A refusal tells the peer no, under the id and the target of its proposal.
pub proof fn law_refusal_is_told(v: SessionView, id: u64)
    requires
        v.awaits(id),
    ensures
        ({
            let req = v.negotiator.incoming[incoming_place(v.negotiator.incoming, id)];
            let (next, answer) = v.resolved_forward(id, false);
            &&& answer is Ok
            &&& !answer->Ok_0.accepted && answer->Ok_0.target == req.target
                && answer->Ok_0.started is None
            &&& answer->Ok_0.message.peer_id == req.peer_id
            &&& answer->Ok_0.message.payload == PayloadView::ForwardResponse(
                ForwardResponseView { req_id: req.req_id, target: req.target, accepted: false },
            )
        }),
{
}

/// The answer to a proposal is what the node that made it hears: the network hands it on
/// unchanged, and it brings that node the outcome that was decided, for the forward that
/// it asked for.
pub proof fn law_answer_reaches_the_asker(
    server: SessionView,
    id: u64,
    allow: bool,
    server_id: Seq<char>,
    asker: SessionView,
)
    requires
        server.resolved_forward(id, allow).1 is Ok,
        server_id != asker.manager.self_id,
        asker.manager.peers.contains(server_id),
    ensures
        ({
            let reply = server.resolved_forward(id, allow).1->Ok_0;
            let req = server.negotiator.incoming[incoming_place(server.negotiator.incoming, id)];
            let heard = asker.manager.on_message(server_id, Some(reply.message.payload), None);
            &&& heard.len() == 1
            &&& heard[0] matches DeliveryView::ForwardResponse { peer_id, response }
            &&& peer_id == server_id
            &&& response.accepted == allow
            &&& response.req_id == req.req_id
            &&& asker.negotiator.outgoing.contains_key(req.req_id) ==> {
                let next = asker.heard_response(response);
                &&& next.negotiator.outcomes.last().outgoing == asker.negotiator.outgoing[req.req_id]
                &&& next.negotiator.outcomes.last().accepted == allow
                &&& !next.negotiator.outgoing.contains_key(req.req_id)
            }
            &&& !asker.negotiator.outgoing.contains_key(req.req_id) ==> asker.heard_response(
                response,
            ) == asker
        }),
{
    let reply = server.resolved_forward(id, allow).1->Ok_0;
    let req = server.negotiator.incoming[incoming_place(server.negotiator.incoming, id)];
    let response = ForwardResponseView { req_id: req.req_id, target: req.target, accepted: allow };
    assert(reply.message.payload == PayloadView::ForwardResponse(response));
    crate::rtc::manager::event::law_messages_arrive_as_sent(
        asker.manager,
        server_id,
        server_id,
        Seq::empty(),
        Seq::empty(),
        ForwardRequestView {
            req_id: req.req_id,
            proto: req.proto,
            remote_addr: req.remote_addr,
            target: req.target,
        },
        response,
        Seq::empty(),
        Seq::empty(),
        None,
    );
}

/// A proposal goes to the peer that it is for and arrives there as it was drafted: the
/// network hands it on unchanged, and it waits there under the name of the node that made
/// it, with the address and the target that were asked for.
pub proof fn law_proposal_reaches_the_server(
    asker_id: Seq<char>,
    req_id: Seq<char>,
    draft: OutgoingForwardView,
    server: SessionView,
)
    requires
        asker_id != server.manager.self_id,
        server.manager.peers.contains(asker_id),
        server.negotiator.last_id < u64::MAX,
    ensures
        ({
            let message = request_message(req_id, draft);
            let heard = server.manager.on_message(asker_id, Some(message.payload), None);
            &&& message.peer_id == draft.peer_id
            &&& heard.len() == 1
            &&& heard[0] matches DeliveryView::ForwardRequest { peer_id, request }
            &&& peer_id == asker_id
            &&& ({
                let f = server.heard_request(peer_id, request).negotiator.incoming.last();
                &&& f.peer_id == asker_id && f.req_id == req_id && f.proto == draft.proto
                    && f.remote_addr == draft.remote_addr && f.target == draft.target
                &&& f.id == server.negotiator.last_id + 1
            })
        }),
{
    let message = request_message(req_id, draft);
    let request = ForwardRequestView {
        req_id,
        proto: draft.proto,
        remote_addr: draft.remote_addr,
        target: draft.target,
    };
    assert(message.payload == PayloadView::ForwardRequest(request));
}

/// Hearing a proposal or an answer, making a proposal, and taking the outcomes change the
/// proposals only, and of them only their own side.
pub proof fn law_talk_changes_proposals_only(
    v: SessionView,
    peer_id: Seq<char>,
    request: ForwardRequestView,
    response: ForwardResponseView,
    req_id: Seq<char>,
    draft: OutgoingForwardView,
    other: Seq<char>,
)
    requires
        v.negotiator.last_id < u64::MAX,
    ensures
        same_but_proposals(v.heard_request(peer_id, request), v),
        v.heard_request(peer_id, request).negotiator.incoming.drop_last() == v.negotiator.incoming,
        v.heard_request(peer_id, request).negotiator.outgoing == v.negotiator.outgoing,
        v.heard_request(peer_id, request).negotiator.outcomes == v.negotiator.outcomes,
        same_but_proposals(v.heard_response(response), v),
        v.heard_response(response).negotiator.incoming == v.negotiator.incoming,
        other != response.req_id ==> (v.heard_response(response).negotiator.outgoing.contains_key(
            other,
        ) <==> v.negotiator.outgoing.contains_key(other)),
        same_but_proposals(v.asked(req_id, draft), v),
        v.asked(req_id, draft).negotiator.outgoing.contains_key(req_id),
        v.asked(req_id, draft).negotiator.outgoing[req_id] == draft,
        v.asked(req_id, draft).negotiator.incoming == v.negotiator.incoming,
        v.asked(req_id, draft).negotiator.outcomes == v.negotiator.outcomes,
        other != req_id ==> (v.asked(req_id, draft).negotiator.outgoing.contains_key(other)
            <==> v.negotiator.outgoing.contains_key(other)),
        v.after_sending(req_id, true) == v,
        same_but_proposals(v.after_sending(req_id, false), v),
        !v.after_sending(req_id, false).negotiator.outgoing.contains_key(req_id),
        v.after_sending(req_id, false).negotiator.incoming == v.negotiator.incoming,
        other != req_id ==> (v.after_sending(req_id, false).negotiator.outgoing.contains_key(other)
            <==> v.negotiator.outgoing.contains_key(other)),
        same_but_proposals(v.drained(), v),
        v.drained().negotiator.outcomes.len() == 0,
        v.drained().negotiator.incoming == v.negotiator.incoming,
        v.drained().negotiator.outgoing == v.negotiator.outgoing,
{
    assert(v.heard_request(peer_id, request).negotiator.incoming.drop_last()
        =~= v.negotiator.incoming);
}

/// What comes of a proposal of this node. Where it was accepted the forward listens as it
/// was drafted, is stored, and the user is told; stored forwards with other targets stay.
/// Where it was refused, or failed, only the user is told, and why. An outcome that cannot
/// be applied says so. Peers, proposals and what is remembered are never touched.
pub proof fn law_outcome_is_applied(
    v: SessionView,
    outcome: ForwardOutcomeView,
    now_ms: u128,
    other: Seq<char>,
    e: PersistedForwardView,
)
    ensures
        ({
            let (next, said) = v.applied(outcome, now_ms);
            let out = outcome.outgoing;
            let known = out.proto == "tcp"@ || out.proto == "udp"@;
            &&& next.room == v.room && next.manager == v.manager && next.auth == v.auth
                && next.negotiator == v.negotiator
            &&& !outcome.accepted ==> {
                &&& next.controller == v.controller && next.store == v.store
                &&& said == Ok::<Seq<char>, ErrorView>(
                    match outcome.reason {
                        Some(reason) => "forward "@ + out.target + " failed: "@ + reason,
                        None => "peer denied "@ + out.target,
                    },
                )
                &&& next.notices.last() == (NoticeView {
                    timestamp_ms: now_ms,
                    kind: NoticeKind::Error,
                    text: said->Ok_0,
                })
            }
            &&& outcome.accepted ==> (said is Ok <==> known && out.target.len() > 0)
            &&& outcome.accepted && !known ==> next == v
            &&& outcome.accepted && said is Ok ==> {
                let spec = next.controller[out.target].spec;
                &&& said == Ok::<Seq<char>, ErrorView>("forward established: "@ + out.target)
                &&& next.notices.last() == (NoticeView {
                    timestamp_ms: now_ms,
                    kind: NoticeKind::Info,
                    text: said->Ok_0,
                })
                &&& next.controller.contains_key(out.target)
                &&& next.controller[out.target] == fresh_handle(spec)
                &&& spec.direction is Connect && spec.addr == out.local_addr && spec.listen_port
                    == out.listen_port && spec.target == out.target
                &&& spec.proto is Tcp <==> out.proto == "tcp"@
                &&& next.store.contains(crate::forward_store::persisted(spec))
            }
            &&& other != out.target ==> (next.controller.contains_key(other)
                <==> v.controller.contains_key(other))
            &&& other != out.target && v.controller.contains_key(other) ==> next.controller[other]
                == v.controller[other]
            &&& e.target != out.target ==> (next.store.contains(e) <==> v.store.contains(e))
            &&& said is Err ==> next.store == v.store
        }),
{
    reveal_strlit("tcp");
    reveal_strlit("udp");
    assert("tcp"@[0] != "udp"@[0]);
    let out = outcome.outgoing;
    if let Some(proto) = proto_named(out.proto) {
        let spec = connect_spec(out, proto);
        crate::forward_store::law_other_forwards_are_kept(v.store, spec, e);
        let stored = added(v.store, spec);
        assert(stored[stored.len() - 1] == crate::forward_store::persisted(spec));
    }
}

/// The outcomes that came in are applied one after the other, oldest first, none of them
/// left out.
pub proof fn law_outcomes_are_applied_in_turn(
    v: SessionView,
    first: ForwardOutcomeView,
    rest: Seq<ForwardOutcomeView>,
    now_ms: u128,
)
    ensures
        all_applied(v, Seq::empty(), now_ms) == v,
        all_applied(v, seq![first] + rest, now_ms) == all_applied(
            v.applied(first, now_ms).0,
            rest,
            now_ms,
        ),
    decreases rest.len(),
{
    let all = seq![first] + rest;
    if rest.len() == 0 {
        assert(all.drop_last() =~= Seq::empty());
        assert(all_applied(v, all.drop_last(), now_ms) == v);
    } else {
        law_outcomes_are_applied_in_turn(v, first, rest.drop_last(), now_ms);
        assert(all.drop_last() =~= seq![first] + rest.drop_last());
        assert(all.last() == rest.last());
    }
}

/// A forward that is removed is gone from the running and from the stored ones; all others
/// stay, and so does everything else. Where there is none nothing changes.
pub proof fn law_removed_forward_is_gone(
    v: SessionView,
    key: Seq<char>,
    other: Seq<char>,
    e: PersistedForwardView,
)
    ensures
        ({
            let next = v.without_forward(key);
            &&& !v.controller.contains_key(key) ==> next == v
            &&& !next.controller.contains_key(key)
            &&& v.controller.contains_key(key) ==> !crate::forward_store::has_target(
                next.store,
                key,
            )
            &&& other != key ==> (next.controller.contains_key(other) <==> v.controller.contains_key(
                other,
            ))
            &&& other != key && v.controller.contains_key(other) ==> next.controller[other]
                == v.controller[other]
            &&& e.target != key ==> (next.store.contains(e) <==> v.store.contains(e))
            &&& next.room == v.room && next.manager == v.manager && next.auth == v.auth
                && next.negotiator == v.negotiator && next.notices == v.notices
        }),
{
    broadcast use vstd::seq_lib::group_filter_ensures;

    let others = |e: PersistedForwardView| e.target != key;
    let kept = without_target(v.store, key);
    if v.store.contains(e) && e.target != key {
        let i = choose|i: int| 0 <= i < v.store.len() && v.store[i] == e;
        assert(others(v.store[i]));
        assert(kept.contains(e));
    }
    if kept.contains(e) {
        v.store.lemma_filter_contains_rev(others, e);
    }
    if crate::forward_store::has_target(kept, key) {
        let i = choose|i: int| 0 <= i < kept.len() && #[trigger] kept[i].target == key;
        assert(others(kept[i]));
    }
}

/// Forgetting a peer and a forward forgets that pair only, and changes nothing else; the
/// peer is then asked for again.
pub proof fn law_forgotten_trust_is_asked_for(
    v: SessionView,
    request: crate::auth::AuthRequestView,
    other: TrustKeyView,
    now_ms: u128,
)
    ensures
        ({
            let key = TrustKeyView { peer_id: request.peer_id, forward_key: request.forward_key };
            let next = v.without_trust(key);
            &&& found(next.auth.store, key) is None
            &&& other != key ==> found(next.auth.store, other) == found(v.auth.store, other)
            &&& next.auth.pending == v.auth.pending && next.auth.audit_log == v.auth.audit_log
            &&& next.room == v.room && next.manager == v.manager && next.controller == v.controller
                && next.negotiator == v.negotiator && next.store == v.store && next.notices
                == v.notices
            &&& next.auth.requested(request, now_ms).1 is Queued
        }),
{
}

/// A decision on a waiting connection is that of the authorizer, and touches nothing else.
pub proof fn law_decision_touches_authorization_only(
    v: SessionView,
    id: u64,
    decision: AuthDecision,
    now_ms: u128,
)
    ensures
        ({
            let next = v.decided(id, decision, now_ms);
            &&& next.auth == v.auth.decided(id, decision, now_ms)
            &&& next.room == v.room && next.manager == v.manager && next.controller == v.controller
                && next.negotiator == v.negotiator && next.store == v.store && next.notices
                == v.notices
        }),
{
}

/// A peer that joined again in time keeps all it had. One that stayed away loses what it
/// waited for and what was asked of it, but not its forwards, nor what is remembered of it.
pub proof fn law_only_absent_peers_are_purged(
    v: SessionView,
    peer_id: Seq<char>,
    now_ms: u128,
)
    requires
        peer_id != v.manager.self_id,
    ensures
        ({
            let left = SessionView { manager: v.manager.left(peer_id), ..v };
            let back = SessionView { manager: left.manager.joined(peer_id), ..left };
            let epoch = v.manager.epoch(peer_id);
            let gone = left.after_grace(peer_id, epoch, now_ms);
            &&& back.after_grace(peer_id, epoch, now_ms) == back
            &&& gone.auth == v.auth.purged(peer_id, now_ms)
            &&& gone.negotiator == v.negotiator.purged(peer_id)
            &&& gone.controller == v.controller && gone.store == v.store && gone.room == v.room
                && gone.notices == v.notices && gone.manager == left.manager
            &&& gone.auth.store == v.auth.store
        }),
{
}

/// The latest notices are kept, up to fifty of them, unchanged and in their order, and the
/// new one comes last. Nothing else changes.
pub proof fn law_notice_is_added(
    v: SessionView,
    kind: NoticeKind,
    text: Seq<char>,
    now_ms: u128,
    k: int,
)
    requires
        v.notices.len() <= 50,
    ensures
        ({
            let next = v.noticed(kind, text, now_ms);
            let n = next.notices.len();
            &&& n == if v.notices.len() < 50 {
                (v.notices.len() + 1) as int
            } else {
                50
            }
            &&& next.notices[n - 1] == (NoticeView { timestamp_ms: now_ms, kind, text })
            &&& 1 <= k < n ==> next.notices[n - 1 - k] == v.notices[v.notices.len() - k]
            &&& next.room == v.room && next.manager == v.manager && next.controller == v.controller
                && next.auth == v.auth && next.negotiator == v.negotiator && next.store == v.store
        }),
{
}

/// A session starts with its stored forwards and with nothing else under way.
pub proof fn law_session_starts_with_its_store(
    room: Seq<char>,
    manager: ManagerView,
    auth: PendingAuthorizerView,
    store: Seq<PersistedForwardView>,
    id: u64,
)
    ensures
        ({
            let v = built(room, manager, auth, store);
            &&& v.room == room && v.manager == manager && v.auth == auth && v.store == store
            &&& v.controller == all_restored(store)
            &&& !v.awaits(id)
            &&& v.negotiator.outgoing.dom() == Set::<Seq<char>>::empty()
            &&& v.negotiator.outcomes.len() == 0 && v.negotiator.incoming.len() == 0
            &&& v.notices.len() == 0
        }),
{
    let v = built(room, manager, auth, store);
    crate::negotiation::law_place_finds_what_waits(v.negotiator, id);
}

/// The forwards that are started on a launch are those that are held: each of the stored
/// ones that can be read, the first of a target, as it was stored; and no other one.
pub proof fn law_restored_forwards_are_started(
    entries: Seq<PersistedForwardView>,
    spec: ForwardSpecView,
    key: Seq<char>,
)
    ensures
        restored_specs(entries).contains(spec) <==> all_restored(entries).contains_key(spec.target)
            && all_restored(entries)[spec.target] == fresh_handle(spec),
        all_restored(entries).contains_key(key) ==> {
            let h = all_restored(entries)[key];
            &&& h == fresh_handle(h.spec) && h.spec.target == key && key.len() > 0
            &&& entries.contains(crate::forward_store::persisted(h.spec))
        },
        forall|i: int, j: int|
            0 <= i < j < restored_specs(entries).len() ==> (#[trigger] restored_specs(
                entries,
            )[i]).target != (#[trigger] restored_specs(entries)[j]).target,
    decreases entries.len(),
{
    if entries.len() > 0 {
        let rest = entries.drop_last();
        let entry = entries.last();
        let before = restored_specs(rest);
        let all = restored_specs(entries);
        law_restored_forwards_are_started(rest, spec, key);
        if all_restored(rest).contains_key(key) {
            let p = crate::forward_store::persisted(all_restored(rest)[key].spec);
            let k = choose|k: int| 0 <= k < rest.len() && rest[k] == p;
            assert(entries[k] == p);
        }
        assert(entries[entries.len() - 1] == entry);
        if let Ok(s) = restored(entry) {
            crate::forward_store::law_stored_form(s, entry);
            if s.target.len() > 0 && !all_restored(rest).contains_key(s.target) {
                assert(all == before.push(s));
                assert(all[before.len() as int] == s);
                if before.contains(spec) {
                    let k = choose|k: int| 0 <= k < before.len() && before[k] == spec;
                    assert(all[k] == spec);
                }
                if all.contains(spec) {
                    let k = choose|k: int| 0 <= k < all.len() && all[k] == spec;
                    if k < before.len() {
                        assert(before[k] == spec);
                    }
                }
                assert forall|i: int, j: int| 0 <= i < j < all.len() implies (
                #[trigger] all[i]).target != (#[trigger] all[j]).target by {
                    assert(all[i] == before[i]);
                    if j < before.len() {
                        assert(before[i].target != before[j].target);
                    } else {
                        law_restored_forwards_are_started(rest, before[i], key);
                        assert(before.contains(before[i]));
                    }
                }
            }
        }
    }
}

/// What cannot be read, names no target, or names one that an earlier entry has, is passed
/// over on a launch; all else is set up, whatever else is stored.
pub proof fn law_each_entry_is_restored(
    entries: Seq<PersistedForwardView>,
    entry: PersistedForwardView,
    other: Seq<char>,
)
    ensures
        ({
            let before = all_restored(entries);
            let after = all_restored(entries.push(entry));
            let fits = restored(entry) is Ok && entry.target.len() > 0 && !before.contains_key(
                entry.target,
            );
            &&& fits ==> after.contains_key(entry.target) && after[entry.target] == fresh_handle(
                restored(entry)->Ok_0,
            )
            &&& !fits ==> after == before
            &&& other != entry.target ==> (after.contains_key(other) <==> before.contains_key(other))
            &&& other != entry.target && before.contains_key(other) ==> after[other]
                == before[other]
            &&& all_restored(Seq::empty()).dom() == Set::<Seq<char>>::empty()
        }),
{
    assert(entries.push(entry).drop_last() =~= entries);
    if let Ok(s) = restored(entry) {
        crate::forward_store::law_stored_form(s, entry);
    }
}

/// The requests that wait for an answer are all shown, and nothing else is.
pub proof fn law_unanswered_requests_are_shown(v: SessionView, req_id: Seq<char>)
    requires
        v.negotiator.outgoing.dom().finite(),
    ensures
        v.negotiator.outgoing.contains_key(req_id) ==> v.unanswered().contains(
            v.negotiator.outgoing[req_id],
        ),
        v.unanswered().len() == v.negotiator.outgoing.dom().len(),
{
    let d = v.negotiator.outgoing.dom();
    let keys = sorted(d);
    crate::text_map::lemma_sorted_exists(d);
    crate::text_map::lemma_ascending_differ(keys);
    keys.unique_seq_to_set();
    if d.contains(req_id) {
        assert(keys.to_set().contains(req_id));
        let k = choose|k: int| 0 <= k < keys.len() && keys[k] == req_id;
        assert(v.unanswered()[k] == v.negotiator.outgoing[req_id]);
    }
}

/// The user is told what was decided, and whether the peer could be told.
pub proof fn law_answer_is_reported(accepted: bool, target: Seq<char>, e: Seq<char>)
    ensures
        answer_words(true, target, None) == "accepted forward "@ + target,
        answer_words(false, target, None) == "denied forward "@ + target,
        answer_words(true, target, Some(e)) == "accepted locally, but failed to notify peer: "@ + e,
        answer_words(false, target, Some(e)) == "denied locally, but failed to notify peer: "@ + e,
{
}

/// An address that ends in a colon and a number has that number as its port, whatever comes
/// before it.
pub proof fn law_address_has_its_port(host: Seq<char>, port: i32)
    ensures
        addr_port(host + ":"@ + crate::number::decimal(port as int)) == Some(port),
{
    reveal_strlit(":");
    let d = crate::number::decimal(port as int);
    assert(":"@ =~= seq![':']);
    crate::number::lemma_decimal_chars(port as int);
    if d.contains(':') {
        let i = choose|i: int| 0 <= i < d.len() && d[i] == ':';
        assert(crate::number::is_digit(d[i]) || d[i] == '-');
    }
    text::law_pieces_make_up_the_text(host, ':', d);
    crate::number::law_decimal_round_trip(port);
}

/// What is told of an outcome: a forward is started only where the peer accepted and it could
/// be set up, and then it is the one that was proposed; one that stood under its target is
/// replaced, and nothing else.
pub proof fn law_outcome_is_told(
    s: SessionView,
    outcome: ForwardOutcomeView,
    now_ms: u128,
    r: AppliedOutcome,
)
    requires
        s.tells(outcome, now_ms, r),
    ensures
        !outcome.accepted ==> r.started is None && r.replaced is None,
        outcome.accepted && r.result is Ok ==> r.started is Some,
        r.result is Err ==> r.started is None,
        r.started matches Some(spec) ==> {
            &&& spec@.direction is Connect
            &&& spec@.target == outcome.outgoing.target
            &&& spec@.listen_port == outcome.outgoing.listen_port
            &&& spec@.proto.name() == outcome.outgoing.proto
        },
        r.replaced matches Some(removed) ==> {
            &&& s.controller.contains_key(outcome.outgoing.target)
            &&& removed.spec@ == s.controller[outcome.outgoing.target].spec
            &&& removed.unpublish <==> removed.spec@.direction is Serve
        },
        r.started is Some && s.controller.contains_key(outcome.outgoing.target) ==> r.replaced
            is Some,
        r.result matches Ok(words) ==> s.applied(outcome, now_ms).1 == Ok::<Seq<char>, ErrorView>(
            words@,
        ),
        r.result matches Err(e) ==> s.applied(outcome, now_ms).1 == Err::<Seq<char>, ErrorView>(
            e@,
        ),
{
}

/// Whatever stood under the target of an accepted forward gives way, also where the new one
/// cannot be set up; the forwards under other targets stay.
pub proof fn law_accepted_forward_takes_its_target(
    s: SessionView,
    outcome: ForwardOutcomeView,
    now_ms: u128,
    key: Seq<char>,
)
    ensures
        ({
            let next = s.applied(outcome, now_ms).0;
            let target = outcome.outgoing.target;
            &&& outcome.accepted && proto_named(outcome.outgoing.proto) is Some && target.len() > 0
                ==> (next.controller.contains_key(target)
                && next.controller[target].spec.direction is Connect
                && next.controller[target].spec.listen_port == outcome.outgoing.listen_port)
            &&& outcome.accepted && proto_named(outcome.outgoing.proto) is Some && target.len() == 0
                ==> !next.controller.contains_key(target) && next.store == s.store
            &&& !outcome.accepted || proto_named(outcome.outgoing.proto) is None ==> next.controller
                == s.controller && next.store == s.store
            &&& key != target ==> (next.controller.contains_key(key)
                <==> s.controller.contains_key(key))
            &&& key != target && s.controller.contains_key(key) ==> next.controller[key]
                == s.controller[key]
            &&& next.auth == s.auth && next.manager == s.manager && next.negotiator == s.negotiator
                && next.room == s.room
        }),
{
}

} // verus!
