//! The state of a session as the web front end receives it.
use vstd::prelude::*;

use crate::auth::audit::{AuthEvent, AuthEventSource, AuthEventView};
use crate::auth::pending::{PendingAuthorization, PendingView};
use crate::auth::trust::{TrustDecision, TrustEntry, TrustEntryView};
use crate::auth::AuthDecision;
use crate::calendar::{format_timestamp_ms, low_bits, Moment};
use crate::controller::{
    statuses, Direction, ForwardSpec, ForwardSpecView, ForwardState, ForwardStateView,
    ForwardStatus, ForwardStatusView,
};
use crate::forward_store::direction_name;
use crate::model::{last_items, views};
use crate::negotiation::{
    IncomingForward, IncomingForwardView, OutgoingForward, OutgoingForwardView,
};
use crate::number::{decimal, decimal_i64};
use crate::session::{
    NoticeKind, NoticeView, SessionContext, SessionNotice, SessionView, SHOWN_EVENTS,
};
use crate::text;
use crate::text::texts;
use crate::text_map::sorted;

verus! {

/// A peer.
#[derive(Debug, Clone, PartialEq, Eq)]
pub struct PeerDto {
    pub id: String,
}

/// A forward.
#[derive(Debug, Clone, PartialEq, Eq)]
pub struct ForwardDto {
    pub id: String,
    pub proto: String,
    pub direction: String,
    pub local: String,
    pub target: String,
    pub status: String,
}

/// A connection that waits for a decision.
#[derive(Debug, Clone, PartialEq, Eq)]
pub struct PendingAuthDto {
    pub id: u64,
    pub peer_id: String,
    pub forward_key: String,
    pub target_addr: String,
    pub proto: String,
}

/// A proposal of a peer.
#[derive(Debug, Clone, PartialEq, Eq)]
pub struct PendingForwardDto {
    pub id: u64,
    pub peer_id: String,
    pub proto: String,
    pub remote_addr: String,
    pub target: String,
}

/// A proposal to a peer.
#[derive(Debug, Clone, PartialEq, Eq)]
pub struct PendingOutgoingDto {
    pub peer_id: String,
    pub proto: String,
    pub local: String,
    pub remote: String,
    pub target: String,
}

/// A remembered decision.
#[derive(Debug, Clone, PartialEq, Eq)]
pub struct TrustDto {
    pub peer_id: String,
    pub forward_key: String,
    pub decision: String,
}

/// A decision of the log.
#[derive(Debug, Clone, PartialEq, Eq)]
pub struct EventDto {
    pub time: String,
    pub peer_id: String,
    pub forward_key: String,
    pub decision: String,
    pub source: String,
}

/// A notice; its kind is `info` or `error`.
#[derive(Debug, Clone, PartialEq, Eq)]
pub struct NoticeDto {
    pub time: String,
    pub kind: String,
    pub text: String,
}

/// The whole state.
#[derive(Debug, Clone, PartialEq, Eq)]
pub struct StateDto {
    pub node_id: String,
    pub room_id: String,
    pub peers: Vec<PeerDto>,
    pub forwards: Vec<ForwardDto>,
    pub pending_auth: Vec<PendingAuthDto>,
    pub pending_forwards: Vec<PendingForwardDto>,
    pub pending_outgoing: Vec<PendingOutgoingDto>,
    pub trust: Vec<TrustDto>,
    pub events: Vec<EventDto>,
    pub notices: Vec<NoticeDto>,
}

/// The decision that a word of a request stands for.
pub open spec fn decision_named(s: Seq<char>) -> Option<AuthDecision> {
    if s == "allow"@ {
        Some(AuthDecision::Allow)
    } else if s == "allow_always"@ {
        Some(AuthDecision::AllowAlways)
    } else if s == "deny"@ {
        Some(AuthDecision::Deny)
    } else if s == "deny_always"@ {
        Some(AuthDecision::DenyAlways)
    } else {
        None
    }
}

/// Finds the decision that a word of a request stands for.
pub fn parse_auth_decision(s: &str) -> (r: Option<AuthDecision>)
    ensures
        r == decision_named(s@),
{
    if text::same(s, "allow") {
        Some(AuthDecision::Allow)
    } else if text::same(s, "allow_always") {
        Some(AuthDecision::AllowAlways)
    } else if text::same(s, "deny") {
        Some(AuthDecision::Deny)
    } else if text::same(s, "deny_always") {
        Some(AuthDecision::DenyAlways)
    } else {
        None
    }
}

/// The word for a decision.
pub open spec fn decision_word(decision: AuthDecision) -> Seq<char> {
    match decision {
        AuthDecision::Allow => "allow"@,
        AuthDecision::Deny => "deny"@,
        AuthDecision::AllowAlways => "allow_always"@,
        AuthDecision::DenyAlways => "deny_always"@,
    }
}

/// The word that a decision is shown by is the one that a request gives it by.
pub proof fn law_decision_words_round_trip(decision: AuthDecision)
    ensures
        decision_named(decision_word(decision)) == Some(decision),
{
    reveal_strlit("allow");
    reveal_strlit("allow_always");
    reveal_strlit("deny");
    reveal_strlit("deny_always");
    assert("allow"@.len() == 5 && "allow_always"@.len() == 12 && "deny"@.len() == 4
        && "deny_always"@.len() == 11);
}

/// The word for what made a decision.
pub open spec fn source_word(source: AuthEventSource) -> Seq<char> {
    match source {
        AuthEventSource::Policy => "policy"@,
        AuthEventSource::TrustStore => "trust_store"@,
        AuthEventSource::Pending => "pending"@,
    }
}

/// The word for a remembered decision.
pub open spec fn trust_word(decision: TrustDecision) -> Seq<char> {
    match decision {
        TrustDecision::Allow => "allow"@,
        TrustDecision::Deny => "deny"@,
    }
}

/// The local end of a forward: its address, or else its port alone.
pub open spec fn local_end(spec: ForwardSpecView) -> Seq<char> {
    if spec.addr.len() > 0 {
        spec.addr
    } else {
        ":"@ + decimal(spec.listen_port as int)
    }
}

/// How a forward fares, in words.
pub open spec fn state_words(state: ForwardStateView) -> Seq<char> {
    match state {
        ForwardStateView::Listening => "listening"@,
        ForwardStateView::Error(msg) => "error: "@ + msg,
        ForwardStateView::Stopped => "stopped"@,
    }
}

/// A moment in the words of the front end.
pub open spec fn is_time_of(time: Seq<char>, ms: u128) -> bool {
    exists|m: Moment| #[trigger] m.is_valid() && m.since_epoch() == low_bits(ms as int) && time
        == m.text()
}

impl ForwardDto {
    /// The form that a forward takes.
    pub open spec fn shows(self, status: ForwardStatusView) -> bool {
        &&& self.id@ == status.key
        &&& self.proto@ == status.spec.proto.name()
        &&& self.direction@ == direction_name(status.spec.direction)
        &&& self.local@ == local_end(status.spec)
        &&& self.target@ == status.spec.target
        &&& self.status@ == state_words(status.state)
    }
}

impl PendingAuthDto {
    /// The form that a waiting connection takes.
    pub open spec fn shows(self, item: PendingView) -> bool {
        &&& self.id == item.id
        &&& self.peer_id@ == item.request.peer_id
        &&& self.forward_key@ == item.request.forward_key
        &&& self.target_addr@ == item.request.target_addr
        &&& self.proto@ == item.request.proto
    }
}

impl PendingForwardDto {
    /// The form that a proposal of a peer takes.
    pub open spec fn shows(self, item: IncomingForwardView) -> bool {
        &&& self.id == item.id
        &&& self.peer_id@ == item.peer_id
        &&& self.proto@ == item.proto
        &&& self.remote_addr@ == item.remote_addr
        &&& self.target@ == item.target
    }
}

impl PendingOutgoingDto {
    /// The form that a proposal to a peer takes.
    pub open spec fn shows(self, item: OutgoingForwardView) -> bool {
        &&& self.peer_id@ == item.peer_id
        &&& self.proto@ == item.proto
        &&& self.local@ == item.local_addr
        &&& self.remote@ == item.remote_addr
        &&& self.target@ == item.target
    }
}

impl TrustDto {
    /// The form that a remembered decision takes.
    pub open spec fn shows(self, entry: TrustEntryView) -> bool {
        &&& self.peer_id@ == entry.key.peer_id
        &&& self.forward_key@ == entry.key.forward_key
        &&& self.decision@ == trust_word(entry.decision)
    }
}

impl EventDto {
    /// The form that a decision of the log takes.
    pub open spec fn shows(self, event: AuthEventView) -> bool {
        &&& is_time_of(self.time@, event.timestamp_ms)
        &&& self.peer_id@ == event.request.peer_id
        &&& self.forward_key@ == event.request.forward_key
        &&& self.decision@ == decision_word(event.decision)
        &&& self.source@ == source_word(event.source)
    }
}

impl NoticeDto {
    /// The form that a notice takes.
    pub open spec fn shows(self, notice: NoticeView) -> bool {
        &&& is_time_of(self.time@, notice.timestamp_ms)
        &&& self.kind@ == (match notice.kind {
            NoticeKind::Info => "info"@,
            NoticeKind::Error => "error"@,
        })
        &&& self.text@ == notice.text
    }
}

/// Gives a forward the form that the front end receives.
pub fn forward_dto(status: &ForwardStatus) -> (r: ForwardDto)
    ensures
        r.shows(status@),
{
    let spec = &status.spec;
    let direction = match spec.direction {
        Direction::Serve => "serve",
        Direction::Connect => "connect",
    };
    ForwardDto {
        id: text::copy(status.key.as_str()),
        proto: text::copy(spec.proto.as_str()),
        direction: text::copy(direction),
        local: local_endpoint(spec),
        target: text::copy(spec.target.as_str()),
        status: forward_state_str(&status.state),
    }
}

/// The local end of a forward.
pub fn local_endpoint(spec: &ForwardSpec) -> (r: String)
    ensures
        r@ == local_end(spec@),
{
    if spec.addr.as_str().unicode_len() > 0 {
        text::copy(spec.addr.as_str())
    } else {
        let port = decimal_i64(spec.listen_port as i64);
        text::cat2(":", port.as_str())
    }
}

/// How a forward fares, in words.
pub fn forward_state_str(state: &ForwardState) -> (r: String)
    ensures
        r@ == state_words(state@),
{
    match state {
        ForwardState::Listening => text::copy("listening"),
        ForwardState::Error(msg) => text::cat2("error: ", msg.as_str()),
        ForwardState::Stopped => text::copy("stopped"),
    }
}

/// Gives a waiting connection the form that the front end receives.
pub fn pending_auth_dto(item: &PendingAuthorization) -> (r: PendingAuthDto)
    ensures
        r.shows(item@),
{
    PendingAuthDto {
        id: item.id,
        peer_id: text::copy(item.request.peer_id.as_str()),
        forward_key: text::copy(item.request.forward_key.as_str()),
        target_addr: text::copy(item.request.target_addr.as_str()),
        proto: text::copy(item.request.proto.as_str()),
    }
}

/// Gives a proposal of a peer the form that the front end receives.
pub fn pending_forward_dto(item: &IncomingForward) -> (r: PendingForwardDto)
    ensures
        r.shows(item@),
{
    PendingForwardDto {
        id: item.id,
        peer_id: text::copy(item.peer_id.as_str()),
        proto: text::copy(item.proto.as_str()),
        remote_addr: text::copy(item.remote_addr.as_str()),
        target: text::copy(item.target.as_str()),
    }
}

/// Gives a proposal to a peer the form that the front end receives.
pub fn pending_outgoing_dto(item: &OutgoingForward) -> (r: PendingOutgoingDto)
    ensures
        r.shows(item@),
{
    PendingOutgoingDto {
        peer_id: text::copy(item.peer_id.as_str()),
        proto: text::copy(item.proto.as_str()),
        local: text::copy(item.local_addr.as_str()),
        remote: text::copy(item.remote_addr.as_str()),
        target: text::copy(item.target.as_str()),
    }
}

/// Gives a remembered decision the form that the front end receives.
pub fn trust_dto(entry: &TrustEntry) -> (r: TrustDto)
    ensures
        r.shows(entry@),
{
    let decision = match entry.decision {
        TrustDecision::Allow => "allow",
        TrustDecision::Deny => "deny",
    };
    TrustDto {
        peer_id: text::copy(entry.key.peer_id.as_str()),
        forward_key: text::copy(entry.key.forward_key.as_str()),
        decision: text::copy(decision),
    }
}

/// Gives a decision of the log the form that the front end receives.
pub fn event_dto(ev: &AuthEvent) -> (r: EventDto)
    ensures
        r.shows(ev@),
{
    let decision = match ev.decision {
        AuthDecision::Allow => "allow",
        AuthDecision::Deny => "deny",
        AuthDecision::AllowAlways => "allow_always",
        AuthDecision::DenyAlways => "deny_always",
    };
    let source = match ev.source {
        AuthEventSource::Policy => "policy",
        AuthEventSource::TrustStore => "trust_store",
        AuthEventSource::Pending => "pending",
    };
    EventDto {
        time: format_timestamp_ms(ev.timestamp_ms),
        peer_id: text::copy(ev.peer_id.as_str()),
        forward_key: text::copy(ev.forward_key.as_str()),
        decision: text::copy(decision),
        source: text::copy(source),
    }
}

/// Gives a notice the form that the front end receives.
pub fn notice_dto(notice: &SessionNotice) -> (r: NoticeDto)
    ensures
        r.shows(notice@),
{
    let kind = match notice.kind {
        NoticeKind::Info => "info",
        NoticeKind::Error => "error",
    };
    NoticeDto {
        time: format_timestamp_ms(notice.timestamp_ms),
        kind: text::copy(kind),
        text: text::copy(notice.text.as_str()),
    }
}

fn peer_dtos(peers: &Vec<String>) -> (r: Vec<PeerDto>)
    ensures
        r@.len() == peers@.len(),
        forall|i: int| 0 <= i < r@.len() ==> (#[trigger] r@[i]).id@ == texts(peers@)[i],
{
    let mut out: Vec<PeerDto> = Vec::new();
    let mut i: usize = 0;
    while i < peers.len()
        invariant
            i <= peers@.len(),
            out@.len() == i,
            forall|k: int| 0 <= k < i ==> (#[trigger] out@[k]).id@ == texts(peers@)[k],
        decreases peers@.len() - i,
    {
        out.push(PeerDto { id: text::copy(peers[i].as_str()) });
        i = i + 1;
    }
    out
}

fn forward_dtos(list: &Vec<ForwardStatus>) -> (r: Vec<ForwardDto>)
    ensures
        r@.len() == list@.len(),
        forall|i: int| 0 <= i < r@.len() ==> (#[trigger] r@[i]).shows(views(list@)[i]),
{
    let mut out: Vec<ForwardDto> = Vec::new();
    let mut i: usize = 0;
    while i < list.len()
        invariant
            i <= list@.len(),
            out@.len() == i,
            forall|k: int| 0 <= k < i ==> (#[trigger] out@[k]).shows(views(list@)[k]),
        decreases list@.len() - i,
    {
        out.push(forward_dto(&list[i]));
        i = i + 1;
    }
    out
}

fn pending_auth_dtos(list: &Vec<PendingAuthorization>) -> (r: Vec<PendingAuthDto>)
    ensures
        r@.len() == list@.len(),
        forall|i: int| 0 <= i < r@.len() ==> (#[trigger] r@[i]).shows(views(list@)[i]),
{
    let mut out: Vec<PendingAuthDto> = Vec::new();
    let mut i: usize = 0;
    while i < list.len()
        invariant
            i <= list@.len(),
            out@.len() == i,
            forall|k: int| 0 <= k < i ==> (#[trigger] out@[k]).shows(views(list@)[k]),
        decreases list@.len() - i,
    {
        out.push(pending_auth_dto(&list[i]));
        i = i + 1;
    }
    out
}

fn pending_forward_dtos(list: &Vec<IncomingForward>) -> (r: Vec<PendingForwardDto>)
    ensures
        r@.len() == list@.len(),
        forall|i: int| 0 <= i < r@.len() ==> (#[trigger] r@[i]).shows(views(list@)[i]),
{
    let mut out: Vec<PendingForwardDto> = Vec::new();
    let mut i: usize = 0;
    while i < list.len()
        invariant
            i <= list@.len(),
            out@.len() == i,
            forall|k: int| 0 <= k < i ==> (#[trigger] out@[k]).shows(views(list@)[k]),
        decreases list@.len() - i,
    {
        out.push(pending_forward_dto(&list[i]));
        i = i + 1;
    }
    out
}

fn pending_outgoing_dtos(list: &Vec<OutgoingForward>) -> (r: Vec<PendingOutgoingDto>)
    ensures
        r@.len() == list@.len(),
        forall|i: int| 0 <= i < r@.len() ==> (#[trigger] r@[i]).shows(views(list@)[i]),
{
    let mut out: Vec<PendingOutgoingDto> = Vec::new();
    let mut i: usize = 0;
    while i < list.len()
        invariant
            i <= list@.len(),
            out@.len() == i,
            forall|k: int| 0 <= k < i ==> (#[trigger] out@[k]).shows(views(list@)[k]),
        decreases list@.len() - i,
    {
        out.push(pending_outgoing_dto(&list[i]));
        i = i + 1;
    }
    out
}

fn trust_dtos(list: &Vec<TrustEntry>) -> (r: Vec<TrustDto>)
    ensures
        r@.len() == list@.len(),
        forall|i: int| 0 <= i < r@.len() ==> (#[trigger] r@[i]).shows(views(list@)[i]),
{
    let mut out: Vec<TrustDto> = Vec::new();
    let mut i: usize = 0;
    while i < list.len()
        invariant
            i <= list@.len(),
            out@.len() == i,
            forall|k: int| 0 <= k < i ==> (#[trigger] out@[k]).shows(views(list@)[k]),
        decreases list@.len() - i,
    {
        out.push(trust_dto(&list[i]));
        i = i + 1;
    }
    out
}

fn event_dtos(list: &Vec<AuthEvent>) -> (r: Vec<EventDto>)
    ensures
        r@.len() == list@.len(),
        forall|i: int| 0 <= i < r@.len() ==> (#[trigger] r@[i]).shows(views(list@)[i]),
{
    let mut out: Vec<EventDto> = Vec::new();
    let mut i: usize = 0;
    while i < list.len()
        invariant
            i <= list@.len(),
            out@.len() == i,
            forall|k: int| 0 <= k < i ==> (#[trigger] out@[k]).shows(views(list@)[k]),
        decreases list@.len() - i,
    {
        out.push(event_dto(&list[i]));
        i = i + 1;
    }
    out
}

fn notice_dtos(list: &Vec<SessionNotice>) -> (r: Vec<NoticeDto>)
    ensures
        r@.len() == list@.len(),
        forall|i: int| 0 <= i < r@.len() ==> (#[trigger] r@[i]).shows(views(list@)[i]),
{
    let mut out: Vec<NoticeDto> = Vec::new();
    let mut i: usize = 0;
    while i < list.len()
        invariant
            i <= list@.len(),
            out@.len() == i,
            forall|k: int| 0 <= k < i ==> (#[trigger] out@[k]).shows(views(list@)[k]),
        decreases list@.len() - i,
    {
        out.push(notice_dto(&list[i]));
        i = i + 1;
    }
    out
}

impl StateDto {
    /// The form that the state of a session takes.
    pub open spec fn shows(self, session: SessionView) -> bool {
        let shown = last_items(session.auth.audit_log.events, SHOWN_EVENTS as int);
        &&& self.node_id@ == session.manager.self_id
        &&& self.room_id@ == session.room
        &&& self.peers@.len() == sorted(session.manager.peers).len()
        &&& forall|i: int|
            0 <= i < self.peers@.len() ==> (#[trigger] self.peers@[i]).id@ == sorted(
                session.manager.peers,
            )[i]
        &&& self.forwards@.len() == statuses(session.controller).len()
        &&& forall|i: int|
            0 <= i < self.forwards@.len() ==> (#[trigger] self.forwards@[i]).shows(
                statuses(session.controller)[i],
            )
        &&& self.pending_auth@.len() == session.auth.pending.waiting.len()
        &&& forall|i: int|
            0 <= i < self.pending_auth@.len() ==> (#[trigger] self.pending_auth@[i]).shows(
                session.auth.pending.waiting[i],
            )
        &&& self.pending_forwards@.len() == session.negotiator.incoming.len()
        &&& forall|i: int|
            0 <= i < self.pending_forwards@.len() ==> (#[trigger] self.pending_forwards@[i]).shows(
                session.negotiator.incoming[i],
            )
        &&& self.pending_outgoing@.len() == session.unanswered().len()
        &&& forall|i: int|
            0 <= i < self.pending_outgoing@.len() ==> (#[trigger] self.pending_outgoing@[i]).shows(
                session.unanswered()[i],
            )
        &&& exists|list: Seq<TrustEntryView>| #[trigger]
            crate::auth::trust::is_listing(list, session.auth.store) && shows_trust(
                self.trust@,
                list,
            )
        &&& self.events@.len() == shown.len()
        &&& forall|i: int|
            0 <= i < self.events@.len() ==> (#[trigger] self.events@[i]).shows(shown[i])
        &&& self.notices@.len() == session.notices.len()
        &&& forall|i: int|
            0 <= i < self.notices@.len() ==> (#[trigger] self.notices@[i]).shows(
                session.notices[i],
            )
    }
}

/// Gathers the state of a session in the form that the front end receives.
pub fn build_state_dto(ctx: &SessionContext) -> (r: StateDto)
    ensures
        ctx@.listable(),
        ctx@.in_order(),
        r.shows(ctx@),
{
    let snap = ctx.snapshot();
    let trust = trust_dtos(&snap.trust);
    proof {
        assert(texts(snap.peers@).len() == snap.peers@.len());
        assert(views(snap.forwards@).len() == snap.forwards@.len());
        assert(views(snap.pending_auth@).len() == snap.pending_auth@.len());
        assert(views(snap.pending_forwards@).len() == snap.pending_forwards@.len());
        assert(views(snap.pending_outgoing@).len() == snap.pending_outgoing@.len());
        assert(views(snap.events@).len() == snap.events@.len());
        assert(views(snap.notices@).len() == snap.notices@.len());
        assert(crate::auth::trust::is_listing(views(snap.trust@), ctx@.auth.store) && shows_trust(
            trust@,
            views(snap.trust@),
        ));
    }
    StateDto {
        peers: peer_dtos(&snap.peers),
        forwards: forward_dtos(&snap.forwards),
        pending_auth: pending_auth_dtos(&snap.pending_auth),
        pending_forwards: pending_forward_dtos(&snap.pending_forwards),
        pending_outgoing: pending_outgoing_dtos(&snap.pending_outgoing),
        trust,
        events: event_dtos(&snap.events),
        notices: notice_dtos(&snap.notices),
        node_id: snap.self_id,
        room_id: snap.room,
    }
}

/// A list of remembered decisions in the form that the front end receives.
pub open spec fn shows_trust(dtos: Seq<TrustDto>, list: Seq<TrustEntryView>) -> bool {
    &&& dtos.len() == list.len()
    &&& forall|i: int| 0 <= i < dtos.len() ==> (#[trigger] dtos[i]).shows(list[i])
}

/// The id of a forward in the front end is the key by which it is removed: the
/// whole of its target, also where that names a node.
pub proof fn law_forward_id_is_its_key(
    dto: ForwardDto,
    m: Map<Seq<char>, crate::controller::HandleView>,
    i: int,
)
    requires
        m.dom().finite(),
        0 <= i < statuses(m).len(),
        dto.shows(statuses(m)[i]),
    ensures
        m.contains_key(dto.id@),
        dto.target@ == m[dto.id@].spec.target,
{
    crate::text_map::lemma_sorted_exists(m.dom());
    let keys = sorted(m.dom());
    assert(keys.to_set().contains(keys[i]));
}

/// The words of the front end for what made a decision, for what is remembered and for how a
/// forward fares, and the local end of a forward: its address, or else a colon and its port.
/// Only the four words for decisions are understood.
pub proof fn law_words_of_the_front_end(spec: ForwardSpecView, msg: Seq<char>, s: Seq<char>)
    ensures
        decision_named(s) is Some ==> s == "allow"@ || s == "allow_always"@ || s == "deny"@ || s
            == "deny_always"@,
        decision_named("allow"@) == Some(AuthDecision::Allow),
        decision_named("allow_always"@) == Some(AuthDecision::AllowAlways),
        decision_named("deny"@) == Some(AuthDecision::Deny),
        decision_named("deny_always"@) == Some(AuthDecision::DenyAlways),
        decision_word(AuthDecision::Allow) == "allow"@,
        decision_word(AuthDecision::Deny) == "deny"@,
        source_word(AuthEventSource::Policy) == "policy"@,
        source_word(AuthEventSource::TrustStore) == "trust_store"@,
        source_word(AuthEventSource::Pending) == "pending"@,
        trust_word(TrustDecision::Allow) == "allow"@,
        trust_word(TrustDecision::Deny) == "deny"@,
        state_words(ForwardStateView::Listening) == "listening"@,
        state_words(ForwardStateView::Stopped) == "stopped"@,
        state_words(ForwardStateView::Error(msg)) == "error: "@ + msg,
        spec.addr.len() > 0 ==> local_end(spec) == spec.addr,
        spec.addr.len() == 0 ==> local_end(spec) == ":"@ + decimal(spec.listen_port as int),
{
    law_decision_words_round_trip(AuthDecision::Allow);
    law_decision_words_round_trip(AuthDecision::AllowAlways);
    law_decision_words_round_trip(AuthDecision::Deny);
    law_decision_words_round_trip(AuthDecision::DenyAlways);
}

/// What the front end receives is complete: exactly the connected peers, the forwards and the
/// remembered decisions are in it, each thing that waits under its number, the last hundred
/// events and all notices.
pub proof fn law_front_end_receives_all(
    dto: StateDto,
    session: SessionView,
    peer: Seq<char>,
    target: Seq<char>,
    key: crate::auth::trust::TrustKeyView,
)
    requires
        dto.shows(session),
        session.listable(),
    ensures
        dto.node_id@ == session.manager.self_id && dto.room_id@ == session.room,
        session.manager.peers.contains(peer) <==> exists|i: int|
            0 <= i < dto.peers@.len() && #[trigger] dto.peers@[i].id@ == peer,
        session.controller.contains_key(target) <==> exists|i: int|
            0 <= i < dto.forwards@.len() && #[trigger] dto.forwards@[i].id@ == target,
        session.auth.store.contains_key(key) <==> exists|i: int|
            0 <= i < dto.trust@.len() && (#[trigger] dto.trust@[i]).peer_id@ == key.peer_id
                && dto.trust@[i].forward_key@ == key.forward_key,
        dto.pending_auth@.len() == session.auth.pending.waiting.len(),
        dto.pending_forwards@.len() == session.negotiator.incoming.len(),
        dto.notices@.len() == session.notices.len(),
        dto.events@.len() == if session.auth.audit_log.events.len() > 100 {
            100
        } else {
            session.auth.audit_log.events.len()
        },
        dto.events@.len() > 0 ==> dto.events@.last().peer_id@
            == session.auth.audit_log.events.last().request.peer_id,
{
    crate::text_map::lemma_sorted_exists(session.manager.peers);
    crate::text_map::lemma_sorted_exists(session.controller.dom());
    let peers = sorted(session.manager.peers);
    let keys = sorted(session.controller.dom());
    let list = choose|list: Seq<TrustEntryView>| #[trigger]
        crate::auth::trust::is_listing(list, session.auth.store) && shows_trust(dto.trust@, list);
    if session.manager.peers.contains(peer) {
        assert(peers.to_set().contains(peer));
        let i = choose|i: int| 0 <= i < peers.len() && peers[i] == peer;
        assert(dto.peers@[i].id@ == peer);
    }
    if exists|i: int| 0 <= i < dto.peers@.len() && #[trigger] dto.peers@[i].id@ == peer {
        let i = choose|i: int| 0 <= i < dto.peers@.len() && #[trigger] dto.peers@[i].id@ == peer;
        assert(peers.to_set().contains(peers[i]));
    }
    if session.controller.contains_key(target) {
        assert(keys.to_set().contains(target));
        let i = choose|i: int| 0 <= i < keys.len() && keys[i] == target;
        assert(dto.forwards@[i].shows(statuses(session.controller)[i]));
        assert(dto.forwards@[i].id@ == target);
    }
    if exists|i: int| 0 <= i < dto.forwards@.len() && #[trigger] dto.forwards@[i].id@ == target {
        let i = choose|i: int|
            0 <= i < dto.forwards@.len() && #[trigger] dto.forwards@[i].id@ == target;
        assert(dto.forwards@[i].shows(statuses(session.controller)[i]));
        assert(keys.to_set().contains(keys[i]));
    }
    if session.auth.store.contains_key(key) {
        let i = choose|i: int| 0 <= i < list.len() && #[trigger] list[i].key == key;
        assert(dto.trust@[i].shows(list[i]));
    }
    if exists|i: int|
        0 <= i < dto.trust@.len() && (#[trigger] dto.trust@[i]).peer_id@ == key.peer_id
            && dto.trust@[i].forward_key@ == key.forward_key {
        let i = choose|i: int|
            0 <= i < dto.trust@.len() && (#[trigger] dto.trust@[i]).peer_id@ == key.peer_id
                && dto.trust@[i].forward_key@ == key.forward_key;
        assert(dto.trust@[i].shows(list[i]));
        assert(list[i].key == key);
    }
    if dto.events@.len() > 0 {
        let n = dto.events@.len() - 1;
        assert(dto.events@[n].shows(
            last_items(session.auth.audit_log.events, SHOWN_EVENTS as int)[n],
        ));
    }
}

/// Each forward is shown with its own protocol, direction, ends and state, and each thing that
/// waits with the number by which it is decided.
pub proof fn law_front_end_shows_what_is(
    forward: ForwardDto,
    status: ForwardStatusView,
    auth: PendingAuthDto,
    waiting: PendingView,
    incoming: PendingForwardDto,
    proposal: IncomingForwardView,
    outgoing: PendingOutgoingDto,
    request: OutgoingForwardView,
)
    requires
        forward.shows(status),
        auth.shows(waiting),
        incoming.shows(proposal),
        outgoing.shows(request),
    ensures
        forward.id@ == status.key && forward.target@ == status.spec.target,
        forward.proto@ == status.spec.proto.name(),
        status.spec.direction is Serve ==> forward.direction@ == "serve"@,
        status.spec.direction is Connect ==> forward.direction@ == "connect"@,
        forward.local@ == local_end(status.spec) && forward.status@ == state_words(status.state),
        auth.id == waiting.id && auth.peer_id@ == waiting.request.peer_id && auth.proto@
            == waiting.request.proto,
        auth.forward_key@ == waiting.request.forward_key && auth.target_addr@
            == waiting.request.target_addr,
        incoming.id == proposal.id && incoming.peer_id@ == proposal.peer_id && incoming.proto@
            == proposal.proto,
        incoming.remote_addr@ == proposal.remote_addr && incoming.target@ == proposal.target,
        outgoing.peer_id@ == request.peer_id && outgoing.proto@ == request.proto,
        outgoing.local@ == request.local_addr && outgoing.remote@ == request.remote_addr
            && outgoing.target@ == request.target,
{
}

/// A remembered decision, an event and a notice are shown as what they are.
pub proof fn law_front_end_shows_decisions(
    trust: TrustDto,
    entry: TrustEntryView,
    dto: EventDto,
    event: AuthEventView,
    shown: NoticeDto,
    notice: NoticeView,
)
    requires
        trust.shows(entry),
        dto.shows(event),
        shown.shows(notice),
    ensures
        trust.peer_id@ == entry.key.peer_id && trust.forward_key@ == entry.key.forward_key,
        entry.decision is Allow ==> trust.decision@ == "allow"@,
        entry.decision is Deny ==> trust.decision@ == "deny"@,
        dto.peer_id@ == event.request.peer_id && dto.forward_key@ == event.request.forward_key,
        decision_named(dto.decision@) == Some(event.decision),
        dto.source@ == source_word(event.source),
        is_time_of(dto.time@, event.timestamp_ms),
        notice.kind is Info ==> shown.kind@ == "info"@,
        notice.kind is Error ==> shown.kind@ == "error"@,
        shown.text@ == notice.text && is_time_of(shown.time@, notice.timestamp_ms),
{
    law_decision_words_round_trip(event.decision);
}

} // verus!
