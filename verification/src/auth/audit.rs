//! The log of connection decisions.
use vstd::prelude::*;

use crate::auth::{AuthDecision, AuthRequest, AuthRequestView};
use crate::model::{keep_last, last_items, lemma_views_push, views};
use crate::text;

verus! {

/// What made a decision.
#[derive(Debug, Clone, Copy, PartialEq, Eq, Structural)]
pub enum AuthEventSource {
    Policy,
    TrustStore,
    Pending,
}

/// A decision that was made.
#[derive(Debug, PartialEq, Eq)]
pub struct AuthEvent {
    pub sequence: u64,
    pub timestamp_ms: u128,
    pub peer_id: String,
    pub forward_key: String,
    pub target_addr: String,
    pub proto: String,
    pub decision: AuthDecision,
    pub source: AuthEventSource,
}

/// The model of `AuthEvent`.
pub struct AuthEventView {
    pub sequence: u64,
    pub timestamp_ms: u128,
    pub request: AuthRequestView,
    pub decision: AuthDecision,
    pub source: AuthEventSource,
}

impl View for AuthEvent {
    type V = AuthEventView;

    open spec fn view(&self) -> AuthEventView {
        AuthEventView {
            sequence: self.sequence,
            timestamp_ms: self.timestamp_ms,
            request: AuthRequestView {
                peer_id: self.peer_id@,
                forward_key: self.forward_key@,
                target_addr: self.target_addr@,
                proto: self.proto@,
            },
            decision: self.decision,
            source: self.source,
        }
    }
}

impl Clone for AuthEvent {
    fn clone(&self) -> (r: Self)
        ensures
            r@ == self@,
    {
        AuthEvent {
            sequence: self.sequence,
            timestamp_ms: self.timestamp_ms,
            peer_id: text::copy(self.peer_id.as_str()),
            forward_key: text::copy(self.forward_key.as_str()),
            target_addr: text::copy(self.target_addr.as_str()),
            proto: text::copy(self.proto.as_str()),
            decision: self.decision,
            source: self.source,
        }
    }
}

/// The latest decisions, numbered from one.
pub struct AuthAuditLog {
    next_sequence: u64,
    capacity: usize,
    events: Vec<AuthEvent>,
}

/// The model of `AuthAuditLog`.
#[verifier::ext_equal]
pub struct AuditView {
    pub next_sequence: u64,
    pub capacity: usize,
    pub events: Seq<AuthEventView>,
}

impl View for AuthAuditLog {
    type V = AuditView;

    closed spec fn view(&self) -> AuditView {
        AuditView {
            next_sequence: self.next_sequence,
            capacity: self.capacity,
            events: views(self.events@),
        }
    }
}

/// The number that follows another; the numbers wrap around.
pub open spec fn following(n: u64) -> u64 {
    if n == u64::MAX {
        0
    } else {
        (n + 1) as u64
    }
}

impl AuditView {
    /// The log after a decision was recorded. A log without room records
    /// nothing.
    pub open spec fn recorded(
        self,
        request: AuthRequestView,
        decision: AuthDecision,
        source: AuthEventSource,
        now_ms: u128,
    ) -> AuditView {
        if self.capacity == 0 {
            self
        } else {
            AuditView {
                next_sequence: following(self.next_sequence),
                capacity: self.capacity,
                events: last_items(
                    self.events.push(
                        AuthEventView {
                            sequence: self.next_sequence,
                            timestamp_ms: now_ms,
                            request,
                            decision,
                            source,
                        },
                    ),
                    self.capacity as int,
                ),
            }
        }
    }

    /// The log holds the latest events, numbered without gaps up to the next
    /// number, and no more than it has room for.
    pub open spec fn numbered(self) -> bool {
        &&& self.events.len() <= self.capacity
        &&& self.events.len() < self.next_sequence
        &&& forall|i: int|
            0 <= i < self.events.len() ==> (#[trigger] self.events[i]).sequence
                == self.next_sequence - self.events.len() + i
    }
}

/// An empty log with room for some events.
pub open spec fn fresh_log(capacity: usize) -> AuditView {
    AuditView { next_sequence: 1, capacity, events: Seq::empty() }
}

impl AuthAuditLog {
    #[verifier::type_invariant]
    spec fn within_capacity(&self) -> bool {
        self.events@.len() <= self.capacity
    }

    /// An empty log with room for some events.
    pub fn with_capacity(capacity: usize) -> (r: Self)
        ensures
            r@ == fresh_log(capacity),
    {
        let r = AuthAuditLog { next_sequence: 1, capacity, events: Vec::new() };
        assert(r@.events =~= Seq::empty());
        r
    }

    /// Records a decision and drops the oldest events beyond the capacity.
    pub fn record(
        &mut self,
        req: &AuthRequest,
        decision: AuthDecision,
        source: AuthEventSource,
        now_ms: u128,
    )
        ensures
            final(self)@ == old(self)@.recorded(req@, decision, source, now_ms),
            final(self)@.events.len() <= final(self)@.capacity,
    {
        proof {
            use_type_invariant(&*self);
        }
        if self.capacity == 0 {
            return;
        }
        let event = AuthEvent {
            sequence: self.next_sequence,
            timestamp_ms: now_ms,
            peer_id: text::copy(req.peer_id.as_str()),
            forward_key: text::copy(req.forward_key.as_str()),
            target_addr: text::copy(req.target_addr.as_str()),
            proto: text::copy(req.proto.as_str()),
            decision,
            source,
        };
        proof {
            lemma_views_push(self.events@, event);
        }
        self.next_sequence = self.next_sequence.wrapping_add(1);
        let mut events: Vec<AuthEvent> = Vec::new();
        std::mem::swap(&mut events, &mut self.events);
        events.push(event);
        keep_last(&mut events, self.capacity);
        self.events = events;
    }

    /// The events, oldest first.
    pub fn list(&self) -> (r: Vec<AuthEvent>)
        ensures
            views(r@) == self@.events,
            self@.events.len() <= self@.capacity,
    {
        proof {
            use_type_invariant(self);
        }
        let mut out: Vec<AuthEvent> = Vec::new();
        let mut i: usize = 0;
        while i < self.events.len()
            invariant
                i <= self.events@.len(),
                views(out@) == views(self.events@).take(i as int),
            decreases self.events@.len() - i,
        {
            let event = self.events[i].clone();
            proof {
                lemma_views_push(out@, event);
            }
            out.push(event);
            i = i + 1;
            assert(views(out@) =~= views(self.events@).take(i as int));
        }
        assert(views(out@) =~= views(self.events@));
        out
    }
}

impl Default for AuthAuditLog {
    fn default() -> (r: Self)
        ensures
            r@ == fresh_log(256),
    {
        Self::with_capacity(256)
    }
}

/// Recording keeps the log within its capacity and its events numbered without
/// gaps, until the numbers wrap around.
pub proof fn law_recording_keeps_numbering(
    log: AuditView,
    request: AuthRequestView,
    decision: AuthDecision,
    source: AuthEventSource,
    now_ms: u128,
)
    requires
        log.numbered(),
        log.next_sequence < u64::MAX,
    ensures
        log.recorded(request, decision, source, now_ms).numbered(),
{
    let next = log.recorded(request, decision, source, now_ms);
    if log.capacity > 0 {
        let event = AuthEventView {
            sequence: log.next_sequence,
            timestamp_ms: now_ms,
            request,
            decision,
            source,
        };
        let all = log.events.push(event);
        assert forall|i: int| 0 <= i < next.events.len() implies (#[trigger] next.events[i]).sequence
            == next.next_sequence - next.events.len() + i by {
            let k = i + all.len() - next.events.len();
            assert(next.events[i] == all[k]);
            if k < log.events.len() {
                assert(log.events[k].sequence == log.next_sequence - log.events.len() + k);
            }
        }
    }
}

/// The event that was recorded last is listed last.
pub proof fn law_latest_event_is_kept(
    log: AuditView,
    request: AuthRequestView,
    decision: AuthDecision,
    source: AuthEventSource,
    now_ms: u128,
)
    requires
        log.capacity > 0,
    ensures
        log.recorded(request, decision, source, now_ms).events.last() == (AuthEventView {
            sequence: log.next_sequence,
            timestamp_ms: now_ms,
            request,
            decision,
            source,
        }),
{
}

/// A log keeps the latest events unchanged and in their order: the one recorded last, and
/// before it those that were there, as many as there is room for. A log without room
/// records nothing. The first event has the number one.
pub proof fn law_recording_keeps_the_latest(
    log: AuditView,
    request: AuthRequestView,
    decision: AuthDecision,
    source: AuthEventSource,
    now_ms: u128,
    k: int,
)
    ensures
        ({
            let next = log.recorded(request, decision, source, now_ms);
            let all = next.events;
            &&& next.capacity == log.capacity
            &&& log.capacity == 0 ==> next == log
            &&& log.capacity > 0 && log.next_sequence < u64::MAX ==> next.next_sequence
                == log.next_sequence + 1
            &&& log.capacity > 0 ==> {
                &&& all.len() == if log.events.len() + 1 <= log.capacity {
                    (log.events.len() + 1) as int
                } else {
                    log.capacity as int
                }
                &&& all.last().sequence == log.next_sequence && all.last().timestamp_ms == now_ms
                    && all.last().request == request && all.last().decision == decision
                    && all.last().source == source
                &&& 1 <= k < all.len() ==> all[all.len() - 1 - k] == log.events[log.events.len()
                    - k]
            }
        }),
        fresh_log(log.capacity).capacity == log.capacity,
        fresh_log(log.capacity).events.len() == 0,
        fresh_log(log.capacity).next_sequence == 1,
{
}

} // verus!
