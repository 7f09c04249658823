//! Connection requests that wait for a decision of the user.
use vstd::prelude::*;

use crate::auth::audit::{fresh_log, AuditView, AuthAuditLog, AuthEventSource};
use crate::auth::trust::{found, TrustDecision, TrustKey, TrustKeyView, TrustStore};
use crate::auth::{
    answer_remembered, remembered_answer, AuthDecision, AuthRequest, AuthRequestView,
};
use crate::model::{first_where, lemma_first_where, lemma_views_push, views};
use crate::text;

verus! {

/// A request that waits, with the number by which it is resolved.
#[derive(Debug, PartialEq, Eq)]
pub struct PendingAuthorization {
    pub id: u64,
    pub request: AuthRequest,
}

/// The model of `PendingAuthorization`.
pub struct PendingView {
    pub id: u64,
    pub request: AuthRequestView,
}

impl View for PendingAuthorization {
    type V = PendingView;

    open spec fn view(&self) -> PendingView {
        PendingView { id: self.id, request: self.request@ }
    }
}

impl Clone for PendingAuthorization {
    fn clone(&self) -> (r: Self)
        ensures
            r@ == self@,
    {
        PendingAuthorization { id: self.id, request: self.request.clone() }
    }
}

/// The requests that wait, oldest first.
pub struct PendingAuthorizations {
    last_id: u64,
    waiting: Vec<PendingAuthorization>,
}

/// The model of `PendingAuthorizations`.
#[verifier::ext_equal]
pub struct QueueView {
    pub last_id: u64,
    pub waiting: Seq<PendingView>,
}

impl View for PendingAuthorizations {
    type V = QueueView;

    closed spec fn view(&self) -> QueueView {
        QueueView { last_id: self.last_id, waiting: views(self.waiting@) }
    }
}

/// Where a request waits, or the number of requests where it does not.
pub open spec fn place_of(waiting: Seq<PendingView>, id: u64) -> int {
    first_where(waiting, |p: PendingView| p.id == id)
}

/// The requests of a peer.
pub open spec fn of_peer(waiting: Seq<PendingView>, peer_id: Seq<char>) -> Seq<PendingView> {
    waiting.filter(|p: PendingView| p.request.peer_id == peer_id)
}

/// The requests of other peers.
pub open spec fn not_of_peer(waiting: Seq<PendingView>, peer_id: Seq<char>) -> Seq<PendingView> {
    waiting.filter(|p: PendingView| p.request.peer_id != peer_id)
}

impl QueueView {
    /// The queue after one more request.
    pub open spec fn enqueued(self, request: AuthRequestView) -> QueueView {
        QueueView {
            last_id: (self.last_id + 1) as u64,
            waiting: self.waiting.push(
                PendingView { id: (self.last_id + 1) as u64, request },
            ),
        }
    }

    /// The queue after the request at a place was taken out.
    pub open spec fn taken(self, i: int) -> QueueView {
        QueueView { waiting: self.waiting.remove(i), ..self }
    }

    /// The queue after the requests of a peer were taken out.
    pub open spec fn rid_of(self, peer_id: Seq<char>) -> QueueView {
        QueueView { waiting: not_of_peer(self.waiting, peer_id), ..self }
    }

    /// The numbers rise from the oldest request to the latest.
    pub open spec fn numbered(self) -> bool {
        &&& forall|i: int, j: int|
            0 <= i < j < self.waiting.len() ==> (#[trigger] self.waiting[i]).id < (
            #[trigger] self.waiting[j]).id
        &&& forall|i: int|
            0 <= i < self.waiting.len() ==> (#[trigger] self.waiting[i]).id <= self.last_id
    }
}

/// Nothing waits.
pub open spec fn fresh_queue() -> QueueView {
    QueueView { last_id: 0, waiting: Seq::empty() }
}

impl PendingAuthorizations {
    #[verifier::type_invariant]
    spec fn numbers_rise(&self) -> bool {
        (QueueView { last_id: self.last_id, waiting: views(self.waiting@) }).numbered()
    }

    /// Nothing waits.
    pub fn new() -> (r: Self)
        ensures
            r@ == fresh_queue(),
    {
        let r = PendingAuthorizations { last_id: 0, waiting: Vec::new() };
        assert(r@.waiting =~= Seq::empty());
        r
    }

    /// Whether there is a number left for one more request.
    pub fn has_room(&self) -> (r: bool)
        ensures
            r == (self@.last_id < u64::MAX),
    {
        self.last_id < u64::MAX
    }

    /// The requests that wait, oldest first.
    pub fn list(&self) -> (r: Vec<PendingAuthorization>)
        ensures
            views(r@) == self@.waiting,
            self@.numbered(),
    {
        proof {
            use_type_invariant(self);
        }
        let mut out: Vec<PendingAuthorization> = Vec::new();
        let mut i: usize = 0;
        while i < self.waiting.len()
            invariant
                i <= self.waiting@.len(),
                views(out@) == views(self.waiting@).take(i as int),
            decreases self.waiting@.len() - i,
        {
            let item = self.waiting[i].clone();
            proof {
                lemma_views_push(out@, item);
            }
            out.push(item);
            i = i + 1;
            assert(views(out@) =~= views(self.waiting@).take(i as int));
        }
        assert(views(out@) =~= views(self.waiting@));
        out
    }

    /// Lets a request wait and gives its number.
    pub fn enqueue(&mut self, request: &AuthRequest) -> (r: u64)
        requires
            old(self)@.last_id < u64::MAX,
        ensures
            final(self)@ == old(self)@.enqueued(request@),
            r == final(self)@.last_id,
            old(self)@.numbered() && final(self)@.numbered(),
    {
        let id = self.last_id + 1;
        let item = PendingAuthorization { id, request: request.clone() };
        proof {
            use_type_invariant(&*self);
            lemma_views_push(self.waiting@, item);
            law_queue_stays_numbered(self@, request@, 0);
        }
        let mut waiting: Vec<PendingAuthorization> = Vec::new();
        std::mem::swap(&mut waiting, &mut self.waiting);
        waiting.push(item);
        self.last_id = id;
        self.waiting = waiting;
        id
    }

    /// Takes a request out of the queue.
    pub fn take(&mut self, id: u64) -> (r: Option<AuthRequest>)
        ensures
            ({
                let i = place_of(old(self)@.waiting, id);
                match r {
                    Some(request) => {
                        &&& i < old(self)@.waiting.len()
                        &&& request@ == old(self)@.waiting[i].request
                        &&& final(self)@ == old(self)@.taken(i)
                    },
                    None => i == old(self)@.waiting.len() && final(self)@ == old(self)@,
                }
            }),
            old(self)@.numbered() && final(self)@.numbered(),
            place_of(final(self)@.waiting, id) == final(self)@.waiting.len(),
    {
        proof {
            use_type_invariant(&*self);
        }
        let ghost all = self@.waiting;
        let ghost is_it = |p: PendingView| p.id == id;
        let mut i: usize = 0;
        while i < self.waiting.len()
            invariant
                i <= self.waiting@.len(),
                all == views(self.waiting@),
                self@ == old(self)@,
                all == old(self)@.waiting,
                self@.numbered(),
                is_it == (|p: PendingView| p.id == id),
                forall|k: int| 0 <= k < i ==> !is_it(#[trigger] all[k]),
            decreases self.waiting@.len() - i,
        {
            assert(all[i as int] == self.waiting@[i as int]@);
            if self.waiting[i].id == id {
                proof {
                    lemma_first_where(all, is_it, i as int);
                    lemma_taken_out(self@, i as int);
                    law_resolved_once(self@, id);
                }
                let mut waiting: Vec<PendingAuthorization> = Vec::new();
                std::mem::swap(&mut waiting, &mut self.waiting);
                let item = waiting.remove(i);
                assert(views(waiting@) =~= all.remove(i as int));
                self.waiting = waiting;
                return Some(item.request);
            }
            i = i + 1;
        }
        proof {
            lemma_first_where(all, is_it, i as int);
        }
        None
    }

    /// Takes all requests of a peer out of the queue.
    pub fn take_peer(&mut self, peer_id: &str) -> (r: Vec<PendingAuthorization>)
        ensures
            views(r@) == of_peer(old(self)@.waiting, peer_id@),
            final(self)@ == old(self)@.rid_of(peer_id@),
            old(self)@.numbered() && final(self)@.numbered(),
    {
        proof {
            use_type_invariant(&*self);
            law_purge_keeps_numbering(self@, peer_id@);
        }
        let ghost all = self@.waiting;
        let mut taken: Vec<PendingAuthorization> = Vec::new();
        let mut kept: Vec<PendingAuthorization> = Vec::new();
        let mut i: usize = 0;
        assert(all.take(0) =~= Seq::empty());
        assert(views(taken@) =~= of_peer(all.take(0), peer_id@));
        assert(views(kept@) =~= not_of_peer(all.take(0), peer_id@));
        while i < self.waiting.len()
            invariant
                i <= self.waiting@.len(),
                all == views(self.waiting@),
                views(taken@) == of_peer(all.take(i as int), peer_id@),
                views(kept@) == not_of_peer(all.take(i as int), peer_id@),
            decreases self.waiting@.len() - i,
        {
            let item = self.waiting[i].clone();
            let same_peer = text::same(item.request.peer_id.as_str(), peer_id);
            proof {
                let head = all.take(i + 1);
                assert(head.drop_last() =~= all.take(i as int));
                assert(head.last() == item@);
                reveal(Seq::filter);
                lemma_views_push(taken@, item);
                lemma_views_push(kept@, item);
            }
            if same_peer {
                taken.push(item);
            } else {
                kept.push(item);
            }
            i = i + 1;
        }
        assert(all.take(i as int) =~= all);
        self.waiting = kept;
        taken
    }
}

impl Default for PendingAuthorizations {
    fn default() -> (r: Self)
        ensures
            r@ == fresh_queue(),
    {
        Self::new()
    }
}

/// What became of a request: it was decided at once, or it waits under a
/// number.
#[derive(Debug, Clone, Copy, PartialEq, Eq)]
pub enum Authorization {
    Decided(AuthDecision),
    Queued(u64),
}

/// Decides by what is remembered; any other request waits for the user.
pub struct PendingAuthorizer {
    pub store: TrustStore,
    pub pending: PendingAuthorizations,
    pub audit_log: AuthAuditLog,
}

/// The model of `PendingAuthorizer`.
#[verifier::ext_equal]
pub struct PendingAuthorizerView {
    pub store: Map<TrustKeyView, TrustDecision>,
    pub pending: QueueView,
    pub audit_log: AuditView,
}

impl View for PendingAuthorizer {
    type V = PendingAuthorizerView;

    open spec fn view(&self) -> PendingAuthorizerView {
        PendingAuthorizerView {
            store: self.store@,
            pending: self.pending@,
            audit_log: self.audit_log@,
        }
    }
}

/// What a request is remembered by.
pub open spec fn trust_key_of(request: AuthRequestView) -> TrustKeyView {
    TrustKeyView { peer_id: request.peer_id, forward_key: request.forward_key }
}

/// The log after each of some requests was denied.
pub open spec fn all_denied(log: AuditView, requests: Seq<PendingView>, now_ms: u128) -> AuditView
    decreases requests.len(),
{
    if requests.len() == 0 {
        log
    } else {
        all_denied(log, requests.drop_last(), now_ms).recorded(
            requests.last().request,
            AuthDecision::Deny,
            AuthEventSource::Pending,
            now_ms,
        )
    }
}

impl PendingAuthorizerView {
    /// The state after a request came in.
    pub open spec fn requested(
        self,
        request: AuthRequestView,
        now_ms: u128,
    ) -> (PendingAuthorizerView, Authorization) {
        let key = trust_key_of(request);
        if self.store.contains_key(key) {
            let decision = remembered_answer(self.store[key]);
            (
                PendingAuthorizerView {
                    audit_log: self.audit_log.recorded(
                        request,
                        decision,
                        AuthEventSource::TrustStore,
                        now_ms,
                    ),
                    ..self
                },
                Authorization::Decided(decision),
            )
        } else {
            (
                PendingAuthorizerView { pending: self.pending.enqueued(request), ..self },
                Authorization::Queued((self.pending.last_id + 1) as u64),
            )
        }
    }

    /// The state after the user decided on a request that waits.
    pub open spec fn resolved(
        self,
        id: u64,
        decision: AuthDecision,
        now_ms: u128,
    ) -> PendingAuthorizerView {
        let i = place_of(self.pending.waiting, id);
        let request = self.pending.waiting[i].request;
        PendingAuthorizerView {
            store: match decision.trust() {
                Some(trust) => self.store.insert(trust_key_of(request), trust),
                None => self.store,
            },
            pending: QueueView { waiting: self.pending.waiting.remove(i), ..self.pending },
            audit_log: self.audit_log.recorded(
                request,
                decision,
                AuthEventSource::Pending,
                now_ms,
            ),
        }
    }

    /// The state after the user decided on a number, whether or not a request waits
    /// under it.
    pub open spec fn decided(
        self,
        id: u64,
        decision: AuthDecision,
        now_ms: u128,
    ) -> PendingAuthorizerView {
        if place_of(self.pending.waiting, id) < self.pending.waiting.len() {
            self.resolved(id, decision, now_ms)
        } else {
            self
        }
    }

    /// The state after a peer is gone: what it asked for is denied.
    pub open spec fn purged(self, peer_id: Seq<char>, now_ms: u128) -> PendingAuthorizerView {
        PendingAuthorizerView {
            store: self.store,
            pending: QueueView {
                waiting: not_of_peer(self.pending.waiting, peer_id),
                ..self.pending
            },
            audit_log: all_denied(
                self.audit_log,
                of_peer(self.pending.waiting, peer_id),
                now_ms,
            ),
        }
    }
}

impl PendingAuthorizer {
    /// An authorizer that keeps no log.
    pub fn new(store: TrustStore, pending: PendingAuthorizations) -> (r: Self)
        ensures
            r.store == store,
            r.pending == pending,
            r@.audit_log == fresh_log(0),
    {
        PendingAuthorizer { store, pending, audit_log: AuthAuditLog::with_capacity(0) }
    }

    /// An authorizer that logs its decisions.
    pub fn with_audit_log(
        store: TrustStore,
        pending: PendingAuthorizations,
        audit_log: AuthAuditLog,
    ) -> (r: Self)
        ensures
            r.store == store,
            r.pending == pending,
            r.audit_log == audit_log,
    {
        PendingAuthorizer { store, pending, audit_log }
    }

    /// Decides on a request by what is remembered, or lets it wait.
    pub fn authorize(&mut self, req: &AuthRequest, now_ms: u128) -> (r: Authorization)
        requires
            old(self)@.pending.last_id < u64::MAX,
        ensures
            (final(self)@, r) == old(self)@.requested(req@, now_ms),
            r is Queued ==> final(self)@.pending.numbered(),
    {
        let key = TrustKey {
            peer_id: text::copy(req.peer_id.as_str()),
            forward_key: text::copy(req.forward_key.as_str()),
        };
        assert(key@ == trust_key_of(req@));
        match self.store.get(&key) {
            Some(trust) => {
                let decision = answer_remembered(trust);
                self.audit_log.record(req, decision, AuthEventSource::TrustStore, now_ms);
                Authorization::Decided(decision)
            },
            None => Authorization::Queued(self.pending.enqueue(req)),
        }
    }

    /// Decides on a request that waits: the decision is logged, and remembered
    /// where it holds from now on. A number under which nothing waits changes
    /// nothing.
    pub fn resolve(&mut self, id: u64, decision: AuthDecision, now_ms: u128) -> (r: bool)
        ensures
            r == (place_of(old(self)@.pending.waiting, id) < old(self)@.pending.waiting.len()),
            final(self)@ == old(self)@.decided(id, decision, now_ms),
            old(self)@.pending.numbered() && final(self)@.pending.numbered(),
            place_of(final(self)@.pending.waiting, id) == final(self)@.pending.waiting.len(),
    {
        proof {
            crate::model::lemma_first_where_bounds(
                self@.pending.waiting,
                |p: PendingView| p.id == id,
            );
        }
        match self.pending.take(id) {
            Some(request) => {
                if let Some(trust) = decision.trust_decision() {
                    let key = TrustKey {
                        peer_id: text::copy(request.peer_id.as_str()),
                        forward_key: text::copy(request.forward_key.as_str()),
                    };
                    assert(key@ == trust_key_of(request@));
                    self.store.remember(&key, trust);
                }
                self.audit_log.record(&request, decision, AuthEventSource::Pending, now_ms);
                true
            },
            None => false,
        }
    }

    /// Denies everything that a peer asked for and gives the numbers under
    /// which it waited.
    pub fn purge_peer(&mut self, peer_id: &str, now_ms: u128) -> (r: Vec<u64>)
        ensures
            final(self)@ == old(self)@.purged(peer_id@, now_ms),
            r@ == of_peer(old(self)@.pending.waiting, peer_id@).map_values(|p: PendingView| p.id),
            old(self)@.pending.numbered() && final(self)@.pending.numbered(),
    {
        let taken = self.pending.take_peer(peer_id);
        let ghost all = views(taken@);
        let ghost log = self.audit_log@;
        let mut ids: Vec<u64> = Vec::new();
        let mut i: usize = 0;
        assert(all.take(0) =~= Seq::empty());
        while i < taken.len()
            invariant
                i <= taken@.len(),
                all == views(taken@),
                self.audit_log@ == all_denied(log, all.take(i as int), now_ms),
                self.store@ == old(self).store@,
                self.pending@ == (QueueView {
                    waiting: not_of_peer(old(self)@.pending.waiting, peer_id@),
                    ..old(self)@.pending
                }),
                ids@ == all.take(i as int).map_values(|p: PendingView| p.id),
            decreases taken@.len() - i,
        {
            proof {
                let head = all.take(i + 1);
                assert(head.drop_last() =~= all.take(i as int));
                assert(head.last() == taken@[i as int]@);
                assert(head.map_values(|p: PendingView| p.id) =~= ids@.push(taken@[i as int].id));
            }
            self.audit_log.record(
                &taken[i].request,
                AuthDecision::Deny,
                AuthEventSource::Pending,
                now_ms,
            );
            ids.push(taken[i].id);
            i = i + 1;
        }
        assert(all.take(i as int) =~= all);
        ids
    }
}

/// A new request gets a number above all that wait; taking requests out keeps
/// the numbers rising.
pub proof fn law_queue_stays_numbered(queue: QueueView, request: AuthRequestView, i: int)
    requires
        queue.numbered(),
        queue.last_id < u64::MAX,
    ensures
        queue.enqueued(request).numbered(),
        0 <= i < queue.waiting.len() ==> (QueueView {
            waiting: queue.waiting.remove(i),
            ..queue
        }).numbered(),
{
    if 0 <= i < queue.waiting.len() {
        lemma_taken_out(queue, i);
    }
}

/// Taking a request out keeps the numbers of the others rising.
pub proof fn lemma_taken_out(queue: QueueView, i: int)
    requires
        queue.numbered(),
        0 <= i < queue.waiting.len(),
    ensures
        (QueueView { waiting: queue.waiting.remove(i), ..queue }).numbered(),
{
    let rest = queue.waiting.remove(i);
    assert forall|a: int, b: int| 0 <= a < b < rest.len() implies (#[trigger] rest[a]).id < (
    #[trigger] rest[b]).id by {
        let x = if a < i {
            a
        } else {
            a + 1
        };
        let y = if b < i {
            b
        } else {
            b + 1
        };
        assert(queue.waiting[x].id < queue.waiting[y].id);
    }
}

/// Taking the requests of a peer out keeps the numbers of the others rising.
pub proof fn law_purge_keeps_numbering(queue: QueueView, peer_id: Seq<char>)
    requires
        queue.numbered(),
    ensures
        (QueueView { waiting: not_of_peer(queue.waiting, peer_id), ..queue }).numbered(),
    decreases queue.waiting.len(),
{
    reveal(Seq::filter);
    let s = queue.waiting;
    if s.len() > 0 {
        let others = |p: PendingView| p.request.peer_id != peer_id;
        let init = s.drop_last();
        let before = QueueView { waiting: init, ..queue };
        law_purge_keeps_numbering(before, peer_id);
        let kept = not_of_peer(init, peer_id);
        let all = not_of_peer(s, peer_id);
        assert forall|k: int| 0 <= k < kept.len() implies (#[trigger] kept[k]).id < s.last().id by {
            assert(kept.contains(kept[k]));
            init.lemma_filter_contains_rev(others, kept[k]);
            let j = choose|j: int| 0 <= j < init.len() && init[j] == kept[k];
            assert(s[j].id < s[s.len() - 1].id);
        }
        assert forall|a: int, b: int| 0 <= a < b < all.len() implies (#[trigger] all[a]).id < (
        #[trigger] all[b]).id by {
            assert(all[a] == kept[a]);
            if b < kept.len() {
                assert(kept[a].id < kept[b].id);
            }
        }
    }
}

/// A request that waits can be resolved once: afterwards nothing waits under
/// its number.
pub proof fn law_resolved_once(queue: QueueView, id: u64)
    requires
        queue.numbered(),
        place_of(queue.waiting, id) < queue.waiting.len(),
    ensures
        ({
            let rest = queue.waiting.remove(place_of(queue.waiting, id));
            place_of(rest, id) == rest.len()
        }),
{
    let is_it = |p: PendingView| p.id == id;
    crate::model::lemma_first_where_bounds(queue.waiting, is_it);
    let i = place_of(queue.waiting, id);
    let rest = queue.waiting.remove(i);
    assert forall|k: int| 0 <= k < rest.len() implies !is_it(#[trigger] rest[k]) by {
        if k < i {
            assert(!is_it(queue.waiting[k]));
        } else {
            assert(queue.waiting[i].id < queue.waiting[k + 1].id);
        }
    }
    lemma_first_where(rest, is_it, rest.len() as int);
}

/// A decision that holds from now on is remembered: the same request is then
/// decided at once, and lets in whom the user let in.
pub proof fn law_always_is_remembered(
    v: PendingAuthorizerView,
    id: u64,
    decision: AuthDecision,
    now_ms: u128,
    later_ms: u128,
)
    requires
        place_of(v.pending.waiting, id) < v.pending.waiting.len(),
        decision.trust() is Some,
    ensures
        ({
            let request = v.pending.waiting[place_of(v.pending.waiting, id)].request;
            let answer = v.resolved(id, decision, now_ms).requested(request, later_ms).1;
            answer matches Authorization::Decided(d) && d.allowed() == decision.allowed()
        }),
{
}

/// After a peer is gone nothing of it waits, and the requests of the others
/// still do.
pub proof fn law_purge_takes_only_that_peer(waiting: Seq<PendingView>, peer_id: Seq<char>, i: int)
    requires
        0 <= i < waiting.len(),
    ensures
        waiting[i].request.peer_id == peer_id ==> of_peer(waiting, peer_id).contains(waiting[i]),
        waiting[i].request.peer_id == peer_id ==> !not_of_peer(waiting, peer_id).contains(
            waiting[i],
        ),
        waiting[i].request.peer_id != peer_id ==> not_of_peer(waiting, peer_id).contains(
            waiting[i],
        ),
        waiting[i].request.peer_id != peer_id ==> !of_peer(waiting, peer_id).contains(waiting[i]),
{
    broadcast use vstd::seq_lib::group_filter_ensures;

    assert(waiting.contains(waiting[i]));
}

/// A request waits as it was made, behind the others and under the number after the last
/// one.
pub proof fn law_request_waits_last(queue: QueueView, request: AuthRequestView)
    requires
        queue.last_id < u64::MAX,
    ensures
        queue.enqueued(request).waiting.drop_last() == queue.waiting,
        queue.enqueued(request).waiting.last().request == request,
        queue.enqueued(request).waiting.last().id == queue.last_id + 1,
        queue.enqueued(request).last_id == queue.last_id + 1,
        fresh_queue().waiting.len() == 0 && fresh_queue().last_id == 0,
{
    assert(queue.enqueued(request).waiting.drop_last() =~= queue.waiting);
}

/// A request of which something is remembered is decided at once, as it was remembered
/// for that peer and forward, and logged as such; it does not wait. Any other one waits,
/// and nothing is logged. Neither changes what is remembered.
pub proof fn law_only_the_unknown_wait(
    v: PendingAuthorizerView,
    request: AuthRequestView,
    now_ms: u128,
)
    requires
        v.pending.last_id < u64::MAX,
    ensures
        ({
            let (next, answer) = v.requested(request, now_ms);
            let key = TrustKeyView { peer_id: request.peer_id, forward_key: request.forward_key };
            &&& next.store == v.store
            &&& match found(v.store, key) {
                Some(trust) => {
                    &&& answer matches Authorization::Decided(d)
                    &&& d.allowed() <==> trust is Allow
                    &&& next.pending == v.pending
                    &&& next.audit_log == v.audit_log.recorded(
                        request,
                        d,
                        AuthEventSource::TrustStore,
                        now_ms,
                    )
                },
                None => {
                    &&& answer matches Authorization::Queued(id)
                    &&& id == v.pending.last_id + 1
                    &&& next.pending.waiting.last() == (PendingView { id, request })
                    &&& next.pending.waiting.drop_last() == v.pending.waiting
                    &&& next.audit_log == v.audit_log
                },
            }
        }),
{
    law_request_waits_last(v.pending, request);
}

/// A decision of the user ends the waiting of the request with that number, and of no
/// other one; it is logged with that request, and remembered for that peer and forward
/// where it holds from now on. Under a number where nothing waits it changes nothing.
pub proof fn law_decision_ends_one_request(
    v: PendingAuthorizerView,
    id: u64,
    decision: AuthDecision,
    now_ms: u128,
    p: PendingView,
    other: TrustKeyView,
)
    requires
        v.pending.numbered(),
    ensures
        ({
            let next = v.decided(id, decision, now_ms);
            let i = place_of(v.pending.waiting, id);
            let waits = exists|k: int|
                0 <= k < v.pending.waiting.len() && (#[trigger] v.pending.waiting[k]).id == id;
            &&& 0 <= i <= v.pending.waiting.len()
            &&& i < v.pending.waiting.len() <==> waits
            &&& !waits ==> next == v
            &&& next.pending.waiting.contains(p) <==> v.pending.waiting.contains(p) && p.id != id
            &&& next.pending.last_id == v.pending.last_id
            &&& waits ==> {
                let request = v.pending.waiting[i].request;
                let key = TrustKeyView {
                    peer_id: request.peer_id,
                    forward_key: request.forward_key,
                };
                &&& v.pending.waiting[i].id == id
                &&& next.audit_log == v.audit_log.recorded(
                    request,
                    decision,
                    AuthEventSource::Pending,
                    now_ms,
                )
                &&& other != key ==> found(next.store, other) == found(v.store, other)
                &&& decision is AllowAlways ==> found(next.store, key) == Some(TrustDecision::Allow)
                &&& decision is DenyAlways ==> found(next.store, key) == Some(TrustDecision::Deny)
                &&& decision is Allow || decision is Deny ==> next.store == v.store
            }
        }),
{
    let is_it = |p: PendingView| p.id == id;
    let all = v.pending.waiting;
    crate::model::lemma_first_where_bounds(all, is_it);
    let i = place_of(all, id);
    if i < all.len() {
        assert(all[i].id == id);
        law_resolved_once(v.pending, id);
        let rest = all.remove(i);
        crate::model::lemma_first_where_bounds(rest, is_it);
        if all.contains(p) && p.id != id {
            let k = choose|k: int| 0 <= k < all.len() && all[k] == p;
            if k < i {
                assert(rest[k] == p);
            } else {
                assert(rest[k - 1] == p);
            }
        }
        if rest.contains(p) {
            let k = choose|k: int| 0 <= k < rest.len() && rest[k] == p;
            assert(!is_it(rest[k]));
            if k < i {
                assert(all[k] == p);
            } else {
                assert(all[k + 1] == p);
            }
        }
    } else {
        if exists|k: int| 0 <= k < all.len() && (#[trigger] all[k]).id == id {
            let k = choose|k: int| 0 <= k < all.len() && (#[trigger] all[k]).id == id;
            assert(!is_it(all[k]));
        }
        if all.contains(p) {
            let k = choose|k: int| 0 <= k < all.len() && all[k] == p;
            assert(!is_it(all[k]));
        }
    }
}

/// A peer that is gone waits for nothing any more: each of its requests is denied, once,
/// and nothing else changes. What is remembered of it stays.
pub proof fn law_departed_peer_waits_no_more(
    v: PendingAuthorizerView,
    peer_id: Seq<char>,
    now_ms: u128,
    p: PendingView,
)
    ensures
        ({
            let next = v.purged(peer_id, now_ms);
            let gone = of_peer(v.pending.waiting, peer_id);
            &&& next.store == v.store
            &&& next.pending.last_id == v.pending.last_id
            &&& next.pending.waiting.contains(p) <==> v.pending.waiting.contains(p)
                && p.request.peer_id != peer_id
            &&& gone.contains(p) <==> v.pending.waiting.contains(p) && p.request.peer_id == peer_id
            &&& gone.len() + next.pending.waiting.len() == v.pending.waiting.len()
            &&& gone.len() == 0 ==> next.audit_log == v.audit_log
            &&& gone.len() == 1 ==> next.audit_log == v.audit_log.recorded(
                gone[0].request,
                AuthDecision::Deny,
                AuthEventSource::Pending,
                now_ms,
            )
        }),
        forall|a: Seq<PendingView>, b: Seq<PendingView>| #[trigger]
            all_denied(v.audit_log, a + b, now_ms) == all_denied(
                all_denied(v.audit_log, a, now_ms),
                b,
                now_ms,
            ),
        forall|a: Seq<PendingView>, b: Seq<PendingView>| #[trigger]
            of_peer(a + b, peer_id) == of_peer(a, peer_id) + of_peer(b, peer_id),
        forall|a: Seq<PendingView>, b: Seq<PendingView>| #[trigger]
            not_of_peer(a + b, peer_id) == not_of_peer(a, peer_id) + not_of_peer(b, peer_id),
{
    broadcast use vstd::seq_lib::group_filter_ensures;

    let mine = |p: PendingView| p.request.peer_id == peer_id;
    let others = |p: PendingView| p.request.peer_id != peer_id;
    let all = v.pending.waiting;
    let gone = of_peer(all, peer_id);
    let kept = not_of_peer(all, peer_id);
    if all.contains(p) {
        let i = choose|i: int| 0 <= i < all.len() && all[i] == p;
        law_purge_takes_only_that_peer(all, peer_id, i);
    }
    if kept.contains(p) {
        all.lemma_filter_contains_rev(others, p);
    }
    if gone.contains(p) {
        all.lemma_filter_contains_rev(mine, p);
    }
    lemma_split_by_peer(all, peer_id);
    if gone.len() == 1 {
        assert(gone.drop_last() =~= Seq::empty());
        assert(all_denied(v.audit_log, gone.drop_last(), now_ms) == v.audit_log);
    }
    assert forall|a: Seq<PendingView>, b: Seq<PendingView>| #[trigger]
        all_denied(v.audit_log, a + b, now_ms) == all_denied(
            all_denied(v.audit_log, a, now_ms),
            b,
            now_ms,
        ) by {
        lemma_denied_in_turn(v.audit_log, a, b, now_ms);
    }
    assert forall|a: Seq<PendingView>, b: Seq<PendingView>| #[trigger]
        of_peer(a + b, peer_id) == of_peer(a, peer_id) + of_peer(b, peer_id) by {
        Seq::filter_distributes_over_add(a, b, mine);
    }
    assert forall|a: Seq<PendingView>, b: Seq<PendingView>| #[trigger]
        not_of_peer(a + b, peer_id) == not_of_peer(a, peer_id) + not_of_peer(b, peer_id) by {
        Seq::filter_distributes_over_add(a, b, others);
    }
}

proof fn lemma_split_by_peer(all: Seq<PendingView>, peer_id: Seq<char>)
    ensures
        of_peer(all, peer_id).len() + not_of_peer(all, peer_id).len() == all.len(),
    decreases all.len(),
{
    reveal(Seq::filter);
    if all.len() > 0 {
        lemma_split_by_peer(all.drop_last(), peer_id);
    }
}

proof fn lemma_denied_in_turn(
    log: AuditView,
    a: Seq<PendingView>,
    b: Seq<PendingView>,
    now_ms: u128,
)
    ensures
        all_denied(log, a + b, now_ms) == all_denied(all_denied(log, a, now_ms), b, now_ms),
    decreases b.len(),
{
    if b.len() == 0 {
        assert(a + b =~= a);
    } else {
        lemma_denied_in_turn(log, a, b.drop_last(), now_ms);
        assert((a + b).drop_last() =~= a + b.drop_last());
        assert((a + b).last() == b.last());
    }
}

/// Giving up what a peer waits for leaves the requests of all other peers, in their order, and
/// the numbering.
pub proof fn law_giving_up_touches_one_peer(v: QueueView, peer_id: Seq<char>, p: PendingView)
    ensures
        v.rid_of(peer_id).waiting.contains(p) <==> v.waiting.contains(p) && p.request.peer_id
            != peer_id,
        v.rid_of(peer_id).last_id == v.last_id,
        (forall|i: int| 0 <= i < v.waiting.len() ==> (#[trigger] v.waiting[i]).request.peer_id
            != peer_id) ==> v.rid_of(peer_id) == v,
{
    broadcast use vstd::seq_lib::group_filter_ensures;

    let keep = |q: PendingView| q.request.peer_id != peer_id;
    if v.waiting.contains(p) && p.request.peer_id != peer_id {
        assert(v.waiting.filter(keep).contains(p));
    }
    if v.rid_of(peer_id).waiting.contains(p) {
        v.waiting.lemma_filter_contains_rev(keep, p);
    }
    if forall|i: int| 0 <= i < v.waiting.len() ==> (#[trigger] v.waiting[i]).request.peer_id
        != peer_id {
        lemma_all_kept(v.waiting, peer_id);
    }
}

proof fn lemma_all_kept(waiting: Seq<PendingView>, peer_id: Seq<char>)
    requires
        forall|i: int| 0 <= i < waiting.len() ==> (#[trigger] waiting[i]).request.peer_id
            != peer_id,
    ensures
        not_of_peer(waiting, peer_id) == waiting,
    decreases waiting.len(),
{
    reveal(Seq::filter);
    if waiting.len() > 0 {
        let rest = waiting.drop_last();
        assert forall|i: int| 0 <= i < rest.len() implies (#[trigger] rest[i]).request.peer_id
            != peer_id by {
            assert(waiting[i].request.peer_id != peer_id);
        }
        lemma_all_kept(rest, peer_id);
        assert(waiting[waiting.len() - 1].request.peer_id != peer_id);
        assert(waiting =~= rest.push(waiting.last()));
    }
}

/// Taking out a request leaves all others, in their order, and the numbering.
pub proof fn law_taking_out_leaves_the_others(v: QueueView, i: int, k: int)
    requires
        0 <= i < v.waiting.len(),
    ensures
        v.taken(i).last_id == v.last_id,
        v.taken(i).waiting.len() == v.waiting.len() - 1,
        0 <= k < i ==> v.taken(i).waiting[k] == v.waiting[k],
        i <= k < v.waiting.len() - 1 ==> v.taken(i).waiting[k] == v.waiting[k + 1],
{
}

} // verus!
