//! The handshake by which two nodes agree on a forward.
use vstd::prelude::*;

use crate::model::{
    first_where, lemma_first_where, lemma_first_where_bounds, lemma_views_push, opt_view, views,
};
use crate::text;
use crate::text::texts;
use crate::text_map::{sorted, TextMap};

verus! {

/// A forward that a peer proposes, waiting for approval.
#[derive(Debug, PartialEq, Eq)]
pub struct IncomingForward {
    /// A local number by which the proposal is shown and resolved.
    pub id: u64,
    /// The id that the answer repeats.
    pub req_id: String,
    pub peer_id: String,
    pub proto: String,
    /// The address on this node that the peer wants to reach.
    pub remote_addr: String,
    pub target: String,
}

/// The model of `IncomingForward`.
pub struct IncomingForwardView {
    pub id: u64,
    pub req_id: Seq<char>,
    pub peer_id: Seq<char>,
    pub proto: Seq<char>,
    pub remote_addr: Seq<char>,
    pub target: Seq<char>,
}

impl View for IncomingForward {
    type V = IncomingForwardView;

    open spec fn view(&self) -> IncomingForwardView {
        IncomingForwardView {
            id: self.id,
            req_id: self.req_id@,
            peer_id: self.peer_id@,
            proto: self.proto@,
            remote_addr: self.remote_addr@,
            target: self.target@,
        }
    }
}

impl Clone for IncomingForward {
    fn clone(&self) -> (r: Self)
        ensures
            r@ == self@,
    {
        IncomingForward {
            id: self.id,
            req_id: text::copy(self.req_id.as_str()),
            peer_id: text::copy(self.peer_id.as_str()),
            proto: text::copy(self.proto.as_str()),
            remote_addr: text::copy(self.remote_addr.as_str()),
            target: text::copy(self.target.as_str()),
        }
    }
}

/// A forward that this node proposed and waits to hear of.
#[derive(Debug, PartialEq, Eq)]
pub struct OutgoingForward {
    pub peer_id: String,
    pub proto: String,
    pub listen_port: i32,
    pub local_addr: String,
    pub remote_addr: String,
    pub target: String,
}

/// The model of `OutgoingForward`.
pub struct OutgoingForwardView {
    pub peer_id: Seq<char>,
    pub proto: Seq<char>,
    pub listen_port: i32,
    pub local_addr: Seq<char>,
    pub remote_addr: Seq<char>,
    pub target: Seq<char>,
}

impl View for OutgoingForward {
    type V = OutgoingForwardView;

    open spec fn view(&self) -> OutgoingForwardView {
        OutgoingForwardView {
            peer_id: self.peer_id@,
            proto: self.proto@,
            listen_port: self.listen_port,
            local_addr: self.local_addr@,
            remote_addr: self.remote_addr@,
            target: self.target@,
        }
    }
}

impl Clone for OutgoingForward {
    fn clone(&self) -> (r: Self)
        ensures
            r@ == self@,
    {
        OutgoingForward {
            peer_id: text::copy(self.peer_id.as_str()),
            proto: text::copy(self.proto.as_str()),
            listen_port: self.listen_port,
            local_addr: text::copy(self.local_addr.as_str()),
            remote_addr: text::copy(self.remote_addr.as_str()),
            target: text::copy(self.target.as_str()),
        }
    }
}

/// What became of a forward that this node proposed. A forward that failed
/// without an answer of the peer carries the reason.
#[derive(Debug, PartialEq, Eq)]
pub struct ForwardOutcome {
    pub outgoing: OutgoingForward,
    pub accepted: bool,
    pub reason: Option<String>,
}

/// The model of `ForwardOutcome`.
pub struct ForwardOutcomeView {
    pub outgoing: OutgoingForwardView,
    pub accepted: bool,
    pub reason: Option<Seq<char>>,
}

impl View for ForwardOutcome {
    type V = ForwardOutcomeView;

    open spec fn view(&self) -> ForwardOutcomeView {
        ForwardOutcomeView {
            outgoing: self.outgoing@,
            accepted: self.accepted,
            reason: opt_view(self.reason),
        }
    }
}

/// The proposals of both sides and what came of them.
pub struct ForwardNegotiator {
    last_id: u64,
    incoming: Vec<IncomingForward>,
    outgoing: TextMap<OutgoingForward>,
    outcomes: Vec<ForwardOutcome>,
}

/// The model of `ForwardNegotiator`.
#[verifier::ext_equal]
pub struct NegotiatorView {
    pub last_id: u64,
    pub incoming: Seq<IncomingForwardView>,
    pub outgoing: Map<Seq<char>, OutgoingForwardView>,
    pub outcomes: Seq<ForwardOutcomeView>,
}

impl View for ForwardNegotiator {
    type V = NegotiatorView;

    closed spec fn view(&self) -> NegotiatorView {
        NegotiatorView {
            last_id: self.last_id,
            incoming: views(self.incoming@),
            outgoing: self.outgoing@,
            outcomes: views(self.outcomes@),
        }
    }
}

/// Where a proposal waits, or the number of proposals where it does not.
pub open spec fn incoming_place(incoming: Seq<IncomingForwardView>, id: u64) -> int {
    first_where(incoming, |f: IncomingForwardView| f.id == id)
}

/// The numbers of proposals rise, and none is above a last one.
pub open spec fn rising(incoming: Seq<IncomingForwardView>, last_id: u64) -> bool {
    &&& forall|i: int, j: int|
        0 <= i < j < incoming.len() ==> (#[trigger] incoming[i]).id < (#[trigger] incoming[j]).id
    &&& forall|i: int| 0 <= i < incoming.len() ==> (#[trigger] incoming[i]).id <= last_id
}

/// The proposals of other peers.
pub open spec fn incoming_not_of(
    incoming: Seq<IncomingForwardView>,
    peer_id: Seq<char>,
) -> Seq<IncomingForwardView> {
    incoming.filter(|f: IncomingForwardView| f.peer_id != peer_id)
}

/// The ids of the requests that were sent to a peer, in order.
pub open spec fn requests_to(
    outgoing: Map<Seq<char>, OutgoingForwardView>,
    peer_id: Seq<char>,
) -> Seq<Seq<char>> {
    sorted(outgoing.dom()).filter(|k: Seq<char>| outgoing[k].peer_id == peer_id)
}

/// The requests that were sent to other peers.
pub open spec fn outgoing_not_to(
    outgoing: Map<Seq<char>, OutgoingForwardView>,
    peer_id: Seq<char>,
) -> Map<Seq<char>, OutgoingForwardView> {
    Map::new(
        |k: Seq<char>| outgoing.contains_key(k) && outgoing[k].peer_id != peer_id,
        |k: Seq<char>| outgoing[k],
    )
}

/// A request that was lost with its peer.
pub open spec fn lost(outgoing: OutgoingForwardView) -> ForwardOutcomeView {
    ForwardOutcomeView { outgoing, accepted: false, reason: Some("peer disconnected"@) }
}

impl NegotiatorView {
    /// The state after a peer proposed a forward.
    pub open spec fn proposed(
        self,
        req_id: Seq<char>,
        peer_id: Seq<char>,
        proto: Seq<char>,
        remote_addr: Seq<char>,
        target: Seq<char>,
    ) -> NegotiatorView {
        let id = (self.last_id + 1) as u64;
        NegotiatorView {
            last_id: id,
            incoming: self.incoming.push(
                IncomingForwardView { id, req_id, peer_id, proto, remote_addr, target },
            ),
            ..self
        }
    }

    /// The state after the proposal at a place was taken out.
    pub open spec fn taken(self, i: int) -> NegotiatorView {
        NegotiatorView { incoming: self.incoming.remove(i), ..self }
    }

    /// The state after a request was sent.
    pub open spec fn asked(self, req_id: Seq<char>, outgoing: OutgoingForwardView) -> NegotiatorView {
        NegotiatorView { outgoing: self.outgoing.insert(req_id, outgoing), ..self }
    }

    /// The state after a request was forgotten.
    pub open spec fn forgotten(self, req_id: Seq<char>) -> NegotiatorView {
        NegotiatorView { outgoing: self.outgoing.remove(req_id), ..self }
    }

    /// The state after the outcomes were taken.
    pub open spec fn drained(self) -> NegotiatorView {
        NegotiatorView { outcomes: Seq::empty(), ..self }
    }

    /// The state after a request was answered. An answer to nothing that was
    /// asked changes nothing.
    pub open spec fn answered(self, req_id: Seq<char>, accepted: bool) -> NegotiatorView {
        if self.outgoing.contains_key(req_id) {
            NegotiatorView {
                outgoing: self.outgoing.remove(req_id),
                outcomes: self.outcomes.push(
                    ForwardOutcomeView {
                        outgoing: self.outgoing[req_id],
                        accepted,
                        reason: None,
                    },
                ),
                ..self
            }
        } else {
            self
        }
    }

    /// The state after a peer is gone: its proposals are dropped, and what was
    /// asked of it has failed.
    pub open spec fn purged(self, peer_id: Seq<char>) -> NegotiatorView {
        NegotiatorView {
            last_id: self.last_id,
            incoming: incoming_not_of(self.incoming, peer_id),
            outgoing: outgoing_not_to(self.outgoing, peer_id),
            outcomes: self.outcomes + requests_to(self.outgoing, peer_id).map_values(
                |k: Seq<char>| lost(self.outgoing[k]),
            ),
        }
    }

    /// The numbers of the proposals rise from the oldest to the latest.
    pub open spec fn numbered(self) -> bool {
        rising(self.incoming, self.last_id)
    }
}

/// Nothing is proposed yet.
pub open spec fn fresh_negotiator() -> NegotiatorView {
    NegotiatorView {
        last_id: 0,
        incoming: Seq::empty(),
        outgoing: Map::empty(),
        outcomes: Seq::empty(),
    }
}

impl ForwardNegotiator {
    #[verifier::type_invariant]
    spec fn numbers_rise(&self) -> bool {
        rising(views(self.incoming@), self.last_id)
    }

    /// Nothing is proposed yet.
    pub fn new() -> (r: Self)
        ensures
            r@ == fresh_negotiator(),
    {
        let r = ForwardNegotiator {
            last_id: 0,
            incoming: Vec::new(),
            outgoing: TextMap::new(),
            outcomes: Vec::new(),
        };
        assert(r@.incoming =~= Seq::empty());
        assert(r@.outcomes =~= Seq::empty());
        r
    }

    /// Whether there is a number left for one more proposal.
    pub fn has_room(&self) -> (r: bool)
        ensures
            r == (self@.last_id < u64::MAX),
    {
        self.last_id < u64::MAX
    }

    /// Records a proposal of a peer and gives its number.
    pub fn record_incoming(
        &mut self,
        req_id: String,
        peer_id: String,
        proto: String,
        remote_addr: String,
        target: String,
    ) -> (r: u64)
        requires
            old(self)@.last_id < u64::MAX,
        ensures
            final(self)@ == old(self)@.proposed(
                req_id@,
                peer_id@,
                proto@,
                remote_addr@,
                target@,
            ),
            r == final(self)@.last_id,
            old(self)@.numbered() && final(self)@.numbered(),
            incoming_place(final(self)@.incoming, r) == old(self)@.incoming.len(),
    {
        let id = self.last_id + 1;
        let item = IncomingForward { id, req_id, peer_id, proto, remote_addr, target };
        proof {
            use_type_invariant(&*self);
            lemma_views_push(self.incoming@, item);
            law_proposal_is_found(
                self@,
                item.req_id@,
                item.peer_id@,
                item.proto@,
                item.remote_addr@,
                item.target@,
            );
        }
        let mut incoming: Vec<IncomingForward> = Vec::new();
        std::mem::swap(&mut incoming, &mut self.incoming);
        incoming.push(item);
        self.last_id = id;
        self.incoming = incoming;
        id
    }

    /// The proposals that wait, oldest first.
    pub fn list_incoming(&self) -> (r: Vec<IncomingForward>)
        ensures
            views(r@) == self@.incoming,
            self@.numbered(),
    {
        proof {
            use_type_invariant(self);
        }
        let mut out: Vec<IncomingForward> = Vec::new();
        let mut i: usize = 0;
        while i < self.incoming.len()
            invariant
                i <= self.incoming@.len(),
                views(out@) == views(self.incoming@).take(i as int),
            decreases self.incoming@.len() - i,
        {
            let item = self.incoming[i].clone();
            proof {
                lemma_views_push(out@, item);
            }
            out.push(item);
            i = i + 1;
            assert(views(out@) =~= views(self.incoming@).take(i as int));
        }
        assert(views(out@) =~= views(self.incoming@));
        out
    }

    /// Takes the proposal with a number out.
    pub fn take_incoming(&mut self, id: u64) -> (r: Option<IncomingForward>)
        ensures
            ({
                let i = incoming_place(old(self)@.incoming, id);
                match r {
                    Some(item) => {
                        &&& 0 <= i < old(self)@.incoming.len()
                        &&& item@ == old(self)@.incoming[i]
                        &&& item.id == id
                        &&& final(self)@ == old(self)@.taken(i)
                    },
                    None => i == old(self)@.incoming.len() && final(self)@ == old(self)@,
                }
            }),
            old(self)@.numbered() && final(self)@.numbered(),
            incoming_place(final(self)@.incoming, id) == final(self)@.incoming.len(),
    {
        proof {
            use_type_invariant(&*self);
        }
        let ghost all = self@.incoming;
        let ghost is_it = |f: IncomingForwardView| f.id == id;
        let mut i: usize = 0;
        while i < self.incoming.len()
            invariant
                i <= self.incoming@.len(),
                all == views(self.incoming@),
                self@ == old(self)@,
                self@.numbered(),
                is_it == (|f: IncomingForwardView| f.id == id),
                forall|k: int| 0 <= k < i ==> !is_it(#[trigger] all[k]),
            decreases self.incoming@.len() - i,
        {
            assert(all[i as int] == self.incoming@[i as int]@);
            if self.incoming[i].id == id {
                proof {
                    lemma_first_where(all, is_it, i as int);
                    law_proposal_taken_once(self@, id);
                }
                let mut incoming: Vec<IncomingForward> = Vec::new();
                std::mem::swap(&mut incoming, &mut self.incoming);
                let item = incoming.remove(i);
                assert(views(incoming@) =~= all.remove(i as int));
                self.incoming = incoming;
                return Some(item);
            }
            i = i + 1;
        }
        proof {
            lemma_first_where(all, is_it, i as int);
        }
        None
    }

    /// Remembers a request that was sent, by its id.
    pub fn record_outgoing(&mut self, req_id: String, outgoing: OutgoingForward)
        ensures
            final(self)@ == old(self)@.asked(req_id@, outgoing@),
    {
        proof {
            use_type_invariant(&*self);
        }
        let mut all: TextMap<OutgoingForward> = TextMap::new();
        std::mem::swap(&mut all, &mut self.outgoing);
        all.insert(req_id, outgoing);
        self.outgoing = all;
    }

    /// Forgets a request that could not be sent.
    pub fn remove_outgoing(&mut self, req_id: &str)
        ensures
            final(self)@ == old(self)@.forgotten(req_id@),
    {
        let _ = self.take_outgoing(req_id);
    }

    fn take_outgoing(&mut self, req_id: &str) -> (r: Option<OutgoingForward>)
        ensures
            final(self)@ == (NegotiatorView {
                outgoing: old(self)@.outgoing.remove(req_id@),
                ..old(self)@
            }),
            match r {
                Some(o) => old(self)@.outgoing.contains_key(req_id@) && o@
                    == old(self)@.outgoing[req_id@],
                None => !old(self)@.outgoing.contains_key(req_id@),
            },
    {
        proof {
            use_type_invariant(&*self);
        }
        let mut all: TextMap<OutgoingForward> = TextMap::new();
        std::mem::swap(&mut all, &mut self.outgoing);
        let taken = all.remove(req_id);
        self.outgoing = all;
        taken
    }

    fn add_outcome(&mut self, outcome: ForwardOutcome)
        ensures
            final(self)@ == (NegotiatorView {
                outcomes: old(self)@.outcomes.push(outcome@),
                ..old(self)@
            }),
    {
        proof {
            use_type_invariant(&*self);
            lemma_views_push(self.outcomes@, outcome);
        }
        let mut all: Vec<ForwardOutcome> = Vec::new();
        std::mem::swap(&mut all, &mut self.outcomes);
        all.push(outcome);
        self.outcomes = all;
    }

    /// The requests that wait for an answer, in the order of their ids.
    pub fn list_outgoing(&self) -> (r: Vec<OutgoingForward>)
        ensures
            views(r@) == sorted(self@.outgoing.dom()).map_values(
                |k: Seq<char>| self@.outgoing[k],
            ),
            self@.outgoing.dom().finite(),
    {
        let n = self.outgoing.len();
        let ghost all = sorted(self@.outgoing.dom()).map_values(
            |k: Seq<char>| self@.outgoing[k],
        );
        let mut out: Vec<OutgoingForward> = Vec::new();
        let mut i: usize = 0;
        while i < n
            invariant
                i <= n,
                n == self.outgoing.keys().len(),
                self.outgoing.keys() == sorted(self.outgoing@.dom()),
                all == sorted(self.outgoing@.dom()).map_values(
                    |k: Seq<char>| self@.outgoing[k],
                ),
                views(out@) == all.take(i as int),
            decreases n - i,
        {
            let item = self.outgoing.value_at(i).clone();
            proof {
                lemma_views_push(out@, item);
                assert(item@ == all[i as int]);
            }
            out.push(item);
            i = i + 1;
            assert(views(out@) =~= all.take(i as int));
        }
        assert(all.take(n as int) =~= all);
        out
    }

    /// Matches an answer with the request it is for. An answer to an unknown
    /// request is ignored.
    pub fn record_response(&mut self, req_id: &str, accepted: bool)
        ensures
            final(self)@ == old(self)@.answered(req_id@, accepted),
    {
        match self.take_outgoing(req_id) {
            Some(outgoing) => {
                self.add_outcome(ForwardOutcome { outgoing, accepted, reason: None });
            },
            None => {
                assert(self@.outgoing =~= old(self)@.outgoing);
            },
        }
    }

    /// Takes the outcomes that came in since the last time.
    pub fn drain_outcomes(&mut self) -> (r: Vec<ForwardOutcome>)
        ensures
            views(r@) == old(self)@.outcomes,
            final(self)@ == old(self)@.drained(),
    {
        proof {
            use_type_invariant(&*self);
        }
        let mut taken: Vec<ForwardOutcome> = Vec::new();
        std::mem::swap(&mut taken, &mut self.outcomes);
        assert(self@.outcomes =~= Seq::empty());
        taken
    }

    /// Drops the proposals of a peer that is gone and lets the requests that
    /// were sent to it fail. Gives how many there were of each.
    pub fn purge_peer(&mut self, peer_id: &str) -> (r: (usize, usize))
        ensures
            final(self)@ == old(self)@.purged(peer_id@),
            r.0 == old(self)@.incoming.len() - incoming_not_of(
                old(self)@.incoming,
                peer_id@,
            ).len(),
            r.1 == requests_to(old(self)@.outgoing, peer_id@).len(),
            old(self)@.outgoing.dom().finite(),
            old(self)@.numbered() && final(self)@.numbered(),
    {
        proof {
            use_type_invariant(&*self);
            law_purge_keeps_numbering(self@, peer_id@);
        }
        let incoming = self.purge_incoming(peer_id);
        let keys = self.outgoing_to(peer_id);
        let ghost before = self@;
        let ghost all = texts(keys@);
        let ghost m = before.outgoing;
        let ghost failed = all.map_values(|k: Seq<char>| lost(m[k]));
        proof {
            lemma_requests_distinct(m, peer_id@);
        }
        assert(m.remove_keys(all.take(0).to_set()) =~= m);
        assert(self@.outcomes =~= before.outcomes + failed.take(0));
        let mut i: usize = 0;
        while i < keys.len()
            invariant
                i <= keys@.len(),
                all == texts(keys@),
                all == requests_to(m, peer_id@),
                all.no_duplicates(),
                forall|k: int| 0 <= k < all.len() ==> m.contains_key(#[trigger] all[k]),
                failed == all.map_values(|k: Seq<char>| lost(m[k])),
                self@.last_id == before.last_id,
                self@.incoming == before.incoming,
                self@.outgoing == m.remove_keys(all.take(i as int).to_set()),
                self@.outcomes == before.outcomes + failed.take(i as int),
            decreases keys@.len() - i,
        {
            let ghost done = all.take(i as int).to_set();
            let ghost key = keys@[i as int]@;
            proof {
                assert(all[i as int] == key);
                assert(!done.contains(key)) by {
                    if done.contains(key) {
                        let h = all.take(i as int);
                        let k = choose|k: int| 0 <= k < h.len() && h[k] == key;
                        assert(all[k] == all[i as int]);
                    }
                }
                let next = all.take(i + 1);
                assert(next.to_set() =~= done.insert(key)) by {
                    assert(next =~= all.take(i as int).push(key));
                    assert forall|x: Seq<char>| next.to_set().contains(x) == done.insert(
                        key,
                    ).contains(x) by {
                        let h = all.take(i as int);
                        if h.contains(x) {
                            let k = choose|k: int| 0 <= k < h.len() && h[k] == x;
                            assert(next[k] == x);
                        }
                        if next.contains(x) {
                            let k = choose|k: int| 0 <= k < next.len() && next[k] == x;
                            if k < i {
                                assert(h[k] == x);
                            }
                        }
                        assert(next[i as int] == key);
                    }
                }
            }
            if let Some(outgoing) = self.take_outgoing(keys[i].as_str()) {
                let outcome = ForwardOutcome {
                    outgoing,
                    accepted: false,
                    reason: Some(text::copy("peer disconnected")),
                };
                assert(outcome@ == failed[i as int]);
                self.add_outcome(outcome);
            }
            assert(self@.outgoing =~= m.remove_keys(all.take(i + 1).to_set()));
            assert(failed.take(i + 1) =~= failed.take(i as int).push(failed[i as int]));
            assert(self@.outcomes =~= before.outcomes + failed.take(i + 1));
            i = i + 1;
        }
        proof {
            assert(all.take(i as int) =~= all);
            assert(failed.take(i as int) =~= failed);
            lemma_requests_are_those(m, peer_id@);
            assert(self@.outgoing =~= outgoing_not_to(m, peer_id@));
            assert(self@.outcomes =~= old(self)@.purged(peer_id@).outcomes);
        }
        (incoming, keys.len())
    }

    fn purge_incoming(&mut self, peer_id: &str) -> (r: usize)
        ensures
            final(self)@ == (NegotiatorView {
                incoming: incoming_not_of(old(self)@.incoming, peer_id@),
                ..old(self)@
            }),
            r == old(self)@.incoming.len() - final(self)@.incoming.len(),
    {
        proof {
            use_type_invariant(&*self);
            law_purge_keeps_numbering(self@, peer_id@);
        }
        let ghost all = self@.incoming;
        let mut kept: Vec<IncomingForward> = Vec::new();
        let mut i: usize = 0;
        assert(all.take(0) =~= Seq::empty());
        assert(views(kept@) =~= incoming_not_of(all.take(0), peer_id@));
        while i < self.incoming.len()
            invariant
                i <= self.incoming@.len(),
                all == views(self.incoming@),
                kept@.len() <= i,
                views(kept@) == incoming_not_of(all.take(i as int), peer_id@),
            decreases self.incoming@.len() - i,
        {
            proof {
                let head = all.take(i + 1);
                assert(head.drop_last() =~= all.take(i as int));
                assert(head.last() == self.incoming@[i as int]@);
                reveal(Seq::filter);
            }
            if !text::same(self.incoming[i].peer_id.as_str(), peer_id) {
                let item = self.incoming[i].clone();
                proof {
                    lemma_views_push(kept@, item);
                }
                kept.push(item);
            }
            i = i + 1;
        }
        assert(all.take(i as int) =~= all);
        let purged: usize = self.incoming.len() - kept.len();
        self.incoming = kept;
        purged
    }

    fn outgoing_to(&self, peer_id: &str) -> (r: Vec<String>)
        ensures
            texts(r@) == requests_to(self@.outgoing, peer_id@),
            self@.outgoing.dom().finite(),
    {
        let n = self.outgoing.len();
        let ghost m = self.outgoing@;
        let ghost keys = self.outgoing.keys();
        let ghost is_to = |k: Seq<char>| m[k].peer_id == peer_id@;
        let mut out: Vec<String> = Vec::new();
        let mut i: usize = 0;
        assert(keys.take(0) =~= Seq::empty());
        assert(texts(out@) =~= keys.take(0).filter(is_to)) by {
            reveal(Seq::filter);
        }
        while i < n
            invariant
                i <= n,
                n == keys.len(),
                keys == self.outgoing.keys(),
                m == self.outgoing@,
                is_to == (|k: Seq<char>| m[k].peer_id == peer_id@),
                texts(out@) == keys.take(i as int).filter(is_to),
            decreases n - i,
        {
            proof {
                let head = keys.take(i + 1);
                assert(head.drop_last() =~= keys.take(i as int));
                assert(head.last() == keys[i as int]);
                reveal(Seq::filter);
            }
            if text::same(self.outgoing.value_at(i).peer_id.as_str(), peer_id) {
                let ghost before = out@;
                let key = text::copy(self.outgoing.key_at(i));
                out.push(key);
                assert(texts(out@) =~= texts(before).push(key@));
            }
            i = i + 1;
        }
        assert(keys.take(i as int) =~= keys);
        out
    }
}

impl Default for ForwardNegotiator {
    fn default() -> (r: Self)
        ensures
            r@ == fresh_negotiator(),
    {
        Self::new()
    }
}

proof fn lemma_filter_distinct(s: Seq<Seq<char>>, p: spec_fn(Seq<char>) -> bool)
    requires
        s.no_duplicates(),
    ensures
        s.filter(p).no_duplicates(),
        forall|k: int| 0 <= k < s.filter(p).len() ==> s.contains(#[trigger] s.filter(p)[k]),
    decreases s.len(),
{
    reveal(Seq::filter);
    if s.len() > 0 {
        let rest = s.drop_last();
        lemma_filter_distinct(rest, p);
        let f = rest.filter(p);
        let all = s.filter(p);
        assert forall|k: int| 0 <= k < all.len() implies s.contains(#[trigger] all[k]) by {
            if k < f.len() {
                assert(rest.contains(f[k]));
                let i = choose|i: int| 0 <= i < rest.len() && rest[i] == f[k];
                assert(s[i] == all[k]);
            } else {
                assert(s[s.len() - 1] == all[k]);
            }
        }
        assert forall|i: int, j: int| 0 <= i < all.len() && 0 <= j < all.len() && i != j implies
            all[i] != all[j] by {
            if i < f.len() && j < f.len() {
                assert(f[i] != f[j]);
            } else {
                let a = if i < f.len() {
                    i
                } else {
                    j
                };
                assert(rest.contains(f[a]));
                let k = choose|k: int| 0 <= k < rest.len() && rest[k] == f[a];
                assert(s[k] != s[s.len() - 1]);
            }
        }
    }
}

proof fn lemma_requests_distinct(m: Map<Seq<char>, OutgoingForwardView>, peer_id: Seq<char>)
    requires
        m.dom().finite(),
    ensures
        requests_to(m, peer_id).no_duplicates(),
        forall|k: int|
            0 <= k < requests_to(m, peer_id).len() ==> m.contains_key(
                #[trigger] requests_to(m, peer_id)[k],
            ),
{
    let keys = sorted(m.dom());
    crate::text_map::lemma_sorted_exists(m.dom());
    assert(keys.no_duplicates()) by {
        assert forall|i: int, j: int| 0 <= i < keys.len() && 0 <= j < keys.len() && i != j implies
            keys[i] != keys[j] by {
            if i < j {
                assert(text::text_before(keys[i], keys[j]));
            } else {
                assert(text::text_before(keys[j], keys[i]));
            }
            text::lemma_before_irreflexive(keys[i]);
        }
    }
    let p = |k: Seq<char>| m[k].peer_id == peer_id;
    lemma_filter_distinct(keys, p);
    assert forall|k: int| 0 <= k < requests_to(m, peer_id).len() implies m.contains_key(
        #[trigger] requests_to(m, peer_id)[k],
    ) by {
        assert(keys.contains(keys.filter(p)[k]));
        assert(keys.to_set().contains(keys.filter(p)[k]));
    }
}

proof fn lemma_requests_are_those(m: Map<Seq<char>, OutgoingForwardView>, peer_id: Seq<char>)
    requires
        m.dom().finite(),
    ensures
        forall|k: Seq<char>|
            m.contains_key(k) ==> (#[trigger] requests_to(m, peer_id).to_set().contains(k)
                == (m[k].peer_id == peer_id)),
{
    broadcast use vstd::seq_lib::group_filter_ensures;

    let keys = sorted(m.dom());
    crate::text_map::lemma_sorted_exists(m.dom());
    let p = |k: Seq<char>| m[k].peer_id == peer_id;
    assert forall|k: Seq<char>| m.contains_key(k) implies (#[trigger] requests_to(
        m,
        peer_id,
    ).to_set().contains(k) == (m[k].peer_id == peer_id)) by {
        assert(keys.to_set().contains(k));
        let i = choose|i: int| 0 <= i < keys.len() && keys[i] == k;
        if m[k].peer_id == peer_id {
            assert(p(keys[i]));
            assert(keys.filter(p).contains(keys[i]));
        }
        if keys.filter(p).contains(k) {
            let j = choose|j: int| 0 <= j < keys.filter(p).len() && keys.filter(p)[j] == k;
            assert(p(keys.filter(p)[j]));
        }
    }
}

/// A request is answered once: a second answer with the same id changes
/// nothing, and neither does an answer to an unknown request.
pub proof fn law_answer_matches_once(v: NegotiatorView, req_id: Seq<char>, first: bool, second: bool)
    ensures
        v.answered(req_id, first).answered(req_id, second) == v.answered(req_id, first),
        !v.outgoing.contains_key(req_id) ==> v.answered(req_id, first) == v,
{
}

/// The answer to a request that was sent brings exactly one outcome, with what
/// was asked and what was answered.
pub proof fn law_request_then_answer(
    v: NegotiatorView,
    req_id: Seq<char>,
    outgoing: OutgoingForwardView,
    accepted: bool,
)
    requires
        !v.outgoing.contains_key(req_id),
    ensures
        ({
            let asked = NegotiatorView {
                outgoing: v.outgoing.insert(req_id, outgoing),
                ..v
            };
            asked.answered(req_id, accepted) == (NegotiatorView {
                outcomes: v.outcomes.push(
                    ForwardOutcomeView { outgoing, accepted, reason: None },
                ),
                ..v
            })
        }),
{
    assert(v.outgoing.insert(req_id, outgoing).remove(req_id) =~= v.outgoing);
}

/// A proposal can be taken once: afterwards nothing waits under its number.
pub proof fn law_proposal_taken_once(v: NegotiatorView, id: u64)
    requires
        v.numbered(),
        incoming_place(v.incoming, id) < v.incoming.len(),
    ensures
        ({
            let rest = v.incoming.remove(incoming_place(v.incoming, id));
            &&& incoming_place(rest, id) == rest.len()
            &&& (NegotiatorView { incoming: rest, ..v }).numbered()
        }),
{
    let is_it = |f: IncomingForwardView| f.id == id;
    lemma_first_where_bounds(v.incoming, is_it);
    let i = incoming_place(v.incoming, id);
    let rest = v.incoming.remove(i);
    assert forall|k: int| 0 <= k < rest.len() implies !is_it(#[trigger] rest[k]) by {
        if k < i {
            assert(!is_it(v.incoming[k]));
        } else {
            assert(v.incoming[i].id < v.incoming[k + 1].id);
        }
    }
    lemma_first_where(rest, is_it, rest.len() as int);
    assert forall|a: int, b: int| 0 <= a < b < rest.len() implies (#[trigger] rest[a]).id < (
    #[trigger] rest[b]).id by {
        let x = if a < i {
            a
        } else {
            a + 1
        };
        let y = if b < i {
            b
        } else {
            b + 1
        };
        assert(v.incoming[x].id < v.incoming[y].id);
    }
}

/// Dropping the proposals of a peer keeps the numbers of the others rising.
pub proof fn law_purge_keeps_numbering(v: NegotiatorView, peer_id: Seq<char>)
    requires
        v.numbered(),
    ensures
        v.purged(peer_id).numbered(),
    decreases v.incoming.len(),
{
    reveal(Seq::filter);
    let s = v.incoming;
    if s.len() > 0 {
        let others = |f: IncomingForwardView| f.peer_id != peer_id;
        let init = s.drop_last();
        law_purge_keeps_numbering(NegotiatorView { incoming: init, ..v }, peer_id);
        let kept = incoming_not_of(init, peer_id);
        let all = incoming_not_of(s, peer_id);
        assert((NegotiatorView { incoming: init, ..v }).purged(peer_id).incoming == kept);
        assert forall|k: int| 0 <= k < kept.len() implies (#[trigger] kept[k]).id < s.last().id by {
            assert(kept.contains(kept[k]));
            init.lemma_filter_contains_rev(others, kept[k]);
            let j = choose|j: int| 0 <= j < init.len() && init[j] == kept[k];
            assert(s[j].id < s[s.len() - 1].id);
        }
        assert forall|a: int, b: int| 0 <= a < b < all.len() implies (#[trigger] all[a]).id < (
        #[trigger] all[b]).id by {
            assert(all[a] == kept[a]);
            if b < kept.len() {
                assert(kept[a].id < kept[b].id);
            }
        }
    }
}

/// A new proposal gets a number above all that wait, and is found under it.
pub proof fn law_proposal_is_found(
    v: NegotiatorView,
    req_id: Seq<char>,
    peer_id: Seq<char>,
    proto: Seq<char>,
    remote_addr: Seq<char>,
    target: Seq<char>,
)
    requires
        v.numbered(),
        v.last_id < u64::MAX,
    ensures
        ({
            let next = v.proposed(req_id, peer_id, proto, remote_addr, target);
            let i = incoming_place(next.incoming, next.last_id);
            &&& next.numbered()
            &&& i == v.incoming.len()
            &&& next.incoming[i].req_id == req_id
            &&& next.incoming.remove(i) == v.incoming
        }),
{
    let next = v.proposed(req_id, peer_id, proto, remote_addr, target);
    let n = v.incoming.len() as int;
    let is_it = |f: IncomingForwardView| f.id == next.last_id;
    assert forall|k: int| 0 <= k < n implies !is_it(#[trigger] next.incoming[k]) by {
        assert(v.incoming[k].id <= v.last_id);
    }
    lemma_first_where(next.incoming, is_it, n);
    assert(next.incoming.remove(n) =~= v.incoming);
}

/// A proposal is recorded as it was made, under the number after the last one and
/// behind the others; nothing else changes.
pub proof fn law_proposal_is_recorded(
    v: NegotiatorView,
    req_id: Seq<char>,
    peer_id: Seq<char>,
    proto: Seq<char>,
    remote_addr: Seq<char>,
    target: Seq<char>,
)
    requires
        v.last_id < u64::MAX,
    ensures
        ({
            let next = v.proposed(req_id, peer_id, proto, remote_addr, target);
            let f = next.incoming.last();
            &&& next.incoming.drop_last() == v.incoming
            &&& f.id == v.last_id + 1 && next.last_id == f.id
            &&& f.req_id == req_id && f.peer_id == peer_id && f.proto == proto && f.remote_addr
                == remote_addr && f.target == target
            &&& next.outgoing == v.outgoing && next.outcomes == v.outcomes
        }),
{
    let next = v.proposed(req_id, peer_id, proto, remote_addr, target);
    assert(next.incoming.drop_last() =~= v.incoming);
}

/// Taking a proposal out by its number takes that one, and leaves all others and
/// everything else as it was.
pub proof fn law_taking_leaves_the_others(v: NegotiatorView, id: u64, f: IncomingForwardView)
    requires
        v.numbered(),
        incoming_place(v.incoming, id) < v.incoming.len(),
    ensures
        ({
            let i = incoming_place(v.incoming, id);
            let next = v.taken(i);
            &&& 0 <= i && v.incoming[i].id == id
            &&& next.incoming.contains(f) <==> v.incoming.contains(f) && f.id != id
            &&& next.last_id == v.last_id && next.outgoing == v.outgoing && next.outcomes
                == v.outcomes
        }),
{
    let is_it = |f: IncomingForwardView| f.id == id;
    lemma_first_where_bounds(v.incoming, is_it);
    law_proposal_taken_once(v, id);
    let i = incoming_place(v.incoming, id);
    let rest = v.taken(i).incoming;
    if v.incoming.contains(f) && f.id != id {
        let k = choose|k: int| 0 <= k < v.incoming.len() && v.incoming[k] == f;
        if k < i {
            assert(rest[k] == f);
        } else {
            assert(rest[k - 1] == f);
        }
    }
    if rest.contains(f) {
        let k = choose|k: int| 0 <= k < rest.len() && rest[k] == f;
        lemma_first_where_bounds(rest, is_it);
        assert(!is_it(rest[k]));
        if k < i {
            assert(v.incoming[k] == f);
        } else {
            assert(v.incoming[k + 1] == f);
        }
    }
}

/// A proposal waits under a number if and only if one of those that wait has it.
pub proof fn law_place_finds_what_waits(v: NegotiatorView, id: u64)
    ensures
        0 <= incoming_place(v.incoming, id) <= v.incoming.len(),
        incoming_place(v.incoming, id) < v.incoming.len() <==> exists|k: int|
            0 <= k < v.incoming.len() && (#[trigger] v.incoming[k]).id == id,
{
    let is_it = |f: IncomingForwardView| f.id == id;
    lemma_first_where_bounds(v.incoming, is_it);
    let i = incoming_place(v.incoming, id);
    if i < v.incoming.len() {
        assert(is_it(v.incoming[i]));
    }
    if exists|k: int| 0 <= k < v.incoming.len() && (#[trigger] v.incoming[k]).id == id {
        let k = choose|k: int| 0 <= k < v.incoming.len() && (#[trigger] v.incoming[k]).id == id;
        assert(is_it(v.incoming[k]));
    }
}

/// A request that is sent waits as it was made until it is answered or forgotten, and
/// neither touches another one. The answer brings an outcome behind the others, with
/// what was asked and what was answered, and no reason of this node's own.
pub proof fn law_requests_wait_for_their_answer(
    v: NegotiatorView,
    req_id: Seq<char>,
    outgoing: OutgoingForwardView,
    accepted: bool,
    other: Seq<char>,
)
    ensures
        ({
            let asked = v.asked(req_id, outgoing);
            let answered = asked.answered(req_id, accepted);
            let forgotten = v.forgotten(req_id);
            &&& asked.outgoing.contains_key(req_id) && asked.outgoing[req_id] == outgoing
            &&& !answered.outgoing.contains_key(req_id) && !forgotten.outgoing.contains_key(req_id)
            &&& other != req_id ==> {
                &&& asked.outgoing.contains_key(other) <==> v.outgoing.contains_key(other)
                &&& answered.outgoing.contains_key(other) <==> v.outgoing.contains_key(other)
                &&& forgotten.outgoing.contains_key(other) <==> v.outgoing.contains_key(other)
                &&& v.outgoing.contains_key(other) ==> asked.outgoing[other] == v.outgoing[other]
                    && answered.outgoing[other] == v.outgoing[other] && forgotten.outgoing[other]
                    == v.outgoing[other]
            }
            &&& asked.outcomes == v.outcomes && forgotten.outcomes == v.outcomes
            &&& answered.outcomes.drop_last() == v.outcomes
            &&& answered.outcomes.last().outgoing == outgoing
            &&& answered.outcomes.last().accepted == accepted
            &&& answered.outcomes.last().reason is None
            &&& asked.incoming == v.incoming && answered.incoming == v.incoming
                && forgotten.incoming == v.incoming
            &&& asked.last_id == v.last_id && answered.last_id == v.last_id && forgotten.last_id
                == v.last_id
        }),
{
    assert(v.asked(req_id, outgoing).answered(req_id, accepted).outcomes.drop_last()
        =~= v.outcomes);
}

/// The outcomes are taken once, and nothing else is.
pub proof fn law_outcomes_are_taken_once(v: NegotiatorView)
    ensures
        v.drained().outcomes.len() == 0,
        v.drained().incoming == v.incoming,
        v.drained().outgoing == v.outgoing,
        v.drained().last_id == v.last_id,
        fresh_negotiator().incoming.len() == 0,
        fresh_negotiator().outcomes.len() == 0,
        fresh_negotiator().outgoing.dom() == Set::<Seq<char>>::empty(),
        fresh_negotiator().last_id == 0,
{
}

/// With a peer that is gone go its proposals and the requests that were sent to it,
/// and no other ones. Each of those requests has failed, with the reason; what came of
/// earlier ones stays.
pub proof fn law_purge_takes_only_that_peer(
    v: NegotiatorView,
    peer_id: Seq<char>,
    f: IncomingForwardView,
    req_id: Seq<char>,
)
    requires
        v.outgoing.dom().finite(),
    ensures
        ({
            let next = v.purged(peer_id);
            &&& next.last_id == v.last_id
            &&& next.incoming.contains(f) <==> v.incoming.contains(f) && f.peer_id != peer_id
            &&& next.outgoing.contains_key(req_id) <==> v.outgoing.contains_key(req_id)
                && v.outgoing[req_id].peer_id != peer_id
            &&& next.outgoing.contains_key(req_id) ==> next.outgoing[req_id] == v.outgoing[req_id]
            &&& next.outcomes.len() >= v.outcomes.len()
            &&& next.outcomes.take(v.outcomes.len() as int) == v.outcomes
            &&& forall|i: int|
                v.outcomes.len() <= i < next.outcomes.len() ==> {
                    &&& !(#[trigger] next.outcomes[i]).accepted
                    &&& next.outcomes[i].reason == Some("peer disconnected"@)
                    &&& next.outcomes[i].outgoing.peer_id == peer_id
                }
            &&& v.outgoing.contains_key(req_id) && v.outgoing[req_id].peer_id == peer_id
                ==> exists|i: int|
                v.outcomes.len() <= i < next.outcomes.len() && (#[trigger] next.outcomes[i]).outgoing
                    == v.outgoing[req_id]
        }),
        forall|a: Seq<IncomingForwardView>, b: Seq<IncomingForwardView>| #[trigger]
            incoming_not_of(a + b, peer_id) == incoming_not_of(a, peer_id) + incoming_not_of(
                b,
                peer_id,
            ),
        requests_to(v.outgoing, peer_id).no_duplicates(),
        v.purged(peer_id).outcomes.len() == v.outcomes.len() + requests_to(
            v.outgoing,
            peer_id,
        ).len(),
        requests_to(v.outgoing, peer_id).contains(req_id) <==> v.outgoing.contains_key(req_id)
            && v.outgoing[req_id].peer_id == peer_id,
{
    broadcast use vstd::seq_lib::group_filter_ensures;

    let others = |f: IncomingForwardView| f.peer_id != peer_id;
    let next = v.purged(peer_id);
    let kept = incoming_not_of(v.incoming, peer_id);
    if v.incoming.contains(f) && f.peer_id != peer_id {
        let i = choose|i: int| 0 <= i < v.incoming.len() && v.incoming[i] == f;
        assert(others(v.incoming[i]));
        assert(kept.contains(f));
    }
    if kept.contains(f) {
        v.incoming.lemma_filter_contains_rev(others, f);
        let j = choose|j: int| 0 <= j < kept.len() && kept[j] == f;
        assert(others(kept[j]));
    }
    assert forall|a: Seq<IncomingForwardView>, b: Seq<IncomingForwardView>| #[trigger]
        incoming_not_of(a + b, peer_id) == incoming_not_of(a, peer_id) + incoming_not_of(
            b,
            peer_id,
        ) by {
        Seq::filter_distributes_over_add(a, b, others);
    }
    assert(next.outcomes.take(v.outcomes.len() as int) =~= v.outcomes);
    lemma_requests_distinct(v.outgoing, peer_id);
    lemma_requests_are_those(v.outgoing, peer_id);
    let keys = requests_to(v.outgoing, peer_id);
    assert forall|k: int| 0 <= k < keys.len() implies v.outgoing[#[trigger] keys[k]].peer_id
        == peer_id by {
        assert(v.outgoing.contains_key(keys[k]));
        assert(keys.contains(keys[k]));
        assert(keys.to_set().contains(keys[k]));
    }
    assert forall|i: int| v.outcomes.len() <= i < next.outcomes.len() implies {
        &&& !(#[trigger] next.outcomes[i]).accepted
        &&& next.outcomes[i].reason == Some("peer disconnected"@)
        &&& next.outcomes[i].outgoing.peer_id == peer_id
    } by {
        let k = i - v.outcomes.len();
        assert(v.outgoing[keys[k]].peer_id == peer_id);
    }
    if v.outgoing.contains_key(req_id) {
        assert(keys.to_set().contains(req_id) == (v.outgoing[req_id].peer_id == peer_id));
    }
    if keys.contains(req_id) {
        let k = choose|k: int| 0 <= k < keys.len() && keys[k] == req_id;
        assert(v.outgoing.contains_key(keys[k]));
        let i = v.outcomes.len() + k;
        assert(next.outcomes[i].outgoing == v.outgoing[req_id]);
    }
}

} // verus!
