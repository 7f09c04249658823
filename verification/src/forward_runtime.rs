//! The traffic counters of one forward and its stop signal.
use vstd::prelude::*;

use crate::model::{lemma_total_insert, lemma_views_push, total, views};
use crate::text;
use crate::text_map::{sorted, TextMap};

verus! {

/// The counters of a forward or of one of its peers.
#[derive(Debug, Clone, Copy, PartialEq, Eq)]
pub struct ForwardMetrics {
    pub active_conns: usize,
    pub bytes_in: u64,
    pub bytes_out: u64,
}

impl View for ForwardMetrics {
    type V = ForwardMetrics;

    open spec fn view(&self) -> ForwardMetrics {
        *self
    }
}

/// The traffic of a single forward with one peer.
#[derive(Debug, PartialEq, Eq)]
pub struct PeerMetrics {
    pub peer_id: String,
    pub active_conns: usize,
    pub bytes_in: u64,
    pub bytes_out: u64,
}

/// The model of `PeerMetrics`.
pub struct PeerMetricsView {
    pub peer_id: Seq<char>,
    pub active_conns: usize,
    pub bytes_in: u64,
    pub bytes_out: u64,
}

impl View for PeerMetrics {
    type V = PeerMetricsView;

    open spec fn view(&self) -> PeerMetricsView {
        PeerMetricsView {
            peer_id: self.peer_id@,
            active_conns: self.active_conns,
            bytes_in: self.bytes_in,
            bytes_out: self.bytes_out,
        }
    }
}

impl Clone for PeerMetrics {
    fn clone(&self) -> (r: Self)
        ensures
            r@ == self@,
    {
        PeerMetrics {
            peer_id: text::copy(self.peer_id.as_str()),
            active_conns: self.active_conns,
            bytes_in: self.bytes_in,
            bytes_out: self.bytes_out,
        }
    }
}

/// Counters that have counted nothing.
pub open spec fn no_traffic() -> ForwardMetrics {
    ForwardMetrics { active_conns: 0, bytes_in: 0, bytes_out: 0 }
}

/// Counters after one more connection; the count wraps around.
pub open spec fn opened(m: ForwardMetrics) -> ForwardMetrics {
    ForwardMetrics {
        active_conns: if m.active_conns == usize::MAX {
            0
        } else {
            (m.active_conns + 1) as usize
        },
        ..m
    }
}

/// Counters after one connection less; the count stops at zero.
pub open spec fn closed(m: ForwardMetrics) -> ForwardMetrics {
    ForwardMetrics {
        active_conns: if m.active_conns == 0 {
            0
        } else {
            (m.active_conns - 1) as usize
        },
        ..m
    }
}

/// A sum of byte counts; it wraps around.
pub open spec fn wrapped(n: int) -> u64 {
    (n % 0x1_0000_0000_0000_0000) as u64
}

/// Counters after bytes came in.
pub open spec fn received(m: ForwardMetrics, bytes: int) -> ForwardMetrics {
    ForwardMetrics { bytes_in: wrapped(m.bytes_in + bytes), ..m }
}

/// Counters after bytes went out.
pub open spec fn sent(m: ForwardMetrics, bytes: int) -> ForwardMetrics {
    ForwardMetrics { bytes_out: wrapped(m.bytes_out + bytes), ..m }
}

fn add_wrapping(a: u64, b: u64) -> (r: u64)
    ensures
        r == wrapped(a + b),
{
    a.wrapping_add(b)
}

fn after_open(m: ForwardMetrics) -> (r: ForwardMetrics)
    ensures
        r == opened(m),
{
    ForwardMetrics { active_conns: m.active_conns.wrapping_add(1), ..m }
}

fn after_close(m: ForwardMetrics) -> (r: ForwardMetrics)
    ensures
        r == closed(m),
{
    ForwardMetrics { active_conns: m.active_conns.saturating_sub(1), ..m }
}

fn after_received(m: ForwardMetrics, bytes: usize) -> (r: ForwardMetrics)
    ensures
        r == received(m, bytes as int),
{
    ForwardMetrics { bytes_in: add_wrapping(m.bytes_in, bytes as u64), ..m }
}

fn after_sent(m: ForwardMetrics, bytes: usize) -> (r: ForwardMetrics)
    ensures
        r == sent(m, bytes as int),
{
    ForwardMetrics { bytes_out: add_wrapping(m.bytes_out, bytes as u64), ..m }
}

/// A task's wish to hear when its forward is told to stop.
#[derive(Debug)]
pub struct Subscription {
    seen: u64,
}

impl View for Subscription {
    /// The number of the last word that was heard.
    type V = u64;

    closed spec fn view(&self) -> u64 {
        self.seen
    }
}

/// The counters of a forward, the counters of each of its peers, and whether
/// the forward was told to stop.
pub struct ForwardRuntime {
    metrics: ForwardMetrics,
    per_peer: TextMap<ForwardMetrics>,
    cancelled: bool,
    subscribers: usize,
    words: u64,
}

/// The model of `ForwardRuntime`.
#[verifier::ext_equal]
pub struct RuntimeView {
    pub metrics: ForwardMetrics,
    pub per_peer: Map<Seq<char>, ForwardMetrics>,
    /// The forward was told to stop while somebody listened.
    pub cancelled: bool,
    /// How many subscriptions there are.
    pub subscribers: usize,
    /// How often the subscribers were told; the count wraps around.
    pub words: u64,
}

/// Counters at zero, no subscriber, not told to stop.
pub open spec fn fresh_runtime() -> RuntimeView {
    RuntimeView {
        metrics: no_traffic(),
        per_peer: Map::empty(),
        cancelled: false,
        subscribers: 0,
        words: 0,
    }
}

impl RuntimeView {
    /// The counters of a peer; zero for one that was never counted.
    pub open spec fn peer(self, peer_id: Seq<char>) -> ForwardMetrics {
        if self.per_peer.contains_key(peer_id) {
            self.per_peer[peer_id]
        } else {
            no_traffic()
        }
    }

    /// The state with other counters for one peer.
    pub open spec fn with_peer(self, peer_id: Seq<char>, m: ForwardMetrics) -> RuntimeView {
        RuntimeView { per_peer: self.per_peer.insert(peer_id, m), ..self }
    }

    /// The state with other counters of the forward as a whole.
    pub open spec fn with_metrics(self, m: ForwardMetrics) -> RuntimeView {
        RuntimeView { metrics: m, ..self }
    }

    /// The state after a connection with a peer was opened.
    pub open spec fn opened_by(self, peer_id: Seq<char>) -> RuntimeView {
        self.with_metrics(opened(self.metrics)).with_peer(peer_id, opened(self.peer(peer_id)))
    }

    /// The state after a connection with a peer was closed.
    pub open spec fn closed_by(self, peer_id: Seq<char>) -> RuntimeView {
        self.with_metrics(closed(self.metrics)).with_peer(peer_id, closed(self.peer(peer_id)))
    }

    /// The state after bytes came in from a peer.
    pub open spec fn received_from(self, peer_id: Seq<char>, bytes: int) -> RuntimeView {
        self.with_metrics(received(self.metrics, bytes)).with_peer(
            peer_id,
            received(self.peer(peer_id), bytes),
        )
    }

    /// The state after bytes went out to a peer.
    pub open spec fn sent_to(self, peer_id: Seq<char>, bytes: int) -> RuntimeView {
        self.with_metrics(sent(self.metrics, bytes)).with_peer(
            peer_id,
            sent(self.peer(peer_id), bytes),
        )
    }

    /// Whether there is something that a subscriber has not heard yet, who has heard
    /// all up to a number.
    pub open spec fn has_news(self, heard: u64) -> bool {
        heard != self.words
    }

    /// The state after one more task subscribed.
    pub open spec fn subscribed(self) -> RuntimeView {
        RuntimeView {
            subscribers: if self.subscribers == usize::MAX {
                0
            } else {
                (self.subscribers + 1) as usize
            },
            ..self
        }
    }

    /// The state after a subscription was given up.
    pub open spec fn unsubscribed(self) -> RuntimeView {
        RuntimeView {
            subscribers: if self.subscribers == 0 {
                0
            } else {
                (self.subscribers - 1) as usize
            },
            ..self
        }
    }

    /// The state after the forward was told to stop. Where nobody listens the
    /// word is lost.
    pub open spec fn told_to_stop(self) -> RuntimeView {
        if self.subscribers == 0 {
            self
        } else {
            RuntimeView { cancelled: true, words: wrapped(self.words + 1), ..self }
        }
    }

    /// The entry of a peer in the list of peers.
    pub open spec fn peer_entry(self, peer_id: Seq<char>) -> PeerMetricsView {
        PeerMetricsView {
            peer_id,
            active_conns: self.per_peer[peer_id].active_conns,
            bytes_in: self.per_peer[peer_id].bytes_in,
            bytes_out: self.per_peer[peer_id].bytes_out,
        }
    }

    /// The peers in the order of their ids, each with its counters.
    pub open spec fn peer_entries(self) -> Seq<PeerMetricsView> {
        sorted(self.per_peer.dom()).map_values(|id: Seq<char>| self.peer_entry(id))
    }
}

impl View for ForwardRuntime {
    type V = RuntimeView;

    closed spec fn view(&self) -> RuntimeView {
        RuntimeView {
            metrics: self.metrics,
            per_peer: self.per_peer@,
            cancelled: self.cancelled,
            subscribers: self.subscribers,
            words: self.words,
        }
    }
}

impl ForwardRuntime {
    /// Counters at zero, no subscriber, not told to stop.
    pub fn new() -> (r: Self)
        ensures
            r@ == fresh_runtime(),
    {
        ForwardRuntime {
            metrics: ForwardMetrics { active_conns: 0, bytes_in: 0, bytes_out: 0 },
            per_peer: TextMap::new(),
            cancelled: false,
            subscribers: 0,
            words: 0,
        }
    }

    /// The counters of the forward as a whole.
    pub fn metrics(&self) -> (r: ForwardMetrics)
        ensures
            r == self@.metrics,
    {
        self.metrics
    }

    /// The counters of each peer, sorted by peer id. A peer stays listed after
    /// its connections closed.
    pub fn peer_metrics(&self) -> (r: Vec<PeerMetrics>)
        ensures
            views(r@) == self@.peer_entries(),
            self@.per_peer.dom().finite(),
    {
        let n = self.per_peer.len();
        let ghost all = self@.peer_entries();
        let mut out: Vec<PeerMetrics> = Vec::new();
        let mut i: usize = 0;
        while i < n
            invariant
                i <= n,
                n == self.per_peer.keys().len(),
                self.per_peer.keys() == sorted(self.per_peer@.dom()),
                all == self@.peer_entries(),
                views(out@) == all.take(i as int),
            decreases n - i,
        {
            let key = self.per_peer.key_at(i);
            let counters = *self.per_peer.value_at(i);
            let entry = PeerMetrics {
                peer_id: text::copy(key),
                active_conns: counters.active_conns,
                bytes_in: counters.bytes_in,
                bytes_out: counters.bytes_out,
            };
            proof {
                lemma_views_push(out@, entry);
                assert(entry@ == all[i as int]);
            }
            out.push(entry);
            i = i + 1;
            assert(views(out@) =~= all.take(i as int));
        }
        assert(all.take(n as int) =~= all);
        out
    }

    fn peer_counters(&self, peer_id: &str) -> (r: ForwardMetrics)
        ensures
            r == self@.peer(peer_id@),
    {
        match self.per_peer.get(peer_id) {
            Some(m) => *m,
            None => ForwardMetrics { active_conns: 0, bytes_in: 0, bytes_out: 0 },
        }
    }

    /// A task wants to hear when the forward is told to stop. It hears what is
    /// said from now on.
    pub fn subscribe(&mut self) -> (r: Subscription)
        ensures
            final(self)@ == old(self)@.subscribed(),
            r@ == old(self)@.words,
    {
        self.subscribers = self.subscribers.wrapping_add(1);
        Subscription { seen: self.words }
    }

    /// A task gives its subscription up.
    pub fn unsubscribe(&mut self, _subscription: Subscription)
        ensures
            final(self)@ == old(self)@.unsubscribed(),
    {
        self.subscribers = self.subscribers.saturating_sub(1);
    }

    /// Whether there is something that a subscriber has not heard yet; it has
    /// heard it then.
    pub fn changed(&self, subscription: &mut Subscription) -> (r: bool)
        ensures
            r == self@.has_news(old(subscription)@),
            final(subscription)@ == self@.words,
    {
        let fresh = subscription.seen != self.words;
        subscription.seen = self.words;
        fresh
    }

    /// Tells the forward to stop. Without a subscriber nothing changes.
    pub fn cancel(&mut self)
        ensures
            final(self)@ == old(self)@.told_to_stop(),
    {
        if self.subscribers > 0 {
            self.cancelled = true;
            self.words = add_wrapping(self.words, 1);
        }
    }

    /// Whether the forward was told to stop.
    pub fn is_cancelled(&self) -> (r: bool)
        ensures
            r == self@.cancelled,
    {
        self.cancelled
    }

    /// Counts a new connection.
    pub fn record_conn_open(&mut self)
        ensures
            final(self)@ == old(self)@.with_metrics(opened(old(self)@.metrics)),
    {
        self.metrics = after_open(self.metrics);
    }

    /// Counts the end of a connection.
    pub fn record_conn_close(&mut self)
        ensures
            final(self)@ == old(self)@.with_metrics(closed(old(self)@.metrics)),
    {
        self.metrics = after_close(self.metrics);
    }

    /// Counts bytes that came in.
    pub fn record_bytes_in(&mut self, bytes: usize)
        ensures
            final(self)@ == old(self)@.with_metrics(received(old(self)@.metrics, bytes as int)),
    {
        self.metrics = after_received(self.metrics, bytes);
    }

    /// Counts bytes that went out.
    pub fn record_bytes_out(&mut self, bytes: usize)
        ensures
            final(self)@ == old(self)@.with_metrics(sent(old(self)@.metrics, bytes as int)),
    {
        self.metrics = after_sent(self.metrics, bytes);
    }

    /// Counts a new connection with a peer.
    pub fn record_conn_open_for(&mut self, peer_id: &str)
        ensures
            final(self)@ == old(self)@.opened_by(peer_id@),
    {
        self.record_conn_open();
        let m = self.peer_counters(peer_id);
        self.per_peer.insert(text::copy(peer_id), after_open(m));
    }

    /// Counts the end of a connection with a peer.
    pub fn record_conn_close_for(&mut self, peer_id: &str)
        ensures
            final(self)@ == old(self)@.closed_by(peer_id@),
    {
        self.record_conn_close();
        let m = self.peer_counters(peer_id);
        self.per_peer.insert(text::copy(peer_id), after_close(m));
    }

    /// Counts bytes that came in from a peer.
    pub fn record_bytes_in_for(&mut self, peer_id: &str, bytes: usize)
        ensures
            final(self)@ == old(self)@.received_from(peer_id@, bytes as int),
    {
        self.record_bytes_in(bytes);
        let m = self.peer_counters(peer_id);
        self.per_peer.insert(text::copy(peer_id), after_received(m, bytes));
    }

    /// Counts bytes that went out to a peer.
    pub fn record_bytes_out_for(&mut self, peer_id: &str, bytes: usize)
        ensures
            final(self)@ == old(self)@.sent_to(peer_id@, bytes as int),
    {
        self.record_bytes_out(bytes);
        let m = self.peer_counters(peer_id);
        self.per_peer.insert(text::copy(peer_id), after_sent(m, bytes));
    }
}

impl Default for ForwardRuntime {
    fn default() -> (r: Self)
        ensures
            r@ == fresh_runtime(),
    {
        Self::new()
    }
}

/// Whoever has subscribed and heard all that was said so far hears that the
/// forward is told to stop, and it counts as told. Where nobody listens it does
/// not: a forward that nobody listens to cannot be stopped.
pub proof fn law_subscribers_hear_the_end(v: RuntimeView)
    ensures
        v.subscribers < usize::MAX ==> v.subscribed().told_to_stop().cancelled,
        v.subscribers < usize::MAX ==> v.subscribed().told_to_stop().words != v.words,
        v.subscribers < usize::MAX ==> v.subscribed().unsubscribed() == v,
        v.subscribers == 0 ==> v.told_to_stop() == v,
        v.told_to_stop().metrics == v.metrics && v.told_to_stop().per_peer == v.per_peer,
{
}

/// The counters of the forward are the sums of those of its peers, as far as
/// the counters reach before they wrap around.
pub open spec fn is_sum_of_peers(v: RuntimeView) -> bool {
    &&& v.per_peer.dom().finite()
    &&& v.metrics.active_conns == total(v.per_peer, |m: ForwardMetrics| m.active_conns as int)
    &&& v.metrics.bytes_in == wrapped(total(v.per_peer, |m: ForwardMetrics| m.bytes_in as int))
    &&& v.metrics.bytes_out == wrapped(total(v.per_peer, |m: ForwardMetrics| m.bytes_out as int))
}

/// Counting a new connection with a peer keeps the counters the sums of those
/// of the peers, until the count of connections wraps around.
pub proof fn law_open_keeps_sum(v: RuntimeView, peer_id: Seq<char>)
    requires
        is_sum_of_peers(v),
        v.metrics.active_conns < usize::MAX,
    ensures
        is_sum_of_peers(
            v.with_metrics(opened(v.metrics)).with_peer(peer_id, opened(v.peer(peer_id))),
        ),
{
    lemma_sums(v, peer_id, opened(v.peer(peer_id)));
}

/// Counting the end of an open connection with a peer keeps the counters the
/// sums of those of the peers.
pub proof fn law_close_keeps_sum(v: RuntimeView, peer_id: Seq<char>)
    requires
        is_sum_of_peers(v),
        v.peer(peer_id).active_conns > 0,
    ensures
        is_sum_of_peers(
            v.with_metrics(closed(v.metrics)).with_peer(peer_id, closed(v.peer(peer_id))),
        ),
{
    lemma_sums(v, peer_id, closed(v.peer(peer_id)));
}

/// Counting bytes of a peer keeps the counters the sums of those of the peers.
pub proof fn law_bytes_keep_sum(v: RuntimeView, peer_id: Seq<char>, bytes: usize)
    requires
        is_sum_of_peers(v),
    ensures
        is_sum_of_peers(
            v.with_metrics(received(v.metrics, bytes as int)).with_peer(
                peer_id,
                received(v.peer(peer_id), bytes as int),
            ),
        ),
        is_sum_of_peers(
            v.with_metrics(sent(v.metrics, bytes as int)).with_peer(
                peer_id,
                sent(v.peer(peer_id), bytes as int),
            ),
        ),
{
    lemma_sums(v, peer_id, received(v.peer(peer_id), bytes as int));
    lemma_sums(v, peer_id, sent(v.peer(peer_id), bytes as int));
    let p = v.peer(peer_id);
    lemma_wrapped_sum(
        total(v.per_peer, |m: ForwardMetrics| m.bytes_in as int),
        p.bytes_in as int,
        bytes as int,
    );
    lemma_wrapped_sum(
        total(v.per_peer, |m: ForwardMetrics| m.bytes_out as int),
        p.bytes_out as int,
        bytes as int,
    );
}

proof fn lemma_wrapped_sum(sum: int, part: int, more: int)
    ensures
        wrapped(sum + wrapped(part + more) - part) == wrapped(wrapped(sum) + more),
{
    let m: int = 0x1_0000_0000_0000_0000;
    let a = (part + more) % m;
    let b = sum % m;
    assert(part + more == m * ((part + more) / m) + a);
    assert(sum == m * (sum / m) + b);
    assert((sum + a - part) % m == (b + more) % m);
}

proof fn lemma_sums(v: RuntimeView, peer_id: Seq<char>, m: ForwardMetrics)
    requires
        v.per_peer.dom().finite(),
    ensures
        v.with_peer(peer_id, m).per_peer.dom().finite(),
        ({
            let f = |m: ForwardMetrics| m.active_conns as int;
            &&& total(v.per_peer.insert(peer_id, m), f) == total(v.per_peer, f) + m.active_conns
                - v.peer(peer_id).active_conns
            &&& v.peer(peer_id).active_conns <= total(v.per_peer, f)
        }),
        ({
            let f = |m: ForwardMetrics| m.bytes_in as int;
            total(v.per_peer.insert(peer_id, m), f) == total(v.per_peer, f) + m.bytes_in - v.peer(
                peer_id,
            ).bytes_in
        }),
        ({
            let f = |m: ForwardMetrics| m.bytes_out as int;
            total(v.per_peer.insert(peer_id, m), f) == total(v.per_peer, f) + m.bytes_out - v.peer(
                peer_id,
            ).bytes_out
        }),
{
    let conns = |m: ForwardMetrics| m.active_conns as int;
    lemma_total_insert(v.per_peer, conns, peer_id, m);
    lemma_total_not_negative(v.per_peer.remove(peer_id), conns);
    lemma_total_insert(v.per_peer, |m: ForwardMetrics| m.bytes_in as int, peer_id, m);
    lemma_total_insert(v.per_peer, |m: ForwardMetrics| m.bytes_out as int, peer_id, m);
}

proof fn lemma_total_not_negative(
    m: Map<Seq<char>, ForwardMetrics>,
    f: spec_fn(ForwardMetrics) -> int,
)
    requires
        m.dom().finite(),
        forall|x: ForwardMetrics| #[trigger] f(x) >= 0,
    ensures
        total(m, f) >= 0,
    decreases m.dom().len(),
{
    if m.dom().len() > 0 {
        lemma_total_not_negative(m.remove(m.dom().choose()), f);
    }
}

/// Counters count one connection more when one opens and one less when one closes, and
/// as many bytes as came in or went out, as far as they reach; each event touches its
/// own counter only.
pub proof fn law_counters_count(m: ForwardMetrics, bytes: usize)
    ensures
        no_traffic().active_conns == 0 && no_traffic().bytes_in == 0 && no_traffic().bytes_out == 0,
        m.active_conns < usize::MAX ==> opened(m).active_conns == m.active_conns + 1,
        m.active_conns < usize::MAX ==> closed(opened(m)) == m,
        m.active_conns > 0 ==> closed(m).active_conns == m.active_conns - 1,
        m.active_conns == 0 ==> closed(m).active_conns == 0,
        opened(m).bytes_in == m.bytes_in && opened(m).bytes_out == m.bytes_out,
        closed(m).bytes_in == m.bytes_in && closed(m).bytes_out == m.bytes_out,
        m.bytes_in + bytes <= u64::MAX ==> received(m, bytes as int).bytes_in == m.bytes_in + bytes,
        m.bytes_out + bytes <= u64::MAX ==> sent(m, bytes as int).bytes_out == m.bytes_out + bytes,
        received(m, bytes as int).bytes_out == m.bytes_out && received(
            m,
            bytes as int,
        ).active_conns == m.active_conns,
        sent(m, bytes as int).bytes_in == m.bytes_in && sent(m, bytes as int).active_conns
            == m.active_conns,
{
}

/// What a connection does is counted for the forward as a whole and for its own peer,
/// from zero for one that is new, and for no other peer. The stop signal is not touched.
pub proof fn law_traffic_counts_for_its_peer(
    v: RuntimeView,
    peer_id: Seq<char>,
    other: Seq<char>,
    bytes: usize,
)
    ensures
        v.opened_by(peer_id).metrics == opened(v.metrics),
        v.opened_by(peer_id).peer(peer_id) == opened(v.peer(peer_id)),
        v.closed_by(peer_id).metrics == closed(v.metrics),
        v.closed_by(peer_id).peer(peer_id) == closed(v.peer(peer_id)),
        v.received_from(peer_id, bytes as int).metrics == received(v.metrics, bytes as int),
        v.received_from(peer_id, bytes as int).peer(peer_id) == received(
            v.peer(peer_id),
            bytes as int,
        ),
        v.sent_to(peer_id, bytes as int).metrics == sent(v.metrics, bytes as int),
        v.sent_to(peer_id, bytes as int).peer(peer_id) == sent(v.peer(peer_id), bytes as int),
        !v.per_peer.contains_key(other) ==> v.peer(other) == no_traffic(),
        v.per_peer.contains_key(other) ==> v.peer(other) == v.per_peer[other],
        only_peer_counted(v, v.opened_by(peer_id), peer_id, other),
        only_peer_counted(v, v.closed_by(peer_id), peer_id, other),
        only_peer_counted(v, v.received_from(peer_id, bytes as int), peer_id, other),
        only_peer_counted(v, v.sent_to(peer_id, bytes as int), peer_id, other),
{
}

/// Whether two states differ for one peer and for the forward as a whole, but not for
/// another peer nor in the stop signal.
pub open spec fn only_peer_counted(
    a: RuntimeView,
    b: RuntimeView,
    peer_id: Seq<char>,
    other: Seq<char>,
) -> bool {
    &&& b.per_peer.contains_key(peer_id)
    &&& other != peer_id ==> b.peer(other) == a.peer(other) && (b.per_peer.contains_key(other)
        <==> a.per_peer.contains_key(other))
    &&& b.cancelled == a.cancelled && b.subscribers == a.subscribers && b.words == a.words
}

/// A task that subscribes hears nothing of what was said before, and hears once that the
/// forward is told to stop. Subscribing and giving it up count by one and change nothing
/// else.
pub proof fn law_subscription_hears_what_follows(v: RuntimeView)
    ensures
        !v.has_news(v.words),
        v.subscribers > 0 ==> v.told_to_stop().has_news(v.words) && !v.told_to_stop().has_news(
            v.told_to_stop().words,
        ),
        v.subscribers > 0 ==> v.told_to_stop().cancelled,
        v.told_to_stop().subscribers == v.subscribers,
        v.subscribers < usize::MAX ==> v.subscribed().subscribers == v.subscribers + 1,
        v.subscribers > 0 ==> v.unsubscribed().subscribers == v.subscribers - 1,
        v.subscribers == 0 ==> v.unsubscribed() == v,
        v.subscribed().metrics == v.metrics && v.subscribed().per_peer == v.per_peer
            && v.subscribed().cancelled == v.cancelled && v.subscribed().words == v.words,
        v.unsubscribed().metrics == v.metrics && v.unsubscribed().per_peer == v.per_peer
            && v.unsubscribed().cancelled == v.cancelled && v.unsubscribed().words == v.words,
        !fresh_runtime().cancelled && fresh_runtime().subscribers == 0,
        fresh_runtime().metrics == no_traffic(),
        fresh_runtime().per_peer.dom() == Set::<Seq<char>>::empty(),
{
}

/// Each peer that was ever counted is listed once, in the order of the ids, with its own
/// counters.
pub proof fn law_each_peer_is_listed_once(v: RuntimeView, peer_id: Seq<char>)
    requires
        v.per_peer.dom().finite(),
    ensures
        v.per_peer.contains_key(peer_id) <==> exists|i: int|
            0 <= i < v.peer_entries().len() && (#[trigger] v.peer_entries()[i]).peer_id == peer_id,
        forall|i: int|
            0 <= i < v.peer_entries().len() ==> {
                let e = #[trigger] v.peer_entries()[i];
                let m = v.peer(e.peer_id);
                e.active_conns == m.active_conns && e.bytes_in == m.bytes_in && e.bytes_out
                    == m.bytes_out
            },
        forall|i: int, j: int|
            0 <= i < j < v.peer_entries().len() ==> #[trigger] text::text_before(
                v.peer_entries()[i].peer_id,
                v.peer_entries()[j].peer_id,
            ),
{
    crate::text_map::lemma_sorted_exists(v.per_peer.dom());
    let keys = sorted(v.per_peer.dom());
    let all = v.peer_entries();
    assert forall|i: int| 0 <= i < all.len() implies {
        let e = #[trigger] all[i];
        let m = v.peer(e.peer_id);
        e.active_conns == m.active_conns && e.bytes_in == m.bytes_in && e.bytes_out == m.bytes_out
    } by {
        assert(keys.to_set().contains(keys[i]));
    }
    assert forall|i: int, j: int| 0 <= i < j < all.len() implies #[trigger] text::text_before(
        all[i].peer_id,
        all[j].peer_id,
    ) by {
        assert(text::text_before(keys[i], keys[j]));
    }
    if v.per_peer.contains_key(peer_id) {
        assert(keys.to_set().contains(peer_id));
        let i = choose|i: int| 0 <= i < keys.len() && keys[i] == peer_id;
        assert(all[i].peer_id == peer_id);
    }
    if exists|i: int| 0 <= i < all.len() && (#[trigger] all[i]).peer_id == peer_id {
        let i = choose|i: int| 0 <= i < all.len() && (#[trigger] all[i]).peer_id == peer_id;
        assert(keys[i] == peer_id);
        assert(keys.to_set().contains(keys[i]));
    }
}

} // verus!
