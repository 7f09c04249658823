//! Relaying of signaling messages through the peers.
use vstd::prelude::*;

use crate::signal::message::{SignalMessage, SignalMessageView};
use crate::text;
use crate::text_map::TextMap;

verus! {

/// How long the id of a message is remembered, in nanoseconds.
pub const CACHE_EXPIRY_NS: u64 = 300_000_000_000;

/// How often forgotten ids are cleared out, in nanoseconds.
pub const CACHE_CLEANUP_INTERVAL_NS: u64 = 120_000_000_000;

/// What is done with a message.
#[derive(Debug, Clone, Copy, PartialEq, Eq)]
pub struct Routing {
    /// It is passed on to the other peers.
    pub relay: bool,
    /// It is handled here.
    pub deliver: bool,
}

/// Passes messages on to the node that they are for, each of them once.
pub struct SignalingRouter {
    self_id: String,
    cache: TextMap<u64>,
}

/// The model of `SignalingRouter`.
#[verifier::ext_equal]
pub struct RouterView {
    pub self_id: Seq<char>,
    /// When each id was first seen.
    pub cache: Map<Seq<char>, u64>,
}

impl View for SignalingRouter {
    type V = RouterView;

    closed spec fn view(&self) -> RouterView {
        RouterView { self_id: self.self_id@, cache: self.cache@ }
    }
}

impl RouterView {
    /// A message that was seen before.
    pub open spec fn seen(self, msg: SignalMessageView) -> bool {
        msg.msg_id matches Some(id) && id.len() > 0 && self.cache.contains_key(id)
    }

    /// The state after a message came in: its id is remembered.
    pub open spec fn noted(self, msg: SignalMessageView, now_ns: u64) -> RouterView {
        match msg.msg_id {
            Some(id) => if id.len() > 0 && !self.cache.contains_key(id) {
                RouterView { cache: self.cache.insert(id, now_ns), ..self }
            } else {
                self
            },
            None => self,
        }
    }

    /// Where a message goes: one that was seen before nowhere, one for another
    /// node to the other peers, one for this node here, one for no node in
    /// particular to both.
    pub open spec fn route(self, msg: SignalMessageView) -> Routing {
        let to_all = match msg.receiver_id {
            Some(id) => id.len() == 0,
            None => true,
        };
        let to_self = msg.receiver_id == Some(self.self_id);
        if self.seen(msg) {
            Routing { relay: false, deliver: false }
        } else if to_all {
            Routing { relay: true, deliver: true }
        } else if to_self {
            Routing { relay: false, deliver: true }
        } else {
            Routing { relay: true, deliver: false }
        }
    }

    /// The state after ids that were seen too long ago were forgotten.
    pub open spec fn cleaned(self, now_ns: u64) -> RouterView {
        RouterView {
            cache: Map::new(
                |id: Seq<char>| self.cache.contains_key(id) && now_ns - self.cache[id] < CACHE_EXPIRY_NS,
                |id: Seq<char>| self.cache[id],
            ),
            ..self
        }
    }
}

/// A router that has seen no message.
pub open spec fn fresh_router(self_id: Seq<char>) -> RouterView {
    RouterView { self_id, cache: Map::empty() }
}

impl SignalingRouter {
    /// A router that has seen no message.
    pub fn new(self_id: &str) -> (r: Self)
        ensures
            r@ == fresh_router(self_id@),
    {
        SignalingRouter { self_id: text::copy(self_id), cache: TextMap::new() }
    }

    /// Decides where a message goes.
    pub fn receive(&mut self, msg: &SignalMessage, now_ns: u64) -> (r: Routing)
        ensures
            final(self)@ == old(self)@.noted(msg@, now_ns),
            r == old(self)@.route(msg@),
    {
        if let Some(msg_id) = &msg.msg_id {
            if msg_id.as_str().unicode_len() > 0 {
                if self.cache.contains_key(msg_id.as_str()) {
                    return Routing { relay: false, deliver: false };
                }
                self.cache.insert(text::copy(msg_id.as_str()), now_ns);
            }
        }
        match &msg.receiver_id {
            Some(receiver_id) => {
                if receiver_id.as_str().unicode_len() == 0 {
                    return Routing { relay: true, deliver: true };
                }
                if text::same(receiver_id.as_str(), self.self_id.as_str()) {
                    Routing { relay: false, deliver: true }
                } else {
                    Routing { relay: true, deliver: false }
                }
            },
            None => Routing { relay: true, deliver: true },
        }
    }

    /// Forgets the ids that were seen too long ago.
    pub fn cleanup(&mut self, now_ns: u64)
        ensures
            final(self)@ == old(self)@.cleaned(now_ns),
    {
        let n = self.cache.len();
        let ghost m = self.cache@;
        let ghost keys = self.cache.keys();
        let mut kept: TextMap<u64> = TextMap::new();
        let mut i: usize = 0;
        while i < n
            invariant
                i <= n,
                n == keys.len(),
                keys == self.cache.keys(),
                m == self.cache@,
                kept_part(kept@, m, keys.take(i as int), now_ns),
            decreases n - i,
        {
            let seen = *self.cache.value_at(i);
            let ghost key = keys[i as int];
            let ghost head = keys.take(i as int);
            let ghost before = kept@;
            let fresh = now_ns < seen || now_ns - seen < CACHE_EXPIRY_NS;
            if fresh {
                let key = text::copy(self.cache.key_at(i));
                kept.insert(key, seen);
            }
            proof {
                let next = keys.take(i + 1);
                assert(next =~= head.push(key));
                assert forall|id: Seq<char>| next.contains(id) == (head.contains(id) || id == key) by {
                    if head.contains(id) {
                        let k = choose|k: int| 0 <= k < head.len() && head[k] == id;
                        assert(next[k] == id);
                    }
                    if next.contains(id) {
                        let k = choose|k: int| 0 <= k < next.len() && next[k] == id;
                        if k < i {
                            assert(head[k] == id);
                        }
                    }
                    assert(next[i as int] == key);
                }
                assert(kept_part(kept@, m, next, now_ns));
            }
            i = i + 1;
        }
        proof {
            assert(keys.take(n as int) =~= keys);
            assert forall|id: Seq<char>| m.contains_key(id) implies keys.contains(id) by {
                assert(keys.to_set().contains(id));
            }
            assert(kept@ =~= old(self)@.cleaned(now_ns).cache);
        }
        self.cache = kept;
    }
}

/// The entries for some keys that are not too old.
spec fn kept_part(
    kept: Map<Seq<char>, u64>,
    m: Map<Seq<char>, u64>,
    keys: Seq<Seq<char>>,
    now_ns: u64,
) -> bool {
    &&& forall|id: Seq<char>|
        #[trigger] kept.contains_key(id) <==> keys.contains(id) && m.contains_key(id) && now_ns
            - m[id] < CACHE_EXPIRY_NS
    &&& forall|id: Seq<char>| #[trigger] kept.contains_key(id) ==> kept[id] == m[id]
}

/// A message with an id goes somewhere the first time only, as long as its id is
/// remembered; and it is remembered for the whole of its time.
pub proof fn law_each_message_once(
    v: RouterView,
    msg: SignalMessageView,
    first_ns: u64,
    cleaned_ns: u64,
)
    requires
        msg.msg_id is Some,
        msg.msg_id->0.len() > 0,
        !v.seen(msg),
        cleaned_ns - first_ns < CACHE_EXPIRY_NS,
    ensures
        v.route(msg).relay || v.route(msg).deliver,
        v.noted(msg, first_ns).route(msg) == (Routing { relay: false, deliver: false }),
        v.noted(msg, first_ns).cleaned(cleaned_ns).route(msg) == (Routing {
            relay: false,
            deliver: false,
        }),
{
}

/// A message for this node is not passed on, and one for another node is not
/// handled here.
pub proof fn law_relay_follows_receiver(v: RouterView, msg: SignalMessageView)
    requires
        msg.receiver_id is Some,
        msg.receiver_id->0.len() > 0,
    ensures
        msg.receiver_id->0 == v.self_id ==> !v.route(msg).relay,
        msg.receiver_id->0 != v.self_id ==> !v.route(msg).deliver,
{
}

/// A message that was not seen before is handled here where it is for this node or for
/// all, and passed on where it is for another node or for all. One that was seen before is
/// neither. Only messages with an id count as seen.
pub proof fn law_message_goes_where_it_is_for(v: RouterView, msg: SignalMessageView)
    ensures
        ({
            let named = msg.receiver_id is Some && msg.receiver_id->0.len() > 0;
            let seen = msg.msg_id is Some && msg.msg_id->0.len() > 0 && v.cache.contains_key(
                msg.msg_id->0,
            );
            &&& v.route(msg).deliver <==> !seen && (!named || msg.receiver_id->0 == v.self_id)
            &&& v.route(msg).relay <==> !seen && (!named || msg.receiver_id->0 != v.self_id)
        }),
        fresh_router(v.self_id).self_id == v.self_id,
        fresh_router(v.self_id).route(msg).deliver || fresh_router(v.self_id).route(msg).relay,
{
}

/// An id is remembered from the first time it is seen, for five minutes and no longer; the
/// others are not touched by it.
pub proof fn law_ids_are_remembered(
    v: RouterView,
    msg: SignalMessageView,
    now_ns: u64,
    other: Seq<char>,
)
    ensures
        ({
            let next = v.noted(msg, now_ns);
            let named = msg.msg_id is Some && msg.msg_id->0.len() > 0;
            &&& next.self_id == v.self_id
            &&& named ==> next.cache.contains_key(msg.msg_id->0)
            &&& named && !v.cache.contains_key(msg.msg_id->0) ==> next.cache[msg.msg_id->0] == now_ns
            &&& named && v.cache.contains_key(msg.msg_id->0) ==> next == v
            &&& !named ==> next == v
            &&& Some(other) != msg.msg_id ==> (next.cache.contains_key(other)
                <==> v.cache.contains_key(other))
            &&& Some(other) != msg.msg_id && v.cache.contains_key(other) ==> next.cache[other]
                == v.cache[other]
        }),
        ({
            let next = v.cleaned(now_ns);
            &&& next.self_id == v.self_id
            &&& next.cache.contains_key(other) <==> v.cache.contains_key(other) && now_ns
                - v.cache[other] < 300_000_000_000
            &&& next.cache.contains_key(other) ==> next.cache[other] == v.cache[other]
        }),
{
}

} // verus!
