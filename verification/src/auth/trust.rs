//! Remembered decisions on peers and forwards.
use vstd::prelude::*;

use crate::model::{lemma_views_push, views};
use crate::text;
use crate::text::text_before;
use crate::text_map::{ascending, TextMap};

verus! {

/// A peer and a forward.
#[derive(Debug, PartialEq, Eq, Hash)]
pub struct TrustKey {
    pub peer_id: String,
    pub forward_key: String,
}

/// The model of `TrustKey`.
#[verifier::ext_equal]
pub struct TrustKeyView {
    pub peer_id: Seq<char>,
    pub forward_key: Seq<char>,
}

impl View for TrustKey {
    type V = TrustKeyView;

    open spec fn view(&self) -> TrustKeyView {
        TrustKeyView { peer_id: self.peer_id@, forward_key: self.forward_key@ }
    }
}

impl Clone for TrustKey {
    fn clone(&self) -> (r: Self)
        ensures
            r@ == self@,
    {
        TrustKey {
            peer_id: text::copy(self.peer_id.as_str()),
            forward_key: text::copy(self.forward_key.as_str()),
        }
    }
}

/// A decision that is remembered.
#[derive(Debug, Clone, Copy, PartialEq, Eq, Structural)]
pub enum TrustDecision {
    Allow,
    Deny,
}

impl View for TrustDecision {
    type V = TrustDecision;

    open spec fn view(&self) -> TrustDecision {
        *self
    }
}

/// A remembered decision with the peer and the forward that it is about.
#[derive(Debug, PartialEq, Eq)]
pub struct TrustEntry {
    pub key: TrustKey,
    pub decision: TrustDecision,
}

/// The model of `TrustEntry`.
pub struct TrustEntryView {
    pub key: TrustKeyView,
    pub decision: TrustDecision,
}

impl View for TrustEntry {
    type V = TrustEntryView;

    open spec fn view(&self) -> TrustEntryView {
        TrustEntryView { key: self.key@, decision: self.decision }
    }
}

impl Clone for TrustEntry {
    fn clone(&self) -> (r: Self)
        ensures
            r@ == self@,
    {
        TrustEntry { key: self.key.clone(), decision: self.decision }
    }
}

/// The remembered decisions, at most one for each peer and forward.
pub struct TrustStore {
    peers: TextMap<TextMap<TrustDecision>>,
}

spec fn flat(
    m: Map<Seq<char>, Map<Seq<char>, TrustDecision>>,
) -> Map<TrustKeyView, TrustDecision> {
    Map::new(
        |k: TrustKeyView| m.contains_key(k.peer_id) && m[k.peer_id].contains_key(k.forward_key),
        |k: TrustKeyView| m[k.peer_id][k.forward_key],
    )
}

impl View for TrustStore {
    type V = Map<TrustKeyView, TrustDecision>;

    closed spec fn view(&self) -> Map<TrustKeyView, TrustDecision> {
        flat(self.peers@)
    }
}

/// The order of entries: by peer, then by forward.
pub open spec fn key_before(a: TrustKeyView, b: TrustKeyView) -> bool {
    text_before(a.peer_id, b.peer_id) || (a.peer_id == b.peer_id && text_before(
        a.forward_key,
        b.forward_key,
    ))
}

/// A list that holds every entry of a store once, in order.
pub open spec fn is_listing(
    list: Seq<TrustEntryView>,
    store: Map<TrustKeyView, TrustDecision>,
) -> bool {
    &&& forall|i: int, j: int|
        0 <= i < j < list.len() ==> #[trigger] key_before(list[i].key, list[j].key)
    &&& forall|i: int|
        0 <= i < list.len() ==> store.contains_key((#[trigger] list[i]).key)
            && store[list[i].key] == list[i].decision
    &&& forall|k: TrustKeyView|
        store.contains_key(k) ==> exists|i: int| 0 <= i < list.len() && #[trigger] list[i].key == k
}

/// What a store says of a peer and a forward.
pub open spec fn found(
    store: Map<TrustKeyView, TrustDecision>,
    key: TrustKeyView,
) -> Option<TrustDecision> {
    if store.contains_key(key) {
        Some(store[key])
    } else {
        None
    }
}

/// A store after a decision was remembered.
pub open spec fn remembered(
    store: Map<TrustKeyView, TrustDecision>,
    key: TrustKeyView,
    decision: TrustDecision,
) -> Map<TrustKeyView, TrustDecision> {
    store.insert(key, decision)
}

/// A store after what it said of a peer and a forward was forgotten.
pub open spec fn forgotten(
    store: Map<TrustKeyView, TrustDecision>,
    key: TrustKeyView,
) -> Map<TrustKeyView, TrustDecision> {
    store.remove(key)
}

/// The store after entries were remembered one after the other.
pub open spec fn remembered_all(list: Seq<TrustEntryView>) -> Map<TrustKeyView, TrustDecision>
    decreases list.len(),
{
    if list.len() == 0 {
        Map::empty()
    } else {
        remembered_all(list.drop_last()).insert(list.last().key, list.last().decision)
    }
}

impl TrustStore {
    /// A store that remembers nothing.
    pub fn new() -> (r: Self)
        ensures
            r@ == Map::<TrustKeyView, TrustDecision>::empty(),
    {
        let r = TrustStore { peers: TextMap::new() };
        assert(r@ =~= Map::<TrustKeyView, TrustDecision>::empty());
        r
    }

    /// A store with the entries that were read from a file. Of several entries
    /// for the same peer and forward the last one counts.
    pub fn from_entries(entries: &Vec<TrustEntry>) -> (r: Self)
        ensures
            r@ == remembered_all(views(entries@)),
    {
        let mut out = TrustStore::new();
        let ghost all = views(entries@);
        assert(all.take(0) =~= Seq::empty());
        let mut i: usize = 0;
        while i < entries.len()
            invariant
                i <= entries@.len(),
                all == views(entries@),
                out@ == remembered_all(all.take(i as int)),
            decreases entries@.len() - i,
        {
            assert(all.take(i + 1).drop_last() =~= all.take(i as int));
            assert(all.take(i + 1).last() == entries@[i as int]@);
            out.remember(&entries[i].key, entries[i].decision);
            i = i + 1;
        }
        assert(all.take(i as int) =~= all);
        out
    }

    /// What is remembered of a peer and a forward.
    pub fn get(&self, key: &TrustKey) -> (r: Option<TrustDecision>)
        ensures
            r == found(self@, key@),
    {
        match self.peers.get(key.peer_id.as_str()) {
            Some(forwards) => match forwards.get(key.forward_key.as_str()) {
                Some(decision) => Some(*decision),
                None => None,
            },
            None => None,
        }
    }

    /// Remembers a decision in place of an earlier one.
    pub fn remember(&mut self, key: &TrustKey, decision: TrustDecision)
        ensures
            final(self)@ == remembered(old(self)@, key@, decision),
    {
        let ghost before = self.peers@;
        let mut forwards = match self.peers.remove(key.peer_id.as_str()) {
            Some(forwards) => forwards,
            None => TextMap::new(),
        };
        let ghost held = forwards@;
        forwards.insert(text::copy(key.forward_key.as_str()), decision);
        self.peers.insert(text::copy(key.peer_id.as_str()), forwards);
        proof {
            let after = self.peers@;
            assert forall|k: TrustKeyView| flat(after).contains_key(k) == flat(before).insert(
                key@,
                decision,
            ).contains_key(k) by {
                if k.peer_id == key@.peer_id && k.forward_key == key@.forward_key {
                    assert(k == key@);
                }
            }
            assert(flat(after) =~= flat(before).insert(key@, decision));
        }
    }

    /// Forgets what is remembered and says whether there was anything.
    pub fn remove(&mut self, key: &TrustKey) -> (r: bool)
        ensures
            final(self)@ == forgotten(old(self)@, key@),
            r == (found(old(self)@, key@) is Some),
    {
        let ghost before = self.peers@;
        let mut forwards = match self.peers.remove(key.peer_id.as_str()) {
            Some(forwards) => forwards,
            None => {
                assert(flat(self.peers@) =~= flat(before).remove(key@));
                return false;
            },
        };
        let removed = forwards.remove(key.forward_key.as_str());
        let n = forwards.len();
        if n > 0 {
            self.peers.insert(text::copy(key.peer_id.as_str()), forwards);
        }
        proof {
            let after = self.peers@;
            if n == 0 {
                assert(forwards@.dom() =~= Set::<Seq<char>>::empty());
                assert forall|f: Seq<char>| !(#[trigger] forwards@.contains_key(f)) by {
                    assert(!forwards@.dom().contains(f));
                }
            }
            assert forall|k: TrustKeyView| flat(after).contains_key(k) == flat(before).remove(
                key@,
            ).contains_key(k) by {
                if k.peer_id == key@.peer_id {
                    if k.forward_key == key@.forward_key {
                        assert(k == key@);
                    } else if n == 0 {
                        assert(!forwards@.contains_key(k.forward_key));
                    }
                }
            }
            assert(flat(after) =~= flat(before).remove(key@));
        }
        removed.is_some()
    }

    /// The entries, sorted by peer and then by forward.
    pub fn list(&self) -> (r: Vec<TrustEntry>)
        ensures
            is_listing(views(r@), self@),
    {
        let mut out: Vec<TrustEntry> = Vec::new();
        let n = self.peers.len();
        let ghost keys = self.peers.keys();
        let mut i: usize = 0;
        while i < n
            invariant
                i <= n,
                n == keys.len(),
                keys == self.peers.keys(),
                ascending(keys),
                keys.to_set() == self.peers@.dom(),
                listed(views(out@), self.peers@, keys, i as int, Set::empty()),
            decreases n - i,
        {
            let peer = self.peers.key_at(i);
            let forwards = self.peers.value_at(i);
            let m = forwards.len();
            let ghost inner = forwards.keys();
            let ghost done: Set<Seq<char>> = Set::empty();
            let mut j: usize = 0;
            assert(inner.take(0).to_set() =~= Set::<Seq<char>>::empty());
            while j < m
                invariant
                    i < n,
                    n == keys.len(),
                    keys == self.peers.keys(),
                    ascending(keys),
                    keys.to_set() == self.peers@.dom(),
                    peer@ == keys[i as int],
                    self.peers@.contains_key(peer@),
                    forwards@ == self.peers@[peer@],
                    j <= m,
                    m == inner.len(),
                    inner == forwards.keys(),
                    ascending(inner),
                    inner.to_set() == forwards@.dom(),
                    listed(
                        views(out@),
                        self.peers@,
                        keys,
                        i as int,
                        inner.take(j as int).to_set(),
                    ),
                decreases m - j,
            {
                let forward = forwards.key_at(j);
                let entry = TrustEntry {
                    key: TrustKey {
                        peer_id: text::copy(peer),
                        forward_key: text::copy(forward),
                    },
                    decision: *forwards.value_at(j),
                };
                proof {
                    lemma_views_push(out@, entry);
                    lemma_listed_more(
                        views(out@),
                        self.peers@,
                        keys,
                        i as int,
                        inner,
                        j as int,
                        entry@,
                    );
                }
                out.push(entry);
                j = j + 1;
            }
            proof {
                assert(inner.take(m as int) =~= inner);
                lemma_listed_next(views(out@), self.peers@, keys, i as int);
            }
            i = i + 1;
        }
        proof {
            lemma_listed_all(views(out@), self.peers@, keys);
        }
        out
    }
}

/// A list of the entries of the first peers, and of those of one more peer for
/// the forwards in `done`.
spec fn listed(
    list: Seq<TrustEntryView>,
    m: Map<Seq<char>, Map<Seq<char>, TrustDecision>>,
    keys: Seq<Seq<char>>,
    i: int,
    done: Set<Seq<char>>,
) -> bool {
    &&& forall|a: int, b: int|
        0 <= a < b < list.len() ==> #[trigger] key_before(list[a].key, list[b].key)
    &&& forall|a: int|
        0 <= a < list.len() ==> flat(m).contains_key((#[trigger] list[a]).key)
            && flat(m)[list[a].key] == list[a].decision && in_part(list[a].key, keys, i, done)
    &&& forall|k: TrustKeyView|
        flat(m).contains_key(k) && #[trigger] in_part(k, keys, i, done) ==> exists|a: int|
            0 <= a < list.len() && #[trigger] list[a].key == k
}

spec fn in_part(k: TrustKeyView, keys: Seq<Seq<char>>, i: int, done: Set<Seq<char>>) -> bool {
    ||| keys.take(i).contains(k.peer_id)
    ||| i < keys.len() && k.peer_id == keys[i] && done.contains(k.forward_key)
}

proof fn lemma_listed_more(
    list: Seq<TrustEntryView>,
    m: Map<Seq<char>, Map<Seq<char>, TrustDecision>>,
    keys: Seq<Seq<char>>,
    i: int,
    inner: Seq<Seq<char>>,
    j: int,
    entry: TrustEntryView,
)
    requires
        0 <= i < keys.len(),
        ascending(keys),
        m.contains_key(keys[i]),
        0 <= j < inner.len(),
        ascending(inner),
        inner.to_set() == m[keys[i]].dom(),
        entry.key.peer_id == keys[i],
        entry.key.forward_key == inner[j],
        entry.decision == m[keys[i]][inner[j]],
        listed(list, m, keys, i, inner.take(j).to_set()),
    ensures
        listed(list.push(entry), m, keys, i, inner.take(j + 1).to_set()),
{
    let more = list.push(entry);
    let done = inner.take(j).to_set();
    let next = inner.take(j + 1).to_set();
    assert(inner.to_set().contains(inner[j]));
    assert(flat(m).contains_key(entry.key));
    assert(next.contains(inner[j])) by {
        assert(inner.take(j + 1)[j] == inner[j]);
    }
    assert forall|f: Seq<char>| #[trigger] done.contains(f) implies next.contains(f) by {
        let a = choose|a: int| 0 <= a < j && inner.take(j)[a] == f;
        assert(inner.take(j + 1)[a] == f);
    }
    assert forall|a: int| 0 <= a < list.len() implies #[trigger] key_before(
        list[a].key,
        entry.key,
    ) by {
        let k = list[a].key;
        assert(in_part(k, keys, i, done));
        if keys.take(i).contains(k.peer_id) {
            let p = choose|p: int| 0 <= p < i && keys.take(i)[p] == k.peer_id;
            assert(text_before(keys[p], keys[i]));
        } else {
            let p = choose|p: int| 0 <= p < j && inner.take(j)[p] == k.forward_key;
            assert(text_before(inner[p], inner[j]));
        }
    }
    assert forall|a: int, b: int| 0 <= a < b < more.len() implies #[trigger] key_before(
        more[a].key,
        more[b].key,
    ) by {
        if b < list.len() {
            assert(key_before(list[a].key, list[b].key));
        } else {
            assert(key_before(list[a].key, entry.key));
        }
    }
    assert forall|a: int| 0 <= a < more.len() implies flat(m).contains_key(
        (#[trigger] more[a]).key,
    ) && flat(m)[more[a].key] == more[a].decision && in_part(more[a].key, keys, i, next) by {
        if a < list.len() {
            assert(in_part(list[a].key, keys, i, done));
        }
    }
    assert forall|k: TrustKeyView|
        flat(m).contains_key(k) && #[trigger] in_part(k, keys, i, next) implies exists|a: int|
        0 <= a < more.len() && #[trigger] more[a].key == k by {
        if in_part(k, keys, i, done) {
            let a = choose|a: int| 0 <= a < list.len() && #[trigger] list[a].key == k;
            assert(more[a].key == k);
        } else {
            let wide = inner.take(j + 1);
            let p = choose|p: int| 0 <= p < wide.len() && wide[p] == k.forward_key;
            if p < j {
                assert(inner.take(j)[p] == k.forward_key);
            }
            assert(k == entry.key);
            assert(more[list.len() as int].key == k);
        }
    }
}

proof fn lemma_listed_next(
    list: Seq<TrustEntryView>,
    m: Map<Seq<char>, Map<Seq<char>, TrustDecision>>,
    keys: Seq<Seq<char>>,
    i: int,
)
    requires
        0 <= i < keys.len(),
        m.contains_key(keys[i]),
        listed(list, m, keys, i, m[keys[i]].dom()),
    ensures
        listed(list, m, keys, i + 1, Set::empty()),
{
    let done = m[keys[i]].dom();
    assert forall|k: TrustKeyView| flat(m).contains_key(k) implies #[trigger] in_part(
        k,
        keys,
        i + 1,
        Set::empty(),
    ) == in_part(k, keys, i, done) by {
        let head = keys.take(i);
        let next = keys.take(i + 1);
        if head.contains(k.peer_id) {
            let p = choose|p: int| 0 <= p < i && head[p] == k.peer_id;
            assert(next[p] == k.peer_id);
        }
        if next.contains(k.peer_id) {
            let p = choose|p: int| 0 <= p < next.len() && next[p] == k.peer_id;
            if p < i {
                assert(head[p] == k.peer_id);
            }
        }
        if k.peer_id == keys[i] {
            assert(next[i] == k.peer_id);
        }
    }
    assert forall|a: int| 0 <= a < list.len() implies flat(m).contains_key(
        (#[trigger] list[a]).key,
    ) && flat(m)[list[a].key] == list[a].decision && in_part(
        list[a].key,
        keys,
        i + 1,
        Set::empty(),
    ) by {
        assert(in_part(list[a].key, keys, i, done));
    }
}

proof fn lemma_listed_all(
    list: Seq<TrustEntryView>,
    m: Map<Seq<char>, Map<Seq<char>, TrustDecision>>,
    keys: Seq<Seq<char>>,
)
    requires
        keys.to_set() == m.dom(),
        listed(list, m, keys, keys.len() as int, Set::empty()),
    ensures
        is_listing(list, flat(m)),
{
    assert forall|k: TrustKeyView| flat(m).contains_key(k) implies exists|i: int|
        0 <= i < list.len() && #[trigger] list[i].key == k by {
        assert(keys.to_set().contains(k.peer_id));
        assert(keys.take(keys.len() as int) =~= keys);
        assert(in_part(k, keys, keys.len() as int, Set::empty()));
    }
}

/// A decision that was remembered is what is found; the others stay as they
/// were. Forgetting it leaves nothing of it.
pub proof fn law_remember_then_get(
    store: Map<TrustKeyView, TrustDecision>,
    key: TrustKeyView,
    decision: TrustDecision,
    other: TrustKeyView,
)
    ensures
        found(remembered(store, key, decision), key) == Some(decision),
        other != key ==> found(remembered(store, key, decision), other) == found(store, other),
        found(forgotten(store, key), key) is None,
        other != key ==> found(forgotten(store, key), other) == found(store, other),
        found(store, key) is None ==> forgotten(remembered(store, key, decision), key) == store,
        found(store, key) is None ==> forgotten(store, key) == store,
        found(store, key) matches Some(d) ==> remembered(forgotten(store, key), key, d) == store,
{
    if !store.contains_key(key) {
        assert(forgotten(remembered(store, key, decision), key) =~= store);
        assert(forgotten(store, key) =~= store);
    } else {
        assert(remembered(forgotten(store, key), key, store[key]) =~= store);
    }
}

/// A store that is written out as a list and read back is the same store.
pub proof fn law_listing_round_trip(
    list: Seq<TrustEntryView>,
    store: Map<TrustKeyView, TrustDecision>,
)
    requires
        is_listing(list, store),
    ensures
        remembered_all(list) == store,
{
    lemma_remembered_all(list);
    let m = remembered_all(list);
    assert forall|k: TrustKeyView| m.contains_key(k) == store.contains_key(k) by {
        if store.contains_key(k) {
            let i = choose|i: int| 0 <= i < list.len() && #[trigger] list[i].key == k;
            assert(m.contains_key(list[i].key));
        }
        if m.contains_key(k) {
            let i = choose|i: int| 0 <= i < list.len() && #[trigger] list[i].key == k;
            assert(store.contains_key(list[i].key));
        }
    }
    assert forall|k: TrustKeyView| #[trigger] m.contains_key(k) implies m[k] == store[k] by {
        let i = choose|i: int| 0 <= i < list.len() && #[trigger] list[i].key == k;
        assert(m[list[i].key] == list[i].decision);
        assert(store[list[i].key] == list[i].decision);
    }
    assert(m =~= store);
}

proof fn lemma_remembered_all(list: Seq<TrustEntryView>)
    requires
        forall|i: int, j: int|
            0 <= i < j < list.len() ==> #[trigger] key_before(list[i].key, list[j].key),
    ensures
        forall|i: int|
            0 <= i < list.len() ==> remembered_all(list).contains_key((#[trigger] list[i]).key)
                && remembered_all(list)[list[i].key] == list[i].decision,
        forall|k: TrustKeyView| #[trigger]
            remembered_all(list).contains_key(k) ==> exists|i: int|
                0 <= i < list.len() && #[trigger] list[i].key == k,
    decreases list.len(),
{
    if list.len() > 0 {
        let rest = list.drop_last();
        assert forall|i: int, j: int| 0 <= i < j < rest.len() implies #[trigger] key_before(
            rest[i].key,
            rest[j].key,
        ) by {
            assert(key_before(list[i].key, list[j].key));
        }
        lemma_remembered_all(rest);
        let m = remembered_all(list);
        assert forall|i: int| 0 <= i < list.len() implies m.contains_key((#[trigger] list[i]).key)
            && m[list[i].key] == list[i].decision by {
            if i < rest.len() {
                assert(rest[i] == list[i]);
                assert(key_before(list[i].key, list[list.len() - 1].key));
                text::lemma_before_irreflexive(list[i].key.peer_id);
                text::lemma_before_irreflexive(list[i].key.forward_key);
            }
        }
        assert forall|k: TrustKeyView| #[trigger] m.contains_key(k) implies exists|i: int|
            0 <= i < list.len() && #[trigger] list[i].key == k by {
            if k == list.last().key {
                assert(list[list.len() - 1].key == k);
            } else {
                assert(remembered_all(rest).contains_key(k));
                let i = choose|i: int| 0 <= i < rest.len() && #[trigger] rest[i].key == k;
                assert(list[i].key == k);
            }
        }
    }
}

/// Of the entries that were read the last one for a peer and a forward counts; what no
/// entry speaks of is not remembered.
pub proof fn law_last_entry_counts(list: Seq<TrustEntryView>, i: int, key: TrustKeyView)
    ensures
        0 <= i < list.len() && (forall|j: int|
            i < j < list.len() ==> (#[trigger] list[j]).key != list[i].key) ==> found(
            remembered_all(list),
            list[i].key,
        ) == Some(list[i].decision),
        found(remembered_all(list), key) is Some <==> exists|k: int|
            0 <= k < list.len() && (#[trigger] list[k]).key == key,
    decreases list.len(),
{
    if list.len() > 0 {
        let rest = list.drop_last();
        law_last_entry_counts(rest, i, key);
        if 0 <= i < rest.len() && (forall|j: int|
            i < j < list.len() ==> (#[trigger] list[j]).key != list[i].key) {
            assert(list[list.len() - 1].key != list[i].key);
            assert forall|j: int| i < j < rest.len() implies (#[trigger] rest[j]).key
                != rest[i].key by {
                assert(list[j].key != list[i].key);
            }
        }
        if found(remembered_all(rest), key) is Some {
            let k = choose|k: int| 0 <= k < rest.len() && (#[trigger] rest[k]).key == key;
            assert(list[k].key == key);
        }
        if list.last().key == key {
            assert(list[list.len() - 1].key == key);
        } else if exists|k: int| 0 <= k < list.len() && (#[trigger] list[k]).key == key {
            let k = choose|k: int| 0 <= k < list.len() && (#[trigger] list[k]).key == key;
            assert(rest[k].key == key);
        }
    }
}

/// A list of a store shows for each peer and forward exactly what is remembered, and
/// lists no pair twice.
pub proof fn law_listing_shows_the_store(
    list: Seq<TrustEntryView>,
    store: Map<TrustKeyView, TrustDecision>,
    key: TrustKeyView,
    decision: TrustDecision,
)
    requires
        is_listing(list, store),
    ensures
        found(store, key) == Some(decision) <==> list.contains(TrustEntryView { key, decision }),
        forall|i: int, j: int|
            0 <= i < j < list.len() ==> (#[trigger] list[i]).key != (#[trigger] list[j]).key,
{
    let e = TrustEntryView { key, decision };
    if found(store, key) == Some(decision) {
        let i = choose|i: int| 0 <= i < list.len() && #[trigger] list[i].key == key;
        assert(list[i].decision == store[list[i].key]);
        assert(list[i] == e);
    }
    if list.contains(e) {
        let i = choose|i: int| 0 <= i < list.len() && list[i] == e;
        assert(store.contains_key(list[i].key));
    }
    assert forall|i: int, j: int| 0 <= i < j < list.len() implies (#[trigger] list[i]).key != (
    #[trigger] list[j]).key by {
        assert(key_before(list[i].key, list[j].key));
        text::lemma_before_irreflexive(list[i].key.peer_id);
        text::lemma_before_irreflexive(list[i].key.forward_key);
    }
}

} // verus!
