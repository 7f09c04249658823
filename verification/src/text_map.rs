//! A map keyed by text that lists its entries in the order of their keys.
use vstd::prelude::*;

use crate::text;
use crate::text::{text_before, Relation};

verus! {

/// Texts in strictly ascending order.
pub open spec fn ascending(s: Seq<Seq<char>>) -> bool {
    forall|i: int, j: int| 0 <= i < j < s.len() ==> #[trigger] text_before(s[i], s[j])
}

/// The texts of a set in ascending order.
pub open spec fn sorted(d: Set<Seq<char>>) -> Seq<Seq<char>> {
    choose|s: Seq<Seq<char>>| ascending(s) && #[trigger] s.to_set() == d
}

/// Two ascending sequences of the same texts are equal.
pub proof fn lemma_ascending_unique(s: Seq<Seq<char>>, t: Seq<Seq<char>>)
    requires
        ascending(s),
        ascending(t),
        s.to_set() == t.to_set(),
    ensures
        s == t,
    decreases s.len(),
{
    if s.len() == 0 {
        if t.len() > 0 {
            assert(t.to_set().contains(t[0]));
            assert(s.contains(t[0]));
        }
        assert(s =~= t);
    } else {
        assert(s.to_set().contains(s.last()));
        assert(t.contains(s.last()));
        let i = choose|i: int| 0 <= i < t.len() && t[i] == s.last();
        assert(t.to_set().contains(t.last()));
        assert(s.contains(t.last()));
        let j = choose|j: int| 0 <= j < s.len() && s[j] == t.last();
        if i < t.len() - 1 {
            assert(text_before(t[i], t[t.len() - 1]));
            if j < s.len() - 1 {
                assert(text_before(s[j], s[s.len() - 1]));
                text::lemma_before_transitive(s.last(), t.last(), s.last());
            }
            text::lemma_before_irreflexive(s.last());
        }
        assert(s.last() == t.last());
        let a = s.drop_last();
        let b = t.drop_last();
        assert forall|x: Seq<char>| a.to_set().contains(x) == b.to_set().contains(x) by {
            lemma_drop_last(s, x);
            lemma_drop_last(t, x);
        }
        assert(a.to_set() =~= b.to_set());
        assert(ascending(a)) by {
            assert forall|i: int, j: int| 0 <= i < j < a.len() implies #[trigger] text_before(
                a[i],
                a[j],
            ) by {
                assert(text_before(s[i], s[j]));
            }
        }
        assert(ascending(b)) by {
            assert forall|i: int, j: int| 0 <= i < j < b.len() implies #[trigger] text_before(
                b[i],
                b[j],
            ) by {
                assert(text_before(t[i], t[j]));
            }
        }
        lemma_ascending_unique(a, b);
        assert(s =~= a.push(s.last()));
        assert(t =~= b.push(t.last()));
    }
}

/// Texts in strictly ascending order differ.
pub proof fn lemma_ascending_differ(s: Seq<Seq<char>>)
    requires
        ascending(s),
    ensures
        s.no_duplicates(),
{
    assert forall|i: int, j: int| 0 <= i < s.len() && 0 <= j < s.len() && i != j implies s[i]
        != s[j] by {
        text::lemma_before_irreflexive(s[i]);
        if i < j {
            assert(text_before(s[i], s[j]));
        } else {
            assert(text_before(s[j], s[i]));
        }
    }
}

proof fn lemma_drop_last(s: Seq<Seq<char>>, x: Seq<char>)
    requires
        ascending(s),
        s.len() > 0,
    ensures
        s.drop_last().to_set().contains(x) <==> s.to_set().contains(x) && x != s.last(),
{
    let a = s.drop_last();
    if a.to_set().contains(x) {
        let i = choose|i: int| 0 <= i < a.len() && a[i] == x;
        assert(s[i] == x);
        assert(text_before(s[i], s[s.len() - 1]));
        text::lemma_before_irreflexive(x);
    }
    if s.to_set().contains(x) && x != s.last() {
        let i = choose|i: int| 0 <= i < s.len() && s[i] == x;
        assert(a[i] == x);
    }
}

/// An ascending sequence is the sorted form of the set of its texts.
pub proof fn lemma_sorted(s: Seq<Seq<char>>)
    requires
        ascending(s),
    ensures
        sorted(s.to_set()) == s,
{
    let t = sorted(s.to_set());
    assert(ascending(s) && s.to_set() == s.to_set());
    lemma_ascending_unique(s, t);
}

/// Where a text belongs in an ascending sequence.
proof fn lemma_place(s: Seq<Seq<char>>, x: Seq<char>) -> (i: int)
    requires
        ascending(s),
        !s.contains(x),
    ensures
        0 <= i <= s.len(),
        forall|k: int| 0 <= k < i ==> #[trigger] text_before(s[k], x),
        forall|k: int| i <= k < s.len() ==> #[trigger] text_before(x, s[k]),
    decreases s.len(),
{
    if s.len() == 0 {
        0
    } else {
        let last = s.last();
        assert(s.contains(last));
        text::lemma_before_total(last, x);
        if text_before(last, x) {
            assert forall|k: int| 0 <= k < s.len() implies #[trigger] text_before(s[k], x) by {
                if k < s.len() - 1 {
                    assert(text_before(s[k], s[s.len() - 1]));
                    text::lemma_before_transitive(s[k], last, x);
                }
            }
            s.len() as int
        } else {
            let a = s.drop_last();
            assert(ascending(a)) by {
                assert forall|i: int, j: int| 0 <= i < j < a.len() implies #[trigger] text_before(
                    a[i],
                    a[j],
                ) by {
                    assert(text_before(s[i], s[j]));
                }
            }
            assert(!a.contains(x)) by {
                if a.contains(x) {
                    let i = choose|i: int| 0 <= i < a.len() && a[i] == x;
                    assert(s[i] == x);
                }
            }
            let i = lemma_place(a, x);
            assert forall|k: int| 0 <= k < i implies #[trigger] text_before(s[k], x) by {
                assert(text_before(a[k], x));
            }
            assert forall|k: int| i <= k < s.len() implies #[trigger] text_before(x, s[k]) by {
                if k < s.len() - 1 {
                    assert(text_before(x, a[k]));
                }
            }
            i
        }
    }
}

/// Putting a text at its place keeps a sequence ascending.
proof fn lemma_put(s: Seq<Seq<char>>, i: int, x: Seq<char>)
    requires
        ascending(s),
        0 <= i <= s.len(),
        forall|k: int| 0 <= k < i ==> #[trigger] text_before(s[k], x),
        forall|k: int| i <= k < s.len() ==> #[trigger] text_before(x, s[k]),
    ensures
        ascending(s.insert(i, x)),
        s.insert(i, x).to_set() == s.to_set().insert(x),
{
    let t = s.insert(i, x);
    assert forall|a: int, b: int| 0 <= a < b < t.len() implies #[trigger] text_before(
        t[a],
        t[b],
    ) by {
        if a < i && b < i {
            assert(text_before(s[a], s[b]));
        } else if a < i && b == i {
            assert(text_before(s[a], x));
        } else if a < i {
            assert(text_before(s[a], s[b - 1]));
        } else if a == i {
            assert(text_before(x, s[b - 1]));
        } else {
            assert(text_before(s[a - 1], s[b - 1]));
        }
    }
    assert forall|y: Seq<char>| t.to_set().contains(y) == s.to_set().insert(x).contains(y) by {
        if t.to_set().contains(y) {
            let k = choose|k: int| 0 <= k < t.len() && t[k] == y;
            if k < i {
                assert(s[k] == y);
            } else if k > i {
                assert(s[k - 1] == y);
            }
        }
        if s.to_set().contains(y) {
            let k = choose|k: int| 0 <= k < s.len() && s[k] == y;
            if k < i {
                assert(t[k] == y);
            } else {
                assert(t[k + 1] == y);
            }
        }
        if y == x {
            assert(t[i] == x);
        }
    }
    assert(t.to_set() =~= s.to_set().insert(x));
}

/// Every finite set of texts has a sorted form.
pub proof fn lemma_sorted_exists(d: Set<Seq<char>>)
    requires
        d.finite(),
    ensures
        ascending(sorted(d)),
        sorted(d).to_set() == d,
    decreases d.len(),
{
    if d.len() == 0 {
        let e = Seq::<Seq<char>>::empty();
        assert(e.to_set() =~= d);
        assert(ascending(e) && e.to_set() == d);
    } else {
        let x = d.choose();
        let rest = d.remove(x);
        lemma_sorted_exists(rest);
        let s = sorted(rest);
        assert(!s.contains(x)) by {
            assert(!s.to_set().contains(x));
        }
        let i = lemma_place(s, x);
        lemma_put(s, i, x);
        let t = s.insert(i, x);
        assert(t.to_set() =~= d);
        assert(ascending(t) && t.to_set() == d);
    }
}

/// A map from texts to values.
pub struct TextMap<V: View> {
    entries: Vec<(String, V)>,
}

/// The keys of a sequence of entries.
pub closed spec fn entry_keys<V>(s: Seq<(String, V)>) -> Seq<Seq<char>> {
    Seq::new(s.len(), |i: int| s[i].0@)
}

impl<V: View> View for TextMap<V> {
    type V = Map<Seq<char>, V::V>;

    closed spec fn view(&self) -> Map<Seq<char>, V::V> {
        Map::new(
            |k: Seq<char>| self.keys().contains(k),
            |k: Seq<char>| self.entries@[self.keys().index_of(k)].1@,
        )
    }
}

impl<V: View> TextMap<V> {
    /// The keys in the order in which they are held.
    pub closed spec fn keys(&self) -> Seq<Seq<char>> {
        entry_keys(self.entries@)
    }

    #[verifier::type_invariant]
    spec fn ordered(&self) -> bool {
        ascending(self.keys())
    }

    proof fn lemma_at(&self, i: int)
        requires
            ascending(self.keys()),
            0 <= i < self.entries@.len(),
        ensures
            self@.contains_key(self.entries@[i].0@),
            self@[self.entries@[i].0@] == self.entries@[i].1@,
    {
        let keys = self.keys();
        let k = self.entries@[i].0@;
        assert(keys[i] == k);
        let j = keys.index_of(k);
        assert(0 <= j < keys.len() && keys[j] == k);
        lemma_ascending_distinct(keys, i, j);
    }

    /// The empty map.
    pub fn new() -> (r: Self)
        ensures
            r@ == Map::<Seq<char>, V::V>::empty(),
    {
        let r = TextMap { entries: Vec::new() };
        assert(r@ =~= Map::<Seq<char>, V::V>::empty());
        r
    }

    /// How many entries there are; the keys come in ascending order.
    pub fn len(&self) -> (r: usize)
        ensures
            r == self.keys().len(),
            r == self@.dom().len(),
            self@.dom().finite(),
            self.keys() == sorted(self@.dom()),
            ascending(self.keys()),
            self.keys().to_set() == self@.dom(),
            self.keys().no_duplicates(),
    {
        proof {
            use_type_invariant(self);
            let keys = self.keys();
            assert(self@.dom() =~= keys.to_set());
            lemma_sorted(keys);
            assert(keys.no_duplicates()) by {
                assert forall|i: int, j: int|
                    0 <= i < keys.len() && 0 <= j < keys.len() && i != j implies keys[i]
                    != keys[j] by {
                    if keys[i] == keys[j] {
                        lemma_ascending_distinct(keys, i, j);
                    }
                }
            }
            keys.unique_seq_to_set();
        }
        self.entries.len()
    }

    /// The key at a position.
    pub fn key_at(&self, i: usize) -> (r: &str)
        requires
            i < self.keys().len(),
        ensures
            r@ == self.keys()[i as int],
            self@.contains_key(r@),
    {
        proof {
            use_type_invariant(self);
            self.lemma_at(i as int);
        }
        self.entries[i].0.as_str()
    }

    /// The value at a position.
    pub fn value_at(&self, i: usize) -> (r: &V)
        requires
            i < self.keys().len(),
        ensures
            self@.contains_key(self.keys()[i as int]),
            r@ == self@[self.keys()[i as int]],
    {
        proof {
            use_type_invariant(self);
            self.lemma_at(i as int);
        }
        &self.entries[i].1
    }

    /// The position of a key, or the position where it belongs.
    fn search(&self, key: &str) -> (r: (usize, bool))
        ensures
            r.0 <= self.entries@.len(),
            r.1 ==> r.0 < self.entries@.len() && self.keys()[r.0 as int] == key@,
            !r.1 ==> !self.keys().contains(key@),
            !r.1 ==> forall|k: int|
                0 <= k < r.0 ==> #[trigger] text_before(self.keys()[k], key@),
            !r.1 ==> forall|k: int|
                r.0 <= k < self.keys().len() ==> #[trigger] text_before(key@, self.keys()[k]),
    {
        proof {
            use_type_invariant(self);
        }
        let ghost keys = self.keys();
        let mut i: usize = 0;
        while i < self.entries.len()
            invariant
                keys == self.keys(),
                ascending(keys),
                keys.len() == self.entries@.len(),
                i <= self.entries@.len(),
                forall|k: int| 0 <= k < i ==> #[trigger] text_before(keys[k], key@),
            decreases self.entries@.len() - i,
        {
            assert(keys[i as int] == self.entries@[i as int].0@);
            match text::relate(self.entries[i].0.as_str(), key) {
                Relation::Before => {
                    i = i + 1;
                },
                Relation::Same => {
                    return (i, true);
                },
                Relation::After => {
                    assert forall|k: int| i <= k < keys.len() implies #[trigger] text_before(
                        key@,
                        keys[k],
                    ) by {
                        if k > i {
                            assert(text_before(keys[i as int], keys[k]));
                            text::lemma_before_transitive(key@, keys[i as int], keys[k]);
                        }
                    }
                    assert(!keys.contains(key@)) by {
                        if keys.contains(key@) {
                            let k = choose|k: int| 0 <= k < keys.len() && keys[k] == key@;
                            text::lemma_before_irreflexive(key@);
                            if k < i {
                                assert(text_before(keys[k], key@));
                            } else {
                                assert(text_before(key@, keys[k]));
                            }
                        }
                    }
                    return (i, false);
                },
            }
        }
        assert(!keys.contains(key@)) by {
            if keys.contains(key@) {
                let k = choose|k: int| 0 <= k < keys.len() && keys[k] == key@;
                text::lemma_before_irreflexive(key@);
                assert(text_before(keys[k], key@));
            }
        }
        (i, false)
    }

    /// The value of a key.
    pub fn get(&self, key: &str) -> (r: Option<&V>)
        ensures
            match r {
                Some(v) => self@.contains_key(key@) && v@ == self@[key@],
                None => !self@.contains_key(key@),
            },
    {
        let (i, found) = self.search(key);
        if found {
            proof {
                use_type_invariant(self);
                self.lemma_at(i as int);
            }
            Some(&self.entries[i].1)
        } else {
            None
        }
    }

    /// Whether a key has a value.
    pub fn contains_key(&self, key: &str) -> (r: bool)
        ensures
            r == self@.contains_key(key@),
    {
        match self.get(key) {
            Some(_) => true,
            None => false,
        }
    }

    /// Gives a key a value, in place of the one it had.
    pub fn insert(&mut self, key: String, value: V)
        ensures
            final(self)@ == old(self)@.insert(key@, value@),
    {
        let (i, found) = self.search(key.as_str());
        proof {
            use_type_invariant(&*self);
        }
        let ghost before = *self;
        let mut entries = Vec::new();
        std::mem::swap(&mut entries, &mut self.entries);
        let ghost held = entries@;
        if found {
            entries.set(i, (key, value));
            assert(entry_keys(entries@) =~= entry_keys(held));
        } else {
            proof {
                lemma_put(entry_keys(held), i as int, key@);
            }
            entries.insert(i, (key, value));
            assert(entry_keys(entries@) =~= entry_keys(held).insert(i as int, key@));
        }
        self.entries = entries;
        let ghost after = *self;
        proof {
            lemma_lookup(before, after, key@, i as int, found);
        }
    }

    /// Takes a key out, with its value.
    pub fn remove(&mut self, key: &str) -> (r: Option<V>)
        ensures
            final(self)@ == old(self)@.remove(key@),
            match r {
                Some(v) => old(self)@.contains_key(key@) && v@ == old(self)@[key@],
                None => !old(self)@.contains_key(key@),
            },
    {
        let (i, found) = self.search(key);
        proof {
            use_type_invariant(&*self);
        }
        let ghost before = *self;
        if !found {
            assert(self@ =~= before@.remove(key@));
            return None;
        }
        proof {
            before.lemma_at(i as int);
        }
        let mut entries = Vec::new();
        std::mem::swap(&mut entries, &mut self.entries);
        let ghost held = entries@;
        let (_, value) = entries.remove(i);
        proof {
            let s = entry_keys(held);
            let t = entry_keys(entries@);
            assert(t =~= s.remove(i as int));
            assert forall|a: int, b: int| 0 <= a < b < t.len() implies #[trigger] text_before(
                t[a],
                t[b],
            ) by {
                assert(text_before(
                    s[if a < i {
                        a
                    } else {
                        a + 1
                    }],
                    s[if b < i {
                        b
                    } else {
                        b + 1
                    }],
                ));
            }
        }
        self.entries = entries;
        let ghost after = *self;
        proof {
            lemma_removed(before, after, key@, i as int);
        }
        Some(value)
    }
}

proof fn lemma_ascending_distinct(s: Seq<Seq<char>>, i: int, j: int)
    requires
        ascending(s),
        0 <= i < s.len(),
        0 <= j < s.len(),
        s[i] == s[j],
    ensures
        i == j,
{
    text::lemma_before_irreflexive(s[i]);
    if i < j {
        assert(text_before(s[i], s[j]));
    } else if j < i {
        assert(text_before(s[j], s[i]));
    }
}

proof fn lemma_lookup<V: View>(
    before: TextMap<V>,
    after: TextMap<V>,
    key: Seq<char>,
    i: int,
    found: bool,
)
    requires
        ascending(before.keys()),
        ascending(after.keys()),
        0 <= i < after.entries@.len(),
        after.entries@[i].0@ == key,
        found ==> i < before.entries@.len() && before.entries@[i].0@ == key,
        !found ==> !before.keys().contains(key),
        found ==> after.entries@ == before.entries@.update(i, after.entries@[i]),
        !found ==> i <= before.entries@.len() && after.entries@ == before.entries@.insert(
            i,
            after.entries@[i],
        ),
    ensures
        after@ == before@.insert(key, after.entries@[i].1@),
{
    let m = before@.insert(key, after.entries@[i].1@);
    let s = before.keys();
    let t = after.keys();
    after.lemma_at(i);
    assert forall|k: Seq<char>| after@.contains_key(k) == m.contains_key(k) by {
        if t.contains(k) {
            let a = choose|a: int| 0 <= a < t.len() && t[a] == k;
            if k != key {
                let b = if found || a < i {
                    a
                } else {
                    a - 1
                };
                assert(s[b] == k);
            }
        }
        if s.contains(k) {
            let a = choose|a: int| 0 <= a < s.len() && s[a] == k;
            let b = if found || a < i {
                a
            } else {
                a + 1
            };
            assert(t[b] == k);
        }
    }
    assert forall|k: Seq<char>| #[trigger] after@.contains_key(k) implies after@[k] == m[k] by {
        if k != key {
            let a = choose|a: int| 0 <= a < t.len() && t[a] == k;
            let b = if found || a < i {
                a
            } else {
                a - 1
            };
            assert(s[b] == k);
            after.lemma_at(a);
            before.lemma_at(b);
        }
    }
    assert(after@ =~= m);
}

proof fn lemma_removed<V: View>(before: TextMap<V>, after: TextMap<V>, key: Seq<char>, i: int)
    requires
        ascending(before.keys()),
        ascending(after.keys()),
        0 <= i < before.entries@.len(),
        before.entries@[i].0@ == key,
        after.entries@ == before.entries@.remove(i),
    ensures
        after@ == before@.remove(key),
{
    let m = before@.remove(key);
    let s = before.keys();
    let t = after.keys();
    assert forall|k: Seq<char>| after@.contains_key(k) == m.contains_key(k) by {
        if t.contains(k) {
            let a = choose|a: int| 0 <= a < t.len() && t[a] == k;
            let b = if a < i {
                a
            } else {
                a + 1
            };
            assert(s[b] == k);
            if k == key {
                lemma_ascending_distinct(s, b, i);
            }
        }
        if s.contains(k) && k != key {
            let a = choose|a: int| 0 <= a < s.len() && s[a] == k;
            let b = if a < i {
                a
            } else {
                a - 1
            };
            assert(t[b] == k);
        }
    }
    assert forall|k: Seq<char>| #[trigger] after@.contains_key(k) implies after@[k] == m[k] by {
        let a = choose|a: int| 0 <= a < t.len() && t[a] == k;
        let b = if a < i {
            a
        } else {
            a + 1
        };
        assert(s[b] == k);
        assert(m.contains_key(k));
        assert(after.entries@[a] == before.entries@[b]);
        after.lemma_at(a);
        before.lemma_at(b);
    }
    assert(after@ =~= m);
}

} // verus!
