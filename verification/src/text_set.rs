//! A set of texts that lists its members in their order.
use vstd::prelude::*;

use crate::text;
use crate::text::texts;
use crate::text_map::{sorted, TextMap};

verus! {

/// A set of texts.
pub struct TextSet {
    members: TextMap<()>,
}

impl View for TextSet {
    type V = Set<Seq<char>>;

    closed spec fn view(&self) -> Set<Seq<char>> {
        self.members@.dom()
    }
}

impl TextSet {
    /// The empty set.
    pub fn new() -> (r: Self)
        ensures
            r@ == Set::<Seq<char>>::empty(),
    {
        let r = TextSet { members: TextMap::new() };
        assert(r@ =~= Set::<Seq<char>>::empty());
        r
    }

    /// The set of the texts of a list.
    pub fn from_texts(list: &Vec<String>) -> (r: Self)
        ensures
            r@ == texts(list@).to_set(),
    {
        let mut out = TextSet::new();
        let ghost all = texts(list@);
        assert(all.take(0).to_set() =~= Set::<Seq<char>>::empty());
        let mut i: usize = 0;
        while i < list.len()
            invariant
                i <= list@.len(),
                all == texts(list@),
                out@ == all.take(i as int).to_set(),
            decreases list@.len() - i,
        {
            let ghost head = all.take(i as int);
            let _ = out.insert(text::copy(list[i].as_str()));
            proof {
                let next = all.take(i + 1);
                assert(next =~= head.push(list@[i as int]@));
                assert(next.to_set() =~= head.to_set().insert(list@[i as int]@)) by {
                    assert(next[i as int] == list@[i as int]@);
                    assert forall|x: Seq<char>| next.to_set().contains(x) == head.to_set().insert(
                        list@[i as int]@,
                    ).contains(x) by {
                        if head.contains(x) {
                            let k = choose|k: int| 0 <= k < head.len() && head[k] == x;
                            assert(next[k] == x);
                        }
                        if next.contains(x) {
                            let k = choose|k: int| 0 <= k < next.len() && next[k] == x;
                            if k < i {
                                assert(head[k] == x);
                            }
                        }
                    }
                }
            }
            i = i + 1;
        }
        assert(all.take(i as int) =~= all);
        out
    }

    /// Whether a text is a member.
    pub fn contains(&self, s: &str) -> (r: bool)
        ensures
            r == self@.contains(s@),
    {
        self.members.contains_key(s)
    }

    /// Adds a text and says whether it is new.
    pub fn insert(&mut self, s: String) -> (r: bool)
        ensures
            final(self)@ == old(self)@.insert(s@),
            r == !old(self)@.contains(s@),
    {
        let fresh = !self.members.contains_key(s.as_str());
        let ghost key = s@;
        self.members.insert(s, ());
        assert(self@ =~= old(self)@.insert(key));
        fresh
    }

    /// Removes a text and says whether it was there.
    pub fn remove(&mut self, s: &str) -> (r: bool)
        ensures
            final(self)@ == old(self)@.remove(s@),
            r == old(self)@.contains(s@),
    {
        let removed = self.members.remove(s);
        assert(self@ =~= old(self)@.remove(s@));
        removed.is_some()
    }

    /// The members in order.
    pub fn to_vec(&self) -> (r: Vec<String>)
        ensures
            texts(r@) == sorted(self@),
            self@.finite(),
    {
        let n = self.members.len();
        let ghost all = sorted(self@);
        let mut out: Vec<String> = Vec::new();
        let mut i: usize = 0;
        while i < n
            invariant
                i <= n,
                n == self.members.keys().len(),
                self.members.keys() == all,
                texts(out@) == all.take(i as int),
            decreases n - i,
        {
            let ghost before = out@;
            let key = text::copy(self.members.key_at(i));
            out.push(key);
            assert(texts(out@) =~= texts(before).push(key@));
            i = i + 1;
            assert(texts(out@) =~= all.take(i as int));
        }
        assert(all.take(n as int) =~= all);
        out
    }
}

} // verus!
