//! Views of lists and options, and sums over maps.
use vstd::prelude::*;

verus! {

/// The views of the items of a list.
pub open spec fn views<T: View>(s: Seq<T>) -> Seq<T::V> {
    Seq::new(s.len(), |i: int| s[i]@)
}

/// The view of an optional value.
pub open spec fn opt_view<T: View>(o: Option<T>) -> Option<T::V> {
    match o {
        Some(t) => Some(t@),
        None => None,
    }
}

/// Pushing an item pushes its view.
pub proof fn lemma_views_push<T: View>(s: Seq<T>, t: T)
    ensures
        views(s.push(t)) == views(s).push(t@),
{
    assert(views(s.push(t)) =~= views(s).push(t@));
}

/// Copies bytes.
pub fn copy_bytes(bytes: &[u8]) -> (r: Vec<u8>)
    ensures
        r@ == bytes@,
{
    let mut out: Vec<u8> = Vec::new();
    let mut i: usize = 0;
    while i < bytes.len()
        invariant
            i <= bytes@.len(),
            out@ == bytes@.take(i as int),
        decreases bytes@.len() - i,
    {
        out.push(bytes[i]);
        i = i + 1;
        assert(out@ =~= bytes@.take(i as int));
    }
    assert(out@ =~= bytes@);
    out
}

/// The position of the first item with a property, or the length of the list
/// where there is none.
pub open spec fn first_where<T>(s: Seq<T>, p: spec_fn(T) -> bool) -> int
    decreases s.len(),
{
    if s.len() == 0 || p(s[0]) {
        0
    } else {
        1 + first_where(s.drop_first(), p)
    }
}

/// What `first_where` finds.
pub proof fn lemma_first_where<T>(s: Seq<T>, p: spec_fn(T) -> bool, i: int)
    requires
        0 <= i <= s.len(),
        forall|k: int| 0 <= k < i ==> !p(#[trigger] s[k]),
        i < s.len() ==> p(s[i]),
    ensures
        first_where(s, p) == i,
    decreases s.len(),
{
    if i > 0 {
        let rest = s.drop_first();
        assert forall|k: int| 0 <= k < i - 1 implies !p(#[trigger] rest[k]) by {
            assert(!p(s[k + 1]));
        }
        lemma_first_where(rest, p, i - 1);
    }
}

/// Bounds of `first_where`.
pub proof fn lemma_first_where_bounds<T>(s: Seq<T>, p: spec_fn(T) -> bool)
    ensures
        0 <= first_where(s, p) <= s.len(),
        first_where(s, p) < s.len() ==> p(s[first_where(s, p)]),
        forall|k: int| 0 <= k < first_where(s, p) ==> !p(#[trigger] s[k]),
    decreases s.len(),
{
    if s.len() > 0 && !p(s[0]) {
        let rest = s.drop_first();
        lemma_first_where_bounds(rest, p);
        assert forall|k: int| 0 <= k < first_where(s, p) implies !p(#[trigger] s[k]) by {
            if k > 0 {
                assert(!p(rest[k - 1]));
            }
        }
    }
}

/// The last `n` items of a list.
pub open spec fn last_items<T>(s: Seq<T>, n: int) -> Seq<T> {
    if s.len() > n {
        s.skip(s.len() - n)
    } else {
        s
    }
}

/// Keeps the last `n` items of a list.
pub fn keep_last<T: View>(list: &mut Vec<T>, n: usize)
    ensures
        views(final(list)@) == last_items(views(old(list)@), n as int),
        final(list)@ == last_items(old(list)@, n as int),
{
    if list.len() > n {
        let at = list.len() - n;
        let mut tail = list.split_off(at);
        std::mem::swap(list, &mut tail);
        assert(list@ =~= last_items(old(list)@, n as int));
        assert(views(list@) =~= last_items(views(old(list)@), n as int));
    }
}

/// The sum of a quantity over the values of a finite map.
pub open spec fn total<K, V>(m: Map<K, V>, f: spec_fn(V) -> int) -> int
    decreases m.dom().len(),
    when m.dom().finite()
{
    if m.dom().len() == 0 {
        0
    } else {
        let k = m.dom().choose();
        f(m[k]) + total(m.remove(k), f)
    }
}

/// Any entry can be taken out of a sum first.
pub proof fn lemma_total_remove<K, V>(m: Map<K, V>, f: spec_fn(V) -> int, k: K)
    requires
        m.dom().finite(),
        m.contains_key(k),
    ensures
        total(m, f) == f(m[k]) + total(m.remove(k), f),
    decreases m.dom().len(),
{
    let c = m.dom().choose();
    assert(m.dom().len() > 0);
    if c != k {
        lemma_total_remove(m.remove(c), f, k);
        lemma_total_remove(m.remove(k), f, c);
        assert(m.remove(c).remove(k) =~= m.remove(k).remove(c));
    }
}

/// The sum after an entry was set.
pub proof fn lemma_total_insert<K, V>(m: Map<K, V>, f: spec_fn(V) -> int, k: K, v: V)
    requires
        m.dom().finite(),
    ensures
        total(m.insert(k, v), f) == f(v) + total(m.remove(k), f),
        m.contains_key(k) ==> total(m, f) == f(m[k]) + total(m.remove(k), f),
        !m.contains_key(k) ==> total(m, f) == total(m.remove(k), f),
{
    lemma_total_remove(m.insert(k, v), f, k);
    assert(m.insert(k, v).remove(k) =~= m.remove(k));
    if m.contains_key(k) {
        lemma_total_remove(m, f, k);
    } else {
        assert(m.remove(k) =~= m);
    }
}

/// Keeping the last items of a list takes off its beginning and nothing else: at most as many
/// as asked for are left, all of a shorter list, and the end stays the end.
pub proof fn law_last_items_end_the_list<T>(s: Seq<T>, n: int, i: int)
    requires
        n >= 0,
    ensures
        s.len() <= n ==> last_items(s, n) == s,
        s.len() > n ==> last_items(s, n).len() == n,
        0 < i <= last_items(s, n).len() ==> last_items(s, n)[last_items(s, n).len() - i]
            == s[s.len() - i],
{
}

/// The first item with a property has it, and none before it has; where none has it, the
/// position is the length of the list.
pub proof fn law_first_has_the_property<T>(s: Seq<T>, p: spec_fn(T) -> bool, k: int)
    ensures
        0 <= first_where(s, p) <= s.len(),
        first_where(s, p) < s.len() ==> p(s[first_where(s, p)]),
        0 <= k < first_where(s, p) ==> !p(s[k]),
        0 <= k < s.len() && p(s[k]) ==> first_where(s, p) <= k,
    decreases s.len(),
{
    if s.len() > 0 && !p(s[0]) {
        law_first_has_the_property(s.drop_first(), p, k - 1);
    }
}

/// A sum over a map is nothing for the empty one, and grows by the quantity of what is added.
pub proof fn law_sum_counts_each_value_once<K, V>(m: Map<K, V>, f: spec_fn(V) -> int, k: K, v: V)
    requires
        m.dom().finite(),
    ensures
        total(Map::<K, V>::empty(), f) == 0,
        !m.contains_key(k) ==> total(m.insert(k, v), f) == total(m, f) + f(v),
        m.contains_key(k) ==> total(m.insert(k, v), f) == total(m, f) - f(m[k]) + f(v),
        m.contains_key(k) ==> total(m.remove(k), f) == total(m, f) - f(m[k]),
{
    lemma_total_insert(m, f, k, v);
}

} // verus!
