//! The forwards that are set up again on the next launch.
use vstd::prelude::*;

use crate::controller::{
    law_proto_name_round_trip, proto_named, Direction, ForwardSpec, ForwardSpecView, Proto,
};
use crate::model::{lemma_views_push, views};
use crate::text;

verus! {

/// A forward as it is stored, made of plain values.
#[derive(Debug, PartialEq, Eq)]
pub struct PersistedForward {
    /// "serve" or "connect".
    pub direction: String,
    /// "tcp" or "udp".
    pub proto: String,
    pub addr: String,
    pub listen_port: i32,
    pub target: String,
}

/// The model of `PersistedForward`.
pub struct PersistedForwardView {
    pub direction: Seq<char>,
    pub proto: Seq<char>,
    pub addr: Seq<char>,
    pub listen_port: i32,
    pub target: Seq<char>,
}

impl View for PersistedForward {
    type V = PersistedForwardView;

    open spec fn view(&self) -> PersistedForwardView {
        PersistedForwardView {
            direction: self.direction@,
            proto: self.proto@,
            addr: self.addr@,
            listen_port: self.listen_port,
            target: self.target@,
        }
    }
}

impl Clone for PersistedForward {
    fn clone(&self) -> (r: Self)
        ensures
            r@ == self@,
    {
        PersistedForward {
            direction: text::copy(self.direction.as_str()),
            proto: text::copy(self.proto.as_str()),
            addr: text::copy(self.addr.as_str()),
            listen_port: self.listen_port,
            target: text::copy(self.target.as_str()),
        }
    }
}

/// The name of a direction.
pub open spec fn direction_name(direction: Direction) -> Seq<char> {
    match direction {
        Direction::Serve => "serve"@,
        Direction::Connect => "connect"@,
    }
}

/// The direction of a name.
pub open spec fn direction_named(name: Seq<char>) -> Option<Direction> {
    if name == "serve"@ {
        Some(Direction::Serve)
    } else if name == "connect"@ {
        Some(Direction::Connect)
    } else {
        None
    }
}

/// A forward in its stored form.
pub open spec fn persisted(spec: ForwardSpecView) -> PersistedForwardView {
    PersistedForwardView {
        direction: direction_name(spec.direction),
        proto: spec.proto.name(),
        addr: spec.addr,
        listen_port: spec.listen_port,
        target: spec.target,
    }
}

/// The forward that a stored form stands for, or what is wrong with it.
pub open spec fn restored(p: PersistedForwardView) -> Result<ForwardSpecView, Seq<char>> {
    match direction_named(p.direction) {
        None => Err("unknown direction: "@ + p.direction),
        Some(direction) => match proto_named(p.proto) {
            None => Err("unsupported protocol: "@ + p.proto),
            Some(proto) => Ok(
                ForwardSpecView {
                    direction,
                    proto,
                    addr: p.addr,
                    listen_port: p.listen_port,
                    target: p.target,
                },
            ),
        },
    }
}

impl PersistedForward {
    /// The stored form of a forward.
    pub fn from_spec(spec: &ForwardSpec) -> (r: Self)
        ensures
            r@ == persisted(spec@),
    {
        let direction = match spec.direction {
            Direction::Serve => "serve",
            Direction::Connect => "connect",
        };
        PersistedForward {
            direction: text::copy(direction),
            proto: text::copy(spec.proto.as_str()),
            addr: text::copy(spec.addr.as_str()),
            listen_port: spec.listen_port,
            target: text::copy(spec.target.as_str()),
        }
    }

    /// The forward that the stored form stands for. An unknown direction is
    /// reported before an unknown protocol.
    pub fn to_spec(&self) -> (r: Result<ForwardSpec, String>)
        ensures
            match r {
                Ok(spec) => restored(self@) == Ok::<ForwardSpecView, Seq<char>>(spec@),
                Err(message) => restored(self@) == Err::<ForwardSpecView, Seq<char>>(message@),
            },
    {
        let direction = if text::same(self.direction.as_str(), "serve") {
            Direction::Serve
        } else if text::same(self.direction.as_str(), "connect") {
            Direction::Connect
        } else {
            return Err(text::cat2("unknown direction: ", self.direction.as_str()));
        };
        match Proto::from_name(self.proto.as_str()) {
            Ok(proto) => Ok(
                ForwardSpec {
                    direction,
                    proto,
                    addr: text::copy(self.addr.as_str()),
                    listen_port: self.listen_port,
                    target: text::copy(self.target.as_str()),
                },
            ),
            Err(message) => Err(message),
        }
    }
}

/// Storing a forward and reading it back gives the same forward.
pub proof fn law_persist_round_trip(spec: ForwardSpecView)
    ensures
        restored(persisted(spec)) == Ok::<ForwardSpecView, Seq<char>>(spec),
{
    reveal_strlit("serve");
    reveal_strlit("connect");
    assert("serve"@[0] != "connect"@[0]);
    law_proto_name_round_trip(spec.proto);
}

/// The stored forwards, in the order in which they were added.
pub struct ForwardStore {
    entries: Vec<PersistedForward>,
}

impl View for ForwardStore {
    type V = Seq<PersistedForwardView>;

    closed spec fn view(&self) -> Seq<PersistedForwardView> {
        views(self.entries@)
    }
}

/// The entries whose target is another one.
pub open spec fn without_target(
    s: Seq<PersistedForwardView>,
    target: Seq<char>,
) -> Seq<PersistedForwardView> {
    s.filter(|e: PersistedForwardView| e.target != target)
}

/// The entries after a forward was added: it replaces any with its target.
pub open spec fn added(
    s: Seq<PersistedForwardView>,
    spec: ForwardSpecView,
) -> Seq<PersistedForwardView> {
    without_target(s, spec.target).push(persisted(spec))
}

/// Whether an entry has a target.
pub open spec fn has_target(s: Seq<PersistedForwardView>, target: Seq<char>) -> bool {
    exists|i: int| 0 <= i < s.len() && #[trigger] s[i].target == target
}

impl ForwardStore {
    /// A store with the entries that were read from a file.
    pub fn from_entries(entries: Vec<PersistedForward>) -> (r: Self)
        ensures
            r@ == views(entries@),
    {
        ForwardStore { entries }
    }

    /// The entries, oldest first.
    pub fn list(&self) -> (r: Vec<PersistedForward>)
        ensures
            views(r@) == self@,
    {
        let mut out: Vec<PersistedForward> = Vec::new();
        let mut i: usize = 0;
        while i < self.entries.len()
            invariant
                i <= self.entries@.len(),
                views(out@) == views(self.entries@).take(i as int),
            decreases self.entries@.len() - i,
        {
            let entry = self.entries[i].clone();
            proof {
                lemma_views_push(out@, entry);
            }
            out.push(entry);
            i = i + 1;
            assert(views(out@) =~= views(self.entries@).take(i as int));
        }
        assert(views(out@) =~= views(self.entries@));
        out
    }

    fn drop_target(&mut self, target: &str)
        ensures
            final(self)@ == without_target(old(self)@, target@),
    {
        let mut kept: Vec<PersistedForward> = Vec::new();
        let ghost all = self@;
        let mut i: usize = 0;
        assert(all.take(0) =~= Seq::empty());
        assert(views(kept@) =~= without_target(all.take(0), target@));
        while i < self.entries.len()
            invariant
                i <= self.entries@.len(),
                all == views(self.entries@),
                views(kept@) == without_target(all.take(i as int), target@),
            decreases self.entries@.len() - i,
        {
            let ghost head = all.take(i + 1);
            assert(head.drop_last() =~= all.take(i as int));
            assert(head.last() == self.entries@[i as int]@);
            reveal(Seq::filter);
            if !text::same(self.entries[i].target.as_str(), target) {
                let entry = self.entries[i].clone();
                proof {
                    lemma_views_push(kept@, entry);
                }
                kept.push(entry);
            }
            i = i + 1;
        }
        assert(all.take(i as int) =~= all);
        self.entries = kept;
    }

    /// Adds a forward in place of any with the same target.
    pub fn add(&mut self, spec: &ForwardSpec)
        ensures
            final(self)@ == added(old(self)@, spec@),
    {
        self.drop_target(spec.target.as_str());
        let entry = PersistedForward::from_spec(spec);
        proof {
            lemma_views_push(self.entries@, entry);
        }
        self.entries.push(entry);
    }

    /// Removes the forward with a target and says whether there was one.
    pub fn remove(&mut self, target: &str) -> (r: bool)
        ensures
            final(self)@ == without_target(old(self)@, target@),
            r == has_target(old(self)@, target@),
    {
        let before = self.entries.len();
        self.drop_target(target);
        proof {
            lemma_shrinks(old(self)@, target@);
        }
        self.entries.len() != before
    }
}

proof fn lemma_shrinks(s: Seq<PersistedForwardView>, target: Seq<char>)
    ensures
        without_target(s, target).len() <= s.len(),
        without_target(s, target).len() < s.len() <==> has_target(s, target),
        !has_target(s, target) ==> without_target(s, target) == s,
        !has_target(without_target(s, target), target),
    decreases s.len(),
{
    reveal(Seq::filter);
    if s.len() > 0 {
        let rest = s.drop_last();
        lemma_shrinks(rest, target);
        if has_target(rest, target) {
            let i = choose|i: int| 0 <= i < rest.len() && #[trigger] rest[i].target == target;
            assert(s[i].target == target);
        }
        if s.last().target == target {
            assert(s[s.len() - 1].target == target);
        } else if has_target(s, target) {
            let i = choose|i: int| 0 <= i < s.len() && #[trigger] s[i].target == target;
            assert(rest[i].target == target);
        }
        if !has_target(s, target) {
            assert(s =~= rest.push(s.last()));
        }
        let kept = without_target(s, target);
        if has_target(kept, target) {
            let i = choose|i: int| 0 <= i < kept.len() && #[trigger] kept[i].target == target;
            if i < without_target(rest, target).len() {
                assert(without_target(rest, target)[i].target == target);
            }
        }
    }
}

/// Adding a forward a second time changes nothing.
pub proof fn law_add_idempotent(s: Seq<PersistedForwardView>, spec: ForwardSpecView)
    ensures
        added(added(s, spec), spec) == added(s, spec),
{
    let once = added(s, spec);
    let kept = without_target(s, spec.target);
    lemma_shrinks(s, spec.target);
    lemma_shrinks(kept, spec.target);
    reveal(Seq::filter);
    assert(once.drop_last() =~= kept);
    assert(without_target(once, spec.target) == kept);
}

/// Each target at most once.
pub open spec fn one_per_target(s: Seq<PersistedForwardView>) -> bool {
    forall|i: int, j: int|
        0 <= i < j < s.len() ==> #[trigger] s[i].target != #[trigger] s[j].target
}

proof fn lemma_filter_one_per_target(s: Seq<PersistedForwardView>, target: Seq<char>)
    requires
        one_per_target(s),
    ensures
        one_per_target(without_target(s, target)),
        forall|t: Seq<char>| #[trigger]
            has_target(without_target(s, target), t) ==> has_target(s, t),
    decreases s.len(),
{
    reveal(Seq::filter);
    if s.len() > 0 {
        let rest = s.drop_last();
        assert(one_per_target(rest)) by {
            assert forall|i: int, j: int| 0 <= i < j < rest.len() implies #[trigger] rest[i].target
                != #[trigger] rest[j].target by {
                assert(s[i].target != s[j].target);
            }
        }
        lemma_filter_one_per_target(rest, target);
        let kept = without_target(rest, target);
        let all = without_target(s, target);
        assert forall|i: int, j: int| 0 <= i < j < all.len() implies #[trigger] all[i].target
            != #[trigger] all[j].target by {
            if j < kept.len() {
                assert(kept[i].target != kept[j].target);
            } else {
                assert(kept[i].target == all[i].target);
                assert(has_target(kept, all[i].target));
                assert(has_target(rest, all[i].target));
                let k = choose|k: int|
                    0 <= k < rest.len() && #[trigger] rest[k].target == all[i].target;
                assert(s[k].target != s[s.len() - 1].target);
            }
        }
        assert forall|t: Seq<char>| #[trigger] has_target(all, t) implies has_target(s, t) by {
            let i = choose|i: int| 0 <= i < all.len() && #[trigger] all[i].target == t;
            if i < kept.len() {
                assert(kept[i].target == t);
                assert(has_target(kept, t));
                let k = choose|k: int| 0 <= k < rest.len() && #[trigger] rest[k].target == t;
                assert(s[k].target == t);
            } else {
                assert(s[s.len() - 1].target == t);
            }
        }
    }
}

/// A store that holds each target at most once still does after a forward was
/// added or removed, and holds the forward that was added and not the one that
/// was removed.
pub proof fn law_one_entry_per_target(
    s: Seq<PersistedForwardView>,
    spec: ForwardSpecView,
    target: Seq<char>,
)
    requires
        one_per_target(s),
    ensures
        one_per_target(added(s, spec)),
        added(s, spec).contains(persisted(spec)),
        one_per_target(without_target(s, target)),
        !has_target(without_target(s, target), target),
{
    lemma_filter_one_per_target(s, spec.target);
    lemma_filter_one_per_target(s, target);
    lemma_shrinks(s, spec.target);
    lemma_shrinks(s, target);
    let kept = without_target(s, spec.target);
    let all = added(s, spec);
    assert(all[all.len() - 1] == persisted(spec));
    assert forall|i: int, j: int| 0 <= i < j < all.len() implies #[trigger] all[i].target
        != #[trigger] all[j].target by {
        if j < kept.len() {
            assert(kept[i].target != kept[j].target);
        } else if all[i].target == spec.target {
            assert(kept[i].target == spec.target);
            assert(has_target(kept, spec.target));
        }
    }
}

/// Adding or removing a forward keeps every stored forward with another target, and
/// makes none up: what is stored afterwards is what was stored under other targets,
/// and the one that was added.
pub proof fn law_other_forwards_are_kept(
    s: Seq<PersistedForwardView>,
    spec: ForwardSpecView,
    e: PersistedForwardView,
)
    ensures
        e.target != spec.target ==> (added(s, spec).contains(e) <==> s.contains(e)),
        e.target == spec.target ==> (added(s, spec).contains(e) <==> e == persisted(spec)),
        without_target(s, spec.target).contains(e) <==> s.contains(e) && e.target != spec.target,
        !has_target(s, spec.target) ==> without_target(s, spec.target) == s && added(s, spec)
            == s.push(persisted(spec)),
        persisted(spec).target == spec.target,
{
    broadcast use vstd::seq_lib::group_filter_ensures;

    let other = |e: PersistedForwardView| e.target != spec.target;
    let kept = without_target(s, spec.target);
    let all = added(s, spec);
    lemma_shrinks(s, spec.target);
    if s.contains(e) && e.target != spec.target {
        let i = choose|i: int| 0 <= i < s.len() && s[i] == e;
        assert(other(s[i]));
        assert(kept.contains(e));
        let j = choose|j: int| 0 <= j < kept.len() && kept[j] == e;
        assert(all[j] == e);
    }
    if kept.contains(e) {
        s.lemma_filter_contains_rev(other, e);
        let j = choose|j: int| 0 <= j < kept.len() && kept[j] == e;
        assert(other(kept[j]));
    }
    if all.contains(e) {
        let j = choose|j: int| 0 <= j < all.len() && all[j] == e;
        if j < kept.len() {
            assert(kept[j] == e);
        }
    }
    assert(all[all.len() - 1] == persisted(spec));
}

/// The stored forwards keep their order, and a new one comes last: the order of the
/// entries with other targets is the one that they had, wherever the list is cut.
pub proof fn law_stored_order_is_kept(
    a: Seq<PersistedForwardView>,
    b: Seq<PersistedForwardView>,
    spec: ForwardSpecView,
)
    ensures
        added(a + b, spec) == added(a, spec).drop_last() + added(b, spec),
        added(a, spec).len() > 0 && added(a, spec).last() == persisted(spec),
        without_target(a + b, spec.target) == without_target(a, spec.target) + without_target(
            b,
            spec.target,
        ),
{
    let other = |e: PersistedForwardView| e.target != spec.target;
    Seq::filter_distributes_over_add(a, b, other);
    assert(added(a, spec).drop_last() =~= without_target(a, spec.target));
    assert(added(a + b, spec) =~= added(a, spec).drop_last() + added(b, spec));
}

/// What is stored of a forward is its own target, address and port, and the names of
/// its direction and protocol. Other names are refused, with the reason.
pub proof fn law_stored_form(spec: ForwardSpecView, p: PersistedForwardView)
    ensures
        persisted(spec).addr == spec.addr,
        persisted(spec).listen_port == spec.listen_port,
        persisted(spec).target == spec.target,
        spec.direction is Serve ==> persisted(spec).direction == "serve"@,
        spec.direction is Connect ==> persisted(spec).direction == "connect"@,
        restored(p) is Ok <==> (p.direction == "serve"@ || p.direction == "connect"@) && (p.proto
            == "tcp"@ || p.proto == "udp"@),
        restored(p) matches Ok(spec) ==> persisted(spec) == p,
        p.direction != "serve"@ && p.direction != "connect"@ ==> restored(p) == Err::<
            ForwardSpecView,
            Seq<char>,
        >("unknown direction: "@ + p.direction),
        (p.direction == "serve"@ || p.direction == "connect"@) && p.proto != "tcp"@ && p.proto
            != "udp"@ ==> restored(p) == Err::<ForwardSpecView, Seq<char>>(
            "unsupported protocol: "@ + p.proto,
        ),
{
    reveal_strlit("serve");
    reveal_strlit("connect");
    reveal_strlit("tcp");
    reveal_strlit("udp");
    assert("serve"@[0] != "connect"@[0]);
    assert("tcp"@[0] != "udp"@[0]);
}

} // verus!
