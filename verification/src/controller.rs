//! The forwards of a node: what they are, what they carried, how they fare.
use vstd::prelude::*;

use crate::forward_runtime::{
    fresh_runtime, ForwardRuntime, PeerMetrics, PeerMetricsView, RuntimeView,
};
use crate::model::{lemma_views_push, views};
use crate::text;
use crate::text_map::{sorted, TextMap};

verus! {

/// The side of a tunnel on which a forward runs.
#[derive(Debug, Clone, Copy, PartialEq, Eq, Structural)]
pub enum Direction {
    Serve,
    Connect,
}

/// The protocol of a forward.
#[derive(Debug, Clone, Copy, PartialEq, Eq, Structural)]
pub enum Proto {
    Tcp,
    Udp,
}

/// The protocol of a name.
pub open spec fn proto_named(name: Seq<char>) -> Option<Proto> {
    if name == "tcp"@ {
        Some(Proto::Tcp)
    } else if name == "udp"@ {
        Some(Proto::Udp)
    } else {
        None
    }
}

impl Proto {
    /// The name of a protocol.
    pub open spec fn name(self) -> Seq<char> {
        match self {
            Proto::Tcp => "tcp"@,
            Proto::Udp => "udp"@,
        }
    }

    /// Finds a protocol by its name; any other name is refused.
    pub fn from_name(name: &str) -> (r: Result<Self, String>)
        ensures
            match r {
                Ok(proto) => proto_named(name@) == Some(proto),
                Err(message) => proto_named(name@) is None && message@ == "unsupported protocol: "@
                    + name@,
            },
    {
        if text::same(name, "tcp") {
            Ok(Proto::Tcp)
        } else if text::same(name, "udp") {
            Ok(Proto::Udp)
        } else {
            Err(text::cat2("unsupported protocol: ", name))
        }
    }

    /// The name of the protocol.
    pub fn as_str(self) -> (r: &'static str)
        ensures
            r@ == self.name(),
    {
        match self {
            Proto::Tcp => "tcp",
            Proto::Udp => "udp",
        }
    }
}

/// A protocol is found by its own name.
pub proof fn law_proto_name_round_trip(proto: Proto)
    ensures
        proto_named(proto.name()) == Some(proto),
{
    reveal_strlit("tcp");
    reveal_strlit("udp");
    assert("tcp"@[0] != "udp"@[0]);
}

/// What a forward is to do.
#[derive(Debug, PartialEq, Eq)]
pub struct ForwardSpec {
    pub direction: Direction,
    pub proto: Proto,
    pub addr: String,
    pub listen_port: i32,
    pub target: String,
}

/// The model of `ForwardSpec`.
pub struct ForwardSpecView {
    pub direction: Direction,
    pub proto: Proto,
    pub addr: Seq<char>,
    pub listen_port: i32,
    pub target: Seq<char>,
}

impl View for ForwardSpec {
    type V = ForwardSpecView;

    open spec fn view(&self) -> ForwardSpecView {
        ForwardSpecView {
            direction: self.direction,
            proto: self.proto,
            addr: self.addr@,
            listen_port: self.listen_port,
            target: self.target@,
        }
    }
}

impl Clone for ForwardSpec {
    fn clone(&self) -> (r: Self)
        ensures
            r@ == self@,
    {
        ForwardSpec {
            direction: self.direction,
            proto: self.proto,
            addr: text::copy(self.addr.as_str()),
            listen_port: self.listen_port,
            target: text::copy(self.target.as_str()),
        }
    }
}

/// How a forward fares.
#[derive(Debug, PartialEq, Eq)]
pub enum ForwardState {
    Listening,
    Error(String),
    Stopped,
}

/// The model of `ForwardState`.
pub enum ForwardStateView {
    Listening,
    Error(Seq<char>),
    Stopped,
}

impl View for ForwardState {
    type V = ForwardStateView;

    open spec fn view(&self) -> ForwardStateView {
        match self {
            ForwardState::Listening => ForwardStateView::Listening,
            ForwardState::Error(message) => ForwardStateView::Error(message@),
            ForwardState::Stopped => ForwardStateView::Stopped,
        }
    }
}

impl Clone for ForwardState {
    fn clone(&self) -> (r: Self)
        ensures
            r@ == self@,
    {
        match self {
            ForwardState::Listening => ForwardState::Listening,
            ForwardState::Error(message) => ForwardState::Error(text::copy(message.as_str())),
            ForwardState::Stopped => ForwardState::Stopped,
        }
    }
}

/// A forward as it is shown.
#[derive(Debug, PartialEq, Eq)]
pub struct ForwardStatus {
    pub key: String,
    pub spec: ForwardSpec,
    pub active_conns: usize,
    pub bytes_in: u64,
    pub bytes_out: u64,
    pub state: ForwardState,
    pub peers: Vec<PeerMetrics>,
}

/// The model of `ForwardStatus`.
pub struct ForwardStatusView {
    pub key: Seq<char>,
    pub spec: ForwardSpecView,
    pub active_conns: usize,
    pub bytes_in: u64,
    pub bytes_out: u64,
    pub state: ForwardStateView,
    pub peers: Seq<PeerMetricsView>,
}

impl View for ForwardStatus {
    type V = ForwardStatusView;

    open spec fn view(&self) -> ForwardStatusView {
        ForwardStatusView {
            key: self.key@,
            spec: self.spec@,
            active_conns: self.active_conns,
            bytes_in: self.bytes_in,
            bytes_out: self.bytes_out,
            state: self.state@,
            peers: views(self.peers@),
        }
    }
}

/// Why a forward could not be added or removed.
#[derive(Debug, PartialEq, Eq)]
pub enum ForwardError {
    EmptyTarget,
    AlreadyExists(String),
    NotFound(String),
}

impl ForwardError {
    /// The text of an error.
    pub open spec fn text(self) -> Seq<char> {
        match self {
            ForwardError::EmptyTarget => "forward target must not be empty"@,
            ForwardError::AlreadyExists(key) => "forward already exists: "@ + key@,
            ForwardError::NotFound(key) => "forward not found: "@ + key@,
        }
    }

    /// The error in words.
    pub fn message(&self) -> (r: String)
        ensures
            r@ == self.text(),
    {
        match self {
            ForwardError::EmptyTarget => text::copy("forward target must not be empty"),
            ForwardError::AlreadyExists(key) => text::cat2(
                "forward already exists: ",
                key.as_str(),
            ),
            ForwardError::NotFound(key) => text::cat2("forward not found: ", key.as_str()),
        }
    }
}

struct ForwardHandle {
    spec: ForwardSpec,
    runtime: ForwardRuntime,
    state: ForwardState,
}

/// The model of a forward that is held.
#[verifier::ext_equal]
pub struct HandleView {
    pub spec: ForwardSpecView,
    pub runtime: RuntimeView,
    pub state: ForwardStateView,
}

impl View for ForwardHandle {
    type V = HandleView;

    closed spec fn view(&self) -> HandleView {
        HandleView { spec: self.spec@, runtime: self.runtime@, state: self.state@ }
    }
}

/// A forward that has just been added.
pub open spec fn fresh_handle(spec: ForwardSpecView) -> HandleView {
    HandleView {
        spec,
        runtime: fresh_runtime(),
        state: ForwardStateView::Listening,
    }
}

/// A held forward as it is shown.
pub open spec fn status_of(key: Seq<char>, handle: HandleView) -> ForwardStatusView {
    ForwardStatusView {
        key,
        spec: handle.spec,
        active_conns: handle.runtime.metrics.active_conns,
        bytes_in: handle.runtime.metrics.bytes_in,
        bytes_out: handle.runtime.metrics.bytes_out,
        state: handle.state,
        peers: handle.runtime.peer_entries(),
    }
}

/// Something that a connection of a forward did.
#[derive(Debug, Clone, Copy, PartialEq, Eq)]
pub enum Traffic {
    Opened,
    Closed,
    BytesIn(usize),
    BytesOut(usize),
}

/// The counters after a connection with a peer did something.
pub open spec fn after_traffic(v: RuntimeView, peer_id: Seq<char>, traffic: Traffic) -> RuntimeView {
    match traffic {
        Traffic::Opened => v.opened_by(peer_id),
        Traffic::Closed => v.closed_by(peer_id),
        Traffic::BytesIn(n) => v.received_from(peer_id, n as int),
        Traffic::BytesOut(n) => v.sent_to(peer_id, n as int),
    }
}

/// A forward that was taken out, and whether its target has to be withdrawn
/// from the peers.
#[derive(Debug, PartialEq, Eq)]
pub struct RemovedForward {
    pub spec: ForwardSpec,
    pub unpublish: bool,
}

/// The forwards of a node, keyed by target.
pub struct ForwardController {
    forwards: TextMap<ForwardHandle>,
}

impl View for ForwardController {
    type V = Map<Seq<char>, HandleView>;

    closed spec fn view(&self) -> Map<Seq<char>, HandleView> {
        self.forwards@
    }
}

/// The forwards in the order of their keys, as they are shown.
pub open spec fn statuses(m: Map<Seq<char>, HandleView>) -> Seq<ForwardStatusView> {
    sorted(m.dom()).map_values(|key: Seq<char>| status_of(key, m[key]))
}

/// Whether a forward can be added: it has a target that no other one has.
pub open spec fn can_add(m: Map<Seq<char>, HandleView>, target: Seq<char>) -> bool {
    target.len() > 0 && !m.contains_key(target)
}

/// The forwards after one was to be added.
pub open spec fn with_added(
    m: Map<Seq<char>, HandleView>,
    spec: ForwardSpecView,
) -> Map<Seq<char>, HandleView> {
    if can_add(m, spec.target) {
        m.insert(spec.target, fresh_handle(spec))
    } else {
        m
    }
}

/// The forwards after one was taken out.
pub open spec fn with_removed(
    m: Map<Seq<char>, HandleView>,
    key: Seq<char>,
) -> Map<Seq<char>, HandleView> {
    m.remove(key)
}

/// Whether the target of a forward has to be withdrawn from the peers when it is taken
/// out.
pub open spec fn withdraws(spec: ForwardSpecView) -> bool {
    spec.direction == Direction::Serve
}

/// The forwards after a connection of one did something.
pub open spec fn with_traffic(
    m: Map<Seq<char>, HandleView>,
    key: Seq<char>,
    peer_id: Seq<char>,
    traffic: Traffic,
) -> Map<Seq<char>, HandleView> {
    if m.contains_key(key) {
        m.insert(
            key,
            HandleView { runtime: after_traffic(m[key].runtime, peer_id, traffic), ..m[key] },
        )
    } else {
        m
    }
}

/// The forwards after the listener of one failed.
pub open spec fn with_failure(
    m: Map<Seq<char>, HandleView>,
    key: Seq<char>,
    message: Seq<char>,
) -> Map<Seq<char>, HandleView> {
    if m.contains_key(key) {
        m.insert(key, HandleView { state: ForwardStateView::Error(message), ..m[key] })
    } else {
        m
    }
}

/// Each forward is held under its own target, which is not empty.
pub open spec fn keyed(m: Map<Seq<char>, HandleView>) -> bool {
    forall|key: Seq<char>| #[trigger]
        m.contains_key(key) ==> key.len() > 0 && m[key].spec.target == key
}

impl ForwardController {
    #[verifier::type_invariant]
    spec fn held_by_target(&self) -> bool {
        keyed(self.forwards@)
    }

    /// A node without forwards.
    pub fn new() -> (r: Self)
        ensures
            r@ == Map::<Seq<char>, HandleView>::empty(),
    {
        ForwardController { forwards: TextMap::new() }
    }

    fn take(&mut self, key: &str) -> (r: Option<ForwardHandle>)
        ensures
            final(self)@ == old(self)@.remove(key@),
            match r {
                Some(handle) => old(self)@.contains_key(key@) && handle@ == old(self)@[key@],
                None => !old(self)@.contains_key(key@),
            },
            keyed(old(self)@) && keyed(final(self)@),
    {
        proof {
            use_type_invariant(&*self);
        }
        let mut forwards: TextMap<ForwardHandle> = TextMap::new();
        std::mem::swap(&mut forwards, &mut self.forwards);
        let taken = forwards.remove(key);
        self.forwards = forwards;
        taken
    }

    fn put(&mut self, handle: ForwardHandle)
        requires
            handle@.spec.target.len() > 0,
        ensures
            final(self)@ == old(self)@.insert(handle@.spec.target, handle@),
            keyed(old(self)@) && keyed(final(self)@),
    {
        proof {
            use_type_invariant(&*self);
        }
        let mut forwards: TextMap<ForwardHandle> = TextMap::new();
        std::mem::swap(&mut forwards, &mut self.forwards);
        forwards.insert(text::copy(handle.spec.target.as_str()), handle);
        self.forwards = forwards;
    }

    /// Adds a forward under its target and gives its key. A forward without a
    /// target and a second one with the same target are refused.
    pub fn add_forward(&mut self, spec: &ForwardSpec) -> (r: Result<String, ForwardError>)
        ensures
            match r {
                Ok(key) => {
                    &&& can_add(old(self)@, spec@.target)
                    &&& key@ == spec@.target
                    &&& final(self)@ == old(self)@.insert(spec@.target, fresh_handle(spec@))
                },
                Err(ForwardError::EmptyTarget) => spec@.target.len() == 0 && final(self)@ == old(
                    self,
                )@,
                Err(ForwardError::AlreadyExists(key)) => {
                    &&& spec@.target.len() > 0
                    &&& old(self)@.contains_key(spec@.target)
                    &&& key@ == spec@.target
                    &&& final(self)@ == old(self)@
                },
                Err(ForwardError::NotFound(_)) => false,
            },
            final(self)@ == with_added(old(self)@, spec@),
            keyed(old(self)@) && keyed(final(self)@),
    {
        proof {
            use_type_invariant(&*self);
        }
        let key = spec.target.as_str();
        if key.unicode_len() == 0 {
            return Err(ForwardError::EmptyTarget);
        }
        if self.forwards.contains_key(key) {
            return Err(ForwardError::AlreadyExists(text::copy(key)));
        }
        let handle = ForwardHandle {
            spec: spec.clone(),
            runtime: ForwardRuntime::new(),
            state: ForwardState::Listening,
        };
        assert(handle@ == fresh_handle(spec@));
        self.put(handle);
        Ok(text::copy(key))
    }

    /// Takes a forward out. The target of one that serves has to be withdrawn.
    pub fn remove_forward(&mut self, key: &str) -> (r: Result<RemovedForward, ForwardError>)
        ensures
            final(self)@ == with_removed(old(self)@, key@),
            match r {
                Ok(removed) => {
                    &&& old(self)@.contains_key(key@)
                    &&& removed.spec@ == old(self)@[key@].spec
                    &&& removed.spec@.target == key@
                    &&& removed.unpublish == withdraws(removed.spec@)
                },
                Err(ForwardError::NotFound(name)) => !old(self)@.contains_key(key@) && name@
                    == key@,
                Err(_) => false,
            },
            keyed(old(self)@) && keyed(final(self)@),
    {
        match self.take(key) {
            Some(handle) => {
                let unpublish = handle.spec.direction == Direction::Serve;
                Ok(RemovedForward { spec: handle.spec, unpublish })
            },
            None => Err(ForwardError::NotFound(text::copy(key))),
        }
    }

    /// Whether there is a forward with a key.
    pub fn has_forward(&self, key: &str) -> (r: bool)
        ensures
            r == self@.contains_key(key@),
    {
        self.forwards.contains_key(key)
    }

    /// The forwards as they are shown, sorted by key.
    pub fn list_forwards(&self) -> (r: Vec<ForwardStatus>)
        ensures
            views(r@) == statuses(self@),
            keyed(self@),
            self@.dom().finite(),
            forall|key: Seq<char>| #[trigger]
                self@.contains_key(key) ==> self@[key].runtime.per_peer.dom().finite(),
    {
        proof {
            use_type_invariant(self);
        }
        let n = self.forwards.len();
        let ghost all = statuses(self@);
        let mut out: Vec<ForwardStatus> = Vec::new();
        let mut i: usize = 0;
        while i < n
            invariant
                i <= n,
                n == self.forwards.keys().len(),
                self.forwards.keys() == sorted(self.forwards@.dom()),
                all == statuses(self@),
                views(out@) == all.take(i as int),
                forall|k: int|
                    0 <= k < i ==> self@[#[trigger] self.forwards.keys()[k]].runtime.per_peer.dom().finite(),
            decreases n - i,
        {
            let key = self.forwards.key_at(i);
            let handle = self.forwards.value_at(i);
            let metrics = handle.runtime.metrics();
            let status = ForwardStatus {
                key: text::copy(key),
                spec: handle.spec.clone(),
                active_conns: metrics.active_conns,
                bytes_in: metrics.bytes_in,
                bytes_out: metrics.bytes_out,
                state: handle.state.clone(),
                peers: handle.runtime.peer_metrics(),
            };
            proof {
                lemma_views_push(out@, status);
                assert(status@ == all[i as int]);
            }
            out.push(status);
            i = i + 1;
            assert(views(out@) =~= all.take(i as int));
        }
        proof {
            assert(all.take(n as int) =~= all);
            assert forall|key: Seq<char>| #[trigger] self@.contains_key(
                key,
            ) implies self@[key].runtime.per_peer.dom().finite() by {
                assert(self.forwards.keys().to_set().contains(key));
                let keys = self.forwards.keys();
                let k = choose|k: int| 0 <= k < keys.len() && keys[k] == key;
                assert(self@[keys[k]].runtime.per_peer.dom().finite());
            }
        }
        out
    }

    /// Counts what a connection of a forward did. A forward that is gone counts
    /// nothing.
    pub fn record_traffic(&mut self, key: &str, peer_id: &str, traffic: Traffic)
        ensures
            final(self)@ == with_traffic(old(self)@, key@, peer_id@, traffic),
            keyed(old(self)@) && keyed(final(self)@),
    {
        if let Some(mut handle) = self.take(key) {
            match traffic {
                Traffic::Opened => handle.runtime.record_conn_open_for(peer_id),
                Traffic::Closed => handle.runtime.record_conn_close_for(peer_id),
                Traffic::BytesIn(n) => handle.runtime.record_bytes_in_for(peer_id, n),
                Traffic::BytesOut(n) => handle.runtime.record_bytes_out_for(peer_id, n),
            }
            self.put(handle);
            proof {
                assert(self@ =~= old(self)@.insert(
                    key@,
                    HandleView {
                        runtime: after_traffic(old(self)@[key@].runtime, peer_id@, traffic),
                        ..old(self)@[key@]
                    },
                ));
            }
        } else {
            assert(self@ =~= old(self)@);
        }
    }

    /// Notes that the listener of a forward failed. A forward that is gone stays
    /// gone.
    pub fn fail_forward(&mut self, key: &str, message: &str)
        ensures
            final(self)@ == with_failure(old(self)@, key@, message@),
            keyed(old(self)@) && keyed(final(self)@),
    {
        if let Some(mut handle) = self.take(key) {
            handle.state = ForwardState::Error(text::copy(message));
            self.put(handle);
            assert(self@ =~= old(self)@.insert(
                key@,
                HandleView { state: ForwardStateView::Error(message@), ..old(self)@[key@] },
            ));
        } else {
            assert(self@ =~= old(self)@);
        }
    }
}

impl Default for ForwardController {
    fn default() -> (r: Self)
        ensures
            r@ == Map::<Seq<char>, HandleView>::empty(),
    {
        Self::new()
    }
}

/// Removing a forward that was just added gives back the forwards as they were. Removing
/// takes that forward only, and nothing where there is none.
pub proof fn law_add_then_remove(
    m: Map<Seq<char>, HandleView>,
    spec: ForwardSpecView,
    other: Seq<char>,
)
    ensures
        !m.contains_key(spec.target) ==> with_removed(with_added(m, spec), spec.target) == m,
        !m.contains_key(spec.target) ==> with_removed(m, spec.target) == m,
        !with_removed(m, spec.target).contains_key(spec.target),
        other != spec.target ==> (with_removed(m, spec.target).contains_key(other)
            <==> m.contains_key(other)),
        other != spec.target && m.contains_key(other) ==> with_removed(m, spec.target)[other]
            == m[other],
{
    if !m.contains_key(spec.target) {
        assert(with_removed(with_added(m, spec), spec.target) =~= m);
        assert(with_removed(m, spec.target) =~= m);
    }
}

/// Forwards stay held under their own targets, and none without a target, whatever
/// is added, removed, counted or fails; and each is shown with its target as its
/// key.
pub proof fn law_forwards_stay_keyed(
    m: Map<Seq<char>, HandleView>,
    spec: ForwardSpecView,
    key: Seq<char>,
    runtime: RuntimeView,
    state: ForwardStateView,
    i: int,
)
    requires
        keyed(m),
    ensures
        keyed(Map::<Seq<char>, HandleView>::empty()),
        spec.target.len() > 0 ==> keyed(m.insert(spec.target, fresh_handle(spec))),
        keyed(m.remove(key)),
        m.contains_key(key) ==> keyed(m.insert(key, HandleView { runtime, ..m[key] })),
        m.contains_key(key) ==> keyed(m.insert(key, HandleView { state, ..m[key] })),
        m.dom().finite() && 0 <= i < statuses(m).len() ==> statuses(m)[i].key
            == statuses(m)[i].spec.target && statuses(m)[i].key.len() > 0,
{
    if m.dom().finite() && 0 <= i < statuses(m).len() {
        crate::text_map::lemma_sorted_exists(m.dom());
        let keys = sorted(m.dom());
        assert(keys.to_set().contains(keys[i]));
        assert(m.contains_key(keys[i]));
    }
}

/// Every forward that is held is shown once, under its own key.
pub proof fn law_each_forward_shown_once(m: Map<Seq<char>, HandleView>, key: Seq<char>)
    requires
        m.dom().finite(),
    ensures
        m.contains_key(key) <==> exists|i: int|
            0 <= i < statuses(m).len() && #[trigger] statuses(m)[i].key == key,
        forall|i: int, j: int|
            0 <= i < j < statuses(m).len() ==> #[trigger] text::text_before(
                statuses(m)[i].key,
                statuses(m)[j].key,
            ),
{
    crate::text_map::lemma_sorted_exists(m.dom());
    let keys = sorted(m.dom());
    assert forall|i: int, j: int| 0 <= i < j < statuses(m).len() implies #[trigger] text::text_before(
        statuses(m)[i].key,
        statuses(m)[j].key,
    ) by {
        assert(text::text_before(keys[i], keys[j]));
    }
    if m.contains_key(key) {
        assert(keys.to_set().contains(key));
        let i = choose|i: int| 0 <= i < keys.len() && keys[i] == key;
        assert(statuses(m)[i].key == key);
    }
    if exists|i: int| 0 <= i < statuses(m).len() && #[trigger] statuses(m)[i].key == key {
        let i = choose|i: int| 0 <= i < statuses(m).len() && #[trigger] statuses(m)[i].key == key;
        assert(keys[i] == key);
        assert(keys.to_set().contains(key));
    }
}

/// A forward can be added if and only if it has a target that no other one has. It is
/// then held as it was asked for, listening and without traffic; all other forwards stay
/// as they are. Where it cannot be added nothing changes.
pub proof fn law_adding_keeps_the_others(
    m: Map<Seq<char>, HandleView>,
    spec: ForwardSpecView,
    other: Seq<char>,
)
    ensures
        can_add(m, spec.target) <==> spec.target.len() > 0 && !m.contains_key(spec.target),
        can_add(m, spec.target) ==> {
            let next = with_added(m, spec);
            &&& next.contains_key(spec.target)
            &&& next[spec.target].spec == spec
            &&& next[spec.target].state is Listening
            &&& next[spec.target].runtime == fresh_runtime()
        },
        !can_add(m, spec.target) ==> with_added(m, spec) == m,
        other != spec.target ==> (with_added(m, spec).contains_key(other) <==> m.contains_key(
            other,
        )),
        other != spec.target && m.contains_key(other) ==> with_added(m, spec)[other] == m[other],
        !can_add(with_added(m, spec), spec.target),
{
}

/// Traffic and failures touch the forward that they are of, and no other one, and
/// neither makes one up. Traffic changes its counters only, and a failure its state only.
pub proof fn law_events_touch_one_forward(
    m: Map<Seq<char>, HandleView>,
    key: Seq<char>,
    other: Seq<char>,
    peer_id: Seq<char>,
    traffic: Traffic,
    message: Seq<char>,
)
    ensures
        ({
            let counted = with_traffic(m, key, peer_id, traffic);
            let failed = with_failure(m, key, message);
            &&& counted.contains_key(other) <==> m.contains_key(other)
            &&& failed.contains_key(other) <==> m.contains_key(other)
            &&& other != key && m.contains_key(other) ==> counted[other] == m[other]
                && failed[other] == m[other]
            &&& m.contains_key(key) ==> {
                &&& counted[key].spec == m[key].spec && counted[key].state == m[key].state
                &&& failed[key].spec == m[key].spec && failed[key].runtime == m[key].runtime
                &&& failed[key].state == ForwardStateView::Error(message)
                &&& match traffic {
                    Traffic::Opened => counted[key].runtime == m[key].runtime.opened_by(peer_id),
                    Traffic::Closed => counted[key].runtime == m[key].runtime.closed_by(peer_id),
                    Traffic::BytesIn(n) => counted[key].runtime == m[key].runtime.received_from(
                        peer_id,
                        n as int,
                    ),
                    Traffic::BytesOut(n) => counted[key].runtime == m[key].runtime.sent_to(
                        peer_id,
                        n as int,
                    ),
                }
            }
        }),
{
}

/// A forward is shown with what it is, how it fares and what it carried.
pub proof fn law_shown_as_it_is(m: Map<Seq<char>, HandleView>, i: int)
    requires
        m.dom().finite(),
        0 <= i < statuses(m).len(),
    ensures
        ({
            let s = statuses(m)[i];
            let h = m[s.key];
            &&& m.contains_key(s.key)
            &&& s.spec == h.spec && s.state == h.state
            &&& s.active_conns == h.runtime.metrics.active_conns
            &&& s.bytes_in == h.runtime.metrics.bytes_in
            &&& s.bytes_out == h.runtime.metrics.bytes_out
            &&& s.peers == h.runtime.peer_entries()
        }),
{
    crate::text_map::lemma_sorted_exists(m.dom());
    let keys = sorted(m.dom());
    assert(keys.to_set().contains(keys[i]));
}

/// The names of the protocols are "tcp" and "udp", and no other name stands for one.
pub proof fn law_protocol_names(name: Seq<char>)
    ensures
        Proto::Tcp.name() == "tcp"@,
        Proto::Udp.name() == "udp"@,
        proto_named(name) is Some <==> name == "tcp"@ || name == "udp"@,
        proto_named(name) matches Some(proto) ==> proto.name() == name,
{
}

/// What a serving forward announced is withdrawn with it; a connecting one has announced
/// nothing.
pub proof fn law_served_targets_are_withdrawn(spec: ForwardSpecView)
    ensures
        spec.direction is Serve ==> withdraws(spec),
        spec.direction is Connect ==> !withdraws(spec),
{
}

} // verus!
