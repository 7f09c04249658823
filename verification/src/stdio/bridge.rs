//! The connecting side of the standard streams: what is typed goes to a peer,
//! and what the peer's program writes comes back.
use vstd::prelude::*;

use crate::model::{copy_bytes, opt_view, views};
use crate::rtc::manager::payload::{Outgoing, OutgoingView, P2pPayload, PayloadView};
use crate::stdio::packet::{packet, unpacked, unwrap_packet, wrap_packet, StreamType};
use crate::text;

verus! {

/// What is to be written here because a peer sent it.
#[derive(Debug, PartialEq, Eq)]
pub enum BridgeOutput {
    Stdout(Vec<u8>),
    Stderr(Vec<u8>),
    Nothing,
}

/// The model of `BridgeOutput`.
pub enum BridgeOutputView {
    Stdout(Seq<u8>),
    Stderr(Seq<u8>),
    Nothing,
}

impl View for BridgeOutput {
    type V = BridgeOutputView;

    open spec fn view(&self) -> BridgeOutputView {
        match self {
            BridgeOutput::Stdout(data) => BridgeOutputView::Stdout(data@),
            BridgeOutput::Stderr(data) => BridgeOutputView::Stderr(data@),
            BridgeOutput::Nothing => BridgeOutputView::Nothing,
        }
    }
}

/// What is to be written here because of a packet.
pub open spec fn output_of(data: Seq<u8>) -> BridgeOutputView {
    match unpacked(data) {
        (StreamType::Stdout, payload) => BridgeOutputView::Stdout(payload),
        (StreamType::Stderr, payload) => BridgeOutputView::Stderr(payload),
        (StreamType::Stdin, _) => BridgeOutputView::Nothing,
    }
}

/// The bridge to the peer that runs the program.
pub struct Bridge {
    active_peer: Option<String>,
    connected: bool,
    buffer: Vec<Vec<u8>>,
}

/// The model of `Bridge`.
#[verifier::ext_equal]
pub struct BridgeView {
    pub active_peer: Option<Seq<char>>,
    pub connected: bool,
    /// The packets that wait for a connection, oldest first.
    pub buffer: Seq<Seq<u8>>,
}

impl View for Bridge {
    type V = BridgeView;

    closed spec fn view(&self) -> BridgeView {
        BridgeView {
            active_peer: opt_view(self.active_peer),
            connected: self.connected,
            buffer: views(self.buffer@),
        }
    }
}

/// A packet to a peer.
pub open spec fn stdio_message(peer_id: Seq<char>, data: Seq<u8>) -> OutgoingView {
    OutgoingView { peer_id, payload: PayloadView::Stdio { data } }
}

/// A bridge without a peer.
pub open spec fn fresh_bridge() -> BridgeView {
    BridgeView { active_peer: None, connected: false, buffer: Seq::empty() }
}

impl BridgeView {
    /// The state after a packet of a peer: it becomes the one that the bridge talks
    /// to.
    pub open spec fn heard(self, peer_id: Seq<char>) -> BridgeView {
        BridgeView { active_peer: Some(peer_id), ..self }
    }

    /// The state after a peer's streams opened. The first one to open is the one
    /// that the bridge talks to.
    pub open spec fn opened(self, peer_id: Seq<char>) -> BridgeView {
        if self.connected {
            self
        } else {
            BridgeView { active_peer: Some(peer_id), connected: true, buffer: Seq::empty() }
        }
    }

    /// What is sent when a peer's streams open: all that has waited, in order.
    pub open spec fn flushed(self, peer_id: Seq<char>) -> Seq<OutgoingView> {
        if self.connected {
            Seq::empty()
        } else {
            self.buffer.map_values(|data: Seq<u8>| stdio_message(peer_id, data))
        }
    }

    /// The state after a peer's streams closed.
    pub open spec fn closed(self, peer_id: Seq<char>) -> BridgeView {
        if self.active_peer == Some(peer_id) {
            BridgeView { active_peer: None, connected: false, ..self }
        } else {
            self
        }
    }

    /// The state after something was typed: without a connection it waits.
    pub open spec fn typed(self, data: Seq<u8>) -> BridgeView {
        if self.connected {
            self
        } else {
            BridgeView { buffer: self.buffer.push(packet(StreamType::Stdin, data)), ..self }
        }
    }

    /// What is sent when something was typed.
    pub open spec fn sent(self, data: Seq<u8>) -> Option<OutgoingView> {
        match self.active_peer {
            Some(peer_id) => if self.connected {
                Some(stdio_message(peer_id, packet(StreamType::Stdin, data)))
            } else {
                None
            },
            None => None,
        }
    }
}

impl Bridge {
    /// A bridge without a peer.
    pub fn new() -> (r: Self)
        ensures
            r@ == fresh_bridge(),
    {
        let r = Bridge { active_peer: None, connected: false, buffer: Vec::new() };
        assert(r@.buffer =~= Seq::empty());
        r
    }

    /// A peer sent a packet: it becomes the one that the bridge talks to, and
    /// output is written here.
    pub fn on_message(&mut self, peer_id: &str, data: &[u8]) -> (r: BridgeOutput)
        ensures
            final(self)@ == old(self)@.heard(peer_id@),
            r@ == output_of(data@),
    {
        self.active_peer = Some(text::copy(peer_id));
        let (stream_type, payload) = unwrap_packet(data);
        match stream_type {
            StreamType::Stdout => BridgeOutput::Stdout(copy_bytes(payload)),
            StreamType::Stderr => BridgeOutput::Stderr(copy_bytes(payload)),
            StreamType::Stdin => BridgeOutput::Nothing,
        }
    }

    /// The streams of a peer opened: what has waited is to be sent to it.
    pub fn on_open(&mut self, peer_id: &str) -> (r: Vec<Outgoing>)
        ensures
            final(self)@ == old(self)@.opened(peer_id@),
            views(r@) == old(self)@.flushed(peer_id@),
    {
        let mut out: Vec<Outgoing> = Vec::new();
        if self.connected {
            assert(views(out@) =~= Seq::empty());
            return out;
        }
        self.connected = true;
        self.active_peer = Some(text::copy(peer_id));
        let mut held: Vec<Vec<u8>> = Vec::new();
        std::mem::swap(&mut held, &mut self.buffer);
        assert(self@.buffer =~= Seq::empty());
        let ghost all = old(self)@.flushed(peer_id@);
        let mut i: usize = 0;
        while i < held.len()
            invariant
                i <= held@.len(),
                views(held@) == old(self)@.buffer,
                !old(self)@.connected,
                all == old(self)@.flushed(peer_id@),
                views(out@) == all.take(i as int),
            decreases held@.len() - i,
        {
            let item = Outgoing {
                peer_id: text::copy(peer_id),
                payload: P2pPayload::Stdio { data: copy_bytes(held[i].as_slice()) },
            };
            proof {
                crate::model::lemma_views_push(out@, item);
                assert(views(held@)[i as int] == held@[i as int]@);
                assert(item@ == all[i as int]);
            }
            out.push(item);
            i = i + 1;
            assert(views(out@) =~= all.take(i as int));
        }
        assert(views(out@) =~= all);
        out
    }

    /// The streams of a peer closed.
    pub fn on_close(&mut self, peer_id: &str)
        ensures
            final(self)@ == old(self)@.closed(peer_id@),
    {
        let ours = match &self.active_peer {
            Some(active) => text::same(active.as_str(), peer_id),
            None => false,
        };
        if ours {
            self.connected = false;
            self.active_peer = None;
        }
    }

    /// Something was typed: it is to be sent, or it waits for a connection.
    pub fn on_stdin(&mut self, data: &[u8]) -> (r: Option<Outgoing>)
        ensures
            final(self)@ == old(self)@.typed(data@),
            opt_view(r) == old(self)@.sent(data@),
    {
        let packet = wrap_packet(StreamType::Stdin, data);
        if !self.connected {
            proof {
                crate::model::lemma_views_push(self.buffer@, packet);
            }
            self.buffer.push(packet);
            return None;
        }
        match &self.active_peer {
            Some(peer_id) => Some(
                Outgoing {
                    peer_id: text::copy(peer_id.as_str()),
                    payload: P2pPayload::Stdio { data: packet },
                },
            ),
            None => None,
        }
    }
}

impl Default for Bridge {
    fn default() -> (r: Self)
        ensures
            r@ == fresh_bridge(),
    {
        Self::new()
    }
}

/// The state after several things were typed one after the other.
pub open spec fn typed_all(v: BridgeView, inputs: Seq<Seq<u8>>) -> BridgeView
    decreases inputs.len(),
{
    if inputs.len() == 0 {
        v
    } else {
        typed_all(v, inputs.drop_last()).typed(inputs.last())
    }
}

/// What is typed before a peer is there is sent to the first one that comes: all
/// of it, in the order in which it was typed, behind what had waited already.
pub proof fn law_early_input_is_kept(v: BridgeView, inputs: Seq<Seq<u8>>, peer_id: Seq<char>)
    requires
        !v.connected,
    ensures
        typed_all(v, inputs).flushed(peer_id) == v.buffer.map_values(
            |data: Seq<u8>| stdio_message(peer_id, data),
        ) + inputs.map_values(
            |data: Seq<u8>| stdio_message(peer_id, packet(StreamType::Stdin, data)),
        ),
        typed_all(v, inputs).opened(peer_id).buffer.len() == 0,
{
    lemma_typed_all(v, inputs);
    assert(typed_all(v, inputs).flushed(peer_id) =~= v.buffer.map_values(
        |data: Seq<u8>| stdio_message(peer_id, data),
    ) + inputs.map_values(
        |data: Seq<u8>| stdio_message(peer_id, packet(StreamType::Stdin, data)),
    ));
}

proof fn lemma_typed_all(v: BridgeView, inputs: Seq<Seq<u8>>)
    requires
        !v.connected,
    ensures
        !typed_all(v, inputs).connected,
        typed_all(v, inputs).buffer == v.buffer + inputs.map_values(
            |data: Seq<u8>| packet(StreamType::Stdin, data),
        ),
    decreases inputs.len(),
{
    let wrap = |data: Seq<u8>| packet(StreamType::Stdin, data);
    if inputs.len() == 0 {
        assert(typed_all(v, inputs).buffer =~= v.buffer + inputs.map_values(wrap));
    } else {
        lemma_typed_all(v, inputs.drop_last());
        assert(typed_all(v, inputs).buffer =~= v.buffer + inputs.map_values(wrap));
    }
}

/// While one peer is connected another one that opens its streams changes
/// nothing.
pub proof fn law_first_peer_wins(v: BridgeView, first: Seq<char>, second: Seq<char>)
    ensures
        v.opened(first).opened(second) == v.opened(first),
        v.opened(first).flushed(second).len() == 0,
{
}

/// Only the peer that the bridge talks to ends the connection when its streams
/// close. What waits then goes on waiting. That another peer closes its streams
/// changes nothing: what is typed goes on reaching the first one.
pub proof fn law_only_its_peer_disconnects(v: BridgeView, peer_id: Seq<char>, other: Seq<char>)
    ensures
        v.active_peer != Some(peer_id) ==> v.closed(peer_id) == v,
        v.active_peer == Some(peer_id) ==> {
            &&& !v.closed(peer_id).connected
            &&& v.closed(peer_id).active_peer is None
            &&& v.closed(peer_id).buffer == v.buffer
        },
        !v.connected && other != peer_id ==> forall|data: Seq<u8>|
            #[trigger] v.opened(peer_id).closed(other).sent(data) == v.opened(peer_id).sent(data)
                && v.opened(peer_id).sent(data) is Some,
        forall|data: Seq<u8>| #[trigger]
            v.opened(peer_id).closed(peer_id).sent(data) is None || v.connected,
{
}

/// Once the streams of a peer are open what is typed goes to that peer, packed as
/// input, and nothing of it waits. While none is open nothing is sent, and all of it
/// waits.
pub proof fn law_input_goes_to_the_open_peer(v: BridgeView, peer_id: Seq<char>, data: Seq<u8>)
    ensures
        !v.connected ==> {
            let open = v.opened(peer_id);
            &&& open.connected && open.active_peer == Some(peer_id) && open.buffer.len() == 0
            &&& open.typed(data) == open
            &&& open.sent(data) matches Some(o) && o.peer_id == peer_id && (o.payload
                matches PayloadView::Stdio { data: d } && unpacked(d) == (StreamType::Stdin, data))
        },
        !v.connected ==> {
            &&& v.sent(data) is None
            &&& v.typed(data).active_peer == v.active_peer && !v.typed(data).connected
            &&& v.typed(data).buffer.len() == v.buffer.len() + 1
            &&& v.typed(data).buffer.drop_last() == v.buffer
            &&& unpacked(v.typed(data).buffer.last()) == (StreamType::Stdin, data)
        },
        v.connected ==> v.typed(data) == v,
{
    crate::stdio::packet::law_packet_round_trip(StreamType::Stdin, data);
    assert(v.buffer.push(packet(StreamType::Stdin, data)).drop_last() =~= v.buffer);
}

/// The output of the program is written here on the stream on which it was written
/// there, unchanged, and input is not written. The peer that it came from is the one
/// that the bridge talks to from then on; nothing else changes.
pub proof fn law_output_is_shown(v: BridgeView, peer_id: Seq<char>, data: Seq<u8>)
    ensures
        output_of(packet(StreamType::Stdout, data)) == BridgeOutputView::Stdout(data),
        output_of(packet(StreamType::Stderr, data)) == BridgeOutputView::Stderr(data),
        output_of(packet(StreamType::Stdin, data)) is Nothing,
        v.heard(peer_id).active_peer == Some(peer_id),
        v.heard(peer_id).connected == v.connected,
        v.heard(peer_id).buffer == v.buffer,
        v.connected ==> v.heard(peer_id).sent(data) == Some(
            stdio_message(peer_id, packet(StreamType::Stdin, data)),
        ),
{
    crate::stdio::packet::law_packet_round_trip(StreamType::Stdin, data);
    crate::stdio::packet::law_packet_round_trip(StreamType::Stdout, data);
    crate::stdio::packet::law_packet_round_trip(StreamType::Stderr, data);
}

/// A new bridge has no peer, and nothing waits: the first peer gets exactly what was
/// typed before it came.
pub proof fn law_new_bridge_waits(inputs: Seq<Seq<u8>>, peer_id: Seq<char>)
    ensures
        !fresh_bridge().connected,
        fresh_bridge().active_peer is None,
        typed_all(fresh_bridge(), inputs).flushed(peer_id) == inputs.map_values(
            |data: Seq<u8>| stdio_message(peer_id, packet(StreamType::Stdin, data)),
        ),
{
    law_early_input_is_kept(fresh_bridge(), inputs, peer_id);
    assert(typed_all(fresh_bridge(), inputs).flushed(peer_id) =~= inputs.map_values(
        |data: Seq<u8>| stdio_message(peer_id, packet(StreamType::Stdin, data)),
    ));
}

/// A packet for a peer names that peer and holds those bytes.
pub proof fn law_packets_are_addressed(peer_id: Seq<char>, data: Seq<u8>)
    ensures
        stdio_message(peer_id, data).peer_id == peer_id,
        stdio_message(peer_id, data).payload matches PayloadView::Stdio { data: d } && d == data,
{
}

} // verus!
