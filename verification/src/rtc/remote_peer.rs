//! A peer that is reached over data channels: its role, the kinds of its
//! channels, and the numbering of messages.
use vstd::prelude::*;

use crate::number::{decimal, decimal_u64, is_digit};
use crate::rtc::manager::PeerRole;
use crate::text;
use crate::text::{can_cut, first_bytes};

verus! {

/// A time of day to the millisecond, such as `094501.250`.
pub open spec fn is_time_stamp(s: Seq<char>) -> bool {
    &&& s.len() == 10
    &&& s[6] == '.'
    &&& forall|i: int| 0 <= i < 10 && i != 6 ==> is_digit(#[trigger] s[i])
}

/// Calls `chrono::Local::now` and formats the time by `DateTime::format` as
/// hours, minutes, seconds and milliseconds. Which time it is, is not said.
#[verifier::external_body]
fn local_time_stamp() -> (r: String)
    ensures
        is_time_stamp(r@),
{
    chrono::Local::now().format("%H%M%S%.3f").to_string()
}

/// The id of a message: a time stamp, the start of the sender's id, a number.
pub open spec fn msg_id_of(now: Seq<char>, self_id: Seq<char>, seq: u64) -> Seq<char> {
    now + "_"@ + first_bytes(self_id, 4) + "_"@ + decimal(seq as int)
}

/// The numbers of the messages of this node; they wrap around.
pub struct MessageIds {
    next: u64,
}

impl MessageIds {
    /// The next number.
    pub closed spec fn next(&self) -> u64 {
        self.next
    }

    /// Numbers from zero.
    pub fn new() -> (r: Self)
        ensures
            r.next() == 0,
    {
        MessageIds { next: 0 }
    }

    /// The id of a message that is sent at a given time.
    pub fn msg_id_at(&mut self, now: &str, self_id: &str) -> (r: String)
        requires
            can_cut(self_id@, 4),
        ensures
            r@ == msg_id_of(now@, self_id@, old(self).next()),
            final(self).next() == if old(self).next() == u64::MAX {
                0
            } else {
                old(self).next() + 1
            },
    {
        let seq = self.next;
        self.next = seq.wrapping_add(1);
        let number = decimal_u64(seq);
        let start = text::cat4(now, "_", text::cut(self_id, 4), "_");
        text::cat2(start.as_str(), number.as_str())
    }

    /// The id of a message that is sent now.
    pub fn next_msg_id(&mut self, self_id: &str) -> (r: String)
        requires
            can_cut(self_id@, 4),
        ensures
            exists|now: Seq<char>| #[trigger]
                is_time_stamp(now) && r@ == msg_id_of(now, self_id@, old(self).next()),
            final(self).next() == if old(self).next() == u64::MAX {
                0
            } else {
                old(self).next() + 1
            },
    {
        let now = local_time_stamp();
        let id = self.msg_id_at(now.as_str(), self_id);
        assert(is_time_stamp(now@) && id@ == msg_id_of(now@, self_id@, old(self).next()));
        id
    }
}

/// Two messages of a node that are sent at the same time have different ids as
/// long as their numbers differ.
pub proof fn law_ids_differ_by_number(now: Seq<char>, self_id: Seq<char>, a: u64, b: u64)
    requires
        a != b,
    ensures
        msg_id_of(now, self_id, a) != msg_id_of(now, self_id, b),
{
    if msg_id_of(now, self_id, a) == msg_id_of(now, self_id, b) {
        let start = now + "_"@ + first_bytes(self_id, 4) + "_"@;
        let x = msg_id_of(now, self_id, a);
        let y = msg_id_of(now, self_id, b);
        assert(x.skip(start.len() as int) =~= decimal(a as int));
        assert(y.skip(start.len() as int) =~= decimal(b as int));
        crate::number::law_decimal_injective(a as int, b as int);
    }
}

/// The kinds of data channels.
#[derive(Debug, Clone, Copy, PartialEq, Eq, Structural)]
pub enum ChannelKind {
    Tunnel,
    Chat,
    Signal,
    Stdio,
}

/// The kind of a channel by its label; other labels are ignored.
pub open spec fn channel_labelled(label: Seq<char>) -> Option<ChannelKind> {
    if label == "tunnel"@ {
        Some(ChannelKind::Tunnel)
    } else if label == "chat"@ {
        Some(ChannelKind::Chat)
    } else if label == "signal"@ {
        Some(ChannelKind::Signal)
    } else if label == "stdio"@ {
        Some(ChannelKind::Stdio)
    } else {
        None
    }
}

impl ChannelKind {
    /// The label of a kind.
    pub open spec fn text(self) -> Seq<char> {
        match self {
            ChannelKind::Tunnel => "tunnel"@,
            ChannelKind::Chat => "chat"@,
            ChannelKind::Signal => "signal"@,
            ChannelKind::Stdio => "stdio"@,
        }
    }

    /// Finds the kind of a channel by its label.
    pub fn from_label(label: &str) -> (r: Option<Self>)
        ensures
            r == channel_labelled(label@),
    {
        if text::same(label, "tunnel") {
            Some(ChannelKind::Tunnel)
        } else if text::same(label, "chat") {
            Some(ChannelKind::Chat)
        } else if text::same(label, "signal") {
            Some(ChannelKind::Signal)
        } else if text::same(label, "stdio") {
            Some(ChannelKind::Stdio)
        } else {
            None
        }
    }

    /// The label of the kind.
    pub fn label(self) -> (r: &'static str)
        ensures
            r@ == self.text(),
    {
        match self {
            ChannelKind::Tunnel => "tunnel",
            ChannelKind::Chat => "chat",
            ChannelKind::Signal => "signal",
            ChannelKind::Stdio => "stdio",
        }
    }
}

/// The kind of a channel is found by its own label.
pub proof fn law_label_round_trip(kind: ChannelKind)
    ensures
        channel_labelled(kind.text()) == Some(kind),
{
    reveal_strlit("tunnel");
    reveal_strlit("chat");
    reveal_strlit("signal");
    reveal_strlit("stdio");
    assert("tunnel"@.len() == 6 && "chat"@.len() == 4 && "signal"@.len() == 6 && "stdio"@.len()
        == 5);
    assert("tunnel"@[0] != "signal"@[0]);
}

/// What is known of the channels of a peer.
#[derive(Debug, Clone, Copy, PartialEq, Eq, Structural)]
pub struct Channels {
    pub tunnel: bool,
    pub chat: bool,
    pub signal: bool,
    pub stdio: bool,
}

impl Channels {
    /// Whether there is a channel of a kind.
    pub open spec fn has(self, kind: ChannelKind) -> bool {
        match kind {
            ChannelKind::Tunnel => self.tunnel,
            ChannelKind::Chat => self.chat,
            ChannelKind::Signal => self.signal,
            ChannelKind::Stdio => self.stdio,
        }
    }
}

/// A peer that is reached over data channels.
pub struct RemotePeer {
    peer_id: String,
    role: PeerRole,
    connected: bool,
    channels: Channels,
    reconnecting: bool,
}

/// The model of `RemotePeer`.
pub struct RemotePeerView {
    pub peer_id: Seq<char>,
    pub role: PeerRole,
    pub connected: bool,
    pub channels: Channels,
    pub reconnecting: bool,
}

impl View for RemotePeer {
    type V = RemotePeerView;

    closed spec fn view(&self) -> RemotePeerView {
        RemotePeerView {
            peer_id: self.peer_id@,
            role: self.role,
            connected: self.connected,
            channels: self.channels,
            reconnecting: self.reconnecting,
        }
    }
}

/// No channel.
pub open spec fn no_channels() -> Channels {
    Channels { tunnel: false, chat: false, signal: false, stdio: false }
}

/// A peer without a connection.
pub open spec fn fresh_peer(peer_id: Seq<char>) -> RemotePeerView {
    RemotePeerView {
        peer_id,
        role: PeerRole::Client,
        connected: false,
        channels: no_channels(),
        reconnecting: false,
    }
}

impl RemotePeerView {
    /// The state with another role.
    pub open spec fn playing(self, role: PeerRole) -> RemotePeerView {
        RemotePeerView { role, ..self }
    }

    /// The state after a new connection was begun.
    pub open spec fn connecting(self) -> RemotePeerView {
        RemotePeerView { connected: true, channels: no_channels(), ..self }
    }

    /// The state after the connection was given up.
    pub open spec fn torn_down(self) -> RemotePeerView {
        RemotePeerView { connected: false, channels: no_channels(), ..self }
    }

    /// The state after a new connection attempt was to start.
    pub open spec fn retrying(self) -> RemotePeerView {
        if self.reconnecting {
            self
        } else {
            RemotePeerView { reconnecting: true, ..self.torn_down() }
        }
    }

    /// The state after a connection attempt ended.
    pub open spec fn settled(self) -> RemotePeerView {
        RemotePeerView { reconnecting: false, ..self }
    }
}

impl RemotePeer {
    /// A peer without a connection.
    pub fn new(peer_id: &str) -> (r: Self)
        ensures
            r@ == fresh_peer(peer_id@),
    {
        RemotePeer {
            peer_id: text::copy(peer_id),
            role: PeerRole::Client,
            connected: false,
            channels: Channels { tunnel: false, chat: false, signal: false, stdio: false },
            reconnecting: false,
        }
    }

    /// The id of the peer.
    pub fn peer_id(&self) -> (r: &str)
        ensures
            r@ == self@.peer_id,
    {
        self.peer_id.as_str()
    }

    /// The role of the peer.
    pub fn role(&self) -> (r: PeerRole)
        ensures
            r == self@.role,
    {
        self.role
    }

    /// Whether the peer serves.
    pub fn is_server(&self) -> (r: bool)
        ensures
            r == (self@.role == PeerRole::Server),
    {
        self.role == PeerRole::Server
    }

    /// Notes the role of the peer.
    pub fn set_role(&mut self, role: PeerRole)
        ensures
            final(self)@ == old(self)@.playing(role),
    {
        self.role = role;
    }

    /// Whether there is a connection.
    pub fn has_pc(&self) -> (r: bool)
        ensures
            r == self@.connected,
    {
        self.connected
    }

    /// A new connection takes the place of any that there was, with its channels.
    /// Says whether there was one to close.
    pub fn begin_connection(&mut self) -> (r: bool)
        ensures
            r == old(self)@.connected,
            final(self)@ == old(self)@.connecting(),
    {
        let had = self.teardown();
        self.connected = true;
        had
    }

    /// Gives the connection and its channels up, and says whether there was one
    /// to close.
    pub fn teardown(&mut self) -> (r: bool)
        ensures
            r == old(self)@.connected,
            final(self)@ == old(self)@.torn_down(),
    {
        let had = self.connected;
        self.connected = false;
        self.channels = Channels { tunnel: false, chat: false, signal: false, stdio: false };
        had
    }

    /// Notes a channel with a label and gives its kind; a channel with another
    /// label is ignored.
    pub fn add_channel(&mut self, label: &str) -> (r: Option<ChannelKind>)
        ensures
            r == channel_labelled(label@),
            match r {
                Some(kind) => {
                    &&& final(self)@.channels.has(kind)
                    &&& forall|k: ChannelKind| k != kind ==> #[trigger] final(self)@.channels.has(k)
                        == old(self)@.channels.has(k)
                    &&& final(self)@ == (RemotePeerView {
                        channels: final(self)@.channels,
                        ..old(self)@
                    })
                },
                None => final(self)@ == old(self)@,
            },
    {
        let kind = ChannelKind::from_label(label);
        match kind {
            Some(ChannelKind::Tunnel) => {
                self.channels = Channels { tunnel: true, ..self.channels };
            },
            Some(ChannelKind::Chat) => {
                self.channels = Channels { chat: true, ..self.channels };
            },
            Some(ChannelKind::Signal) => {
                self.channels = Channels { signal: true, ..self.channels };
            },
            Some(ChannelKind::Stdio) => {
                self.channels = Channels { stdio: true, ..self.channels };
            },
            None => {},
        }
        kind
    }

    /// Whether a signaling message can be relayed to the peer.
    pub fn check_signal_channel(&self) -> (r: Result<(), String>)
        ensures
            match r {
                Ok(_) => self@.channels.signal,
                Err(message) => !self@.channels.signal && message@
                    == "signal data channel not ready"@,
            },
    {
        if self.channels.signal {
            Ok(())
        } else {
            Err(text::copy("signal data channel not ready"))
        }
    }

    /// Starts a new connection attempt after a failure, unless one is under way.
    /// The old connection is given up.
    pub fn begin_reconnect(&mut self) -> (r: bool)
        ensures
            r == !old(self)@.reconnecting,
            final(self)@ == old(self)@.retrying(),
    {
        if self.reconnecting {
            return false;
        }
        self.reconnecting = true;
        let _ = self.teardown();
        true
    }

    /// Ends a connection attempt.
    pub fn end_reconnect(&mut self)
        ensures
            final(self)@ == old(self)@.settled(),
    {
        self.reconnecting = false;
    }
}

/// With a connection its channels come and go: a new one and none at all have no channel.
/// A second attempt does not start before the first one ended. Who the peer is, and which
/// part it plays, is not touched by any of it.
pub proof fn law_channels_end_with_their_connection(
    v: RemotePeerView,
    role: PeerRole,
    peer_id: Seq<char>,
    kind: ChannelKind,
)
    ensures
        fresh_peer(peer_id).peer_id == peer_id && !fresh_peer(peer_id).connected && !fresh_peer(
            peer_id,
        ).reconnecting && !fresh_peer(peer_id).channels.has(kind) && fresh_peer(peer_id).role
            is Client,
        v.playing(role).role == role && v.playing(role).peer_id == v.peer_id && v.playing(
            role,
        ).connected == v.connected && v.playing(role).channels == v.channels && v.playing(
            role,
        ).reconnecting == v.reconnecting,
        v.connecting().connected && !v.connecting().channels.has(kind),
        v.connecting().role == v.role && v.connecting().peer_id == v.peer_id
            && v.connecting().reconnecting == v.reconnecting,
        !v.torn_down().connected && !v.torn_down().channels.has(kind),
        v.torn_down().role == v.role && v.torn_down().peer_id == v.peer_id
            && v.torn_down().reconnecting == v.reconnecting,
        v.retrying().reconnecting && v.retrying().role == v.role && v.retrying().peer_id
            == v.peer_id,
        v.retrying().retrying() == v.retrying(),
        v.reconnecting ==> v.retrying() == v,
        !v.reconnecting ==> !v.retrying().connected && !v.retrying().channels.has(kind),
        !v.settled().reconnecting && v.settled().connected == v.connected && v.settled().channels
            == v.channels && v.settled().role == v.role && v.settled().peer_id == v.peer_id,
{
}

/// The labels of the channels, and no other ones, stand for a kind.
pub proof fn law_known_labels(label: Seq<char>)
    ensures
        channel_labelled(label) is Some <==> label == "tunnel"@ || label == "chat"@ || label
            == "signal"@ || label == "stdio"@,
        channel_labelled(label) matches Some(kind) ==> kind.text() == label,
        ChannelKind::Tunnel.text() == "tunnel"@ && ChannelKind::Chat.text() == "chat"@
            && ChannelKind::Signal.text() == "signal"@ && ChannelKind::Stdio.text() == "stdio"@,
{
}

/// The id of a message starts with the time, names the first bytes of the sender and ends
/// with the number.
pub proof fn law_id_names_time_sender_and_number(now: Seq<char>, self_id: Seq<char>, seq: u64)
    ensures
        ({
            let id = msg_id_of(now, self_id, seq);
            let sender = first_bytes(self_id, 4);
            &&& id.len() == now.len() + sender.len() + decimal(seq as int).len() + 2
            &&& id.take(now.len() as int) == now
            &&& id.subrange(now.len() as int + 1, (now.len() + 1 + sender.len()) as int) == sender
            &&& id.skip((now.len() + 2 + sender.len()) as int) == decimal(seq as int)
            &&& id[now.len() as int] == '_' && id[(now.len() + 1 + sender.len()) as int] == '_'
        }),
{
    reveal_strlit("_");
    let id = msg_id_of(now, self_id, seq);
    let sender = first_bytes(self_id, 4);
    assert(id.take(now.len() as int) =~= now);
    assert(id.subrange(now.len() as int + 1, (now.len() + 1 + sender.len()) as int) =~= sender);
    assert(id.skip((now.len() + 2 + sender.len()) as int) =~= decimal(seq as int));
}

/// A time of day is two digits for the hour, the minute and the second each, a point and three
/// for the thousandths.
pub proof fn law_form_of_a_time_stamp(s: Seq<char>, i: int)
    ensures
        is_time_stamp(s) ==> s.len() == 10 && s[6] == '.',
        is_time_stamp(s) && 0 <= i < 10 && i != 6 ==> '0' <= s[i] <= '9',
        s.len() == 10 && s[6] == '.' && (forall|k: int|
            0 <= k < 10 && k != 6 ==> '0' <= #[trigger] s[k] <= '9') ==> is_time_stamp(s),
{
}

} // verus!
