//! The serving side of the standard streams: a command whose streams go to a
//! peer.
use vstd::prelude::*;

use crate::model::{copy_bytes, opt_view};
use crate::rtc::manager::payload::{Outgoing, OutgoingView, P2pPayload, PayloadView};
use crate::stdio::bridge::{output_of, stdio_message, BridgeOutputView, BridgeView};
use crate::stdio::packet::{
    law_packet_round_trip, packet, unpacked, unwrap_packet, wrap_packet, StreamType,
};
use crate::text;
use crate::text::texts;

verus! {

/// Runs a command for a peer.
pub struct Executor {
    command: Vec<String>,
    active_peer: Option<String>,
    running: bool,
}

/// The model of `Executor`.
pub struct ExecutorView {
    pub command: Seq<Seq<char>>,
    /// The peer that the command talks to.
    pub active_peer: Option<Seq<char>>,
    /// The command takes input.
    pub running: bool,
}

impl View for Executor {
    type V = ExecutorView;

    closed spec fn view(&self) -> ExecutorView {
        ExecutorView {
            command: texts(self.command@),
            active_peer: opt_view(self.active_peer),
            running: self.running,
        }
    }
}

impl ExecutorView {
    /// The state after a packet of a peer: another peer than before takes over,
    /// where it is known.
    pub open spec fn addressed(self, peer_id: Seq<char>, known: bool) -> ExecutorView {
        if self.active_peer == Some(peer_id) {
            self
        } else {
            ExecutorView {
                active_peer: if known {
                    Some(peer_id)
                } else {
                    None
                },
                ..self
            }
        }
    }

    /// What a packet holds for the input of the command, where it runs.
    pub open spec fn input(self, data: Seq<u8>) -> Option<Seq<u8>> {
        if unpacked(data).0 == StreamType::Stdin && self.running {
            Some(unpacked(data).1)
        } else {
            None
        }
    }

    /// The program that is to be started, and its arguments, when the streams of a
    /// peer open.
    pub open spec fn start(self) -> Option<(Seq<char>, Seq<Seq<char>>)> {
        if self.running || self.command.len() == 0 {
            None
        } else {
            Some((self.command[0], self.command.skip(1)))
        }
    }

    /// The state after the command started.
    pub open spec fn started(self) -> ExecutorView {
        ExecutorView { running: true, ..self }
    }

    /// The state after the command ended.
    pub open spec fn exited(self) -> ExecutorView {
        ExecutorView { running: false, ..self }
    }

    /// The state after the streams of a peer closed.
    pub open spec fn closed(self, peer_id: Seq<char>) -> ExecutorView {
        if self.active_peer == Some(peer_id) {
            self.exited()
        } else {
            self
        }
    }

    /// What is sent when the command wrote something.
    pub open spec fn output(self, stream_type: StreamType, data: Seq<u8>) -> Option<OutgoingView> {
        match self.active_peer {
            Some(peer_id) => Some(stdio_message(peer_id, packet(stream_type, data))),
            None => None,
        }
    }

    /// The state after the streams of a peer opened.
    pub open spec fn opened(self, peer_id: Seq<char>, known: bool) -> ExecutorView {
        if self.running {
            self
        } else {
            ExecutorView {
                active_peer: if known {
                    Some(peer_id)
                } else {
                    None
                },
                ..self
            }
        }
    }
}

/// An executor whose command does not run yet.
pub open spec fn fresh_executor(command: Seq<Seq<char>>) -> ExecutorView {
    ExecutorView { command, active_peer: None, running: false }
}

/// A command that is to be started.
#[derive(Debug, PartialEq, Eq)]
pub struct StartCommand {
    pub program: String,
    pub args: Vec<String>,
}

impl Executor {
    /// An executor whose command does not run yet.
    pub fn new(command: Vec<String>) -> (r: Self)
        ensures
            r@ == fresh_executor(texts(command@)),
    {
        Executor { command, active_peer: None, running: false }
    }

    /// A packet of a peer: what it holds for standard input is to be written to
    /// the command, where it runs. `known` says whether the peer is known.
    pub fn on_message(&mut self, peer_id: &str, data: &[u8], known: bool) -> (r: Option<Vec<u8>>)
        ensures
            final(self)@ == old(self)@.addressed(peer_id@, known),
            opt_view(r) == old(self)@.input(data@),
    {
        let needs = match &self.active_peer {
            Some(active) => !text::same(active.as_str(), peer_id),
            None => true,
        };
        if needs {
            self.active_peer = if known {
                Some(text::copy(peer_id))
            } else {
                None
            };
        }
        let (stream_type, payload) = unwrap_packet(data);
        if stream_type == StreamType::Stdin && self.running {
            Some(copy_bytes(payload))
        } else {
            None
        }
    }

    /// The streams of a peer opened: unless the command runs already it is to be
    /// started for that peer. An empty command starts nothing.
    pub fn on_open(&mut self, peer_id: &str, known: bool) -> (r: Option<StartCommand>)
        ensures
            final(self)@ == old(self)@.opened(peer_id@, known),
            match r {
                Some(start) => old(self)@.start() == Some((start.program@, texts(start.args@))),
                None => old(self)@.start() is None,
            },
    {
        if self.running {
            return None;
        }
        self.active_peer = if known {
            Some(text::copy(peer_id))
        } else {
            None
        };
        if self.command.len() == 0 {
            return None;
        }
        let mut args: Vec<String> = Vec::new();
        let ghost all = texts(self.command@);
        let mut i: usize = 1;
        while i < self.command.len()
            invariant
                1 <= i <= self.command@.len(),
                all == texts(self.command@),
                texts(args@) == all.subrange(1, i as int),
            decreases self.command@.len() - i,
        {
            let ghost before = args@;
            let arg = text::copy(self.command[i].as_str());
            args.push(arg);
            assert(texts(args@) =~= texts(before).push(arg@));
            i = i + 1;
            assert(texts(args@) =~= all.subrange(1, i as int));
        }
        assert(texts(args@) =~= all.skip(1));
        Some(StartCommand { program: text::copy(self.command[0].as_str()), args })
    }

    /// The command has started.
    pub fn on_started(&mut self)
        ensures
            final(self)@ == old(self)@.started(),
    {
        self.running = true;
    }

    /// The command has ended.
    pub fn on_exit(&mut self)
        ensures
            final(self)@ == old(self)@.exited(),
    {
        self.running = false;
    }

    /// The streams of a peer closed: the input of its command is closed. Says
    /// whether it was that peer's command.
    pub fn on_close(&mut self, peer_id: &str) -> (r: bool)
        ensures
            r == (old(self)@.active_peer == Some(peer_id@)),
            final(self)@ == old(self)@.closed(peer_id@),
    {
        let ours = match &self.active_peer {
            Some(active) => text::same(active.as_str(), peer_id),
            None => false,
        };
        if ours {
            self.running = false;
        }
        ours
    }

    /// The command wrote something: it is to be sent to the peer that it talks
    /// to.
    pub fn on_output(&self, stream_type: StreamType, data: &[u8]) -> (r: Option<Outgoing>)
        ensures
            opt_view(r) == self@.output(stream_type, data@),
    {
        match &self.active_peer {
            Some(peer_id) => Some(
                Outgoing {
                    peer_id: text::copy(peer_id.as_str()),
                    payload: P2pPayload::Stdio { data: wrap_packet(stream_type, data) },
                },
            ),
            None => None,
        }
    }
}

/// What is typed on the connecting side reaches the command unchanged.
pub proof fn law_input_reaches_command(b: BridgeView, data: Seq<u8>)
    requires
        b.connected,
        b.active_peer is Some,
    ensures
        b.sent(data) matches Some(o) && o.payload matches PayloadView::Stdio { data: d } && unpacked(
            d,
        ) == (StreamType::Stdin, data),
{
    law_packet_round_trip(StreamType::Stdin, data);
}

/// What the command writes reaches the connecting side unchanged, on the stream
/// on which it was written.
pub proof fn law_output_reaches_peer(peer_id: Seq<char>, stream_type: StreamType, data: Seq<u8>)
    ensures
        stdio_message(peer_id, packet(stream_type, data)).payload matches PayloadView::Stdio {
            data: d,
        } && unpacked(d) == (stream_type, data),
{
    law_packet_round_trip(stream_type, data);
}

/// One command runs at a time: while it does, no peer starts another.
pub proof fn law_one_command_at_a_time(v: ExecutorView, peer_id: Seq<char>, known: bool)
    requires
        v.running,
    ensures
        v.opened(peer_id, known) == v,
{
}

/// What is typed on the connecting side is written to the command where it runs, and
/// only then; what comes as output is not.
pub proof fn law_typed_input_is_written(b: BridgeView, v: ExecutorView, data: Seq<u8>)
    requires
        b.connected,
        b.active_peer is Some,
    ensures
        b.sent(data) matches Some(o) && o.payload matches PayloadView::Stdio { data: d } && {
            &&& v.running ==> v.input(d) == Some(data)
            &&& !v.running ==> v.input(d) is None
        },
        v.input(packet(StreamType::Stdout, data)) is None,
        v.input(packet(StreamType::Stderr, data)) is None,
{
    law_packet_round_trip(StreamType::Stdin, data);
    law_packet_round_trip(StreamType::Stdout, data);
    law_packet_round_trip(StreamType::Stderr, data);
}

/// What the command writes goes to the peer that it talks to, and there it is shown
/// unchanged on the same stream. Without a peer it goes nowhere.
pub proof fn law_command_output_is_shown(v: ExecutorView, data: Seq<u8>)
    ensures
        v.active_peer is None ==> v.output(StreamType::Stdout, data) is None && v.output(
            StreamType::Stderr,
            data,
        ) is None,
        v.active_peer matches Some(peer_id) ==> {
            &&& v.output(StreamType::Stdout, data) matches Some(o) && o.peer_id == peer_id && (
            o.payload matches PayloadView::Stdio { data: d } && output_of(d)
                == BridgeOutputView::Stdout(data))
            &&& v.output(StreamType::Stderr, data) matches Some(o) && o.peer_id == peer_id && (
            o.payload matches PayloadView::Stdio { data: d } && output_of(d)
                == BridgeOutputView::Stderr(data))
        },
{
    law_packet_round_trip(StreamType::Stdout, data);
    law_packet_round_trip(StreamType::Stderr, data);
}

/// A command starts with its own program and arguments, for the peer whose streams
/// opened, and does not start twice. Only the peer that it talks to ends its input,
/// and after it ended it can start again.
pub proof fn law_command_lives_with_its_peer(
    v: ExecutorView,
    command: Seq<Seq<char>>,
    peer_id: Seq<char>,
    other: Seq<char>,
    known: bool,
)
    ensures
        fresh_executor(command).command == command && fresh_executor(command).active_peer is None
            && !fresh_executor(command).running,
        !v.running ==> v.opened(peer_id, true).active_peer == Some(peer_id),
        !v.running ==> v.opened(peer_id, false).active_peer is None,
        v.opened(peer_id, known).command == v.command,
        v.opened(peer_id, known).running == v.running,
        v.start() is Some <==> !v.running && v.command.len() > 0,
        v.start() matches Some(s) ==> seq![s.0] + s.1 == v.command,
        v.started().running && v.started().command == v.command && v.started().active_peer
            == v.active_peer,
        v.started().start() is None,
        !v.exited().running && v.exited().command == v.command && v.exited().active_peer
            == v.active_peer,
        v.command.len() > 0 ==> v.started().exited().start() is Some,
        v.active_peer != Some(other) ==> v.closed(other) == v,
        v.active_peer == Some(other) ==> !v.closed(other).running && v.closed(other).command
            == v.command && v.closed(other).active_peer == v.active_peer,
        v.addressed(peer_id, true).active_peer == Some(peer_id),
        v.active_peer != Some(peer_id) ==> v.addressed(peer_id, false).active_peer is None,
        v.active_peer == Some(peer_id) ==> v.addressed(peer_id, known) == v,
        v.addressed(peer_id, known).command == v.command,
        v.addressed(peer_id, known).running == v.running,
{
    if v.start() is Some {
        assert(seq![v.command[0]] + v.command.skip(1) =~= v.command);
    }
}

} // verus!
