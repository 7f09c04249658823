//! The numbering of data messages: the sender counts them, and the receiver
//! finds gaps and duplicates.
use vstd::prelude::*;

use crate::model::copy_bytes;
use crate::rtc::tunnel_message::{TunnelMessage, TunnelMessageView};
use crate::text;

verus! {

/// What the receiver of a connection knows of the numbers.
#[derive(Debug, Clone, Copy)]
pub struct SeqState {
    /// The number of the next data message, starting at one.
    pub next_expected: u64,
    /// A message with a number has been received.
    pub seq_seen: bool,
}

/// What is to be done with a data message.
#[derive(Debug, Clone, Copy, PartialEq, Eq)]
pub enum SeqDecision {
    /// The next one, or one of a sender that does not count: write it.
    Accept,
    /// One that was received before: drop it.
    Duplicate { received: u64 },
    /// One too far on: what is missing will not come, so the connection cannot
    /// go on.
    Gap { expected: u64, received: u64 },
    /// One without a number from a sender that counts.
    Inconsistent,
}

/// Nothing received yet.
pub open spec fn fresh_seq() -> SeqState {
    SeqState { next_expected: 1, seq_seen: false }
}

/// What is to be done with a message.
pub open spec fn decision(state: SeqState, seq: Option<u64>) -> SeqDecision {
    match seq {
        None => if state.seq_seen {
            SeqDecision::Inconsistent
        } else {
            SeqDecision::Accept
        },
        Some(received) => if received < state.next_expected {
            SeqDecision::Duplicate { received }
        } else if received == state.next_expected {
            SeqDecision::Accept
        } else {
            SeqDecision::Gap { expected: state.next_expected, received }
        },
    }
}

/// What is known after a message. Only the expected number moves the expectation
/// on; it wraps around.
pub open spec fn observed(state: SeqState, seq: Option<u64>) -> SeqState {
    match seq {
        None => state,
        Some(received) => SeqState {
            next_expected: if received == state.next_expected {
                after_seq(received)
            } else {
                state.next_expected
            },
            seq_seen: true,
        },
    }
}

/// The number after another; the numbers wrap around.
pub open spec fn after_seq(n: u64) -> u64 {
    if n == u64::MAX {
        0
    } else {
        (n + 1) as u64
    }
}

impl SeqState {
    /// Nothing received yet.
    pub fn new() -> (r: Self)
        ensures
            r == fresh_seq(),
    {
        SeqState { next_expected: 1, seq_seen: false }
    }

    /// Decides on a message by its number.
    pub fn observe(&mut self, seq: Option<u64>) -> (r: SeqDecision)
        ensures
            r == decision(*old(self), seq),
            *final(self) == observed(*old(self), seq),
    {
        match seq {
            None => {
                if self.seq_seen {
                    SeqDecision::Inconsistent
                } else {
                    SeqDecision::Accept
                }
            },
            Some(received) => {
                self.seq_seen = true;
                if received < self.next_expected {
                    SeqDecision::Duplicate { received }
                } else if received == self.next_expected {
                    self.next_expected = self.next_expected.wrapping_add(1);
                    SeqDecision::Accept
                } else {
                    SeqDecision::Gap { expected: self.next_expected, received }
                }
            },
        }
    }
}

/// The sender of a connection, which counts its data messages.
pub struct TunnelSender {
    conn_id: String,
    target: String,
    next_seq: u64,
}

/// The model of `TunnelSender`.
pub struct SenderView {
    pub conn_id: Seq<char>,
    pub target: Seq<char>,
    pub next_seq: u64,
}

impl View for TunnelSender {
    type V = SenderView;

    closed spec fn view(&self) -> SenderView {
        SenderView { conn_id: self.conn_id@, target: self.target@, next_seq: self.next_seq }
    }
}

impl SenderView {
    /// The next data message.
    pub open spec fn message(self, data: Seq<u8>) -> TunnelMessageView {
        TunnelMessageView {
            msg_type: "data"@,
            conn_id: self.conn_id,
            target: self.target,
            payload: Some(data),
            seq: Some(self.next_seq),
        }
    }

    /// The state after a data message.
    pub open spec fn advanced(self) -> SenderView {
        SenderView { next_seq: after_seq(self.next_seq), ..self }
    }
}

/// A sender that has sent nothing.
pub open spec fn fresh_sender(conn_id: Seq<char>, target: Seq<char>) -> SenderView {
    SenderView { conn_id, target, next_seq: 1 }
}

impl TunnelSender {
    /// A sender that has sent nothing.
    pub fn new(conn_id: &str, target: &str) -> (r: Self)
        ensures
            r@ == fresh_sender(conn_id@, target@),
    {
        TunnelSender { conn_id: text::copy(conn_id), target: text::copy(target), next_seq: 1 }
    }

    /// Makes the next data message.
    pub fn data(&mut self, data: &[u8]) -> (r: TunnelMessage)
        ensures
            r@ == old(self)@.message(data@),
            final(self)@ == old(self)@.advanced(),
    {
        let seq = self.next_seq;
        self.next_seq = seq.wrapping_add(1);
        TunnelMessage {
            msg_type: text::copy("data"),
            conn_id: text::copy(self.conn_id.as_str()),
            target: text::copy(self.target.as_str()),
            payload: Some(copy_bytes(data)),
            seq: Some(seq),
        }
    }
}

/// What a local connection delivered.
#[derive(Debug, PartialEq, Eq)]
pub enum LocalRead {
    Eof,
    Data(Vec<u8>),
    Failed,
    /// The forward was told to stop.
    Shutdown,
}

/// What is to be done with what a local connection delivered.
#[derive(Debug, PartialEq, Eq)]
pub enum LocalStep {
    Send(TunnelMessage),
    Close { notify_remote: bool },
}

/// The model of `LocalRead`.
pub enum LocalReadView {
    Eof,
    Data(Seq<u8>),
    Failed,
    Shutdown,
}

impl View for LocalRead {
    type V = LocalReadView;

    open spec fn view(&self) -> LocalReadView {
        match self {
            LocalRead::Eof => LocalReadView::Eof,
            LocalRead::Data(data) => LocalReadView::Data(data@),
            LocalRead::Failed => LocalReadView::Failed,
            LocalRead::Shutdown => LocalReadView::Shutdown,
        }
    }
}

/// The model of `LocalStep`.
pub enum LocalStepView {
    Send(TunnelMessageView),
    Close { notify_remote: bool },
}

impl View for LocalStep {
    type V = LocalStepView;

    open spec fn view(&self) -> LocalStepView {
        match self {
            LocalStep::Send(message) => LocalStepView::Send(message@),
            LocalStep::Close { notify_remote } => LocalStepView::Close {
                notify_remote: *notify_remote,
            },
        }
    }
}

impl SenderView {
    /// What is to be done with what a local connection delivered.
    pub open spec fn step(self, read: LocalReadView) -> LocalStepView {
        match read {
            LocalReadView::Data(data) => LocalStepView::Send(self.message(data)),
            LocalReadView::Eof | LocalReadView::Failed => LocalStepView::Close {
                notify_remote: true,
            },
            LocalReadView::Shutdown => LocalStepView::Close { notify_remote: false },
        }
    }

    /// The state after that.
    pub open spec fn after_read(self, read: LocalReadView) -> SenderView {
        match read {
            LocalReadView::Data(_) => self.advanced(),
            _ => self,
        }
    }
}

/// Decides what to do with what a local connection delivered: data go to the
/// peer, and the end of the connection is told to it unless the forward stops.
pub fn on_local_read(sender: &mut TunnelSender, read: LocalRead) -> (r: LocalStep)
    ensures
        r@ == old(sender)@.step(read@),
        final(sender)@ == old(sender)@.after_read(read@),
{
    match read {
        LocalRead::Data(data) => LocalStep::Send(sender.data(data.as_slice())),
        LocalRead::Eof | LocalRead::Failed => LocalStep::Close { notify_remote: true },
        LocalRead::Shutdown => LocalStep::Close { notify_remote: false },
    }
}

/// A receiver that has seen what a sender sent accepts the sender's next message
/// and is then ready for the one after it.
pub proof fn law_sender_and_receiver_agree(sender: SenderView, state: SeqState, data: Seq<u8>)
    requires
        state.next_expected == sender.next_seq,
    ensures
        decision(state, sender.message(data).seq) == SeqDecision::Accept,
        observed(state, sender.message(data).seq).next_expected == sender.advanced().next_seq,
        fresh_seq().next_expected == 1,
{
}

/// A message that comes a second time is dropped, and does not change what is
/// expected next.
pub proof fn law_duplicate_is_dropped(state: SeqState, seq: u64)
    requires
        decision(state, Some(seq)) == SeqDecision::Accept,
        seq < u64::MAX,
    ensures
        ({
            let after = observed(state, Some(seq));
            &&& decision(after, Some(seq)) == SeqDecision::Duplicate { received: seq }
            &&& observed(after, Some(seq)) == after
        }),
{
}

/// The numbers that were accepted, in a run of messages.
pub open spec fn accepted(state: SeqState, seqs: Seq<Option<u64>>) -> Seq<u64>
    decreases seqs.len(),
{
    if seqs.len() == 0 {
        Seq::empty()
    } else {
        let rest = accepted(observed(state, seqs[0]), seqs.drop_first());
        match seqs[0] {
            Some(n) => if decision(state, seqs[0]) == SeqDecision::Accept {
                seq![n] + rest
            } else {
                rest
            },
            None => rest,
        }
    }
}

/// Whatever messages come, those that are accepted carry the numbers that follow
/// each other from the expected one on: none is missing, none comes twice.
pub proof fn law_accepted_numbers_follow(state: SeqState, seqs: Seq<Option<u64>>)
    requires
        state.next_expected + seqs.len() <= u64::MAX,
    ensures
        accepted(state, seqs).len() <= seqs.len(),
        forall|i: int|
            0 <= i < accepted(state, seqs).len() ==> #[trigger] accepted(state, seqs)[i]
                == state.next_expected + i,
    decreases seqs.len(),
{
    if seqs.len() > 0 {
        law_accepted_numbers_follow(observed(state, seqs[0]), seqs.drop_first());
        let rest = accepted(observed(state, seqs[0]), seqs.drop_first());
        let all = accepted(state, seqs);
        assert forall|i: int| 0 <= i < all.len() implies #[trigger] all[i] == state.next_expected
            + i by {
            if all.len() == rest.len() {
                assert(all[i] == rest[i]);
            } else if i > 0 {
                assert(all[i] == rest[i - 1]);
            }
        }
    }
}

/// Once a message was numbered, one without a number is never accepted.
pub proof fn law_no_way_back_to_unnumbered(state: SeqState, first: u64, seqs: Seq<Option<u64>>)
    ensures
        decision(observed_all(observed(state, Some(first)), seqs), None)
            == SeqDecision::Inconsistent,
    decreases seqs.len(),
{
    lemma_seen_stays(observed(state, Some(first)), seqs);
}

/// What is known after a run of messages.
pub open spec fn observed_all(state: SeqState, seqs: Seq<Option<u64>>) -> SeqState
    decreases seqs.len(),
{
    if seqs.len() == 0 {
        state
    } else {
        observed(observed_all(state, seqs.drop_last()), seqs.last())
    }
}

proof fn lemma_seen_stays(state: SeqState, seqs: Seq<Option<u64>>)
    requires
        state.seq_seen,
    ensures
        observed_all(state, seqs).seq_seen,
    decreases seqs.len(),
{
    if seqs.len() > 0 {
        lemma_seen_stays(state, seqs.drop_last());
    }
}

/// What a connection delivers is sent unchanged, under the name of the connection
/// and of the forward and under the next number. Its end is told to the peer, and
/// that the forward stops is not; neither takes a number.
pub proof fn law_local_data_are_sent(sender: SenderView, data: Seq<u8>)
    ensures
        sender.step(LocalReadView::Data(data)) matches LocalStepView::Send(m) && {
            &&& m.msg_type == "data"@
            &&& m.conn_id == sender.conn_id
            &&& m.target == sender.target
            &&& m.payload == Some(data)
            &&& m.seq == Some(sender.next_seq)
        },
        ({
            let next = sender.after_read(LocalReadView::Data(data));
            &&& next.conn_id == sender.conn_id && next.target == sender.target
            &&& sender.next_seq < u64::MAX ==> next.next_seq == sender.next_seq + 1
        }),
        sender.step(LocalReadView::Eof) == (LocalStepView::Close { notify_remote: true }),
        sender.step(LocalReadView::Failed) == (LocalStepView::Close { notify_remote: true }),
        sender.step(LocalReadView::Shutdown) == (LocalStepView::Close { notify_remote: false }),
        sender.after_read(LocalReadView::Eof) == sender,
        sender.after_read(LocalReadView::Failed) == sender,
        sender.after_read(LocalReadView::Shutdown) == sender,
{
}

/// A new sender and a new receiver start with the same number, which is one.
pub proof fn law_both_sides_start_at_one(conn_id: Seq<char>, target: Seq<char>)
    ensures
        fresh_sender(conn_id, target).next_seq == 1,
        fresh_seq().next_expected == 1,
        !fresh_seq().seq_seen,
        fresh_sender(conn_id, target).conn_id == conn_id,
        fresh_sender(conn_id, target).target == target,
{
}

/// What becomes of a message depends on how its number stands to the expected one:
/// the expected one is accepted, an earlier one is a duplicate and a later one shows
/// a gap. One without a number is accepted as long as none had one.
pub proof fn law_number_decides(state: SeqState, n: u64)
    ensures
        decision(state, Some(n)) == SeqDecision::Accept <==> n == state.next_expected,
        decision(state, Some(n)) is Duplicate <==> n < state.next_expected,
        decision(state, Some(n)) is Gap <==> n > state.next_expected,
        decision(state, Some(n)) matches SeqDecision::Duplicate { received } ==> received == n,
        decision(state, Some(n)) matches SeqDecision::Gap { expected, received } ==> received == n
            && expected == state.next_expected,
        decision(state, None) == SeqDecision::Accept <==> !state.seq_seen,
        decision(state, None) is Inconsistent <==> state.seq_seen,
        observed(state, None) == state,
        observed(state, Some(n)).seq_seen,
        n != state.next_expected ==> observed(state, Some(n)).next_expected == state.next_expected,
        n == state.next_expected && n < u64::MAX ==> observed(state, Some(n)).next_expected == n
            + 1,
{
}

} // verus!
