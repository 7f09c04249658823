//! The signaling connection: what is done with what it delivers, and how it is
//! set up again after it broke.
use vstd::arithmetic::power2::pow2;
use vstd::prelude::*;

use crate::signal::message::{request_room, room_request, SignalMessage};
use crate::text;

verus! {

/// How often a broken connection is set up again at most.
pub const MAX_RETRIES: usize = 10;

/// The wait before the first attempt, in milliseconds.
pub const BASE_RETRY_DELAY_MS: u64 = 1000;

/// The longest wait before an attempt, in milliseconds.
pub const MAX_RETRY_DELAY_MS: u64 = 30000;

/// The wait before an attempt: it doubles with each attempt up to a limit.
pub open spec fn backoff_ms(attempt: int) -> int {
    let doublings = if attempt - 1 < 31 {
        attempt - 1
    } else {
        31
    };
    let delay = BASE_RETRY_DELAY_MS * pow2(doublings as nat);
    if delay < MAX_RETRY_DELAY_MS {
        delay
    } else {
        MAX_RETRY_DELAY_MS as int
    }
}

/// What the socket delivered.
pub enum SocketEvent {
    /// A text, and the message that could be read from it.
    Text(Option<SignalMessage>),
    Closed,
    Failed,
    Other,
}

/// What is to be done with what the socket delivered.
#[derive(Debug, PartialEq, Eq)]
pub enum SocketAction {
    /// Hand the message on and read on.
    Deliver(SignalMessage),
    /// Read on.
    Continue,
    /// Stop reading and set the connection up again.
    Reconnect,
    /// Stop reading.
    Stop,
}

/// What happened since the last step of setting the connection up again.
#[derive(Debug, Clone, Copy, PartialEq, Eq)]
pub enum ReconnectEvent {
    /// The wait is over.
    Waited,
    /// The client was closed during the wait.
    CloseNotified,
    Connected,
    ConnectFailed,
    /// The peers were asked for and the user was told.
    Announced,
}

/// The next step of setting the connection up again.
#[derive(Debug, PartialEq, Eq)]
pub enum ReconnectAction {
    Wait { attempt: usize, delay_ms: u64 },
    Connect,
    /// The connection stands: ask for the peers of the room and tell the user.
    Announce(SignalMessage),
    Stop,
}

/// The signaling connection of a node.
pub struct SignalClient {
    self_id: String,
    room_id: String,
    closed: bool,
    /// The attempt under way, while the connection is being set up again.
    attempt: Option<usize>,
}

/// The model of `SignalClient`.
pub struct ClientView {
    pub self_id: Seq<char>,
    pub room_id: Seq<char>,
    pub closed: bool,
    pub attempt: Option<usize>,
}

impl View for SignalClient {
    type V = ClientView;

    closed spec fn view(&self) -> ClientView {
        ClientView {
            self_id: self.self_id@,
            room_id: self.room_id@,
            closed: self.closed,
            attempt: self.attempt,
        }
    }
}

impl ClientView {
    /// Attempts are counted from one and within the limit.
    pub open spec fn in_limits(self) -> bool {
        self.attempt matches Some(n) ==> 1 <= n <= MAX_RETRIES
    }

    /// The state in which an attempt is made, or in which none is made any more
    /// because the client is closed or the attempts are used up.
    pub open spec fn attempting(self, n: int) -> ClientView {
        ClientView {
            attempt: if self.closed || n > MAX_RETRIES {
                None
            } else {
                Some(n as usize)
            },
            ..self
        }
    }

    /// The state after setting the connection up again was to start.
    pub open spec fn started(self) -> ClientView {
        if self.attempt is Some {
            self
        } else {
            self.attempting(1)
        }
    }

    /// The state after the client was closed.
    pub open spec fn ended(self) -> ClientView {
        ClientView { closed: true, ..self }
    }

    /// What is to be done with what the socket delivered.
    pub open spec fn on_socket(self, event: SocketEvent) -> SocketAction {
        match event {
            SocketEvent::Text(Some(msg)) => SocketAction::Deliver(msg),
            SocketEvent::Text(None) | SocketEvent::Other => SocketAction::Continue,
            SocketEvent::Closed | SocketEvent::Failed => if self.closed {
                SocketAction::Stop
            } else {
                SocketAction::Reconnect
            },
        }
    }

    /// Whether an action is the next step after starting.
    pub open spec fn starts_with(self, action: ReconnectAction) -> bool {
        if self.attempt is Some {
            action is Stop
        } else {
            self.started().wait_or_stop(action)
        }
    }

    /// Whether an action is the next step after an event.
    pub open spec fn goes_on_with(self, event: ReconnectEvent, action: ReconnectAction) -> bool {
        match (self.attempt, event) {
            (Some(_), ReconnectEvent::Waited) => action is Connect,
            (Some(_), ReconnectEvent::Connected) => action matches ReconnectAction::Announce(m)
                && m@ == room_request(self.self_id, self.room_id),
            (Some(_), ReconnectEvent::ConnectFailed) => self.stepped(event).wait_or_stop(action),
            _ => action is Stop,
        }
    }

    /// The state after a step of setting the connection up again.
    pub open spec fn stepped(self, event: ReconnectEvent) -> ClientView {
        match (self.attempt, event) {
            (Some(_), ReconnectEvent::Waited | ReconnectEvent::Connected) => self,
            (Some(n), ReconnectEvent::ConnectFailed) => self.attempting(n + 1),
            _ => ClientView { attempt: None, ..self },
        }
    }

    /// The action that a state asks for on entering an attempt.
    pub open spec fn wait_or_stop(self, action: ReconnectAction) -> bool {
        match self.attempt {
            Some(n) => action matches ReconnectAction::Wait { attempt, delay_ms } && attempt == n
                && delay_ms == backoff_ms(n as int),
            None => action is Stop,
        }
    }
}

proof fn lemma_pow2_step(n: nat)
    ensures
        pow2(n + 1) == 2 * pow2(n),
        pow2(0) == 1,
        pow2(n) >= 1,
{
    vstd::arithmetic::power2::lemma_pow2_unfold(n + 1);
    vstd::arithmetic::power2::lemma2_to64();
    vstd::arithmetic::power2::lemma_pow2_pos(n);
}

/// The wait before an attempt, in milliseconds.
pub fn calculate_backoff(retry_count: usize) -> (r: u64)
    requires
        retry_count >= 1,
    ensures
        r == backoff_ms(retry_count as int),
{
    let doublings: usize = if retry_count - 1 < 31 {
        retry_count - 1
    } else {
        31
    };
    let mut delay: u64 = BASE_RETRY_DELAY_MS;
    let mut i: usize = 0;
    proof {
        lemma_pow2_step(0);
    }
    while i < doublings
        invariant
            i <= doublings <= 31,
            delay == BASE_RETRY_DELAY_MS * pow2(i as nat),
            pow2(i as nat) <= 0x8000_0000,
            i < 31 ==> pow2(i as nat) * 2 <= 0x8000_0000,
        decreases doublings - i,
    {
        proof {
            lemma_pow2_step(i as nat);
            vstd::arithmetic::power2::lemma2_to64();
            if i + 1 < 31 {
                vstd::arithmetic::power2::lemma_pow2_strictly_increases((i + 2) as nat, 32);
                lemma_pow2_step((i + 1) as nat);
            }
        }
        delay = delay * 2;
        i = i + 1;
    }
    if delay < MAX_RETRY_DELAY_MS {
        delay
    } else {
        MAX_RETRY_DELAY_MS
    }
}

/// A client that is connected.
pub open spec fn fresh_client(self_id: Seq<char>, room_id: Seq<char>) -> ClientView {
    ClientView { self_id, room_id, closed: false, attempt: None }
}

impl SignalClient {
    /// A client that is connected, and the request with which it starts.
    pub fn new(self_id: &str, room_id: &str) -> (r: (Self, SignalMessage))
        ensures
            r.0@ == fresh_client(self_id@, room_id@),
            r.1@ == room_request(self_id@, room_id@),
    {
        (
            SignalClient {
                self_id: text::copy(self_id),
                room_id: text::copy(room_id),
                closed: false,
                attempt: None,
            },
            request_room(self_id, room_id),
        )
    }

    /// Decides what to do with what the socket delivered.
    pub fn on_socket(&self, event: SocketEvent) -> (r: SocketAction)
        ensures
            r == self@.on_socket(event),
    {
        match event {
            SocketEvent::Text(Some(msg)) => SocketAction::Deliver(msg),
            SocketEvent::Text(None) | SocketEvent::Other => SocketAction::Continue,
            SocketEvent::Closed | SocketEvent::Failed => if self.closed {
                SocketAction::Stop
            } else {
                SocketAction::Reconnect
            },
        }
    }

    /// Whether a message can be sent; a closed client refuses it.
    pub fn check_open(&self) -> (r: Result<(), String>)
        ensures
            match r {
                Ok(_) => !self@.closed,
                Err(message) => self@.closed && message@ == "connection closed"@,
            },
    {
        if self.closed {
            Err(text::copy("connection closed"))
        } else {
            Ok(())
        }
    }

    /// Closes the client.
    pub fn close(&mut self)
        ensures
            final(self)@ == old(self)@.ended(),
    {
        self.closed = true;
    }

    fn enter(&mut self, n: usize) -> (r: ReconnectAction)
        requires
            n >= 1,
        ensures
            final(self)@ == old(self)@.attempting(n as int),
            final(self)@.wait_or_stop(r),
    {
        if self.closed || n > MAX_RETRIES {
            self.attempt = None;
            return ReconnectAction::Stop;
        }
        self.attempt = Some(n);
        ReconnectAction::Wait { attempt: n, delay_ms: calculate_backoff(n) }
    }

    /// Starts to set the connection up again. While that is under way a second
    /// start stops at once and changes nothing.
    pub fn start_reconnect(&mut self) -> (r: ReconnectAction)
        ensures
            final(self)@ == old(self)@.started(),
            old(self)@.starts_with(r),
    {
        if self.attempt.is_some() {
            return ReconnectAction::Stop;
        }
        self.enter(1)
    }

    /// Goes on with setting the connection up again.
    pub fn reconnect_step(&mut self, event: ReconnectEvent) -> (r: ReconnectAction)
        ensures
            final(self)@ == old(self)@.stepped(event),
            old(self)@.goes_on_with(event, r),
    {
        match (self.attempt, event) {
            (Some(_), ReconnectEvent::Waited) => ReconnectAction::Connect,
            (Some(_), ReconnectEvent::Connected) => ReconnectAction::Announce(
                request_room(self.self_id.as_str(), self.room_id.as_str()),
            ),
            (Some(n), ReconnectEvent::ConnectFailed) => {
                if n >= MAX_RETRIES {
                    self.attempt = None;
                    return ReconnectAction::Stop;
                }
                self.enter(n + 1)
            },
            _ => {
                self.attempt = None;
                ReconnectAction::Stop
            },
        }
    }
}

/// The waits never get shorter from one attempt to a later one, and stay between
/// the first and the longest wait.
pub proof fn law_backoff_grows_to_limit(a: int, b: int)
    requires
        1 <= a <= b,
    ensures
        backoff_ms(a) <= backoff_ms(b),
        BASE_RETRY_DELAY_MS <= backoff_ms(a) <= MAX_RETRY_DELAY_MS,
        backoff_ms(1) == BASE_RETRY_DELAY_MS,
        a >= 6 ==> backoff_ms(a) == MAX_RETRY_DELAY_MS,
{
    let da: nat = if a - 1 < 31 {
        (a - 1) as nat
    } else {
        31
    };
    let db: nat = if b - 1 < 31 {
        (b - 1) as nat
    } else {
        31
    };
    lemma_pow2_step(0);
    lemma_pow2_step(da);
    vstd::arithmetic::power2::lemma2_to64();
    if da < db {
        vstd::arithmetic::power2::lemma_pow2_strictly_increases(da, db);
    }
    if a >= 6 && da > 5 {
        vstd::arithmetic::power2::lemma_pow2_strictly_increases(5, da);
    }
}

/// The attempts stay within the limit, each one is counted, and a closed client
/// makes none. A connection that stands is announced before another one can be
/// set up.
pub proof fn law_attempts_are_limited(v: ClientView, event: ReconnectEvent)
    requires
        v.in_limits(),
    ensures
        v.attempting(1).in_limits(),
        v.stepped(event).in_limits(),
        event is Connected ==> v.stepped(event) == v,
        event is Announced ==> v.stepped(event).attempt is None,
        event is ConnectFailed && v.closed ==> v.stepped(event).attempt is None,
        event is ConnectFailed && v.attempt == Some(MAX_RETRIES) ==> v.stepped(event).attempt
            is None,
        v.stepped(event).attempt is Some && event is ConnectFailed ==> v.stepped(event).attempt->0
            == v.attempt->0 + 1,
{
}

/// The first wait is one second, each further one twice as long, and none is longer than
/// thirty seconds.
pub proof fn law_waits_double(attempt: int)
    requires
        attempt >= 1,
    ensures
        backoff_ms(1) == 1000,
        backoff_ms(attempt + 1) == if 2 * backoff_ms(attempt) < 30000 {
            2 * backoff_ms(attempt)
        } else {
            30000
        },
        MAX_RETRIES == 10,
{
    law_backoff_grows_to_limit(attempt, attempt + 1);
    vstd::arithmetic::power2::lemma2_to64();
    if attempt < 6 {
        lemma_pow2_step((attempt - 1) as nat);
    } else {
        law_backoff_grows_to_limit(attempt + 1, attempt + 1);
    }
}

/// A client that is not closed tries to set a broken connection up again: it waits, then
/// connects; after a failure it waits longer and tries again, up to ten times in all, and
/// once it is connected it asks for its room again. While that is under way a second start
/// does nothing, and a closed client does not start.
pub proof fn law_broken_connection_is_set_up_again(
    v: ClientView,
    action: ReconnectAction,
    n: usize,
)
    requires
        v.in_limits(),
    ensures
        v.attempt is Some ==> v.started() == v && (v.starts_with(action) <==> action is Stop),
        v.attempt is None && v.closed ==> v.started().attempt is None && (v.starts_with(action)
            <==> action is Stop),
        v.attempt is None && !v.closed ==> {
            &&& v.started().attempt == Some(1usize)
            &&& v.starts_with(action) <==> action == (ReconnectAction::Wait {
                attempt: 1,
                delay_ms: 1000,
            })
        },
        v.attempt is Some && v.goes_on_with(ReconnectEvent::Waited, action) ==> action is Connect,
        v.stepped(ReconnectEvent::Waited) == v,
        v.attempt is Some && v.goes_on_with(ReconnectEvent::Connected, action) ==> (action
            matches ReconnectAction::Announce(m) && m@ == room_request(v.self_id, v.room_id)),
        v.attempt == Some(n) && n < 10 && !v.closed ==> {
            let next = v.stepped(ReconnectEvent::ConnectFailed);
            &&& next.attempt == Some((n + 1) as usize)
            &&& v.goes_on_with(ReconnectEvent::ConnectFailed, action) ==> (action
                matches ReconnectAction::Wait { attempt, delay_ms } && attempt == n + 1 && delay_ms
                == backoff_ms(n + 1))
        },
        v.attempt == Some(n) && (n >= 10 || v.closed) ==> {
            &&& v.stepped(ReconnectEvent::ConnectFailed).attempt is None
            &&& v.goes_on_with(ReconnectEvent::ConnectFailed, action) ==> action is Stop
        },
        v.stepped(ReconnectEvent::CloseNotified).attempt is None,
        v.goes_on_with(ReconnectEvent::CloseNotified, action) ==> action is Stop,
        v.goes_on_with(ReconnectEvent::Announced, action) ==> action is Stop,
        v.attempt is None && v.goes_on_with(ReconnectEvent::Connected, action) ==> action is Stop,
{
    law_waits_double(1);
}

/// No step of setting the connection up again changes who this node is, where it is or
/// whether it was closed.
pub proof fn law_client_stays_itself(
    v: ClientView,
    event: ReconnectEvent,
    self_id: Seq<char>,
    room_id: Seq<char>,
)
    ensures
        v.started().self_id == v.self_id && v.started().room_id == v.room_id && v.started().closed
            == v.closed,
        v.stepped(event).self_id == v.self_id && v.stepped(event).room_id == v.room_id && v.stepped(
            event,
        ).closed == v.closed,
        v.ended().closed && v.ended().self_id == v.self_id && v.ended().room_id == v.room_id
            && v.ended().attempt == v.attempt,
        fresh_client(self_id, room_id).self_id == self_id,
        fresh_client(self_id, room_id).room_id == room_id,
        !fresh_client(self_id, room_id).closed && fresh_client(self_id, room_id).attempt is None,
{
}

/// A message that could be read is handed on as it is, and reading goes on whatever else
/// comes. When the socket ends it is set up again, unless the client was closed.
pub proof fn law_socket_is_read_on(v: ClientView, msg: SignalMessage)
    ensures
        v.on_socket(SocketEvent::Text(Some(msg))) == SocketAction::Deliver(msg),
        v.on_socket(SocketEvent::Text(None)) is Continue,
        v.on_socket(SocketEvent::Other) is Continue,
        v.closed ==> v.on_socket(SocketEvent::Closed) is Stop && v.on_socket(
            SocketEvent::Failed,
        ) is Stop,
        !v.closed ==> v.on_socket(SocketEvent::Closed) is Reconnect && v.on_socket(
            SocketEvent::Failed,
        ) is Reconnect,
{
}

} // verus!
