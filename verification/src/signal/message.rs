//! Signaling messages.
use vstd::prelude::*;

use crate::model::opt_view;
use crate::text;

verus! {

/// A signaling message.
#[derive(Debug, PartialEq, Eq)]
pub struct SignalMessage {
    pub msg_type: String,
    pub data: Option<String>,
    pub sender_id: String,
    pub receiver_id: Option<String>,
    pub room_id: Option<String>,
    pub role: Option<String>,
    pub msg_id: Option<String>,
    pub hops: Option<i32>,
}

/// The model of `SignalMessage`.
pub struct SignalMessageView {
    pub msg_type: Seq<char>,
    pub data: Option<Seq<char>>,
    pub sender_id: Seq<char>,
    pub receiver_id: Option<Seq<char>>,
    pub room_id: Option<Seq<char>>,
    pub role: Option<Seq<char>>,
    pub msg_id: Option<Seq<char>>,
    pub hops: Option<i32>,
}

impl View for SignalMessage {
    type V = SignalMessageView;

    open spec fn view(&self) -> SignalMessageView {
        SignalMessageView {
            msg_type: self.msg_type@,
            data: opt_view(self.data),
            sender_id: self.sender_id@,
            receiver_id: opt_view(self.receiver_id),
            room_id: opt_view(self.room_id),
            role: opt_view(self.role),
            msg_id: opt_view(self.msg_id),
            hops: self.hops,
        }
    }
}

fn copy_opt(s: &Option<String>) -> (r: Option<String>)
    ensures
        opt_view(r) == opt_view(*s),
{
    match s {
        Some(s) => Some(text::copy(s.as_str())),
        None => None,
    }
}

impl Clone for SignalMessage {
    fn clone(&self) -> (r: Self)
        ensures
            r@ == self@,
    {
        SignalMessage {
            msg_type: text::copy(self.msg_type.as_str()),
            data: copy_opt(&self.data),
            sender_id: text::copy(self.sender_id.as_str()),
            receiver_id: copy_opt(&self.receiver_id),
            room_id: copy_opt(&self.room_id),
            role: copy_opt(&self.role),
            msg_id: copy_opt(&self.msg_id),
            hops: self.hops,
        }
    }
}

/// A message that says nothing.
pub open spec fn blank_message() -> SignalMessageView {
    SignalMessageView {
        msg_type: Seq::empty(),
        data: None,
        sender_id: Seq::empty(),
        receiver_id: None,
        room_id: None,
        role: None,
        msg_id: None,
        hops: None,
    }
}

impl Default for SignalMessage {
    fn default() -> (r: Self)
        ensures
            r@ == blank_message(),
    {
        let r = SignalMessage {
            msg_type: String::new(),
            data: None,
            sender_id: String::new(),
            receiver_id: None,
            room_id: None,
            role: None,
            msg_id: None,
            hops: None,
        };
        assert(r@.msg_type =~= Seq::empty());
        assert(r@.sender_id =~= Seq::empty());
        r
    }
}

/// The request to be told of the peers in a room.
pub open spec fn room_request(self_id: Seq<char>, room_id: Seq<char>) -> SignalMessageView {
    SignalMessageView {
        msg_type: "Request"@,
        sender_id: self_id,
        room_id: Some(room_id),
        ..blank_message()
    }
}

/// Asks to be told of the peers in a room.
pub fn request_room(self_id: &str, room_id: &str) -> (r: SignalMessage)
    ensures
        r@ == room_request(self_id@, room_id@),
{
    SignalMessage {
        msg_type: text::copy("Request"),
        sender_id: text::copy(self_id),
        room_id: Some(text::copy(room_id)),
        ..SignalMessage::default()
    }
}

/// A message of a kind, with data, to one peer in a room.
pub open spec fn peer_message(
    msg_type: Seq<char>,
    data: Seq<char>,
    self_id: Seq<char>,
    peer_id: Seq<char>,
    room_id: Seq<char>,
    role: Option<Seq<char>>,
) -> SignalMessageView {
    SignalMessageView {
        msg_type,
        data: Some(data),
        sender_id: self_id,
        receiver_id: Some(peer_id),
        room_id: Some(room_id),
        role,
        ..blank_message()
    }
}

/// Offers a connection to a peer.
pub fn offer(data: &str, self_id: &str, peer_id: &str, room_id: &str, role: &str) -> (r:
    SignalMessage)
    ensures
        r@ == peer_message("offer"@, data@, self_id@, peer_id@, room_id@, Some(role@)),
{
    SignalMessage {
        msg_type: text::copy("offer"),
        data: Some(text::copy(data)),
        sender_id: text::copy(self_id),
        receiver_id: Some(text::copy(peer_id)),
        room_id: Some(text::copy(room_id)),
        role: Some(text::copy(role)),
        msg_id: None,
        hops: None,
    }
}

/// Answers the offer of a peer.
pub fn answer(data: &str, self_id: &str, peer_id: &str, room_id: &str, role: &str) -> (r:
    SignalMessage)
    ensures
        r@ == peer_message("answer"@, data@, self_id@, peer_id@, room_id@, Some(role@)),
{
    SignalMessage {
        msg_type: text::copy("answer"),
        data: Some(text::copy(data)),
        sender_id: text::copy(self_id),
        receiver_id: Some(text::copy(peer_id)),
        room_id: Some(text::copy(room_id)),
        role: Some(text::copy(role)),
        msg_id: None,
        hops: None,
    }
}

/// Tells a peer of an address at which this node may be reached.
pub fn candidate(data: &str, self_id: &str, peer_id: &str, room_id: &str) -> (r: SignalMessage)
    ensures
        r@ == peer_message("candidate"@, data@, self_id@, peer_id@, room_id@, None),
{
    SignalMessage {
        msg_type: text::copy("candidate"),
        data: Some(text::copy(data)),
        sender_id: text::copy(self_id),
        receiver_id: Some(text::copy(peer_id)),
        room_id: Some(text::copy(room_id)),
        role: None,
        msg_id: None,
        hops: None,
    }
}

/// A signaling message says who sends it, to whom, in which room and what; a request for a
/// room goes to no peer in particular.
pub proof fn law_messages_name_both_ends(
    msg_type: Seq<char>,
    data: Seq<char>,
    self_id: Seq<char>,
    peer_id: Seq<char>,
    room_id: Seq<char>,
    role: Option<Seq<char>>,
)
    ensures
        ({
            let m = peer_message(msg_type, data, self_id, peer_id, room_id, role);
            &&& m.msg_type == msg_type && m.data == Some(data) && m.sender_id == self_id
            &&& m.receiver_id == Some(peer_id) && m.room_id == Some(room_id) && m.role == role
            &&& m.msg_id is None && m.hops is None
        }),
        ({
            let m = room_request(self_id, room_id);
            &&& m.msg_type == "Request"@ && m.sender_id == self_id && m.room_id == Some(room_id)
            &&& m.receiver_id is None && m.data is None && m.role is None && m.msg_id is None
                && m.hops is None
        }),
        blank_message().msg_type.len() == 0 && blank_message().sender_id.len() == 0,
{
}

} // verus!
