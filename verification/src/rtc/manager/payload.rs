//! What peers send each other, and what is done with it.
use vstd::prelude::*;

use crate::model::copy_bytes;
use crate::text;
use crate::text::texts;

verus! {

/// A peer's proposal to set up a forward: it wants to reach `remote_addr` on
/// this node under `target`.
#[derive(Debug, PartialEq, Eq)]
pub struct ForwardRequestEvent {
    pub req_id: String,
    pub proto: String,
    pub remote_addr: String,
    pub target: String,
}

/// The model of `ForwardRequestEvent`.
pub struct ForwardRequestView {
    pub req_id: Seq<char>,
    pub proto: Seq<char>,
    pub remote_addr: Seq<char>,
    pub target: Seq<char>,
}

impl View for ForwardRequestEvent {
    type V = ForwardRequestView;

    open spec fn view(&self) -> ForwardRequestView {
        ForwardRequestView {
            req_id: self.req_id@,
            proto: self.proto@,
            remote_addr: self.remote_addr@,
            target: self.target@,
        }
    }
}

impl Clone for ForwardRequestEvent {
    fn clone(&self) -> (r: Self)
        ensures
            r@ == self@,
    {
        ForwardRequestEvent {
            req_id: text::copy(self.req_id.as_str()),
            proto: text::copy(self.proto.as_str()),
            remote_addr: text::copy(self.remote_addr.as_str()),
            target: text::copy(self.target.as_str()),
        }
    }
}

/// A peer's answer to a proposal.
#[derive(Debug, PartialEq, Eq)]
pub struct ForwardResponseEvent {
    pub req_id: String,
    pub target: String,
    pub accepted: bool,
}

/// The model of `ForwardResponseEvent`.
pub struct ForwardResponseView {
    pub req_id: Seq<char>,
    pub target: Seq<char>,
    pub accepted: bool,
}

impl View for ForwardResponseEvent {
    type V = ForwardResponseView;

    open spec fn view(&self) -> ForwardResponseView {
        ForwardResponseView {
            req_id: self.req_id@,
            target: self.target@,
            accepted: self.accepted,
        }
    }
}

impl Clone for ForwardResponseEvent {
    fn clone(&self) -> (r: Self)
        ensures
            r@ == self@,
    {
        ForwardResponseEvent {
            req_id: text::copy(self.req_id.as_str()),
            target: text::copy(self.target.as_str()),
            accepted: self.accepted,
        }
    }
}

/// A message between peers.
#[derive(Debug, PartialEq, Eq)]
pub enum P2pPayload {
    Role { role: String },
    Capabilities { forwards: Vec<String> },
    Chat { text: String },
    Tunnel { data: Vec<u8> },
    Stdio { data: Vec<u8> },
    ForwardRequest { req_id: String, proto: String, remote_addr: String, target: String },
    ForwardResponse { req_id: String, target: String, accepted: bool },
}

/// The model of `P2pPayload`.
pub enum PayloadView {
    Role { role: Seq<char> },
    Capabilities { forwards: Seq<Seq<char>> },
    Chat { text: Seq<char> },
    Tunnel { data: Seq<u8> },
    Stdio { data: Seq<u8> },
    ForwardRequest(ForwardRequestView),
    ForwardResponse(ForwardResponseView),
}

impl View for P2pPayload {
    type V = PayloadView;

    open spec fn view(&self) -> PayloadView {
        match self {
            P2pPayload::Role { role } => PayloadView::Role { role: role@ },
            P2pPayload::Capabilities { forwards } => PayloadView::Capabilities {
                forwards: texts(forwards@),
            },
            P2pPayload::Chat { text } => PayloadView::Chat { text: text@ },
            P2pPayload::Tunnel { data } => PayloadView::Tunnel { data: data@ },
            P2pPayload::Stdio { data } => PayloadView::Stdio { data: data@ },
            P2pPayload::ForwardRequest { req_id, proto, remote_addr, target } => {
                PayloadView::ForwardRequest(
                    ForwardRequestView {
                        req_id: req_id@,
                        proto: proto@,
                        remote_addr: remote_addr@,
                        target: target@,
                    },
                )
            },
            P2pPayload::ForwardResponse { req_id, target, accepted } => {
                PayloadView::ForwardResponse(
                    ForwardResponseView { req_id: req_id@, target: target@, accepted: *accepted },
                )
            },
        }
    }
}

/// A message to a peer, or to all of them where no peer is named.
#[derive(Debug, PartialEq, Eq)]
pub struct Outgoing {
    pub peer_id: String,
    pub payload: P2pPayload,
}

/// The model of `Outgoing`.
pub struct OutgoingView {
    pub peer_id: Seq<char>,
    pub payload: PayloadView,
}

impl View for Outgoing {
    type V = OutgoingView;

    open spec fn view(&self) -> OutgoingView {
        OutgoingView { peer_id: self.peer_id@, payload: self.payload@ }
    }
}

/// Something that is to be done because of an event of the network: the handlers
/// of a kind are called, or a message is sent.
#[derive(Debug, PartialEq, Eq)]
pub enum Delivery {
    PeerConnected(String),
    TunnelOpen(String),
    StdioOpen(String),
    TunnelClose(String),
    StdioClose(String),
    PeerLeave { peer_id: String, epoch: u64 },
    Chat { peer_id: String, text: String },
    Tunnel { handler: u64, peer_id: String, data: Vec<u8> },
    Stdio { peer_id: String, data: Vec<u8> },
    ForwardRequest { peer_id: String, request: ForwardRequestEvent },
    ForwardResponse { peer_id: String, response: ForwardResponseEvent },
    Send(Outgoing),
}

/// The model of `Delivery`.
pub enum DeliveryView {
    PeerConnected(Seq<char>),
    TunnelOpen(Seq<char>),
    StdioOpen(Seq<char>),
    TunnelClose(Seq<char>),
    StdioClose(Seq<char>),
    PeerLeave { peer_id: Seq<char>, epoch: u64 },
    Chat { peer_id: Seq<char>, text: Seq<char> },
    Tunnel { handler: u64, peer_id: Seq<char>, data: Seq<u8> },
    Stdio { peer_id: Seq<char>, data: Seq<u8> },
    ForwardRequest { peer_id: Seq<char>, request: ForwardRequestView },
    ForwardResponse { peer_id: Seq<char>, response: ForwardResponseView },
    Send(OutgoingView),
}

impl View for Delivery {
    type V = DeliveryView;

    open spec fn view(&self) -> DeliveryView {
        match self {
            Delivery::PeerConnected(peer_id) => DeliveryView::PeerConnected(peer_id@),
            Delivery::TunnelOpen(peer_id) => DeliveryView::TunnelOpen(peer_id@),
            Delivery::StdioOpen(peer_id) => DeliveryView::StdioOpen(peer_id@),
            Delivery::TunnelClose(peer_id) => DeliveryView::TunnelClose(peer_id@),
            Delivery::StdioClose(peer_id) => DeliveryView::StdioClose(peer_id@),
            Delivery::PeerLeave { peer_id, epoch } => DeliveryView::PeerLeave {
                peer_id: peer_id@,
                epoch: *epoch,
            },
            Delivery::Chat { peer_id, text } => DeliveryView::Chat {
                peer_id: peer_id@,
                text: text@,
            },
            Delivery::Tunnel { handler, peer_id, data } => DeliveryView::Tunnel {
                handler: *handler,
                peer_id: peer_id@,
                data: data@,
            },
            Delivery::Stdio { peer_id, data } => DeliveryView::Stdio {
                peer_id: peer_id@,
                data: data@,
            },
            Delivery::ForwardRequest { peer_id, request } => DeliveryView::ForwardRequest {
                peer_id: peer_id@,
                request: request@,
            },
            Delivery::ForwardResponse { peer_id, response } => DeliveryView::ForwardResponse {
                peer_id: peer_id@,
                response: response@,
            },
            Delivery::Send(outgoing) => DeliveryView::Send(outgoing@),
        }
    }
}

/// A tunnel message for one handler.
pub fn tunnel_delivery(handler: u64, peer_id: &str, data: &Vec<u8>) -> (r: Delivery)
    ensures
        r@ == (DeliveryView::Tunnel { handler, peer_id: peer_id@, data: data@ }),
{
    Delivery::Tunnel {
        handler,
        peer_id: text::copy(peer_id),
        data: copy_bytes(data.as_slice()),
    }
}

} // verus!
