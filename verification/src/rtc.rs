//! Peers, their messages, and how messages find their handlers.
pub mod manager;
pub mod remote_peer;
pub mod router;
pub mod tunnel_message;
pub mod wire_bytes;

pub use manager::{ForwardRequestEvent, ForwardResponseEvent, RTCManager};
pub use tunnel_message::TunnelMessage;
