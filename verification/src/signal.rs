//! Messages by which peers find each other, and the connection that carries
//! them.
pub mod client;
pub mod message;

pub use client::SignalClient;
pub use message::SignalMessage;
