//! The standard streams of a program, carried to a peer and back.
pub mod bridge;
pub mod packet;
