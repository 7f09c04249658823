//! Core logic of a peer-to-peer tunnel: forward bookkeeping, connection
//! authorization, message routing and the state machines behind the bridges.
pub mod auth;
pub mod calendar;
pub mod chat;
pub mod control_shell;
pub mod controller;
pub mod forward_args;
pub mod forward_runtime;
pub mod forward_store;
pub mod identity;
pub mod model;
pub mod negotiation;
pub mod number;
pub mod proxy;
pub mod rtc;
pub mod session;
pub mod signal;
pub mod startup;
pub mod stdio;
pub mod tcp;
pub mod text;
pub mod text_map;
pub mod text_set;
pub mod tui;
pub mod udp;
pub mod web;
