//! Messages between the two ends of a tunnel.
use vstd::prelude::*;

use crate::model::{copy_bytes, opt_view};
use crate::text;

verus! {

/// A message about one connection of a tunnel.
#[derive(Debug, PartialEq, Eq)]
pub struct TunnelMessage {
    pub msg_type: String,
    pub conn_id: String,
    pub target: String,
    pub payload: Option<Vec<u8>>,
    /// The number of a `data` message within its connection, starting at one.
    /// The receiver finds gaps and duplicates by it. Other messages, and peers
    /// that do not number their messages, leave it out.
    pub seq: Option<u64>,
}

/// The model of `TunnelMessage`.
pub struct TunnelMessageView {
    pub msg_type: Seq<char>,
    pub conn_id: Seq<char>,
    pub target: Seq<char>,
    pub payload: Option<Seq<u8>>,
    pub seq: Option<u64>,
}

impl View for TunnelMessage {
    type V = TunnelMessageView;

    open spec fn view(&self) -> TunnelMessageView {
        TunnelMessageView {
            msg_type: self.msg_type@,
            conn_id: self.conn_id@,
            target: self.target@,
            payload: opt_view(self.payload),
            seq: self.seq,
        }
    }
}

impl Clone for TunnelMessage {
    fn clone(&self) -> (r: Self)
        ensures
            r@ == self@,
    {
        TunnelMessage {
            msg_type: text::copy(self.msg_type.as_str()),
            conn_id: text::copy(self.conn_id.as_str()),
            target: text::copy(self.target.as_str()),
            payload: match &self.payload {
                Some(bytes) => Some(copy_bytes(bytes.as_slice())),
                None => None,
            },
            seq: self.seq,
        }
    }
}

} // verus!
