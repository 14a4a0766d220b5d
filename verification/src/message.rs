//! The envelopes of the cluster protocol.
//!
//! One envelope travels per line of the record-oriented bus. A request
//! body carries a `msg_id`; the matching reply carries `in_reply_to`
//! equal to that id.

use vstd::prelude::*;

verus! {

/// One envelope of the line-delimited protocol, already decoded from
/// its wire form.
pub struct Message {
    pub src: String,
    pub dest: String,
    pub body: Body,
}

/// The tagged union of protocol bodies, one variant per `type` tag.
pub enum Body {
    Error { in_reply_to: u64, code: u64, text: String },
    Init { msg_id: u64, node_id: String, node_ids: Vec<String> },
    InitOk { in_reply_to: u64 },
    Broadcast { msg_id: u64, message: u64 },
    BroadcastOk { msg_id: u64, in_reply_to: u64 },
    Read { msg_id: u64 },
    ReadOk { msg_id: u64, in_reply_to: u64, messages: Vec<u64> },
    Topology { msg_id: u64, topology: Vec<(String, Vec<String>)> },
    TopologyOk { msg_id: u64, in_reply_to: u64 },
    Gossip { messages: Vec<u64> },
    GossipOk { messages: Vec<u64> },
}

} // verus!
