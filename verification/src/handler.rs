//! The protocol handler: a state machine over inbound envelopes. The
//! first `init` fixes the node's identity and topology; after that,
//! each inbound envelope mutates the store and yields at most one
//! correlated reply. An envelope that does not fit the current state is
//! ignored as a no-op.

use vstd::prelude::*;
use vstd::string::StringExecFns;
use crate::gossip::{gossip_messages, tick_sample, GossipConfig};
use crate::message::{Body, Message};
use crate::node::{id_found, id_set, Node, TopologyPolicy};
use crate::storage::{copy_values, ledgers_unchanged, Storage};

verus! {

/// The error code carried by the reply to an `init` whose roster does
/// not contain this node's id.
pub const CONFIG_ERROR_CODE: u64 = 14;

/// A node's whole protocol state: its identity once initialized, the
/// message store, and the configuration the scheduler runs under.
pub struct NodeState {
    /// The identity and topology, fixed by the first `init`.
    pub node: Option<Node>,
    /// The message store both the handler and the scheduler mutate.
    pub storage: Storage,
    /// How the neighbour set is drawn at initialization.
    pub policy: TopologyPolicy,
    /// The scheduler's tuning knobs.
    pub config: GossipConfig,
}

impl NodeState {
    /// True once the first `init` has been accepted.
    pub open spec fn initialized(&self) -> bool {
        self.node is Some
    }

    /// This node's id (meaningful once initialized).
    pub open spec fn node_id(&self) -> Seq<char> {
        match self.node {
            Some(n) => n.id_view(),
            None => Seq::empty(),
        }
    }

    /// An uninitialized node with an empty store.
    pub fn new(policy: TopologyPolicy, config: GossipConfig) -> (r: NodeState)
        ensures
            !r.initialized(),
            r.policy == policy,
            r.config == config,
            r.storage.message_set() == Set::<u64>::empty(),
            forall|n: Seq<char>| #[trigger] r.storage.sent_of(n) == Set::<u64>::empty(),
            forall|n: Seq<char>| #[trigger] r.storage.received_of(n) == Set::<u64>::empty(),
            forall|n: Seq<char>| #[trigger] r.storage.retries_of(n) == 0,
    {
        NodeState { node: None, storage: Storage::new(), policy, config }
    }

    /// Applies one inbound envelope, returning the replies it owes
    /// (at most one). The contract pins, per message kind and node
    /// state, the store transition and the exact reply.
    pub fn handle_message(
        &mut self,
        input: Message,
        rng: &mut rand::rngs::StdRng,
    ) -> (replies: Vec<Message>)
        ensures
            final(self).policy == old(self).policy,
            final(self).config == old(self).config,
            old(self).initialized() ==> final(self).node == old(self).node,
            // The first init resolves the identity and topology.
            !old(self).initialized() ==> (input.body matches Body::Init {
                msg_id,
                node_id,
                node_ids,
            } ==> {
                &&& final(self).storage == old(self).storage
                &&& if id_found(node_ids@, node_id@) {
                    &&& final(self).node matches Some(n)
                    &&& final(self).node_id() == node_id@
                    &&& (match final(self).node {
                        Some(n) => n.roster_view() == node_ids@ && n.neighbour_set().subset_of(
                            id_set(node_ids@).remove(node_id@),
                        ) && (old(self).policy == TopologyPolicy::FullMesh
                            ==> n.neighbour_set() == id_set(node_ids@).remove(node_id@)),
                        None => false,
                    })
                    &&& replies@.len() == 1
                    &&& replies@[0].src@ == node_id@
                    &&& replies@[0].dest@ == input.src@
                    &&& replies@[0].body == (Body::InitOk { in_reply_to: msg_id })
                } else {
                    &&& *final(self) == *old(self)
                    &&& replies@.len() == 1
                    &&& replies@[0].src@ == node_id@
                    &&& replies@[0].dest@ == input.src@
                    &&& (replies@[0].body matches Body::Error { in_reply_to, code, text }
                        && in_reply_to == msg_id
                        && code == CONFIG_ERROR_CODE)
                }
            }),
            // A repeated init, or anything but init before it: a no-op.
            (old(self).initialized() && input.body matches Body::Init { .. }) ==> *final(self)
                == *old(self) && replies@.len() == 0,
            (!old(self).initialized() && !(input.body matches Body::Init { .. })) ==> *final(self)
                == *old(self) && replies@.len() == 0,
            // A client broadcast grows the message set by one value.
            old(self).initialized() ==> (input.body matches Body::Broadcast {
                msg_id,
                message,
            } ==> {
                &&& final(self).node == old(self).node
                &&& final(self).storage.message_set()
                    == old(self).storage.message_set().insert(message)
                &&& ledgers_unchanged(old(self).storage, final(self).storage)
                &&& replies@.len() == 1
                &&& replies@[0].src@ == old(self).node_id()
                &&& replies@[0].dest@ == input.src@
                &&& replies@[0].body == (Body::BroadcastOk { msg_id, in_reply_to: msg_id })
            }),
            // Peer gossip merges the values and acknowledges them all.
            old(self).initialized() ==> (input.body matches Body::Gossip { messages } ==> {
                &&& final(self).node == old(self).node
                &&& final(self).storage.message_set()
                    == old(self).storage.message_set().union(messages@.to_set())
                &&& final(self).storage.received_of(input.src@)
                    == old(self).storage.received_of(input.src@).union(messages@.to_set())
                &&& forall|n: Seq<char>| n != input.src@
                    ==> #[trigger] final(self).storage.received_of(n)
                    == old(self).storage.received_of(n)
                &&& forall|n: Seq<char>| #[trigger] final(self).storage.sent_of(n)
                    == old(self).storage.sent_of(n)
                &&& forall|n: Seq<char>| #[trigger] final(self).storage.retries_of(n)
                    == old(self).storage.retries_of(n)
                &&& replies@.len() == 1
                &&& replies@[0].src@ == old(self).node_id()
                &&& replies@[0].dest@ == input.src@
                &&& (replies@[0].body matches Body::GossipOk { messages: ms } && ms@ == messages@)
            }),
            // A gossip acknowledgment marks the named values as sent,
            // as far as this node has accepted them.
            old(self).initialized() ==> (input.body matches Body::GossipOk { messages } ==> {
                &&& final(self).node == old(self).node
                &&& final(self).storage.message_set() == old(self).storage.message_set()
                &&& final(self).storage.sent_of(input.src@)
                    == old(self).storage.sent_of(input.src@).union(
                    messages@.to_set().intersect(old(self).storage.message_set()),
                )
                &&& forall|n: Seq<char>| n != input.src@
                    ==> #[trigger] final(self).storage.sent_of(n)
                    == old(self).storage.sent_of(n)
                &&& forall|n: Seq<char>| #[trigger] final(self).storage.received_of(n)
                    == old(self).storage.received_of(n)
                &&& forall|n: Seq<char>| #[trigger] final(self).storage.retries_of(n)
                    == old(self).storage.retries_of(n)
                &&& replies@.len() == 0
            }),
            // A read returns a duplicate-free snapshot of the set.
            old(self).initialized() ==> (input.body matches Body::Read { msg_id } ==> {
                &&& *final(self) == *old(self)
                &&& replies@.len() == 1
                &&& replies@[0].src@ == old(self).node_id()
                &&& replies@[0].dest@ == input.src@
                &&& (replies@[0].body matches Body::ReadOk { msg_id: m, in_reply_to, messages }
                    && m == msg_id
                    && in_reply_to == msg_id
                    && messages@.to_set() == old(self).storage.message_set()
                    && messages@.no_duplicates())
            }),
            // Topology is fixed at init; the request is acknowledged
            // and otherwise ignored.
            old(self).initialized() ==> (input.body matches Body::Topology { msg_id, .. } ==> {
                &&& *final(self) == *old(self)
                &&& replies@.len() == 1
                &&& replies@[0].src@ == old(self).node_id()
                &&& replies@[0].dest@ == input.src@
                &&& replies@[0].body == (Body::TopologyOk { msg_id, in_reply_to: msg_id })
            }),
            // A peer-reported error and stray replies are no-ops.
            (old(self).initialized() && input.body matches Body::Error { .. }) ==> *final(self)
                == *old(self) && replies@.len() == 0,
            (old(self).initialized() && (input.body matches Body::InitOk { .. }
                || input.body matches Body::BroadcastOk { .. }
                || input.body matches Body::ReadOk { .. }
                || input.body matches Body::TopologyOk { .. })) ==> *final(self) == *old(self)
                && replies@.len() == 0,
    {
        let mut replies: Vec<Message> = Vec::new();
        let in_src = input.src;
        match input.body {
            Body::Init { msg_id, node_id, node_ids } => {
                if self.node.is_none() {
                    let reply_src = node_id.clone();
                    match Node::init(node_id, node_ids, &self.policy, rng) {
                        Ok(node) => {
                            self.node = Some(node);
                            replies.push(
                                Message {
                                    src: reply_src,
                                    dest: in_src,
                                    body: Body::InitOk { in_reply_to: msg_id },
                                },
                            );
                        },
                        Err(_) => {
                            replies.push(
                                Message {
                                    src: reply_src,
                                    dest: in_src,
                                    body: Body::Error {
                                        in_reply_to: msg_id,
                                        code: CONFIG_ERROR_CODE,
                                        text: String::from_str("node id is not in the roster"),
                                    },
                                },
                            );
                        },
                    }
                }
            },
            Body::Broadcast { msg_id, message } => {
                match &self.node {
                    Some(node) => {
                        let id = node.get_id();
                        self.storage.add_message(message);
                        replies.push(
                            Message {
                                src: id,
                                dest: in_src,
                                body: Body::BroadcastOk { msg_id, in_reply_to: msg_id },
                            },
                        );
                    },
                    None => {},
                }
            },
            Body::Gossip { messages } => {
                match &self.node {
                    Some(node) => {
                        let id = node.get_id();
                        let merged = copy_values(&messages);
                        self.storage.add_messages(merged, in_src.clone());
                        replies.push(
                            Message {
                                src: id,
                                dest: in_src,
                                body: Body::GossipOk { messages },
                            },
                        );
                    },
                    None => {},
                }
            },
            Body::GossipOk { messages } => {
                match &self.node {
                    Some(_) => {
                        self.storage.add_to_sent_messages(messages, in_src);
                    },
                    None => {},
                }
            },
            Body::Read { msg_id } => {
                match &self.node {
                    Some(node) => {
                        let id = node.get_id();
                        let snapshot = self.storage.get_messages();
                        replies.push(
                            Message {
                                src: id,
                                dest: in_src,
                                body: Body::ReadOk {
                                    msg_id,
                                    in_reply_to: msg_id,
                                    messages: snapshot,
                                },
                            },
                        );
                    },
                    None => {},
                }
            },
            Body::Topology { msg_id, .. } => {
                match &self.node {
                    Some(node) => {
                        let id = node.get_id();
                        replies.push(
                            Message {
                                src: id,
                                dest: in_src,
                                body: Body::TopologyOk { msg_id, in_reply_to: msg_id },
                            },
                        );
                    },
                    None => {},
                }
            },
            Body::Error { .. } => {},
            Body::InitOk { .. } => {},
            Body::BroadcastOk { .. } => {},
            Body::ReadOk { .. } => {},
            Body::TopologyOk { .. } => {},
        }
        replies
    }

    /// One scheduler tick over this node's state: a no-op before
    /// initialization, otherwise exactly `gossip_messages`.
    pub fn gossip_tick(&mut self, rng: &mut rand::rngs::StdRng) -> (sends: Vec<Message>)
        ensures
            final(self).node == old(self).node,
            final(self).policy == old(self).policy,
            final(self).config == old(self).config,
            !old(self).initialized() ==> *final(self) == *old(self) && sends@.len() == 0,
            // An initialized tick worked through a random sample of the
            // drawn fan-out: every sampled neighbour was sent to or had
            // its idle counter stepped, every other left untouched.
            old(self).initialized() ==> (match old(self).node {
                Some(node) => exists|chosen: Set<Seq<char>>| tick_sample(
                    old(self).storage,
                    final(self).storage,
                    sends@,
                    old(self).config,
                    node,
                    chosen,
                ),
                None => false,
            }),
            final(self).storage.message_set() == old(self).storage.message_set(),
            forall|n: Seq<char>| #[trigger] final(self).storage.received_of(n)
                == old(self).storage.received_of(n),
            forall|n: Seq<char>| old(self).storage.sent_of(n).subset_of(
                #[trigger] final(self).storage.sent_of(n),
            ),
            forall|n: Seq<char>| #[trigger] final(self).storage.sent_of(n)
                == old(self).storage.sent_of(n)
                || final(self).storage.sent_of(n)
                == old(self).storage.sent_of(n).union(old(self).storage.outstanding_for(n)),
            forall|k: int, l: int| 0 <= k < l < sends@.len()
                ==> (#[trigger] sends@[k]).dest@ != (#[trigger] sends@[l]).dest@,
            forall|k: int| 0 <= k < sends@.len() ==> {
                let m = #[trigger] sends@[k];
                &&& m.src@ == old(self).node_id()
                &&& (match old(self).node {
                    Some(node) => node.neighbour_set().contains(m.dest@),
                    None => false,
                })
                &&& (m.body matches Body::Gossip { messages }
                    && messages@.to_set() == old(self).storage.outstanding_for(m.dest@)
                    && messages@.len() > 0
                    && messages@.no_duplicates())
                &&& final(self).storage.sent_of(m.dest@) == old(self).storage.sent_of(
                    m.dest@,
                ).union(old(self).storage.outstanding_for(m.dest@))
                &&& final(self).storage.outstanding_for(m.dest@) == Set::<u64>::empty()
            },
    {
        match &self.node {
            Some(node) => {
                let sends = gossip_messages(node, &mut self.storage, &self.config, rng);
                proof {
                    let c = choose|chosen: Set<Seq<char>>|
                        tick_sample(
                            old(self).storage,
                            self.storage,
                            sends@,
                            old(self).config,
                            *node,
                            chosen,
                        );
                    assert(tick_sample(
                        old(self).storage,
                        self.storage,
                        sends@,
                        old(self).config,
                        *node,
                        c,
                    ));
                    assert(old(self).node == Some(*node));
                }
                sends
            },
            None => Vec::new(),
        }
    }
}

} // verus!
