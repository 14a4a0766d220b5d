//! A node of a gossip-based broadcast cluster.
//!
//! The node keeps a grow-only set of client-submitted values and
//! disseminates it to its neighbours by periodic randomized gossip,
//! tracking per-neighbour delivery state so that a value is never
//! re-sent to a neighbour already known to have it.

pub mod codec;
pub mod gossip;
pub mod handler;
pub mod laws;
pub mod message;
pub mod node;
pub mod parse;
pub mod rng;
pub mod storage;
