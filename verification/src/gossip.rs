//! Gossip: messages, the replicated data store (CRDS) and the push/pull
//! protocol's decisions.

pub mod message;
pub mod crds;
pub mod protocol;
