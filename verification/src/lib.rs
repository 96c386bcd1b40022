//! Replicated-state and anti-entropy gossip engine for a simulated
//! distributed-systems node.
//!
//! The crate models a small cluster of nodes, each holding a union-only
//! broadcast value set with a dedup ledger, a grow-only counter keyed by
//! owning node, and a peer overlay topology whose diameter is at most two
//! hops.  Message handlers are pure state transitions: they take the node
//! registry and a decoded message and return the replies and gossip fan-out
//! to send, so that all I/O stays outside the library.

pub mod message;
pub mod errors;
pub mod broadcast;
pub mod gossip;
pub mod gcounter_data;
pub mod node;
pub mod cluster;
pub mod topology;
pub mod gcounter;
pub mod init;
pub mod echo;
pub mod generate;
pub mod lru_cache;
