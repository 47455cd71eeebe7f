//! Probabilistic Byzantine-fault-tolerant broadcast.
//!
//! A node composes three sub-protocols: Murmur (gossip diffusion),
//! Sieve (echo sampling, consistent delivery) and Contagion (ready
//! sampling, reliable delivery). This crate holds the per-node state
//! machine: peer sampling with duplicate accounting, weighted
//! occurrence counting, threshold checks and the message dispatcher.
//! Network transport, signing keys and the audit file are external
//! collaborators; every handler here takes plain values and returns
//! the messages to send, so a host program performs the I/O.

pub mod message;
pub mod message_headers;
pub mod peer;
pub mod contagion;
pub mod murmur;
pub mod node;
pub mod sieve;
pub mod table;
pub mod utils;
