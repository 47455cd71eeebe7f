//! Peer identities.
//!
//! An identity is the stable identifier a node is known by; the roster
//! of a run binds each identity to its verification key, which only the
//! host program holds. The protocol logic reads nothing of an identity
//! but equality, so it is carried here as a plain integer.

use vstd::prelude::*;

verus! {

/// A peer's stable identifier.
#[derive(Clone, Copy, Debug, PartialEq, Eq, Structural, Hash)]
pub struct Identity {
    pub key: u64,
}

impl Identity {
    pub fn new(key: u64) -> (id: Identity)
        ensures
            id.key == key,
    {
        Identity { key }
    }
}

/// A peer as seen by a node: its numeric id and its identity.
#[derive(Clone, Copy, Debug, PartialEq, Eq, Structural)]
pub struct Peer {
    pub id: u32,
    pub addr: Identity,
}

} // verus!
