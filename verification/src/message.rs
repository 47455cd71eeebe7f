//! Messages and their digests.
//!
//! A message is a role tag plus an opaque payload. The signature of a
//! signed message is carried as plain bytes; producing and checking real
//! signatures is the host program's job, so the dispatcher takes the
//! verdict of that check as an input.

use std::collections::hash_map::DefaultHasher;
use std::hash::Hasher;
use vstd::prelude::*;

verus! {

use vstd::std_specs::hash::DefaultHasherAdditionalSpecFns;

/// The roles a message can play, as an enumeration.
#[derive(Debug, Clone, PartialEq, Eq, Structural)]
pub enum MessageType {
    Text,
    Gossip,
    Echo,
    EchoSubscription,
    Ready,
    ReadySubscription,
    DeliverySubscription,
}

/// A protocol message: a role tag and the broadcast payload.
#[derive(Clone, Debug)]
pub struct Message {
    pub message_type: u32,
    pub content: String,
}

impl Message {
    pub fn new(message_type: u32, content: String) -> (m: Message)
        ensures
            m.message_type == message_type,
            m.content == content,
    {
        Message { message_type, content }
    }

    pub fn get_type(self) -> (t: u32)
        ensures
            t == self.message_type,
    {
        self.message_type
    }

    /// An owned copy, equal to the original.
    pub fn duplicate(&self) -> (m: Message)
        ensures
            m == *self,
    {
        Message { message_type: self.message_type, content: self.content.clone() }
    }
}

/// A message together with the sender's signature over it.
#[derive(Clone, Debug)]
pub struct SignedMessage {
    pub message: Message,
    pub signature: Vec<u8>,
}

impl SignedMessage {
    pub fn new(message: Message, signature: Vec<u8>) -> (s: SignedMessage)
        ensures
            s.message == message,
            s.signature == signature,
    {
        SignedMessage { message, signature }
    }

    pub fn get_type(self) -> (t: u32)
        ensures
            t == self.message.message_type,
    {
        self.message.get_type()
    }

    pub fn get_message(self) -> (m: Message)
        ensures
            m == self.message,
    {
        self.message
    }

    pub fn get_signature(self) -> (sig: Vec<u8>)
        ensures
            sig == self.signature,
    {
        self.signature
    }
}

/// Digest of a byte string under the standard library's default hasher,
/// after one write of the whole string.
pub fn calculate_hash(data: &[u8]) -> (digest: u64)
    ensures
        digest == DefaultHasher::spec_finish(seq![data@]),
{
    let mut state = DefaultHasher::new();
    state.write(data);
    proof {
        assert(state@ =~= seq![data@]);
    }
    state.finish()
}

} // verus!
