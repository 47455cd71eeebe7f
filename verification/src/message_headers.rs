//! Role headers: domain separators for signatures.
//!
//! Every signature is computed over a role header together with the
//! message, so a signature produced for one role can never be replayed
//! as another role. The host program binds each header to its wire
//! statement type; the dispatcher here fixes which header belongs to
//! which role tag.

use crate::message::Message;
use vstd::prelude::*;

verus! {

/// The domain separator a signature is computed under.
#[derive(Debug, Clone, Copy, PartialEq, Eq, Structural)]
pub enum Header {
    Gossip,
    Echo,
    Ready,
    GossipSubscription,
    EchoSubscription,
    ReadySubscription,
    InitGossip,
    InitEcho,
    InitReady,
}

/// A Murmur diffusion payload.
pub struct Gossip(pub Message);

/// A Sieve echo reply.
pub struct Echo(pub Message);

/// A Contagion ready reply.
pub struct Ready(pub Message);

/// A request to join a node's gossip fan-out.
pub struct GossipSubscription(pub Message);

/// A request to receive a node's echoes.
pub struct EchoSubscription(pub Message);

/// A request to receive a node's readies.
pub struct ReadySubscription(pub Message);

/// The local trigger to send gossip subscriptions.
pub struct InitGossip(pub Message);

/// The local trigger to send echo subscriptions.
pub struct InitEcho(pub Message);

/// The local trigger to send ready subscriptions.
pub struct InitReady(pub Message);

/// The header a message with the given role tag is signed and
/// verified under. The start-broadcast trigger signs under the
/// Gossip header; tags past the trigger carry no header.
pub open spec fn spec_header_for_tag(tag: u32) -> Option<Header> {
    if tag == 0 {
        Some(Header::Gossip)
    } else if tag == 1 {
        Some(Header::Echo)
    } else if tag == 2 {
        Some(Header::Ready)
    } else if tag == 3 {
        Some(Header::GossipSubscription)
    } else if tag == 4 {
        Some(Header::EchoSubscription)
    } else if tag == 5 {
        Some(Header::ReadySubscription)
    } else if tag == 6 {
        Some(Header::InitGossip)
    } else if tag == 7 {
        Some(Header::InitEcho)
    } else if tag == 8 {
        Some(Header::InitReady)
    } else if tag == 9 {
        Some(Header::Gossip)
    } else {
        None
    }
}

/// Executable form of the tag-to-header table.
pub fn header_for_tag(tag: u32) -> (h: Option<Header>)
    ensures
        h == spec_header_for_tag(tag),
{
    match tag {
        0 => Some(Header::Gossip),
        1 => Some(Header::Echo),
        2 => Some(Header::Ready),
        3 => Some(Header::GossipSubscription),
        4 => Some(Header::EchoSubscription),
        5 => Some(Header::ReadySubscription),
        6 => Some(Header::InitGossip),
        7 => Some(Header::InitEcho),
        8 => Some(Header::InitReady),
        9 => Some(Header::Gossip),
        _ => None,
    }
}

} // verus!
