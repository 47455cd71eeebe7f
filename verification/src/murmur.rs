//! Murmur: probabilistic broadcast by gossip.
//!
//! Each node draws a random fan-out and subscribes to it. The first
//! gossip message a node sees is delivered exactly once: it is locked
//! in, diffused to the fan-out and handed down to Sieve. A later gossip
//! changes nothing.

use crate::message::Message;
use crate::node::{
    copy_identities, same_config, same_samples, same_subscribers, Node, Outbound,
};
use crate::peer::Identity;
use crate::sieve;
use crate::utils::random_index;
use vstd::prelude::*;

verus! {

/// Draw the gossip fan-out: `g` peers uniformly with replacement.
pub fn init(g: usize, system: &Vec<Identity>) -> (peers: Vec<Identity>)
    requires
        system@.len() >= 1,
    ensures
        peers@.len() == g,
        forall|i: int| 0 <= i < peers@.len() ==> system@.contains(#[trigger] peers@[i]),
{
    let mut peers: Vec<Identity> = Vec::new();
    for t in 0..g
        invariant
            system@.len() >= 1,
            peers@.len() == t,
            forall|i: int| 0 <= i < peers@.len() ==> system@.contains(#[trigger] peers@[i]),
    {
        let i = random_index(system.len());
        peers.push(system[i]);
    }
    peers
}

/// The gossip subscription round: one GossipSubscription to every
/// gossip peer.
pub fn gossip_subscribe(gossip_peers: &Vec<Identity>) -> (out: Outbound)
    ensures
        out.targets@ == gossip_peers@,
        out.message.message_type == 3,
        out.message.content@ == "GossipSubscription"@,
{
    Outbound {
        targets: copy_identities(gossip_peers),
        message: Message::new(3, "GossipSubscription".to_owned()),
    }
}

/// Answering a GossipSubscription: the delivered gossip, if any, goes
/// to the subscriber, and the subscriber joins the fan-out.
pub open spec fn gossip_subscription_rel(
    pre: Node,
    post: Node,
    from: Identity,
    out: Seq<Outbound>,
) -> bool {
    &&& same_config(pre, post)
    &&& same_samples(pre, post)
    &&& post.gossip_peers@ == pre.gossip_peers@.push(from)
    &&& post.echo_subscribers == pre.echo_subscribers
    &&& post.ready_subscribers == pre.ready_subscribers
    &&& post.echo == pre.echo
    &&& post.delivered_gossip == pre.delivered_gossip
    &&& post.delivered_echo == pre.delivered_echo
    &&& post.ready_messages == pre.ready_messages
    &&& post.delivered == pre.delivered
    &&& match pre.delivered_gossip {
        Some(m) => out.len() == 1 && out[0].targets@ == seq![from] && out[0].message == m,
        None => out.len() == 0,
    }
}

/// Deliver a GossipSubscription.
pub fn gossip_subscription(node: &mut Node, from: Identity) -> (out: Vec<Outbound>)
    requires
        old(node).wf(),
    ensures
        final(node).wf(),
        gossip_subscription_rel(*old(node), *final(node), from, out@),
{
    let mut out: Vec<Outbound> = Vec::new();
    match &node.delivered_gossip {
        Some(m) => {
            let mut tgt: Vec<Identity> = Vec::new();
            tgt.push(from);
            proof {
                assert(tgt@ =~= seq![from]);
            }
            out.push(Outbound { targets: tgt, message: m.duplicate() });
        },
        None => {},
    }
    node.gossip_peers.push(from);
    out
}

/// The exactly-once gossip delivery: the first message is locked in,
/// diffused to the fan-out and handed down to Sieve; any later one is
/// ignored.
pub open spec fn dispatch_rel(pre: Node, post: Node, msg: Message, out: Seq<Outbound>) -> bool {
    &&& same_config(pre, post)
    &&& same_samples(pre, post)
    &&& same_subscribers(pre, post)
    &&& post.delivered_echo == pre.delivered_echo
    &&& post.ready_messages == pre.ready_messages
    &&& post.delivered == pre.delivered
    &&& if pre.delivered_gossip is Some {
        &&& post.delivered_gossip == pre.delivered_gossip
        &&& post.echo == pre.echo
        &&& out.len() == 0
    } else {
        &&& post.delivered_gossip == Some(msg)
        &&& post.echo == Some(msg)
        &&& out.len() == 2
        &&& out[0].targets@ == pre.gossip_peers@
        &&& out[0].message == msg
        &&& out[1].targets@ == pre.echo_subscribers@
        &&& out[1].message.message_type == 1
        &&& out[1].message.content@ == msg.content@
    }
}

/// Dispatch a gossip message.
pub fn dispatch(node: &mut Node, signed_msg: Message) -> (out: Vec<Outbound>)
    requires
        old(node).wf(),
    ensures
        final(node).wf(),
        dispatch_rel(*old(node), *final(node), signed_msg, out@),
{
    if node.delivered_gossip.is_none() {
        node.delivered_gossip = Some(signed_msg.duplicate());
        let diffusion = Outbound {
            targets: copy_identities(&node.gossip_peers),
            message: signed_msg.duplicate(),
        };
        let echo_out = sieve::deliver(node, signed_msg);
        let mut out: Vec<Outbound> = Vec::new();
        out.push(diffusion);
        out.push(echo_out);
        out
    } else {
        Vec::new()
    }
}

/// Deliver a verified Gossip message.
pub fn deliver_gossip(node: &mut Node, signed_msg: Message) -> (out: Vec<Outbound>)
    requires
        old(node).wf(),
    ensures
        final(node).wf(),
        dispatch_rel(*old(node), *final(node), signed_msg, out@),
{
    dispatch(node, signed_msg)
}

} // verus!
