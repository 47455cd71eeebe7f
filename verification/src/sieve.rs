//! Sieve: probabilistic consistent broadcast.
//!
//! A sample of peers is subscribed to for echoes. When Murmur delivers,
//! the node locks in the message it echoes and serves it to its echo
//! subscribers. Each sampled peer's first echo fills its slot; when the
//! weighted count of slots matching the locked echo reaches the echo
//! threshold, the node delivers the content down to Contagion, once.

use crate::contagion;
use crate::message::Message;
use crate::node::{
    copy_identities, same_config, same_samples, same_subscribers, Node, Outbound,
};
use crate::peer::Identity;
use crate::table::{tbl_contains, tbl_find, tbl_keys};
use crate::utils::{
    lemma_sieve_weight_le_total, sample_sieve, sieve_sample_of, sieve_weight,
};
use vstd::prelude::*;

verus! {

/// Draw the echo sample against the roster.
pub fn init(e: usize, system: &Vec<Identity>) -> (r: (
    Vec<(Identity, Option<Message>)>,
    Vec<(Identity, usize)>,
))
    requires
        system@.len() >= 1,
    ensures
        exists|draws: Seq<Identity>|
            {
                &&& draws.len() == e
                &&& forall|t: int| 0 <= t < draws.len() ==> system@.contains(#[trigger] draws[t])
                &&& sieve_sample_of(draws, r.0@, r.1@)
            },
{
    sample_sieve(e, system)
}

/// The echo subscription round: one EchoSubscription to every sampled
/// peer.
pub fn echo_subscribe(echo_replies: &Vec<(Identity, Option<Message>)>) -> (out: Outbound)
    ensures
        out.targets@ == tbl_keys(echo_replies@),
        out.message.message_type == 4,
        out.message.content@ == "EchoSubscription"@,
{
    let mut peers: Vec<Identity> = Vec::new();
    let n = echo_replies.len();
    for i in 0..n
        invariant
            n == echo_replies@.len(),
            peers@ =~= tbl_keys(echo_replies@.take(i as int)),
    {
        peers.push(echo_replies[i].0);
        proof {
            assert(tbl_keys(echo_replies@.take(i as int + 1)) =~= tbl_keys(
                echo_replies@.take(i as int),
            ).push(echo_replies@[i as int].0));
        }
    }
    proof {
        assert(echo_replies@.take(n as int) =~= echo_replies@);
    }
    Outbound { targets: peers, message: Message::new(4, "EchoSubscription".to_owned()) }
}

/// Answering an EchoSubscription: the locked echo, if there is one,
/// goes to the subscriber, and the subscriber is kept.
pub open spec fn echo_subscription_rel(
    pre: Node,
    post: Node,
    from: Identity,
    out: Seq<Outbound>,
) -> bool {
    &&& same_config(pre, post)
    &&& same_samples(pre, post)
    &&& post.gossip_peers == pre.gossip_peers
    &&& post.echo_subscribers@ == pre.echo_subscribers@.push(from)
    &&& post.ready_subscribers == pre.ready_subscribers
    &&& post.echo == pre.echo
    &&& post.delivered_gossip == pre.delivered_gossip
    &&& post.delivered_echo == pre.delivered_echo
    &&& post.ready_messages == pre.ready_messages
    &&& post.delivered == pre.delivered
    &&& match pre.echo {
        Some(e) => {
            &&& out.len() == 1
            &&& out[0].targets@ == seq![from]
            &&& out[0].message.message_type == 1
            &&& out[0].message.content@ == e.content@
        },
        None => out.len() == 0,
    }
}

/// Deliver an EchoSubscription.
pub fn echo_subscription(node: &mut Node, from: Identity) -> (out: Vec<Outbound>)
    requires
        old(node).wf(),
    ensures
        final(node).wf(),
        echo_subscription_rel(*old(node), *final(node), from, out@),
{
    let mut out: Vec<Outbound> = Vec::new();
    match &node.echo {
        Some(e) => {
            let mut tgt: Vec<Identity> = Vec::new();
            tgt.push(from);
            proof {
                assert(tgt@ =~= seq![from]);
            }
            out.push(Outbound { targets: tgt, message: Message::new(1, e.content.clone()) });
        },
        None => {},
    }
    node.echo_subscribers.push(from);
    out
}

/// Murmur's delivery locks in the echo and broadcasts it to the echo
/// subscribers.
pub open spec fn sieve_deliver_rel(pre: Node, post: Node, msg: Message, out: Outbound) -> bool {
    &&& same_config(pre, post)
    &&& same_samples(pre, post)
    &&& same_subscribers(pre, post)
    &&& post.echo == Some(msg)
    &&& post.delivered_gossip == pre.delivered_gossip
    &&& post.delivered_echo == pre.delivered_echo
    &&& post.ready_messages == pre.ready_messages
    &&& post.delivered == pre.delivered
    &&& out.targets@ == pre.echo_subscribers@
    &&& out.message.message_type == 1
    &&& out.message.content@ == msg.content@
}

/// Probabilistic broadcast delivery, invoked by Murmur's dispatch,
/// which enforces that it runs at most once.
pub fn deliver(node: &mut Node, msg: Message) -> (out: Outbound)
    requires
        old(node).wf(),
    ensures
        final(node).wf(),
        sieve_deliver_rel(*old(node), *final(node), msg, out),
{
    let bcast = Message::new(1, msg.content.clone());
    node.echo = Some(msg);
    Outbound { targets: copy_identities(&node.echo_subscribers), message: bcast }
}

/// The node's locked echo has crossed the echo threshold.
pub open spec fn sieve_crossed(
    sample: Seq<(Identity, Option<Message>)>,
    dups: Seq<(Identity, usize)>,
    thr: usize,
    echo: Option<Message>,
) -> bool {
    echo matches Some(e) && sieve_weight(sample, dups, e.content@) >= thr
}

/// What the echo-threshold check decides. Before an echo is locked,
/// and after the echo layer has delivered, the state stands; at the
/// crossing, the locked content goes down to Contagion and a Ready for
/// it goes out.
pub open spec fn echo_verdict(
    sample: Seq<(Identity, Option<Message>)>,
    dups: Seq<(Identity, usize)>,
    thr: usize,
    echo: Option<Message>,
    rsubs: Seq<Identity>,
    de0: Option<Message>,
    de1: Option<Message>,
    ready0: Seq<Message>,
    ready1: Seq<Message>,
    out: Seq<Outbound>,
) -> bool {
    if de0 is None && sieve_crossed(sample, dups, thr, echo) {
        &&& de1 matches Some(m) && m.message_type == 1 && m.content@ == echo.unwrap().content@
        &&& ready1 == ready0.push(de1.unwrap())
        &&& out.len() == 1
        &&& out[0].targets@ == rsubs
        &&& out[0].message.message_type == 2
        &&& out[0].message.content@ == echo.unwrap().content@
    } else {
        &&& de1 == de0
        &&& ready1 == ready0
        &&& out.len() == 0
    }
}

/// Echo-threshold check: when the weighted count of slots reporting the
/// locked echo reaches the threshold, deliver its content to Contagion.
pub fn check_echoes(node: &mut Node) -> (out: Vec<Outbound>)
    requires
        old(node).wf(),
    ensures
        final(node).wf(),
        same_config(*old(node), *final(node)),
        same_samples(*old(node), *final(node)),
        same_subscribers(*old(node), *final(node)),
        final(node).echo == old(node).echo,
        final(node).delivered_gossip == old(node).delivered_gossip,
        final(node).delivered == old(node).delivered,
        echo_verdict(
            old(node).echo_sample@,
            old(node).echo_duplicates@,
            old(node).echo_threshold,
            old(node).echo,
            old(node).ready_subscribers@,
            old(node).delivered_echo,
            final(node).delivered_echo,
            old(node).ready_messages@,
            final(node).ready_messages@,
            out@,
        ),
{
    if node.delivered_echo.is_some() {
        return Vec::new();
    }
    let locked = match &node.echo {
        Some(e) => Some(e.duplicate()),
        None => None,
    };
    match locked {
        None => Vec::new(),
        Some(e) => {
            proof {
                lemma_sieve_weight_le_total(node.echo_sample@, node.echo_duplicates@, e.content@);
            }
            let occ = crate::utils::check_message_occurrences_sieve(
                &node.echo_sample,
                &node.echo_duplicates,
                &e,
            );
            if occ >= node.echo_threshold {
                let m = Message::new(1, e.content.clone());
                node.delivered_echo = Some(m.duplicate());
                let ready_out = contagion::deliver(node, m);
                let mut out: Vec<Outbound> = Vec::new();
                out.push(ready_out);
                out
            } else {
                Vec::new()
            }
        },
    }
}

/// A sampled peer's first echo fills its slot; a later echo from the
/// same peer changes nothing.
pub open spec fn echo_recorded(
    s0: Seq<(Identity, Option<Message>)>,
    s1: Seq<(Identity, Option<Message>)>,
    from: Identity,
    msg: Message,
) -> bool {
    &&& s1.len() == s0.len()
    &&& forall|j: int| 0 <= j < s0.len() ==> (#[trigger] s1[j]).0 == s0[j].0
    &&& forall|j: int|
        0 <= j < s0.len() && s0[j].0 == from && s0[j].1 is None ==> (#[trigger] s1[j]).1 == Some(
            msg,
        )
    &&& forall|j: int|
        0 <= j < s0.len() && (s0[j].0 != from || s0[j].1 is Some) ==> (#[trigger] s1[j]).1
            == s0[j].1
}

/// Routing a verified Echo from `from`: the slot is filled if `from` is
/// sampled and the slot was empty, then the threshold check runs.
pub open spec fn deliver_echo_rel(
    pre: Node,
    post: Node,
    msg: Message,
    from: Identity,
    out: Seq<Outbound>,
) -> bool {
    &&& same_config(pre, post)
    &&& same_subscribers(pre, post)
    &&& post.echo_duplicates == pre.echo_duplicates
    &&& post.ready_sample == pre.ready_sample
    &&& post.ready_duplicates == pre.ready_duplicates
    &&& post.delivery_sample == pre.delivery_sample
    &&& post.delivery_duplicates == pre.delivery_duplicates
    &&& post.echo == pre.echo
    &&& post.delivered_gossip == pre.delivered_gossip
    &&& post.delivered == pre.delivered
    &&& if tbl_contains(pre.echo_sample@, from) {
        &&& echo_recorded(pre.echo_sample@, post.echo_sample@, from, msg)
        &&& echo_verdict(
            post.echo_sample@,
            pre.echo_duplicates@,
            pre.echo_threshold,
            pre.echo,
            pre.ready_subscribers@,
            pre.delivered_echo,
            post.delivered_echo,
            pre.ready_messages@,
            post.ready_messages@,
            out,
        )
    } else {
        &&& post.echo_sample == pre.echo_sample
        &&& post.delivered_echo == pre.delivered_echo
        &&& post.ready_messages == pre.ready_messages
        &&& out.len() == 0
    }
}

/// Deliver a verified Echo message.
pub fn deliver_echo(node: &mut Node, message: Message, from: Identity) -> (out: Vec<Outbound>)
    requires
        old(node).wf(),
    ensures
        final(node).wf(),
        deliver_echo_rel(*old(node), *final(node), message, from, out@),
{
    let found = tbl_find(&node.echo_sample, from);
    match found {
        Some(i) => {
            let ghost s0 = node.echo_sample@;
            let slot_empty = node.echo_sample[i].1.is_none();
            if slot_empty {
                node.echo_sample.set(i, (from, Some(message)));
            }
            proof {
                assert(tbl_keys(node.echo_sample@) =~= tbl_keys(s0));
                assert(echo_recorded(s0, node.echo_sample@, from, message));
            }
            check_echoes(node)
        },
        None => Vec::new(),
    }
}

} // verus!
