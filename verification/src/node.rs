//! The per-node protocol state and its dispatcher.
//!
//! A node holds the state of all three layers. Handlers never touch
//! the network: each one returns the batches of messages to sign and
//! send, and the host program performs the sends, acknowledgments and
//! the audit write. The dispatcher routes one incoming message by its
//! role tag, after the host has checked its signature against the
//! sender's keycard under the role's header; the verdict of that check
//! comes in as an argument, and a message that failed it, or whose
//! sender is not in the roster, changes nothing.

use crate::contagion;
use crate::message::Message;
use crate::murmur;
use crate::peer::Identity;
use crate::sieve;
use crate::table::{keys_unique, tbl_keys};
use crate::utils::{dedup_first, total_weight};
use vstd::prelude::*;

verus! {

/// A batch of outgoing traffic: one message, signed under the header of
/// its role tag, sent best-effort to each target.
pub struct Outbound {
    pub targets: Vec<Identity>,
    pub message: Message,
}

/// The state of one node, all three layers together.
pub struct Node {
    /// Numeric id, for the audit artifact only.
    pub id: usize,
    /// The identities this node accepts remote messages from.
    pub roster: Vec<Identity>,
    /// Murmur fan-out: where gossip is diffused.
    pub gossip_peers: Vec<Identity>,
    /// Peers subscribed to this node's echoes.
    pub echo_subscribers: Vec<Identity>,
    /// Peers subscribed to this node's readies.
    pub ready_subscribers: Vec<Identity>,
    /// Sieve delivery threshold.
    pub echo_threshold: usize,
    /// Contagion re-emission threshold.
    pub ready_threshold: usize,
    /// Contagion final delivery threshold.
    pub delivery_threshold: usize,
    /// The message this node echoes, locked in when Murmur delivers.
    pub echo: Option<Message>,
    /// Echo replies of the sampled peers: at most one slot each.
    pub echo_sample: Vec<(Identity, Option<Message>)>,
    /// Draw multiplicities of the echo sample.
    pub echo_duplicates: Vec<(Identity, usize)>,
    /// Ready replies of the re-emission sample.
    pub ready_sample: Vec<(Identity, Vec<Message>)>,
    /// Draw multiplicities of the ready sample.
    pub ready_duplicates: Vec<(Identity, usize)>,
    /// Ready replies of the delivery sample.
    pub delivery_sample: Vec<(Identity, Vec<Message>)>,
    /// Draw multiplicities of the delivery sample.
    pub delivery_duplicates: Vec<(Identity, usize)>,
    /// First message Murmur delivered.
    pub delivered_gossip: Option<Message>,
    /// First message Sieve delivered by crossing the echo threshold.
    pub delivered_echo: Option<Message>,
    /// Messages known Ready at this node, in order of appearance.
    pub ready_messages: Vec<Message>,
    /// The finally delivered message.
    pub delivered: Option<Message>,
}

impl Node {
    /// Internal consistency: each sample table is a map, and no
    /// content's weighted count can exceed the machine word.
    pub open spec fn wf(self) -> bool {
        &&& keys_unique(self.echo_sample@)
        &&& keys_unique(self.echo_duplicates@)
        &&& keys_unique(self.ready_sample@)
        &&& keys_unique(self.ready_duplicates@)
        &&& keys_unique(self.delivery_sample@)
        &&& keys_unique(self.delivery_duplicates@)
        &&& total_weight(tbl_keys(self.echo_sample@), self.echo_duplicates@) <= usize::MAX
        &&& total_weight(tbl_keys(self.ready_sample@), self.ready_duplicates@) <= usize::MAX
        &&& total_weight(tbl_keys(self.delivery_sample@), self.delivery_duplicates@) <= usize::MAX
    }

    /// A fresh node: thresholds set, everything else empty. The
    /// samples are drawn and installed during initialization.
    pub fn new(
        roster: Vec<Identity>,
        id: usize,
        echo_threshold: usize,
        ready_threshold: usize,
        delivery_threshold: usize,
    ) -> (node: Node)
        ensures
            node.wf(),
            node.id == id,
            node.roster == roster,
            node.echo_threshold == echo_threshold,
            node.ready_threshold == ready_threshold,
            node.delivery_threshold == delivery_threshold,
            node.gossip_peers@.len() == 0,
            node.echo_subscribers@.len() == 0,
            node.ready_subscribers@.len() == 0,
            node.echo is None,
            node.echo_sample@.len() == 0,
            node.echo_duplicates@.len() == 0,
            node.ready_sample@.len() == 0,
            node.ready_duplicates@.len() == 0,
            node.delivery_sample@.len() == 0,
            node.delivery_duplicates@.len() == 0,
            node.delivered_gossip is None,
            node.delivered_echo is None,
            node.ready_messages@.len() == 0,
            node.delivered is None,
    {
        Node {
            id,
            roster,
            gossip_peers: Vec::new(),
            echo_subscribers: Vec::new(),
            ready_subscribers: Vec::new(),
            echo_threshold,
            ready_threshold,
            delivery_threshold,
            echo: None,
            echo_sample: Vec::new(),
            echo_duplicates: Vec::new(),
            ready_sample: Vec::new(),
            ready_duplicates: Vec::new(),
            delivery_sample: Vec::new(),
            delivery_duplicates: Vec::new(),
            delivered_gossip: None,
            delivered_echo: None,
            ready_messages: Vec::new(),
            delivered: None,
        }
    }
}

impl Node {
    /// Executable form of `wf`, for the host and the tests to check
    /// before driving the node.
    pub fn check_wf(&self) -> (r: bool)
        ensures
            r == self.wf(),
    {
        if !crate::utils::keys_distinct(&self.echo_sample) {
            return false;
        }
        if !crate::utils::keys_distinct(&self.echo_duplicates) {
            return false;
        }
        if !crate::utils::keys_distinct(&self.ready_sample) {
            return false;
        }
        if !crate::utils::keys_distinct(&self.ready_duplicates) {
            return false;
        }
        if !crate::utils::keys_distinct(&self.delivery_sample) {
            return false;
        }
        if !crate::utils::keys_distinct(&self.delivery_duplicates) {
            return false;
        }
        if !crate::utils::total_weight_fits(&self.echo_sample, &self.echo_duplicates) {
            return false;
        }
        if !crate::utils::total_weight_fits(&self.ready_sample, &self.ready_duplicates) {
            return false;
        }
        if !crate::utils::total_weight_fits(&self.delivery_sample, &self.delivery_duplicates) {
            return false;
        }
        true
    }
}

/// Identity, roster and thresholds are never touched by a handler.
pub open spec fn same_config(a: Node, b: Node) -> bool {
    &&& b.id == a.id
    &&& b.roster == a.roster
    &&& b.echo_threshold == a.echo_threshold
    &&& b.ready_threshold == a.ready_threshold
    &&& b.delivery_threshold == a.delivery_threshold
}

/// The six sample tables, keys and values.
pub open spec fn same_samples(a: Node, b: Node) -> bool {
    &&& b.echo_sample == a.echo_sample
    &&& b.echo_duplicates == a.echo_duplicates
    &&& b.ready_sample == a.ready_sample
    &&& b.ready_duplicates == a.ready_duplicates
    &&& b.delivery_sample == a.delivery_sample
    &&& b.delivery_duplicates == a.delivery_duplicates
}

/// The duplicate tables alone; the samples' keys never change either,
/// only their recorded replies.
pub open spec fn same_duplicates(a: Node, b: Node) -> bool {
    &&& b.echo_duplicates == a.echo_duplicates
    &&& b.ready_duplicates == a.ready_duplicates
    &&& b.delivery_duplicates == a.delivery_duplicates
}

/// The three subscriber lists.
pub open spec fn same_subscribers(a: Node, b: Node) -> bool {
    &&& b.gossip_peers == a.gossip_peers
    &&& b.echo_subscribers == a.echo_subscribers
    &&& b.ready_subscribers == a.ready_subscribers
}

/// The per-layer delivery state.
pub open spec fn same_deliveries(a: Node, b: Node) -> bool {
    &&& b.echo == a.echo
    &&& b.delivered_gossip == a.delivered_gossip
    &&& b.delivered_echo == a.delivered_echo
    &&& b.ready_messages == a.ready_messages
    &&& b.delivered == a.delivered
}

/// Whether an identity occurs in a list.
pub fn contains_identity(v: &Vec<Identity>, id: Identity) -> (r: bool)
    ensures
        r == v@.contains(id),
{
    let n = v.len();
    for i in 0..n
        invariant
            n == v@.len(),
            forall|j: int| 0 <= j < i ==> v@[j] != id,
    {
        if v[i] == id {
            return true;
        }
    }
    false
}

/// What one handled message produced: the batches to sign and send, and
/// the delivered message if this step crossed the delivery threshold,
/// for the host to record in the audit artifact.
pub struct HandlerOutput {
    pub sends: Vec<Outbound>,
    pub delivered: Option<Message>,
}

/// The dispatcher's routing table, one case per role tag. Remote tags
/// act only on a valid signature from a peer in the roster; the
/// self-issued triggers need none; an unknown tag is dropped.
pub open spec fn handle_rel(
    pre: Node,
    post: Node,
    sender: Identity,
    message: Message,
    signature_valid: bool,
    sends: Seq<Outbound>,
    got: Option<Message>,
) -> bool {
    let tag = message.message_type;
    &&& (tag <= 5 && !signature_valid) ==> post == pre && sends.len() == 0 && got is None
    &&& (tag <= 5 && signature_valid && !pre.roster@.contains(sender)) ==> post == pre
        && sends.len() == 0 && got is None
    &&& (tag <= 5 && signature_valid && pre.roster@.contains(sender)) ==> {
        &&& tag == 0 ==> murmur::dispatch_rel(pre, post, message, sends) && got is None
        &&& tag == 1 ==> sieve::deliver_echo_rel(pre, post, message, sender, sends) && got is None
        &&& tag == 2 ==> contagion::deliver_ready_rel(pre, post, sender, message, sends, got)
        &&& tag == 3 ==> murmur::gossip_subscription_rel(pre, post, sender, sends) && got is None
        &&& tag == 4 ==> sieve::echo_subscription_rel(pre, post, sender, sends) && got is None
        &&& tag == 5 ==> contagion::ready_subscription_rel(pre, post, sender, sends) && got
            is None
    }
    &&& tag == 6 ==> post == pre && got is None && sends.len() == 1 && sends[0].targets@
        == pre.gossip_peers@ && sends[0].message.message_type == 3
        && sends[0].message.content@ == "GossipSubscription"@
    &&& tag == 7 ==> post == pre && got is None && sends.len() == 1 && sends[0].targets@
        == tbl_keys(pre.echo_sample@) && sends[0].message.message_type == 4
        && sends[0].message.content@ == "EchoSubscription"@
    &&& tag == 8 ==> post == pre && got is None && sends.len() == 1 && sends[0].targets@
        == dedup_first(tbl_keys(pre.ready_sample@) + tbl_keys(pre.delivery_sample@))
        && sends[0].message.message_type == 5
        && sends[0].message.content@ == "ReadySubscription"@
    &&& tag == 9 ==> murmur::dispatch_rel(
        pre,
        post,
        (Message { message_type: 0, content: message.content }),
        sends,
    ) && got is None
    &&& tag > 9 ==> post == pre && sends.len() == 0 && got is None
}

/// Handle one incoming message.
///
/// `signature_valid` is the host's verdict on the message's signature,
/// checked against `sender`'s keycard under the header of the message's
/// role tag. A remote message acts only when that verdict is positive
/// and the sender is in the roster; every delivery field is written at
/// most once over the node's lifetime; the ready messages only grow;
/// the sample keys never change; the subscriber lists only grow.
pub fn handle(
    node: &mut Node,
    sender: Identity,
    message: Message,
    signature_valid: bool,
) -> (r: HandlerOutput)
    requires
        old(node).wf(),
    ensures
        final(node).wf(),
        handle_rel(
            *old(node),
            *final(node),
            sender,
            message,
            signature_valid,
            r.sends@,
            r.delivered,
        ),
        old(node).delivered is Some ==> final(node).delivered == old(node).delivered,
        old(node).delivered_gossip is Some ==> final(node).delivered_gossip == old(
            node,
        ).delivered_gossip,
        old(node).delivered_echo is Some ==> final(node).delivered_echo == old(
            node,
        ).delivered_echo,
        old(node).ready_messages@.is_prefix_of(final(node).ready_messages@),
        r.delivered is Some ==> old(node).delivered is None && final(node).delivered
            == r.delivered,
        tbl_keys(final(node).echo_sample@) == tbl_keys(old(node).echo_sample@),
        tbl_keys(final(node).ready_sample@) == tbl_keys(old(node).ready_sample@),
        tbl_keys(final(node).delivery_sample@) == tbl_keys(old(node).delivery_sample@),
        old(node).gossip_peers@.is_prefix_of(final(node).gossip_peers@),
        old(node).echo_subscribers@.is_prefix_of(final(node).echo_subscribers@),
        old(node).ready_subscribers@.is_prefix_of(final(node).ready_subscribers@),
        same_config(*old(node), *final(node)),
{
    let tag = message.message_type;
    let acts = if tag <= 5 {
        signature_valid && contains_identity(&node.roster, sender)
    } else {
        true
    };
    let mut sends: Vec<Outbound> = Vec::new();
    let mut delivered: Option<Message> = None;
    if acts {
        if tag == 0 {
            sends = murmur::deliver_gossip(node, message);
        } else if tag == 1 {
            sends = sieve::deliver_echo(node, message, sender);
        } else if tag == 2 {
            let routed = contagion::deliver_ready(node, sender, message);
            sends = routed.0;
            delivered = routed.1;
        } else if tag == 3 {
            sends = murmur::gossip_subscription(node, sender);
        } else if tag == 4 {
            sends = sieve::echo_subscription(node, sender);
        } else if tag == 5 {
            sends = contagion::ready_subscription(node, sender);
        } else if tag == 6 {
            sends.push(murmur::gossip_subscribe(&node.gossip_peers));
        } else if tag == 7 {
            sends.push(sieve::echo_subscribe(&node.echo_sample));
        } else if tag == 8 {
            sends.push(contagion::ready_subscribe(&node.ready_sample, &node.delivery_sample));
        } else if tag == 9 {
            sends = murmur::dispatch(node, Message::new(0, message.content.clone()));
        }
    }
    proof {
        let pre = *old(node);
        let post = *node;
        assert(pre.ready_messages@.is_prefix_of(post.ready_messages@)) by {
            assert(pre.ready_messages@ =~= post.ready_messages@.subrange(
                0,
                pre.ready_messages@.len() as int,
            ));
        }
        assert(tbl_keys(post.echo_sample@) =~= tbl_keys(pre.echo_sample@));
        assert(tbl_keys(post.ready_sample@) =~= tbl_keys(pre.ready_sample@));
        assert(tbl_keys(post.delivery_sample@) =~= tbl_keys(pre.delivery_sample@));
        assert(pre.gossip_peers@.is_prefix_of(post.gossip_peers@)) by {
            assert(pre.gossip_peers@ =~= post.gossip_peers@.subrange(
                0,
                pre.gossip_peers@.len() as int,
            ));
        }
        assert(pre.echo_subscribers@.is_prefix_of(post.echo_subscribers@)) by {
            assert(pre.echo_subscribers@ =~= post.echo_subscribers@.subrange(
                0,
                pre.echo_subscribers@.len() as int,
            ));
        }
        assert(pre.ready_subscribers@.is_prefix_of(post.ready_subscribers@)) by {
            assert(pre.ready_subscribers@ =~= post.ready_subscribers@.subrange(
                0,
                pre.ready_subscribers@.len() as int,
            ));
        }
    }
    HandlerOutput { sends, delivered }
}

/// An owned copy of an identity list.
pub fn copy_identities(v: &Vec<Identity>) -> (r: Vec<Identity>)
    ensures
        r@ == v@,
{
    let mut r: Vec<Identity> = Vec::new();
    let n = v.len();
    for i in 0..n
        invariant
            n == v@.len(),
            r@ =~= v@.take(i as int),
    {
        r.push(v[i]);
    }
    proof {
        assert(v@.take(n as int) =~= v@);
    }
    r
}

} // verus!
