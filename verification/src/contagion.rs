//! Contagion: probabilistic reliable broadcast.
//!
//! Two samples are drawn against the same roster: the ready sample
//! controls when this node re-emits a Ready, the delivery sample when
//! it finalizes delivery. A Ready from a sampled peer is appended to
//! that peer's reply multiset; a content whose weighted count over the
//! ready sample reaches the re-emission threshold, and is not yet among
//! the ready messages, is enqueued once and broadcast; a content whose
//! weighted count over the delivery sample reaches the delivery
//! threshold is delivered, once and for all.

use crate::message::Message;
use crate::node::{
    copy_identities, same_config, same_duplicates, same_samples, same_subscribers, Node, Outbound,
};
use crate::peer::Identity;
use crate::table::{tbl_contains, tbl_find, tbl_keys};
use crate::utils::{
    all_contents, contagion_sample_of, contagion_weight, dedup_first, entry_contains_content,
    entry_has_content, lemma_all_contents_iff, lemma_contagion_weight_le_total,
    lemma_dedup_first_contains, sample_contagion, sample_has_content,
};
use vstd::prelude::*;

verus! {

/// Content `c` occurs in the sample and its weighted count reaches the
/// threshold.
pub open spec fn content_crossed(
    sample: Seq<(Identity, Vec<Message>)>,
    dups: Seq<(Identity, usize)>,
    thr: usize,
    c: Seq<char>,
) -> bool {
    &&& sample_has_content(sample, c)
    &&& contagion_weight(sample, dups, c) >= thr
}

/// One run of the re-emission check: the ready messages grow by one
/// Ready per content that crossed the threshold and was not yet ready,
/// each broadcast to the ready subscribers.
pub open spec fn ready_emissions(
    sample: Seq<(Identity, Vec<Message>)>,
    dups: Seq<(Identity, usize)>,
    thr: usize,
    subs: Seq<Identity>,
    ready0: Seq<Message>,
    ready1: Seq<Message>,
    out: Seq<Outbound>,
) -> bool {
    let fresh = ready1.skip(ready0.len() as int);
    &&& ready0.len() <= ready1.len()
    &&& ready1.take(ready0.len() as int) == ready0
    &&& forall|k: int|
        0 <= k < fresh.len() ==> {
            &&& (#[trigger] fresh[k]).message_type == 2
            &&& content_crossed(sample, dups, thr, fresh[k].content@)
            &&& !entry_has_content(ready0, fresh[k].content@)
        }
    &&& forall|k: int, l: int| 0 <= k < l < fresh.len() ==> fresh[k].content@ != fresh[l].content@
    &&& forall|c: Seq<char>|
        #[trigger] content_crossed(sample, dups, thr, c) && !entry_has_content(ready0, c)
            ==> entry_has_content(fresh, c)
    &&& out.len() == fresh.len()
    &&& forall|k: int|
        0 <= k < out.len() ==> (#[trigger] out[k]).targets@ == subs && out[k].message == fresh[k]
}

/// What the delivery check decides. A node that has delivered stays
/// as it is; otherwise, when a content's weighted count reaches the
/// threshold, that content becomes the node's delivery, tagged Ready.
pub open spec fn delivery_verdict(
    sample: Seq<(Identity, Vec<Message>)>,
    dups: Seq<(Identity, usize)>,
    thr: usize,
    del0: Option<Message>,
    del1: Option<Message>,
    got: Option<Message>,
) -> bool {
    if del0 is Some {
        del1 == del0 && got is None
    } else if exists|c: Seq<char>| #[trigger] content_crossed(sample, dups, thr, c) {
        &&& got matches Some(m) && m.message_type == 2 && content_crossed(
            sample,
            dups,
            thr,
            m.content@,
        )
        &&& del1 == got
    } else {
        del1 == del0 && got is None
    }
}

/// How many of the messages carry content `c`.
pub open spec fn content_count(ms: Seq<Message>, c: Seq<char>) -> nat
    decreases ms.len(),
{
    if ms.len() == 0 {
        0
    } else {
        content_count(ms.drop_last(), c) + if ms.last().content@ == c {
            1nat
        } else {
            0
        }
    }
}

proof fn lemma_content_count_concat(a: Seq<Message>, b: Seq<Message>, c: Seq<char>)
    ensures
        content_count(a + b, c) == content_count(a, c) + content_count(b, c),
    decreases b.len(),
{
    if b.len() == 0 {
        assert(a + b =~= a);
    } else {
        lemma_content_count_concat(a, b.drop_last(), c);
        assert((a + b).drop_last() =~= a + b.drop_last());
        assert((a + b).last() == b.last());
    }
}

proof fn lemma_content_count_zero(ms: Seq<Message>, c: Seq<char>)
    ensures
        (content_count(ms, c) == 0) == !entry_has_content(ms, c),
    decreases ms.len(),
{
    if ms.len() > 0 {
        lemma_content_count_zero(ms.drop_last(), c);
        if entry_has_content(ms, c) {
            let i = choose|i: int| 0 <= i < ms.len() && ms[i].content@ == c;
            if i < ms.len() - 1 {
                assert(ms.drop_last()[i].content@ == c);
                assert(entry_has_content(ms.drop_last(), c));
            }
        }
        if entry_has_content(ms.drop_last(), c) {
            let i = choose|i: int|
                0 <= i < ms.drop_last().len() && ms.drop_last()[i].content@ == c;
            assert(ms[i].content@ == c);
        }
    }
}

proof fn lemma_content_count_distinct(ms: Seq<Message>, c: Seq<char>)
    requires
        forall|k: int, l: int| 0 <= k < l < ms.len() ==> ms[k].content@ != ms[l].content@,
    ensures
        content_count(ms, c) <= 1,
    decreases ms.len(),
{
    if ms.len() > 0 {
        let pre = ms.drop_last();
        assert(forall|k: int, l: int| 0 <= k < l < pre.len() ==> pre[k].content@ != pre[l].content@);
        lemma_content_count_distinct(pre, c);
        if ms.last().content@ == c {
            lemma_content_count_zero(pre, c);
            assert forall|k: int| 0 <= k < pre.len() implies pre[k].content@ != c by {
                assert(ms[k].content@ != ms[ms.len() - 1].content@);
            }
            if entry_has_content(pre, c) {
                let i = choose|i: int| 0 <= i < pre.len() && pre[i].content@ == c;
                assert(false);
            }
        }
    }
}

/// One emission step changes a content's count by at most one, and only
/// from zero.
proof fn lemma_emission_step_count(
    sample: Seq<(Identity, Vec<Message>)>,
    dups: Seq<(Identity, usize)>,
    thr: usize,
    subs: Seq<Identity>,
    r0: Seq<Message>,
    r1: Seq<Message>,
    out: Seq<Outbound>,
    c: Seq<char>,
)
    requires
        ready_emissions(sample, dups, thr, subs, r0, r1, out),
    ensures
        content_count(r1, c) <= content_count(r0, c) + 1,
        content_count(r1, c) > content_count(r0, c) ==> content_count(r0, c) == 0,
{
    let fresh = r1.skip(r0.len() as int);
    assert(r1 =~= r0 + fresh);
    lemma_content_count_concat(r0, fresh, c);
    lemma_content_count_distinct(fresh, c);
    if content_count(fresh, c) > 0 {
        lemma_content_count_zero(fresh, c);
        let i = choose|i: int| 0 <= i < fresh.len() && fresh[i].content@ == c;
        assert(!entry_has_content(r0, fresh[i].content@));
        lemma_content_count_zero(r0, c);
    }
}

/// Re-emission is idempotent: over two successive runs of the ready
/// check, however the samples moved in between, a content joins the
/// ready messages at most once beyond what was there, and never again
/// once present.
pub proof fn lemma_ready_reemission_idempotent(
    sample1: Seq<(Identity, Vec<Message>)>,
    dups1: Seq<(Identity, usize)>,
    thr1: usize,
    subs1: Seq<Identity>,
    sample2: Seq<(Identity, Vec<Message>)>,
    dups2: Seq<(Identity, usize)>,
    thr2: usize,
    subs2: Seq<Identity>,
    r0: Seq<Message>,
    r1: Seq<Message>,
    r2: Seq<Message>,
    out1: Seq<Outbound>,
    out2: Seq<Outbound>,
)
    requires
        ready_emissions(sample1, dups1, thr1, subs1, r0, r1, out1),
        ready_emissions(sample2, dups2, thr2, subs2, r1, r2, out2),
    ensures
        forall|c: Seq<char>| #[trigger] content_count(r2, c) <= content_count(r0, c) + 1,
        forall|c: Seq<char>|
            entry_has_content(r0, c) ==> #[trigger] content_count(r2, c) == content_count(r0, c),
{
    assert forall|c: Seq<char>| #[trigger] content_count(r2, c) <= content_count(r0, c) + 1 by {
        lemma_emission_step_count(sample1, dups1, thr1, subs1, r0, r1, out1, c);
        lemma_emission_step_count(sample2, dups2, thr2, subs2, r1, r2, out2, c);
        if content_count(r2, c) > content_count(r1, c) {
            assert(content_count(r1, c) == 0);
        }
    }
    assert forall|c: Seq<char>| entry_has_content(r0, c) implies #[trigger] content_count(r2, c)
        == content_count(r0, c) by {
        lemma_content_count_zero(r0, c);
        lemma_emission_step_count(sample1, dups1, thr1, subs1, r0, r1, out1, c);
        lemma_emission_step_count(sample2, dups2, thr2, subs2, r1, r2, out2, c);
        assert(content_count(r1, c) >= content_count(r0, c)) by {
            let fresh = r1.skip(r0.len() as int);
            assert(r1 =~= r0 + fresh);
            lemma_content_count_concat(r0, fresh, c);
        }
        assert(content_count(r2, c) >= content_count(r1, c)) by {
            let fresh = r2.skip(r1.len() as int);
            assert(r2 =~= r1 + fresh);
            lemma_content_count_concat(r1, fresh, c);
        }
        if content_count(r1, c) > content_count(r0, c) {
            assert(content_count(r0, c) == 0);
        }
        assert(content_count(r1, c) == content_count(r0, c));
        if content_count(r2, c) > content_count(r1, c) {
            assert(content_count(r1, c) == 0);
        }
    }
}

/// Draw the ready and delivery samples against the same roster.
pub fn init(r: usize, d: usize, system: &Vec<Identity>) -> (out: (
    Vec<(Identity, Vec<Message>)>,
    Vec<(Identity, usize)>,
    Vec<(Identity, Vec<Message>)>,
    Vec<(Identity, usize)>,
))
    requires
        system@.len() >= 1,
    ensures
        exists|draws: Seq<Identity>|
            {
                &&& draws.len() == r
                &&& forall|t: int| 0 <= t < draws.len() ==> system@.contains(#[trigger] draws[t])
                &&& contagion_sample_of(draws, out.0@, out.1@)
            },
        exists|draws: Seq<Identity>|
            {
                &&& draws.len() == d
                &&& forall|t: int| 0 <= t < draws.len() ==> system@.contains(#[trigger] draws[t])
                &&& contagion_sample_of(draws, out.2@, out.3@)
            },
{
    let ready = sample_contagion(r, system);
    let delivery = sample_contagion(d, system);
    (ready.0, ready.1, delivery.0, delivery.1)
}

/// The ready subscription round: one ReadySubscription to each peer of
/// the ready and delivery samples together, without repetition.
pub fn ready_subscribe(
    ready_replies: &Vec<(Identity, Vec<Message>)>,
    delivery_replies: &Vec<(Identity, Vec<Message>)>,
) -> (out: Outbound)
    ensures
        out.targets@ == dedup_first(tbl_keys(ready_replies@) + tbl_keys(delivery_replies@)),
        out.message.message_type == 5,
        out.message.content@ == "ReadySubscription"@,
{
    let mut peers: Vec<Identity> = Vec::new();
    let nr = ready_replies.len();
    for i in 0..nr
        invariant
            nr == ready_replies@.len(),
            peers@ =~= tbl_keys(ready_replies@.take(i as int)),
    {
        peers.push(ready_replies[i].0);
        proof {
            assert(tbl_keys(ready_replies@.take(i as int + 1)) =~= tbl_keys(
                ready_replies@.take(i as int),
            ).push(ready_replies@[i as int].0));
        }
    }
    proof {
        assert(ready_replies@.take(nr as int) =~= ready_replies@);
    }
    let nd = delivery_replies.len();
    for i in 0..nd
        invariant
            nd == delivery_replies@.len(),
            peers@ =~= tbl_keys(ready_replies@) + tbl_keys(delivery_replies@.take(i as int)),
    {
        peers.push(delivery_replies[i].0);
        proof {
            assert(tbl_keys(delivery_replies@.take(i as int + 1)) =~= tbl_keys(
                delivery_replies@.take(i as int),
            ).push(delivery_replies@[i as int].0));
        }
    }
    proof {
        assert(delivery_replies@.take(nd as int) =~= delivery_replies@);
    }
    let targets = crate::utils::unique_identities(&peers);
    Outbound { targets, message: Message::new(5, "ReadySubscription".to_owned()) }
}

/// Answering a ReadySubscription: every ready message goes to the
/// subscriber as a signed Ready, and the subscriber is kept.
pub open spec fn ready_subscription_rel(
    pre: Node,
    post: Node,
    from: Identity,
    out: Seq<Outbound>,
) -> bool {
    &&& same_config(pre, post)
    &&& same_samples(pre, post)
    &&& post.gossip_peers == pre.gossip_peers
    &&& post.echo_subscribers == pre.echo_subscribers
    &&& post.ready_subscribers@ == pre.ready_subscribers@.push(from)
    &&& post.echo == pre.echo
    &&& post.delivered_gossip == pre.delivered_gossip
    &&& post.delivered_echo == pre.delivered_echo
    &&& post.ready_messages == pre.ready_messages
    &&& post.delivered == pre.delivered
    &&& out.len() == pre.ready_messages@.len()
    &&& forall|k: int|
        0 <= k < out.len() ==> {
            &&& (#[trigger] out[k]).targets@ == seq![from]
            &&& out[k].message.message_type == 2
            &&& out[k].message.content@ == pre.ready_messages@[k].content@
        }
}

/// Deliver a ReadySubscription.
pub fn ready_subscription(node: &mut Node, from: Identity) -> (out: Vec<Outbound>)
    requires
        old(node).wf(),
    ensures
        final(node).wf(),
        ready_subscription_rel(*old(node), *final(node), from, out@),
{
    let mut out: Vec<Outbound> = Vec::new();
    let n = node.ready_messages.len();
    for k in 0..n
        invariant
            n == node.ready_messages@.len(),
            *node == *old(node),
            out@.len() == k,
            forall|j: int|
                0 <= j < k ==> {
                    &&& (#[trigger] out@[j]).targets@ == seq![from]
                    &&& out@[j].message.message_type == 2
                    &&& out@[j].message.content@ == node.ready_messages@[j].content@
                },
    {
        let mut tgt: Vec<Identity> = Vec::new();
        tgt.push(from);
        proof {
            assert(tgt@ =~= seq![from]);
        }
        out.push(
            Outbound { targets: tgt, message: Message::new(2, node.ready_messages[k].content.clone()) },
        );
    }
    node.ready_subscribers.push(from);
    out
}

/// Delivery handed down from Sieve: the message joins the ready
/// messages and a Ready of its content goes to the ready subscribers.
pub open spec fn contagion_deliver_rel(pre: Node, post: Node, msg: Message, out: Outbound) -> bool {
    &&& same_config(pre, post)
    &&& same_samples(pre, post)
    &&& same_subscribers(pre, post)
    &&& post.echo == pre.echo
    &&& post.delivered_gossip == pre.delivered_gossip
    &&& post.delivered_echo == pre.delivered_echo
    &&& post.delivered == pre.delivered
    &&& post.ready_messages@ == pre.ready_messages@.push(msg)
    &&& out.targets@ == pre.ready_subscribers@
    &&& out.message.message_type == 2
    &&& out.message.content@ == msg.content@
}

/// Probabilistic consistent broadcast delivery, invoked by Sieve.
pub fn deliver(node: &mut Node, message: Message) -> (out: Outbound)
    requires
        old(node).wf(),
    ensures
        final(node).wf(),
        contagion_deliver_rel(*old(node), *final(node), message, out),
{
    let bcast = Message::new(2, message.content.clone());
    node.ready_messages.push(message);
    Outbound { targets: copy_identities(&node.ready_subscribers), message: bcast }
}

/// Re-emission check: every content that crossed the ready threshold
/// and is not yet ready is enqueued once and broadcast.
pub fn check_ready(node: &mut Node) -> (out: Vec<Outbound>)
    requires
        old(node).wf(),
    ensures
        final(node).wf(),
        same_config(*old(node), *final(node)),
        same_samples(*old(node), *final(node)),
        same_subscribers(*old(node), *final(node)),
        final(node).echo == old(node).echo,
        final(node).delivered_gossip == old(node).delivered_gossip,
        final(node).delivered_echo == old(node).delivered_echo,
        final(node).delivered == old(node).delivered,
        ready_emissions(
            old(node).ready_sample@,
            old(node).ready_duplicates@,
            old(node).ready_threshold,
            old(node).ready_subscribers@,
            old(node).ready_messages@,
            final(node).ready_messages@,
            out@,
        ),
{
    let occ = crate::utils::check_message_occurrences_contagion(
        &node.ready_sample,
        &node.ready_duplicates,
    );
    let mut out: Vec<Outbound> = Vec::new();
    let n = occ.len();
    let ghost ready0 = node.ready_messages@;
    let ghost sample = node.ready_sample@;
    let ghost dups = node.ready_duplicates@;
    let ghost thr = node.ready_threshold;
    let ghost subs = node.ready_subscribers@;
    for k in 0..n
        invariant
            n == occ@.len(),
            node.wf(),
            same_config(*old(node), *node),
            same_samples(*old(node), *node),
            same_subscribers(*old(node), *node),
            node.echo == old(node).echo,
            node.delivered_gossip == old(node).delivered_gossip,
            node.delivered_echo == old(node).delivered_echo,
            node.delivered == old(node).delivered,
            ready0 == old(node).ready_messages@,
            sample == old(node).ready_sample@,
            dups == old(node).ready_duplicates@,
            thr == old(node).ready_threshold,
            subs == old(node).ready_subscribers@,
            occ@.map_values(|p: (String, usize)| p.0@) == dedup_first(all_contents(sample)),
            forall|j: int|
                0 <= j < occ@.len() ==> #[trigger] occ@[j].1 as nat == contagion_weight(
                    sample,
                    dups,
                    occ@[j].0@,
                ),
            forall|i: int, j: int| 0 <= i < j < occ@.len() ==> occ@[i].0@ != occ@[j].0@,
            ready0.len() <= node.ready_messages@.len(),
            node.ready_messages@.take(ready0.len() as int) == ready0,
            forall|x: int|
                ready0.len() <= x < node.ready_messages@.len() ==> {
                    &&& (#[trigger] node.ready_messages@[x]).message_type == 2
                    &&& content_crossed(sample, dups, thr, node.ready_messages@[x].content@)
                    &&& !entry_has_content(ready0, node.ready_messages@[x].content@)
                },
            forall|x: int, y: int|
                ready0.len() <= x < y < node.ready_messages@.len() ==> node.ready_messages@[x].content@
                    != node.ready_messages@[y].content@,
            forall|j: int|
                0 <= j < k && occ@[j].1 >= thr && !entry_has_content(ready0, #[trigger] occ@[j].0@)
                    ==> entry_has_content(
                    node.ready_messages@.skip(ready0.len() as int),
                    occ@[j].0@,
                ),
            out@.len() == node.ready_messages@.len() - ready0.len(),
            forall|x: int|
                0 <= x < out@.len() ==> (#[trigger] out@[x]).targets@ == subs && out@[x].message
                    == node.ready_messages@[ready0.len() + x],
    {
        let crossing = occ[k].1 >= node.ready_threshold;
        if crossing {
            let already = entry_contains_content(&node.ready_messages, &occ[k].0);
            if !already {
                proof {
                    // the content occurs in the sample
                    let d = dedup_first(all_contents(sample));
                    assert(occ@[k as int].0@ == d[k as int]);
                    assert(d.contains(occ@[k as int].0@));
                    lemma_dedup_first_contains(all_contents(sample), occ@[k as int].0@);
                    lemma_all_contents_iff(sample, occ@[k as int].0@);
                    // not yet ready: absence from the current list gives
                    // absence from its prefix
                    assert forall|c: Seq<char>| entry_has_content(ready0, c) implies entry_has_content(
                        node.ready_messages@,
                        c,
                    ) by {
                        let i = choose|i: int| 0 <= i < ready0.len() && ready0[i].content@ == c;
                        assert(node.ready_messages@[i] == ready0[i]);
                    }
                }
                let m = Message::new(2, occ[k].0.clone());
                let ghost fresh0 = node.ready_messages@.skip(ready0.len() as int);
                node.ready_messages.push(m.duplicate());
                out.push(
                    Outbound { targets: copy_identities(&node.ready_subscribers), message: m },
                );
                proof {
                    assert(node.ready_messages@.take(ready0.len() as int) =~= ready0);
                    assert(node.ready_messages@.skip(ready0.len() as int) =~= fresh0.push(
                        node.ready_messages@.last(),
                    ));
                    assert forall|c: Seq<char>| entry_has_content(fresh0, c) implies entry_has_content(
                        node.ready_messages@.skip(ready0.len() as int),
                        c,
                    ) by {
                        let x = choose|x: int| 0 <= x < fresh0.len() && fresh0[x].content@ == c;
                        assert(node.ready_messages@.skip(ready0.len() as int)[x] == fresh0[x]);
                    }
                    assert forall|x: int, y: int|
                        ready0.len() <= x < y < node.ready_messages@.len() implies node.ready_messages@[x].content@
                        != node.ready_messages@[y].content@ by {
                        if y == node.ready_messages@.len() - 1 {
                            // the pushed content was absent from the whole list
                            assert(!entry_has_content(
                                node.ready_messages@.take(node.ready_messages@.len() - 1),
                                occ@[k as int].0@,
                            ));
                            assert(node.ready_messages@[x]
                                == node.ready_messages@.take(node.ready_messages@.len() - 1)[x]);
                        }
                    }
                }
            }
        }
        proof {
            // the content examined this round is accounted for either way
            if occ@[k as int].1 >= thr && !entry_has_content(ready0, occ@[k as int].0@) {
                let c = occ@[k as int].0@;
                if entry_has_content(node.ready_messages@, c) {
                    let i = choose|i: int|
                        0 <= i < node.ready_messages@.len() && node.ready_messages@[i].content@
                            == c;
                    if i < ready0.len() {
                        assert(node.ready_messages@[i] == ready0[i]);
                        assert(false);
                    } else {
                        let fresh = node.ready_messages@.skip(ready0.len() as int);
                        assert(fresh[i - ready0.len()].content@ == c);
                    }
                }
            }
        }
    }
    proof {
        let fresh = node.ready_messages@.skip(ready0.len() as int);
        assert forall|c: Seq<char>|
            #[trigger] content_crossed(sample, dups, thr, c) && !entry_has_content(
                ready0,
                c,
            ) implies entry_has_content(fresh, c) by {
            lemma_all_contents_iff(sample, c);
            lemma_dedup_first_contains(all_contents(sample), c);
            let d = dedup_first(all_contents(sample));
            assert(d.contains(c));
            let j = choose|j: int| 0 <= j < d.len() && d[j] == c;
            assert(occ@.map_values(|p: (String, usize)| p.0@)[j] == c);
            assert(occ@[j].0@ == c);
            assert(occ@[j].1 as nat == contagion_weight(sample, dups, c));
        }
        assert forall|x: int| 0 <= x < out@.len() implies (#[trigger] out@[x]).targets@ == subs
            && out@[x].message == fresh[x] by {
            assert(out@[x].message == node.ready_messages@[ready0.len() + x]);
        }
    }
    out
}

/// Delivery check: once some content crosses the delivery threshold,
/// it is delivered and the node never delivers again.
pub fn check_delivery(node: &mut Node) -> (got: Option<Message>)
    requires
        old(node).wf(),
    ensures
        final(node).wf(),
        same_config(*old(node), *final(node)),
        same_samples(*old(node), *final(node)),
        same_subscribers(*old(node), *final(node)),
        final(node).echo == old(node).echo,
        final(node).delivered_gossip == old(node).delivered_gossip,
        final(node).delivered_echo == old(node).delivered_echo,
        final(node).ready_messages == old(node).ready_messages,
        delivery_verdict(
            old(node).delivery_sample@,
            old(node).delivery_duplicates@,
            old(node).delivery_threshold,
            old(node).delivered,
            final(node).delivered,
            got,
        ),
{
    if node.delivered.is_some() {
        return None;
    }
    let occ = crate::utils::check_message_occurrences_contagion(
        &node.delivery_sample,
        &node.delivery_duplicates,
    );
    let ghost sample = node.delivery_sample@;
    let ghost dups = node.delivery_duplicates@;
    let ghost thr = node.delivery_threshold;
    let n = occ.len();
    for k in 0..n
        invariant
            n == occ@.len(),
            *node == *old(node),
            node.wf(),
            node.delivered is None,
            sample == node.delivery_sample@,
            dups == node.delivery_duplicates@,
            thr == node.delivery_threshold,
            occ@.map_values(|p: (String, usize)| p.0@) == dedup_first(all_contents(sample)),
            forall|j: int|
                0 <= j < occ@.len() ==> #[trigger] occ@[j].1 as nat == contagion_weight(
                    sample,
                    dups,
                    occ@[j].0@,
                ),
            forall|j: int| 0 <= j < k ==> (#[trigger] occ@[j].1) < thr,
    {
        if occ[k].1 >= node.delivery_threshold {
            proof {
                let d = dedup_first(all_contents(sample));
                assert(occ@[k as int].0@ == d[k as int]);
                assert(d.contains(occ@[k as int].0@));
                lemma_dedup_first_contains(all_contents(sample), occ@[k as int].0@);
                lemma_all_contents_iff(sample, occ@[k as int].0@);
            }
            let m = Message::new(2, occ[k].0.clone());
            node.delivered = Some(m.duplicate());
            proof {
                assert(content_crossed(sample, dups, thr, m.content@));
            }
            return Some(m);
        }
    }
    proof {
        assert forall|c: Seq<char>| !(#[trigger] content_crossed(sample, dups, thr, c)) by {
            if content_crossed(sample, dups, thr, c) {
                lemma_all_contents_iff(sample, c);
                lemma_dedup_first_contains(all_contents(sample), c);
                let d = dedup_first(all_contents(sample));
                let j = choose|j: int| 0 <= j < d.len() && d[j] == c;
                assert(occ@.map_values(|p: (String, usize)| p.0@)[j] == c);
                assert(occ@[j].0@ == c);
                assert(occ@[j].1 as nat == contagion_weight(sample, dups, c));
                assert(occ@[j].1 < thr);
            }
        }
    }
    None
}

/// A sampled peer's fresh reply is appended to its multiset; every
/// other entry stands.
pub open spec fn reply_recorded(
    s0: Seq<(Identity, Vec<Message>)>,
    s1: Seq<(Identity, Vec<Message>)>,
    from: Identity,
    msg: Message,
) -> bool {
    &&& s1.len() == s0.len()
    &&& forall|j: int| 0 <= j < s0.len() ==> (#[trigger] s1[j]).0 == s0[j].0
    &&& forall|j: int|
        0 <= j < s0.len() && s0[j].0 == from ==> (#[trigger] s1[j]).1@ == s0[j].1@.push(msg)
    &&& forall|j: int| 0 <= j < s0.len() && s0[j].0 != from ==> (#[trigger] s1[j]).1 == s0[j].1
}

fn record_reply(sample: &mut Vec<(Identity, Vec<Message>)>, i: usize, msg: Message)
    requires
        i < old(sample)@.len(),
    ensures
        final(sample)@.len() == old(sample)@.len(),
        forall|j: int|
            0 <= j < old(sample)@.len() && j != i ==> #[trigger] final(sample)@[j] == old(
                sample,
            )@[j],
        final(sample)@[i as int].0 == old(sample)@[i as int].0,
        final(sample)@[i as int].1@ == old(sample)@[i as int].1@.push(msg),
{
    let entry = sample.remove(i);
    let id = entry.0;
    let mut ms = entry.1;
    ms.push(msg);
    sample.insert(i, (id, ms));
    proof {
        assert forall|j: int|
            0 <= j < old(sample)@.len() && j != i implies sample@[j] == old(sample)@[j] by {}
    }
}

/// Routing a verified Ready from `from`: the reply is recorded in
/// whichever samples hold `from`, and the corresponding checks run.
pub open spec fn deliver_ready_rel(
    pre: Node,
    post: Node,
    from: Identity,
    msg: Message,
    out: Seq<Outbound>,
    got: Option<Message>,
) -> bool {
    &&& same_config(pre, post)
    &&& same_subscribers(pre, post)
    &&& same_duplicates(pre, post)
    &&& post.echo_sample == pre.echo_sample
    &&& post.echo == pre.echo
    &&& post.delivered_gossip == pre.delivered_gossip
    &&& post.delivered_echo == pre.delivered_echo
    &&& if tbl_contains(pre.ready_sample@, from) {
        reply_recorded(pre.ready_sample@, post.ready_sample@, from, msg)
    } else {
        post.ready_sample == pre.ready_sample
    }
    &&& if tbl_contains(pre.delivery_sample@, from) {
        reply_recorded(pre.delivery_sample@, post.delivery_sample@, from, msg)
    } else {
        post.delivery_sample == pre.delivery_sample
    }
    &&& if tbl_contains(pre.ready_sample@, from) {
        ready_emissions(
            post.ready_sample@,
            pre.ready_duplicates@,
            pre.ready_threshold,
            pre.ready_subscribers@,
            pre.ready_messages@,
            post.ready_messages@,
            out,
        )
    } else {
        post.ready_messages == pre.ready_messages && out.len() == 0
    }
    &&& if tbl_contains(pre.delivery_sample@, from) {
        delivery_verdict(
            post.delivery_sample@,
            pre.delivery_duplicates@,
            pre.delivery_threshold,
            pre.delivered,
            post.delivered,
            got,
        )
    } else {
        post.delivered == pre.delivered && got is None
    }
}

/// Deliver a verified Ready message.
pub fn deliver_ready(node: &mut Node, from: Identity, msg: Message) -> (r: (
    Vec<Outbound>,
    Option<Message>,
))
    requires
        old(node).wf(),
    ensures
        final(node).wf(),
        deliver_ready_rel(*old(node), *final(node), from, msg, r.0@, r.1),
{
    let mut out: Vec<Outbound> = Vec::new();
    let in_ready = tbl_find(&node.ready_sample, from);
    match in_ready {
        Some(i) => {
            let ghost s0 = node.ready_sample@;
            record_reply(&mut node.ready_sample, i, msg.duplicate());
            proof {
                assert(tbl_keys(node.ready_sample@) =~= tbl_keys(s0));
                assert(reply_recorded(s0, node.ready_sample@, from, msg));
            }
            out = check_ready(node);
        },
        None => {},
    }
    let in_delivery = tbl_find(&node.delivery_sample, from);
    match in_delivery {
        Some(i) => {
            let ghost s0 = node.delivery_sample@;
            record_reply(&mut node.delivery_sample, i, msg.duplicate());
            proof {
                assert(tbl_keys(node.delivery_sample@) =~= tbl_keys(s0));
                assert(reply_recorded(s0, node.delivery_sample@, from, msg));
            }
            let got = check_delivery(node);
            return (out, got);
        },
        None => {},
    }
    (out, None)
}

} // verus!
