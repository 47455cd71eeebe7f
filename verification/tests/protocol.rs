use sbr_broadcast::message::Message;
use sbr_broadcast::message_headers::{header_for_tag, Header};
use sbr_broadcast::node::{handle, Node};
use sbr_broadcast::peer::Identity;
use sbr_broadcast::utils::{sample_contagion_from_draws, sample_sieve_from_draws};
use std::collections::VecDeque;

fn make_node(
    my: u64,
    ids: &[u64],
    gossip: &[u64],
    e_thr: usize,
    r_thr: usize,
    d_thr: usize,
) -> Node {
    let roster: Vec<Identity> = ids.iter().map(|k| Identity::new(*k)).collect();
    let mut node = Node::new(roster, my as usize, e_thr, r_thr, d_thr);
    let others: Vec<Identity> = ids
        .iter()
        .filter(|k| **k != my)
        .map(|k| Identity::new(*k))
        .collect();
    let (es, ed) = sample_sieve_from_draws(&others);
    node.echo_sample = es;
    node.echo_duplicates = ed;
    let (rs, rd) = sample_contagion_from_draws(&others);
    node.ready_sample = rs;
    node.ready_duplicates = rd;
    let (ds, dd) = sample_contagion_from_draws(&others);
    node.delivery_sample = ds;
    node.delivery_duplicates = dd;
    node.gossip_peers = gossip.iter().map(|k| Identity::new(*k)).collect();
    assert!(node.check_wf());
    node
}

fn run(
    nodes: &mut Vec<Node>,
    ids: &[u64],
    queue: &mut VecDeque<(u64, u64, Message)>,
    silent: &[u64],
) {
    while let Some((from, to, msg)) = queue.pop_front() {
        if silent.contains(&to) {
            continue;
        }
        let idx = ids.iter().position(|k| *k == to).unwrap();
        let out = handle(&mut nodes[idx], Identity::new(from), msg, true);
        for ob in out.sends.iter() {
            for t in ob.targets.iter() {
                queue.push_back((to, t.key, ob.message.clone()));
            }
        }
    }
}

fn subscribe_all(
    nodes: &mut Vec<Node>,
    ids: &[u64],
    queue: &mut VecDeque<(u64, u64, Message)>,
    silent: &[u64],
) {
    for tag in [6u32, 7, 8] {
        for id in ids.iter() {
            if silent.contains(id) {
                continue;
            }
            queue.push_back((*id, *id, Message::new(tag, String::from("init"))));
        }
        run(nodes, ids, queue, silent);
    }
}

#[test]
fn all_nodes_deliver_the_broadcast() {
    let ids = [1u64, 2, 3, 4];
    let mut nodes = vec![
        make_node(1, &ids, &[2, 3], 2, 2, 2),
        make_node(2, &ids, &[3, 4], 2, 2, 2),
        make_node(3, &ids, &[4, 1], 2, 2, 2),
        make_node(4, &ids, &[1, 2], 2, 2, 2),
    ];
    let mut queue: VecDeque<(u64, u64, Message)> = VecDeque::new();
    subscribe_all(&mut nodes, &ids, &mut queue, &[]);
    queue.push_back((1, 1, Message::new(9, String::from("hello"))));
    run(&mut nodes, &ids, &mut queue, &[]);
    for node in nodes.iter() {
        assert_eq!(node.delivered_gossip.as_ref().unwrap().content, "hello");
        assert_eq!(node.delivered_echo.as_ref().unwrap().content, "hello");
        let got = node.delivered.as_ref().unwrap();
        assert_eq!(got.content, "hello");
        assert_eq!(got.message_type, 2);
    }
}

#[test]
fn equivocating_sender_cannot_split_delivery() {
    let ids = [1u64, 2, 3, 4];
    let mut nodes = vec![
        make_node(1, &ids, &[2, 3], 2, 2, 2),
        make_node(2, &ids, &[3, 4], 2, 2, 2),
        make_node(3, &ids, &[4, 2], 2, 2, 2),
        make_node(4, &ids, &[2, 3], 2, 2, 2),
    ];
    let mut queue: VecDeque<(u64, u64, Message)> = VecDeque::new();
    // node 1 is the adversary: it stays silent except for two
    // conflicting gossips, one per disjoint fan-out of size one
    let silent = [1u64];
    subscribe_all(&mut nodes, &ids, &mut queue, &silent);
    queue.push_back((1, 2, Message::new(0, String::from("a"))));
    queue.push_back((1, 3, Message::new(0, String::from("b"))));
    run(&mut nodes, &ids, &mut queue, &silent);
    let delivered: Vec<&Message> = nodes[1..]
        .iter()
        .filter_map(|n| n.delivered.as_ref())
        .collect();
    for got in delivered.iter() {
        assert!(got.content == "a" || got.content == "b");
    }
    for pair in delivered.windows(2) {
        assert_eq!(pair[0].content, pair[1].content);
    }
}

#[test]
fn crashed_node_does_not_stop_delivery() {
    let ids = [1u64, 2, 3, 4];
    let mut nodes = vec![
        make_node(1, &ids, &[2, 3], 2, 2, 2),
        make_node(2, &ids, &[3, 4], 2, 2, 2),
        make_node(3, &ids, &[4, 1], 2, 2, 2),
        make_node(4, &ids, &[1, 2], 2, 2, 2),
    ];
    let mut queue: VecDeque<(u64, u64, Message)> = VecDeque::new();
    let silent = [4u64];
    subscribe_all(&mut nodes, &ids, &mut queue, &silent);
    queue.push_back((1, 1, Message::new(9, String::from("hello"))));
    run(&mut nodes, &ids, &mut queue, &silent);
    for node in nodes[..3].iter() {
        let got = node.delivered.as_ref().unwrap();
        assert_eq!(got.content, "hello");
    }
    assert!(nodes[3].delivered.is_none());
}

#[test]
fn unsigned_gossip_is_dropped() {
    let ids = [1u64, 2, 3, 4];
    let mut nodes = vec![
        make_node(1, &ids, &[2, 3], 2, 2, 2),
        make_node(2, &ids, &[3, 4], 2, 2, 2),
        make_node(3, &ids, &[4, 1], 2, 2, 2),
        make_node(4, &ids, &[1, 2], 2, 2, 2),
    ];
    let mut queue: VecDeque<(u64, u64, Message)> = VecDeque::new();
    subscribe_all(&mut nodes, &ids, &mut queue, &[]);
    for idx in 0..4 {
        let out = handle(
            &mut nodes[idx],
            Identity::new(2),
            Message::new(0, String::from("evil")),
            false,
        );
        assert!(out.sends.is_empty());
        assert!(out.delivered.is_none());
    }
    for node in nodes.iter() {
        assert!(node.delivered_gossip.is_none());
        assert!(node.delivered.is_none());
        assert!(node.echo.is_none());
    }
}

#[test]
fn unknown_sender_is_dropped() {
    let ids = [1u64, 2];
    let mut node = make_node(1, &ids, &[2], 1, 1, 1);
    let out = handle(
        &mut node,
        Identity::new(99),
        Message::new(0, String::from("stranger")),
        true,
    );
    assert!(out.sends.is_empty());
    assert!(node.delivered_gossip.is_none());
}

#[test]
fn delivery_happens_at_most_once() {
    let ids = [1u64, 2, 3];
    let mut node = make_node(1, &ids, &[2], 1, 1, 1);
    let first = handle(
        &mut node,
        Identity::new(2),
        Message::new(2, String::from("one")),
        true,
    );
    assert_eq!(first.delivered.as_ref().unwrap().content, "one");
    assert_eq!(node.delivered.as_ref().unwrap().content, "one");
    let second = handle(
        &mut node,
        Identity::new(3),
        Message::new(2, String::from("two")),
        true,
    );
    assert!(second.delivered.is_none());
    assert_eq!(node.delivered.as_ref().unwrap().content, "one");
}

#[test]
fn ready_messages_grow_monotonically() {
    let ids = [1u64, 2, 3, 4];
    let mut node = make_node(1, &ids, &[2], 2, 2, 2);
    let mut seen: Vec<String> = Vec::new();
    for (from, content) in [(2u64, "m"), (3, "m"), (4, "m"), (2, "n")] {
        let before: Vec<String> = node.ready_messages.iter().map(|m| m.content.clone()).collect();
        handle(
            &mut node,
            Identity::new(from),
            Message::new(2, String::from(content)),
            true,
        );
        let after: Vec<String> = node.ready_messages.iter().map(|m| m.content.clone()).collect();
        assert!(after.len() >= before.len());
        assert_eq!(&after[..before.len()], &before[..]);
        seen = after;
    }
    assert!(seen.contains(&String::from("m")));
}

#[test]
fn ready_reemission_is_idempotent() {
    let ids = [1u64, 2, 3, 4];
    let mut node = make_node(1, &ids, &[2], 2, 2, 2);
    // readies from two sampled peers cross the threshold of two
    handle(&mut node, Identity::new(2), Message::new(2, String::from("m")), true);
    assert_eq!(node.ready_messages.len(), 0);
    handle(&mut node, Identity::new(3), Message::new(2, String::from("m")), true);
    let count = node.ready_messages.iter().filter(|x| x.content == "m").count();
    assert_eq!(count, 1);
    // a third crossing does not enqueue the content again
    handle(&mut node, Identity::new(4), Message::new(2, String::from("m")), true);
    let count = node.ready_messages.iter().filter(|x| x.content == "m").count();
    assert_eq!(count, 1);
}

#[test]
fn gossip_delivered_exactly_once() {
    let ids = [1u64, 2, 3];
    let mut node = make_node(1, &ids, &[2, 3], 2, 2, 2);
    let first = handle(
        &mut node,
        Identity::new(2),
        Message::new(0, String::from("first")),
        true,
    );
    assert_eq!(node.delivered_gossip.as_ref().unwrap().content, "first");
    assert_eq!(node.echo.as_ref().unwrap().content, "first");
    assert_eq!(first.sends.len(), 2);
    assert_eq!(first.sends[0].message.content, "first");
    let second = handle(
        &mut node,
        Identity::new(3),
        Message::new(0, String::from("second")),
        true,
    );
    assert!(second.sends.is_empty());
    assert_eq!(node.delivered_gossip.as_ref().unwrap().content, "first");
}

#[test]
fn subscriptions_are_answered_and_kept() {
    let ids = [1u64, 2, 3];
    let mut node = make_node(1, &ids, &[2], 2, 2, 2);
    // before any delivery, a gossip subscription gets no reply
    let quiet = handle(
        &mut node,
        Identity::new(3),
        Message::new(3, String::from("GossipSubscription")),
        true,
    );
    assert!(quiet.sends.is_empty());
    assert_eq!(node.gossip_peers.last().unwrap().key, 3);
    // after delivery, echo subscriptions are answered with the echo
    handle(&mut node, Identity::new(2), Message::new(0, String::from("x")), true);
    let answered = handle(
        &mut node,
        Identity::new(3),
        Message::new(4, String::from("EchoSubscription")),
        true,
    );
    assert_eq!(answered.sends.len(), 1);
    assert_eq!(answered.sends[0].targets, vec![Identity::new(3)]);
    assert_eq!(answered.sends[0].message.message_type, 1);
    assert_eq!(answered.sends[0].message.content, "x");
    assert_eq!(node.echo_subscribers.last().unwrap().key, 3);
}

#[test]
fn ready_subscription_replays_ready_messages() {
    let ids = [1u64, 2, 3, 4];
    let mut node = make_node(1, &ids, &[2], 2, 2, 2);
    handle(&mut node, Identity::new(2), Message::new(2, String::from("m")), true);
    handle(&mut node, Identity::new(3), Message::new(2, String::from("m")), true);
    assert_eq!(node.ready_messages.len(), 1);
    let replay = handle(
        &mut node,
        Identity::new(4),
        Message::new(5, String::from("ReadySubscription")),
        true,
    );
    assert_eq!(replay.sends.len(), 1);
    assert_eq!(replay.sends[0].targets, vec![Identity::new(4)]);
    assert_eq!(replay.sends[0].message.message_type, 2);
    assert_eq!(replay.sends[0].message.content, "m");
    assert_eq!(node.ready_subscribers.last().unwrap().key, 4);
}

#[test]
fn subscription_rounds_target_the_samples() {
    let ids = [1u64, 2, 3, 4];
    let mut node = make_node(1, &ids, &[2, 3], 2, 2, 2);
    // the ready round targets the union of both samples, deduplicated
    let a = Identity::new(11);
    let b = Identity::new(12);
    let c = Identity::new(13);
    let (rs, rd) = sample_contagion_from_draws(&vec![a, b, b]);
    node.ready_sample = rs;
    node.ready_duplicates = rd;
    let (ds, dd) = sample_contagion_from_draws(&vec![b, c]);
    node.delivery_sample = ds;
    node.delivery_duplicates = dd;
    assert!(node.check_wf());
    let gossip_round = handle(&mut node, Identity::new(1), Message::new(6, String::new()), true);
    assert_eq!(gossip_round.sends.len(), 1);
    assert_eq!(
        gossip_round.sends[0].targets,
        vec![Identity::new(2), Identity::new(3)]
    );
    assert_eq!(gossip_round.sends[0].message.message_type, 3);
    assert_eq!(gossip_round.sends[0].message.content, "GossipSubscription");
    let echo_round = handle(&mut node, Identity::new(1), Message::new(7, String::new()), true);
    assert_eq!(echo_round.sends.len(), 1);
    assert_eq!(
        echo_round.sends[0].targets,
        vec![Identity::new(2), Identity::new(3), Identity::new(4)]
    );
    assert_eq!(echo_round.sends[0].message.message_type, 4);
    assert_eq!(echo_round.sends[0].message.content, "EchoSubscription");
    let ready_round = handle(&mut node, Identity::new(1), Message::new(8, String::new()), true);
    assert_eq!(ready_round.sends.len(), 1);
    assert_eq!(ready_round.sends[0].targets, vec![a, b, c]);
    assert_eq!(ready_round.sends[0].message.message_type, 5);
    assert_eq!(ready_round.sends[0].message.content, "ReadySubscription");
}

#[test]
fn duplicate_draws_weigh_double_toward_the_threshold() {
    let ids = [1u64, 2, 3];
    let mut node = make_node(1, &ids, &[2], 2, 2, 2);
    // peer 2 was drawn twice into the echo sample, so its one echo
    // carries weight two and crosses the threshold alone
    let (es, ed) = sample_sieve_from_draws(&vec![Identity::new(2), Identity::new(2)]);
    node.echo_sample = es;
    node.echo_duplicates = ed;
    assert!(node.check_wf());
    handle(&mut node, Identity::new(3), Message::new(0, String::from("w")), true);
    assert!(node.delivered_echo.is_none());
    let out = handle(&mut node, Identity::new(2), Message::new(1, String::from("w")), true);
    assert_eq!(node.delivered_echo.as_ref().unwrap().content, "w");
    assert_eq!(node.ready_messages.len(), 1);
    assert_eq!(out.sends.len(), 1);
    assert_eq!(out.sends[0].message.message_type, 2);
    assert_eq!(out.sends[0].message.content, "w");
}

#[test]
fn unknown_role_tag_is_dropped() {
    let ids = [1u64, 2];
    let mut node = make_node(1, &ids, &[2], 1, 1, 1);
    let out = handle(
        &mut node,
        Identity::new(2),
        Message::new(17, String::from("junk")),
        true,
    );
    assert!(out.sends.is_empty());
    assert!(out.delivered.is_none());
    assert!(node.delivered_gossip.is_none());
}

#[test]
fn role_headers_match_their_tags() {
    assert_eq!(header_for_tag(0), Some(Header::Gossip));
    assert_eq!(header_for_tag(1), Some(Header::Echo));
    assert_eq!(header_for_tag(2), Some(Header::Ready));
    assert_eq!(header_for_tag(3), Some(Header::GossipSubscription));
    assert_eq!(header_for_tag(4), Some(Header::EchoSubscription));
    assert_eq!(header_for_tag(5), Some(Header::ReadySubscription));
    assert_eq!(header_for_tag(6), Some(Header::InitGossip));
    assert_eq!(header_for_tag(7), Some(Header::InitEcho));
    assert_eq!(header_for_tag(8), Some(Header::InitReady));
    assert_eq!(header_for_tag(9), Some(Header::Gossip));
    assert_eq!(header_for_tag(10), None);
}
