use sbr_broadcast::message::Message;
use sbr_broadcast::peer::Identity;
use sbr_broadcast::utils::{
    check_message_occurrences_contagion, check_message_occurrences_sieve,
};

fn lookup(occ: &Vec<(String, usize)>, key: &str) -> Option<usize> {
    for (c, n) in occ.iter() {
        if c == key {
            return Some(*n);
        }
    }
    None
}

#[test]
fn sieve_occurrences() {
    let echo = Message::new(2, String::from("Test1"));
    let msg1 = Some(Message::new(2, String::from("Test1")));
    let msg2 = Some(Message::new(2, String::from("Test2")));
    let id1 = Identity::new(1);
    let id2 = Identity::new(2);
    let id3 = Identity::new(3);
    let id4 = Identity::new(4);
    let messages = vec![
        (id1, msg1.clone()),
        (id2, msg1.clone()),
        (id3, msg2.clone()),
        (id4, msg2.clone()),
    ];
    let duplicates = vec![(id2, 2), (id3, 3), (id4, 4)];
    let res = check_message_occurrences_sieve(&messages, &duplicates, &echo);
    assert_eq!(res, 3);
}

#[test]
fn contagion_occurrences() {
    let msg1 = Message::new(2, String::from("Test1"));
    let msg2 = Message::new(2, String::from("Test2"));
    let id1 = Identity::new(1);
    let id2 = Identity::new(2);
    let id3 = Identity::new(3);
    let id4 = Identity::new(4);
    let messages = vec![
        (id1, vec![msg1.clone()]),
        (id2, vec![msg1.clone()]),
        (id3, vec![msg1.clone(), msg2.clone()]),
        (id4, vec![msg2.clone()]),
    ];
    let duplicates = vec![(id2, 2), (id3, 3), (id4, 4)];
    let res = check_message_occurrences_contagion(&messages, &duplicates);
    assert_eq!(res.len(), 2);
    assert_eq!(lookup(&res, "Test1"), Some(6));
    assert_eq!(lookup(&res, "Test2"), Some(7));
}

#[test]
fn contagion_occurrences_scenario_weights() {
    // ready_sample = {A: {m1}, B: {m1, m2}}, duplicates = {A: 2, B: 3}
    let m1 = Message::new(2, String::from("m1"));
    let m2 = Message::new(2, String::from("m2"));
    let a = Identity::new(10);
    let b = Identity::new(11);
    let messages = vec![(a, vec![m1.clone()]), (b, vec![m1.clone(), m2.clone()])];
    let duplicates = vec![(a, 2), (b, 3)];
    let res = check_message_occurrences_contagion(&messages, &duplicates);
    assert_eq!(res.len(), 2);
    assert_eq!(lookup(&res, "m1"), Some(5));
    assert_eq!(lookup(&res, "m2"), Some(3));
}

#[test]
fn contagion_occurrences_count_one_peer_once() {
    // a peer that repeated the same content still weighs in only once
    let m1 = Message::new(2, String::from("again"));
    let a = Identity::new(1);
    let b = Identity::new(2);
    let messages = vec![
        (a, vec![m1.clone(), m1.clone(), m1.clone()]),
        (b, vec![m1.clone()]),
    ];
    let duplicates = vec![(a, 2)];
    let res = check_message_occurrences_contagion(&messages, &duplicates);
    assert_eq!(res.len(), 1);
    assert_eq!(lookup(&res, "again"), Some(3));
}

#[test]
fn sieve_occurrences_default_weight_is_one() {
    let echo = Message::new(1, String::from("x"));
    let a = Identity::new(1);
    let messages = vec![(a, Some(Message::new(1, String::from("x"))))];
    let duplicates: Vec<(Identity, usize)> = Vec::new();
    assert_eq!(check_message_occurrences_sieve(&messages, &duplicates, &echo), 1);
}

#[test]
fn sieve_occurrences_empty_slots_count_nothing() {
    let echo = Message::new(1, String::from("x"));
    let a = Identity::new(1);
    let b = Identity::new(2);
    let messages: Vec<(Identity, Option<Message>)> = vec![(a, None), (b, None)];
    let duplicates = vec![(a, 5), (b, 7)];
    assert_eq!(check_message_occurrences_sieve(&messages, &duplicates, &echo), 0);
}

#[test]
fn contagion_occurrences_empty_sample() {
    let messages: Vec<(Identity, Vec<Message>)> = Vec::new();
    let duplicates: Vec<(Identity, usize)> = Vec::new();
    let res = check_message_occurrences_contagion(&messages, &duplicates);
    assert!(res.is_empty());
}
