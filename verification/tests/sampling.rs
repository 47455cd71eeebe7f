use sbr_broadcast::message::{calculate_hash, Message};
use sbr_broadcast::murmur;
use sbr_broadcast::peer::Identity;
use sbr_broadcast::utils::{
    sample_contagion, sample_contagion_from_draws, sample_sieve, sample_sieve_from_draws,
};

fn dup_of(dups: &Vec<(Identity, usize)>, id: Identity) -> Option<usize> {
    for (k, v) in dups.iter() {
        if *k == id {
            return Some(*v);
        }
    }
    None
}

#[test]
fn sieve_sample_counts_duplicates() {
    // roster [A, A, B], draws A, A, B, A, B
    let a = Identity::new(1);
    let b = Identity::new(2);
    let draws = vec![a, a, b, a, b];
    let (sample, duplicates) = sample_sieve_from_draws(&draws);
    assert_eq!(sample.len(), 2);
    assert_eq!(duplicates.len(), 2);
    assert_eq!(sample[0].0, a);
    assert_eq!(sample[1].0, b);
    assert!(sample.iter().all(|e| e.1.is_none()));
    assert_eq!(dup_of(&duplicates, a), Some(3));
    assert_eq!(dup_of(&duplicates, b), Some(2));
}

#[test]
fn contagion_sample_counts_duplicates() {
    let a = Identity::new(7);
    let b = Identity::new(8);
    let c = Identity::new(9);
    let draws = vec![c, a, c, c];
    let (sample, duplicates) = sample_contagion_from_draws(&draws);
    assert_eq!(sample.len(), 2);
    assert_eq!(sample[0].0, c);
    assert_eq!(sample[1].0, a);
    assert!(sample.iter().all(|e| e.1.is_empty()));
    assert_eq!(dup_of(&duplicates, c), Some(3));
    assert_eq!(dup_of(&duplicates, a), Some(1));
    assert_eq!(dup_of(&duplicates, b), None);
}

#[test]
fn sieve_sample_of_empty_draws() {
    let draws: Vec<Identity> = Vec::new();
    let (sample, duplicates) = sample_sieve_from_draws(&draws);
    assert!(sample.is_empty());
    assert!(duplicates.is_empty());
}

#[test]
fn random_sieve_sample_stays_in_roster() {
    let roster = vec![Identity::new(1), Identity::new(2), Identity::new(3)];
    let (sample, duplicates) = sample_sieve(10, &roster);
    assert!(!sample.is_empty());
    assert!(sample.len() <= 3);
    let mut weight_total = 0;
    for (id, slot) in sample.iter() {
        assert!(roster.contains(id));
        assert!(slot.is_none());
        weight_total += dup_of(&duplicates, *id).unwrap_or(1);
    }
    assert_eq!(weight_total, 10);
}

#[test]
fn random_contagion_sample_stays_in_roster() {
    let roster = vec![Identity::new(4), Identity::new(5)];
    let (sample, duplicates) = sample_contagion(6, &roster);
    let mut weight_total = 0;
    for (id, replies) in sample.iter() {
        assert!(roster.contains(id));
        assert!(replies.is_empty());
        weight_total += dup_of(&duplicates, *id).unwrap_or(1);
    }
    assert_eq!(weight_total, 6);
}

#[test]
fn single_peer_roster_draws_only_it() {
    let only = Identity::new(42);
    let roster = vec![only];
    let peers = murmur::init(5, &roster);
    assert_eq!(peers.len(), 5);
    assert!(peers.iter().all(|p| *p == only));
}

#[test]
fn gossip_fanout_has_requested_size() {
    let roster = vec![Identity::new(1), Identity::new(2), Identity::new(3)];
    let peers = murmur::init(4, &roster);
    assert_eq!(peers.len(), 4);
    assert!(peers.iter().all(|p| roster.contains(p)));
}

#[test]
fn digest_is_deterministic() {
    let m = Message::new(0, String::from("hello"));
    let first = calculate_hash(m.content.as_bytes());
    let second = calculate_hash(m.content.as_bytes());
    assert_eq!(first, second);
}
