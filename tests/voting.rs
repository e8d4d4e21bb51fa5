use std::collections::HashSet;

use voting::ident::{generate_id, make_external_key};
use voting::poll::VotingOptions;
use voting::voting::Voting;

fn s(x: &str) -> String {
    x.to_string()
}

fn options(pairs: &[(&str, &str)]) -> Vec<(String, String)> {
    pairs.iter().map(|(k, v)| (s(k), s(v))).collect()
}

fn ballot(pairs: &[(&str, bool)]) -> Vec<(String, bool)> {
    pairs.iter().map(|(k, b)| (s(k), *b)).collect()
}

fn new_poll(v: &mut Voting, digest: Vec<u8>) -> String {
    v.create_voting(s("bob_near"), s("alice_near"), digest, s("Which?"), options(&[("yes", "Yes"), ("no", "No")]))
}

fn assert_placeholder(p: &VotingOptions) {
    assert_eq!(p.creator(), "Bogus");
    assert_eq!(p.voting_id(), "000000000000");
    assert_eq!(p.question(), "Bogus question");
    let vs = p.variants();
    assert_eq!(vs.len(), 2);
    assert_eq!(vs[0].option_id(), "variant1");
    assert_eq!(vs[0].message(), "Variant 1");
    assert_eq!(vs[1].option_id(), "variant2");
    assert_eq!(vs[1].message(), "Variant2 2");
}

#[test]
fn scenario_yes_no() {
    let mut v = Voting::new();
    let key = new_poll(&mut v, vec![7; 32]);
    assert!(v.vote(key.clone(), s("V1"), ballot(&[("yes", true)])));
    assert_eq!(v.vote_count(&key, &s("yes")), Some(1));
    assert_eq!(v.vote_count(&key, &s("no")), Some(0));
    assert!(v.has_voted(&key, &s("V1")));
    assert!(!v.has_voted(&key, &s("V2")));
    assert!(!v.vote(key.clone(), s("V1"), ballot(&[("no", true)])));
    assert_eq!(v.vote_count(&key, &s("yes")), Some(1));
    assert_eq!(v.vote_count(&key, &s("no")), Some(0));
    assert!(v.vote(key.clone(), s("V2"), ballot(&[("no", true)])));
    assert_eq!(v.vote_count(&key, &s("yes")), Some(1));
    assert_eq!(v.vote_count(&key, &s("no")), Some(1));
    assert!(v.has_voted(&key, &s("V1")));
    assert!(v.has_voted(&key, &s("V2")));
}

#[test]
fn keys_are_unique_over_many_polls() {
    let mut v = Voting::new();
    let mut seen = HashSet::new();
    for i in 0u32..10_000 {
        let mut digest = vec![0xabu8; 32];
        digest[..4].copy_from_slice(&i.to_be_bytes());
        let key = new_poll(&mut v, digest);
        assert!(seen.insert(key));
    }
    assert_eq!(seen.len(), 10_000);
}

#[test]
fn second_vote_is_refused_and_changes_nothing() {
    let mut v = Voting::new();
    let key = new_poll(&mut v, vec![1, 2, 3]);
    assert!(v.vote(key.clone(), s("carol"), ballot(&[("yes", true), ("no", true)])));
    for _ in 0..3 {
        assert!(!v.vote(key.clone(), s("carol"), ballot(&[("yes", true)])));
        assert_eq!(v.vote_count(&key, &s("yes")), Some(1));
        assert_eq!(v.vote_count(&key, &s("no")), Some(1));
    }
}

#[test]
fn empty_ballot_still_uses_the_vote() {
    let mut v = Voting::new();
    let key = new_poll(&mut v, vec![9]);
    assert!(v.vote(key.clone(), s("dave"), ballot(&[])));
    assert!(v.has_voted(&key, &s("dave")));
    assert_eq!(v.vote_count(&key, &s("yes")), Some(0));
    assert!(!v.vote(key.clone(), s("dave"), ballot(&[("yes", true)])));
    assert_eq!(v.vote_count(&key, &s("yes")), Some(0));
}

#[test]
fn show_unknown_poll_gives_the_same_placeholder() {
    let v = Voting::new();
    let a = v.show_options(s("owner=x&voting=y"));
    let b = v.show_options(s("owner=x&voting=y"));
    assert_eq!(a, b);
    assert_placeholder(&a);
}

#[test]
fn show_known_poll_twice() {
    let mut v = Voting::new();
    let key = new_poll(&mut v, vec![0, 0, 1]);
    let a = v.show_options(key.clone());
    let b = v.show_options(key.clone());
    assert_eq!(a, b);
    assert_eq!(a.creator(), "bob_near");
    assert_eq!(a.voting_id(), "112");
    assert_eq!(a.question(), "Which?");
    let vs = a.variants();
    assert_eq!(vs.len(), 2);
    assert_eq!(vs[0].option_id(), "yes");
    assert_eq!(vs[0].message(), "Yes");
    assert_eq!(vs[1].option_id(), "no");
    assert_eq!(vs[1].message(), "No");
}

#[test]
fn only_chosen_options_are_counted() {
    let mut v = Voting::new();
    let key = v.create_voting(s("c"), s("o"), vec![5], s("q"), options(&[("a", "A"), ("b", "B")]));
    assert!(v.vote(key.clone(), s("voter"), ballot(&[("a", true), ("b", false)])));
    assert_eq!(v.vote_count(&key, &s("a")), Some(1));
    assert_eq!(v.vote_count(&key, &s("b")), Some(0));
}

#[test]
fn vote_on_unknown_poll_is_refused() {
    let mut v = Voting::new();
    let known = new_poll(&mut v, vec![4, 4]);
    let unknown = s("owner=alice_near&voting=nothing");
    let before = v.show_options(unknown.clone());
    assert!(!v.has_tally(&unknown));
    assert!(!v.vote(unknown.clone(), s("V1"), ballot(&[("yes", true)])));
    assert!(!v.has_tally(&unknown));
    assert_eq!(v.vote_count(&unknown, &s("yes")), None);
    assert!(!v.has_voted(&unknown, &s("V1")));
    assert_eq!(v.show_options(unknown), before);
    assert!(v.has_tally(&known));
    assert_eq!(v.vote_count(&known, &s("yes")), Some(0));
}

#[test]
fn external_key_format() {
    let mut v = Voting::new();
    let key = v.create_voting(s("bob"), s("alice_near"), vec![1], s("q"), options(&[]));
    assert_eq!(key, "owner=alice_near&voting=2");
    assert_eq!(make_external_key(&s("o"), &s("id")), "owner=o&voting=id");
}

#[test]
fn identifiers_are_base58() {
    assert_eq!(generate_id(&vec![0, 0, 1]), "112");
    assert_eq!(generate_id(&b"hello world".to_vec()), "StV1DL6CwTryKyV");
    assert_eq!(generate_id(&vec![0; 32]), "1".repeat(32));
    assert_eq!(generate_id(&vec![0xff; 32]).len(), 44);
}

#[test]
fn recreating_a_poll_keeps_its_tally() {
    let mut v = Voting::new();
    let key = new_poll(&mut v, vec![3]);
    assert!(v.vote(key.clone(), s("V1"), ballot(&[("yes", true)])));
    let again = v.create_voting(s("eve"), s("alice_near"), vec![3], s("Other?"), options(&[("x", "X")]));
    assert_eq!(again, key);
    assert_eq!(v.show_options(key.clone()).question(), "Other?");
    assert_eq!(v.vote_count(&key, &s("yes")), Some(1));
    assert!(!v.vote(key.clone(), s("V1"), ballot(&[("x", true)])));
}

#[test]
fn polls_are_independent() {
    let mut v = Voting::default();
    let k1 = new_poll(&mut v, vec![1, 1]);
    let k2 = new_poll(&mut v, vec![2, 2]);
    assert_ne!(k1, k2);
    assert!(v.vote(k1.clone(), s("V1"), ballot(&[("yes", true)])));
    assert!(v.vote(k2.clone(), s("V1"), ballot(&[("no", true)])));
    assert_eq!(v.vote_count(&k1, &s("yes")), Some(1));
    assert_eq!(v.vote_count(&k1, &s("no")), Some(0));
    assert_eq!(v.vote_count(&k2, &s("yes")), Some(0));
    assert_eq!(v.vote_count(&k2, &s("no")), Some(1));
}

#[test]
fn has_poll_after_creation() {
    let mut v = Voting::new();
    let key = new_poll(&mut v, vec![8]);
    assert!(v.has_poll(&key));
    assert_eq!(key, "owner=alice_near&voting=9");
    assert!(!v.has_poll(&s("owner=alice_near&voting=8")));
}
