//! Reaching a peer.

use murmure::message::Addr;
use murmure::transport::{
    after_launch, attempt_line, candidates, cert_fingerprint, client_nickname, ct_eq, describe,
    is_key_already_exists, no_direct_link, pulled_too_much, trusts, Attempt, Dialling, Ip,
    KeyHandover, Launch, NextLaunch,
};

const ADDR: &str = "haticvmas7sfodcos2yhp7sf43cxifwl5aafgeathnyad4culhdj7ryd.onion";

#[test]
fn candidates_always_include_a_way_back_to_this_machine() {
    for route in [None, Some(Ip::V4([192, 168, 1, 42])), Some(Ip::V6([7u8; 16]))] {
        let found = candidates(4242, route);
        assert!(found.iter().all(|a| match a {
            Addr::V4(_, port) | Addr::V6(_, port) => *port == 4242,
        }));
        assert!(
            found.iter().any(|a| matches!(a, Addr::V4([127, ..], _))),
            "two instances on one machine must be able to meet: {found:?}"
        );
    }
    assert_eq!(
        candidates(1, Some(Ip::V4([10, 0, 0, 9]))),
        vec![Addr::V4([10, 0, 0, 9], 1), Addr::V4([127, 0, 0, 1], 1)]
    );
}

#[test]
fn a_contact_address_yields_a_usable_client_nickname() {
    assert_eq!(client_nickname(ADDR), "haticvmas7sfodco");
    assert_eq!(client_nickname(ADDR.trim_end_matches(".onion")), "haticvmas7sfodco");
    assert_eq!(client_nickname("abc.onion"), "abc");
}

/// Only the certificate that was announced is trusted.
#[test]
fn only_the_announced_certificate_is_trusted() {
    let cert = b"a certificate";
    let announced = cert_fingerprint(cert);
    assert_eq!(announced, *blake3::hash(cert).as_bytes());
    assert!(trusts(cert, &announced));
    assert!(!trusts(cert, &[0u8; 32]));
    assert!(!trusts(b"another", &announced));
}

#[test]
fn every_byte_counts_in_a_comparison() {
    let a = [0x5au8; 32];
    assert!(ct_eq(&a, &a));
    for i in 0..32 {
        for bit in 0..8 {
            let mut b = a;
            b[i] ^= 1 << bit;
            assert!(!ct_eq(&a, &b));
        }
    }
}

#[test]
fn a_direct_link_takes_no_more_than_was_offered() {
    assert!(!pulled_too_much(0, 10, 10));
    assert!(pulled_too_much(0, 11, 10));
    assert!(pulled_too_much(10, 1, 10));
    assert!(pulled_too_much(u64::MAX, u64::MAX, 10));
    assert_eq!(no_direct_link(None), "the peer offered no address to try");
    assert_eq!(no_direct_link(Some("refused".into())), "refused");
}

#[test]
fn an_existing_key_is_no_failure() {
    let chain: Vec<String> = ["outer", "keystore: Key already exists in store"]
        .iter()
        .map(|s| (*s).to_owned())
        .collect();
    assert!(is_key_already_exists(&chain));
    assert!(!is_key_already_exists(&vec!["outer".to_owned()]));
    assert!(!is_key_already_exists(&Vec::new()));
    assert_eq!(
        describe("dialling x:7777", "RemoteHostNotFound", &chain),
        "dialling x:7777 failed [RemoteHostNotFound]: outer: keystore: Key already exists in store"
    );
    assert_eq!(describe("a", "b", &Vec::new()), "a failed [b]: ");
    assert_eq!(after_launch(Launch::Running), NextLaunch::Done(KeyHandover::Inserted));
    assert_eq!(after_launch(Launch::KeyExists), NextLaunch::WithStoredKey);
    assert_eq!(after_launch(Launch::Disabled), NextLaunch::OffByConfig);
    assert_eq!(after_launch(Launch::Failed), NextLaunch::GiveUp);
}

#[test]
fn a_dial_is_retried_until_its_time_is_up() {
    let mut d = Dialling::new(25_000);
    assert_eq!(d.next(0), Attempt::Try(25_000));
    assert_eq!(d.failed("no descriptor".into(), 4_000), 10_000);
    assert_eq!(d.next(14_000), Attempt::Try(11_000));
    assert_eq!(d.failed("timed out".into(), 20_000), 5_000);
    assert_eq!(d.next(25_000), Attempt::GiveUp);
    assert_eq!(d.outcome(), "giving up after 2 dial attempts in 25s: timed out");
    assert_eq!(
        Dialling::new(240_000).outcome(),
        "no dial attempt completed within 240s"
    );
    let mut late = Dialling::new(5);
    late.next(0);
    assert_eq!(late.failed("x".into(), 9), 0);
}

#[test]
fn a_failed_attempt_is_told_in_a_few_words() {
    assert_eq!(
        attempt_line(1, "unable to fetch descriptor"),
        "attempt 1: they are not published yet, retrying"
    );
    assert_eq!(attempt_line(2, "operation timed out"), "attempt 2: no answer yet, retrying");
    assert_eq!(attempt_line(3, "Timeout"), "attempt 3: no answer yet, retrying");
    assert_eq!(attempt_line(10, "reset"), "attempt 10: did not connect, retrying");
}
