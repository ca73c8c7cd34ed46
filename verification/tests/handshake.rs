//! The opening of a connection.

use murmure::handshake::{
    challenge, check_head, handshake, handshake_with, hello, HandshakeError, Stage, HELLO_LEN,
    VERSION,
};
use murmure::identity::Identity;

fn me() -> Identity {
    Identity::from_seed([1u8; 32])
}

/// The opening a peer on `version` with this identity would send.
fn opening(version: u16, who: &Identity) -> Vec<u8> {
    let mut out = b"murmure".to_vec();
    out.extend_from_slice(&version.to_le_bytes());
    out.extend_from_slice(&who.id());
    out.extend_from_slice(&[0u8; 32]);
    out
}

#[test]
fn matching_versions_agree() {
    let them = Identity::from_seed([2u8; 32]);
    let said = opening(VERSION, &them);
    let mut sent = Vec::new();
    let r = handshake(&said, &mut sent, &me());
    assert_eq!(r, Err(HandshakeError::Broken(Stage::Proof)));
    let ours = opening(VERSION, &me());
    assert_eq!(
        &sent[..ours.len() - 32],
        &ours[..ours.len() - 32],
        "we announced our version and our address"
    );
}

#[test]
fn a_different_version_is_refused_by_name() {
    let said = opening(VERSION + 1, &Identity::from_seed([2u8; 32]));
    let e = handshake(&said, &mut Vec::new(), &me()).unwrap_err().describe();
    assert!(e.contains(&(VERSION + 1).to_string()), "names theirs: {e}");
    assert!(e.contains(&VERSION.to_string()), "and ours: {e}");
    assert!(e.contains("same build"), "and says what to do: {e}");
}

#[test]
fn something_that_is_not_murmure_is_told_apart_from_a_version() {
    let e = handshake(b"GET / HTTP", &mut Vec::new(), &me()).unwrap_err().describe();
    assert!(e.contains("does not speak murmure"), "{e}");
}

#[test]
fn a_peer_that_never_answers_gives_up() {
    let e = HandshakeError::Silent(Stage::Head).describe();
    assert!(e.contains("older build"), "{e}");
}

#[test]
fn a_peer_that_never_proves_itself_gives_up() {
    let e = HandshakeError::Silent(Stage::Proof).describe();
    assert!(e.contains("never proved"), "{e}");
}

#[test]
fn a_truncated_header_is_an_error() {
    assert_eq!(
        handshake(b"murm", &mut Vec::new(), &me()),
        Err(HandshakeError::Broken(Stage::Head))
    );
    let said = opening(VERSION, &me());
    assert_eq!(
        handshake(&said[..40], &mut Vec::new(), &me()),
        Err(HandshakeError::Broken(Stage::Claim))
    );
}

#[test]
fn every_handshake_asks_a_different_question() {
    let mut first = Vec::new();
    let mut second = Vec::new();
    let said = opening(VERSION, &Identity::from_seed([2u8; 32]));
    let _ = handshake(&said, &mut first, &me());
    let _ = handshake(&said, &mut second, &me());
    assert_ne!(
        first[41..HELLO_LEN],
        second[41..HELLO_LEN],
        "a fixed challenge would make every proof replayable"
    );
}

/// What one side says, given what the other has said so far.
fn say(who: &Identity, nonce: &[u8; 32], heard: &[u8]) -> Vec<u8> {
    let mut sent = Vec::new();
    let _ = handshake_with(heard, &mut sent, who, nonce);
    sent
}

#[test]
fn both_sides_come_away_knowing_who_they_are_talking_to() {
    let (alice, bob) = (Identity::from_seed([1u8; 32]), Identity::from_seed([2u8; 32]));
    let (na, nb) = ([11u8; 32], [22u8; 32]);
    // Both send before they read, in both rounds.
    let from_a = say(&alice, &na, &hello(&bob.id(), &nb));
    let from_b = say(&bob, &nb, &hello(&alice.id(), &na));
    assert_eq!(handshake_with(&from_b, &mut Vec::new(), &alice, &na), Ok(bob.id()));
    assert_eq!(handshake_with(&from_a, &mut Vec::new(), &bob, &nb), Ok(alice.id()));
}

#[test]
fn an_address_that_cannot_be_proved_is_refused() {
    let victim = Identity::from_seed([1u8; 32]);
    let liar = Identity::from_seed([9u8; 32]);
    let other = Identity::from_seed([2u8; 32]);
    let nonce = [5u8; 32];
    let mut said = opening(VERSION, &victim);
    said.extend_from_slice(&liar.sign(b"anything at all"));
    let refused = handshake_with(&said, &mut Vec::new(), &other, &nonce).unwrap_err();
    assert!(
        refused.describe().contains("cannot prove"),
        "the refusal has to name the reason: {}",
        refused.describe()
    );
    // Not even with the right question signed by the wrong key.
    let mut said = opening(VERSION, &victim);
    said.extend_from_slice(&liar.sign(&challenge(&victim.id(), &other.id(), &nonce)));
    assert_eq!(
        handshake_with(&said, &mut Vec::new(), &other, &nonce),
        Err(HandshakeError::Unproved)
    );
    // With the right key it is believed.
    let mut said = opening(VERSION, &victim);
    said.extend_from_slice(&victim.sign(&challenge(&victim.id(), &other.id(), &nonce)));
    assert_eq!(handshake_with(&said, &mut Vec::new(), &other, &nonce), Ok(victim.id()));
}

/// A recording of yesterday's proof, and our own challenge reflected, prove nothing.
#[test]
fn a_replay_and_a_reflection_are_refused() {
    let them = Identity::from_seed([2u8; 32]);
    let (today, yesterday) = ([3u8; 32], [4u8; 32]);
    let mut said = opening(VERSION, &them);
    said.extend_from_slice(&them.sign(&challenge(&them.id(), &me().id(), &yesterday)));
    assert_eq!(
        handshake_with(&said, &mut Vec::new(), &me(), &today),
        Err(HandshakeError::Unproved)
    );
    let mut said = opening(VERSION, &them);
    said.extend_from_slice(&them.sign(&challenge(&me().id(), &them.id(), &today)));
    assert_eq!(
        handshake_with(&said, &mut Vec::new(), &me(), &today),
        Err(HandshakeError::Unproved)
    );
}

/// Bytes that are no key are refused before anything is signed for them.
#[test]
fn a_claim_that_is_no_key_is_refused() {
    let mut said = b"murmure".to_vec();
    said.extend_from_slice(&VERSION.to_le_bytes());
    said.extend_from_slice(b"aaaaaaaaaaaaaaaaaaaaaaaaaaaaaaaa");
    said.extend_from_slice(&[0u8; 96]);
    let mut sent = Vec::new();
    assert_eq!(handshake(&said, &mut sent, &me()), Err(HandshakeError::NotAKey));
    assert_eq!(sent.len(), HELLO_LEN);
}

#[test]
fn what_is_signed_names_both_parties_in_order() {
    let c = challenge(&[1u8; 32], &[2u8; 32], &[3u8; 32]);
    let mut expected = b"murmure-auth-v1".to_vec();
    expected.extend_from_slice(&[1u8; 32]);
    expected.extend_from_slice(&[2u8; 32]);
    expected.extend_from_slice(&[3u8; 32]);
    assert_eq!(c, expected);
    assert_eq!(check_head(b"murmure\x04\x00"), Ok(()));
    assert_eq!(check_head(b"murmure\x05\x01"), Err(HandshakeError::Version(261)));
    assert_eq!(check_head(b"murmurE\x04\x00"), Err(HandshakeError::NotMurmure));
}
