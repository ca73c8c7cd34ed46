//! One connection: opened, talked over, and ended.

use murmure::handshake::{handshake_with, HandshakeError};
use murmure::identity::{Identity, PeerId};
use murmure::link::{closed, delivers, Writing};
use murmure::message::Message;
use murmure::proto::{write_frame, FrameReader};

/// One end of a connection, with what it has written and what it has read of the other end.
struct End {
    peer: PeerId,
    written: Vec<u8>,
    read: usize,
    frames: FrameReader,
}

impl End {
    fn send(&mut self, msg: Message) {
        write_frame(&mut self.written, &msg).unwrap();
    }

    /// The next message from the other end; `None` once it has nothing more to read.
    fn recv(&mut self, other: &End) -> Option<Message> {
        while self.read < other.written.len() {
            let n = self.frames.wanted().min(other.written.len() - self.read);
            let chunk = &other.written[self.read..self.read + n];
            self.read += n;
            if let Some(msg) = self.frames.feed(chunk).unwrap() {
                if delivers(&msg) {
                    return Some(msg);
                }
            }
        }
        self.frames.ended().unwrap();
        None
    }
}

/// What each side says in answer to what it has heard so far, until both are done.
fn opened(a: &Identity, b: &Identity) -> (Result<PeerId, HandshakeError>, Result<PeerId, HandshakeError>) {
    let (na, nb) = ([3u8; 32], [4u8; 32]);
    let (mut from_a, mut from_b) = (Vec::new(), Vec::new());
    for _ in 0..3 {
        let mut said = Vec::new();
        let _ = handshake_with(&from_b, &mut said, a, &na);
        from_a = said;
        let mut said = Vec::new();
        let _ = handshake_with(&from_a, &mut said, b, &nb);
        from_b = said;
    }
    (
        handshake_with(&from_b, &mut Vec::new(), a, &na),
        handshake_with(&from_a, &mut Vec::new(), b, &nb),
    )
}

fn pair() -> (End, End) {
    let (a, b) = opened(&Identity::from_seed([1u8; 32]), &Identity::from_seed([2u8; 32]));
    let end = |peer| End { peer, written: Vec::new(), read: 0, frames: FrameReader::new() };
    (end(a.unwrap()), end(b.unwrap()))
}

#[test]
fn both_ends_agree_on_who_is_who() {
    let (a, b) = pair();
    assert_eq!(a.peer, Identity::from_seed([2u8; 32]).id());
    assert_eq!(b.peer, Identity::from_seed([1u8; 32]).id());
}

#[test]
fn a_frame_sent_on_one_side_arrives_on_the_other() {
    let (mut a, mut b) = pair();
    a.send(Message::Text("bonjour".into()));
    assert_eq!(b.recv(&a), Some(Message::Text("bonjour".into())));
}

#[test]
fn a_link_outlives_what_is_said_over_it() {
    let (mut a, mut b) = pair();
    a.send(Message::Text("first call".into()));
    assert_eq!(b.recv(&a), Some(Message::Text("first call".into())));
    assert_eq!(b.recv(&a), None);
    a.send(Message::Text("second call".into()));
    assert_eq!(b.recv(&a), Some(Message::Text("second call".into())));
}

#[test]
fn closing_one_side_ends_the_other_s_inbox() {
    let (a, mut b) = pair();
    closed(Writing::Done, false).unwrap();
    assert!(b.recv(&a).is_none(), "a closed link must not hang");
}

#[test]
fn everything_said_arrives_before_the_end_of_the_stream() {
    let (mut alice, mut bob) = pair();
    alice.send(Message::Text("said first".into()));
    alice.send(Message::Text("said last".into()));
    closed(Writing::Done, false).unwrap();
    assert_eq!(bob.recv(&alice), Some(Message::Text("said first".into())));
    assert_eq!(bob.recv(&alice), Some(Message::Text("said last".into())));
    assert!(bob.recv(&alice).is_none(), "and only then, the end");
}

#[test]
fn a_keepalive_is_nobody_talking() {
    let (mut a, mut b) = pair();
    a.send(Message::Ping);
    a.send(Message::Text("x".into()));
    assert_eq!(b.recv(&a), Some(Message::Text("x".into())));
}

#[test]
fn a_failed_last_write_is_news_only_if_they_stayed() {
    assert_eq!(closed(Writing::Failed("reset".into()), true), Ok(()));
    assert_eq!(
        closed(Writing::Failed("reset".into()), false),
        Err("sending the last of what was queued: reset".to_owned())
    );
    assert_eq!(
        closed(Writing::Lost("gone".into()), true),
        Err("the writer task panicked: gone".to_owned())
    );
}
