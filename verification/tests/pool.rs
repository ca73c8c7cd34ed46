//! Connections held between calls, and links.

use murmure::identity::PeerId;
use murmure::link::{closed, delivers, Writing};
use murmure::message::Message;
use murmure::pool::{Heard, Pool, Seen, WAITING};

const BOB: PeerId = [2u8; 32];
const CAROL: PeerId = [3u8; 32];

#[test]
fn an_empty_pool_never_reports() {
    let mut pool = Pool::new();
    assert!(!pool.holds(&BOB));
    let (heard, frames) = pool.heard(Seen::Landed(BOB, None));
    assert!(heard.is_none() && frames.is_empty(), "an empty pool must have nothing to say");
}

#[test]
fn a_kept_link_is_found_again_by_who_the_peer_proved_to_be() {
    let mut pool = Pool::new();
    pool.keep(BOB);
    assert!(pool.take(&BOB), "the link should still be open");
    assert!(!pool.take(&BOB), "and only handed out once");
}

#[test]
fn a_frame_on_an_idle_link_names_who_sent_it() {
    let mut pool = Pool::new();
    pool.keep(BOB);
    let (heard, _) = pool.heard(Seen::Frame(BOB, Message::Text("still there?".into())));
    assert_eq!(heard, Some(Heard::Frame(BOB, Message::Text("still there?".into()))));
}

#[test]
fn the_pool_watches_every_idle_link_at_once() {
    let mut pool = Pool::new();
    pool.keep(BOB);
    pool.keep(CAROL);
    let (heard, _) = pool.heard(Seen::Frame(CAROL, Message::Text("it is me".into())));
    assert_eq!(heard, Some(Heard::Frame(CAROL, Message::Text("it is me".into()))));
    assert!(pool.holds(&BOB) && pool.holds(&CAROL));
}

#[test]
fn a_frame_with_nowhere_to_go_waits_for_a_connection() {
    let mut pool = Pool::new();
    assert_eq!(pool.send(BOB, Message::PresenceAsk), None);
    let (frames, fresh) = pool.keep(BOB);
    assert_eq!(
        frames,
        vec![Message::PresenceAsk],
        "the request must go out as soon as there is something to send it on"
    );
    assert!(fresh);
    assert_eq!(pool.send(BOB, Message::PresenceYes), Some(Message::PresenceYes));
}

#[test]
fn frames_waiting_on_a_peer_who_never_answers_are_capped() {
    let mut pool = Pool::new();
    for _ in 0..WAITING * 10 {
        pool.send(BOB, Message::PresenceAsk);
    }
    let (frames, _) = pool.keep(BOB);
    assert_eq!(frames.len(), WAITING, "the queue is bounded, and stays bounded");
}

#[test]
fn a_peer_leaving_an_idle_link_is_noticed() {
    let mut pool = Pool::new();
    pool.keep(BOB);
    let (heard, _) = pool.heard(Seen::Ended(BOB));
    assert_eq!(heard, Some(Heard::Lost(BOB)));
    assert!(!pool.holds(&BOB), "and the pool must not keep offering it");
}

#[test]
fn one_contact_is_never_dialled_twice_at_once() {
    let mut pool = Pool::new();
    assert!(pool.reach(BOB));
    assert!(!pool.reach(BOB), "already on its way");
    assert!(pool.reach(CAROL));
    pool.send(BOB, Message::Got(1));
    let (heard, frames) = pool.heard(Seen::Landed(BOB, Some(BOB)));
    assert_eq!(heard, Some(Heard::Reached(BOB)));
    assert_eq!(frames, vec![Message::Got(1)]);
    assert!(!pool.reach(BOB), "already there");
    // Somebody else answered for Carol: no connection, and she may be dialled again.
    let (heard, _) = pool.heard(Seen::Landed(CAROL, Some(BOB)));
    assert_eq!(heard, None);
    assert!(!pool.holds(&CAROL));
    assert!(pool.reach(CAROL));
}

#[test]
fn a_second_connection_is_not_news() {
    let mut pool = Pool::new();
    assert!(pool.reach(BOB));
    assert!(pool.keep(BOB).1);
    assert_eq!(pool.heard(Seen::Landed(BOB, Some(BOB))).0, None);
    assert!(!pool.keep(BOB).1);
}

#[test]
fn forgetting_a_peer_lets_go_of_everything() {
    let mut pool = Pool::new();
    pool.keep(BOB);
    pool.reach(CAROL);
    pool.send(CAROL, Message::PresenceAsk);
    assert_eq!(pool.forget(&BOB), (false, true));
    assert_eq!(pool.forget(&CAROL), (true, false));
    assert_eq!(pool.forget(&CAROL), (false, false));
    assert!(pool.keep(CAROL).0.is_empty());
}

/// A keepalive never looks like somebody starting to talk.
#[test]
fn a_ping_is_swallowed() {
    let mut pool = Pool::new();
    pool.keep(BOB);
    assert_eq!(pool.heard(Seen::Frame(BOB, Message::Ping)).0, None);
    assert!(!delivers(&Message::Ping));
    assert!(delivers(&Message::FileDone));
}

#[test]
fn a_failed_write_is_news_only_while_the_peer_is_there() {
    assert_eq!(closed(Writing::Done, false), Ok(()));
    assert_eq!(closed(Writing::Failed("reset".into()), true), Ok(()));
    assert_eq!(
        closed(Writing::Failed("reset".into()), false),
        Err("sending the last of what was queued: reset".into())
    );
    assert_eq!(
        closed(Writing::Lost("boom".into()), true),
        Err("the writer task panicked: boom".into())
    );
}
