//! Messages that wait for their recipient.

use murmure::codec::Garbled;
use murmure::contacts::BookError;
use murmure::identity::Identity;
use murmure::message::Message;
use murmure::outbox::{how_long_ago, outbox_key, Outbox, TooLong, MAX_WAITING};
use murmure::proto::{write_frame, MAX_TEXT};

const ALICE: &str = "haticvmas7sfodcos2yhp7sf43cxifwl5aafgeathnyad4culhdj7ryd.onion";
const BOB: &str = "bbticvmas7sfodcos2yhp7sf43cxifwl5aafgeathnyad4culhdj7ryd.onion";
const NOW: u64 = 1_800_000_000;

fn key() -> [u8; 32] {
    outbox_key(&Identity::from_seed([1u8; 32]))
}

fn empty() -> Outbox {
    Outbox::open(None, &key()).unwrap()
}

fn reopen(out: &mut Outbox) -> Outbox {
    let disk = out.save(&key()).unwrap();
    Outbox::open(Some(disk.as_slice()), &key()).unwrap()
}

fn first_id(out: &Outbox) -> u64 {
    match out.frames_for(ALICE)[0] {
        Message::Left { id, .. } => id,
        _ => panic!("frames_for produces Left frames"),
    }
}

#[test]
fn what_was_written_survives_a_restart_in_order() {
    let mut out = empty();
    out.queue(ALICE, "first".into(), NOW).unwrap();
    out.queue(BOB, "not for alice".into(), NOW).unwrap();
    out.queue(ALICE, "second".into(), NOW).unwrap();

    let reopened = reopen(&mut out);
    let frames = reopened.frames_for(ALICE);
    assert_eq!(frames.len(), 2);
    assert!(
        matches!(&frames[0], Message::Left { body, .. } if body == "first"),
        "oldest first, or a conversation arrives backwards"
    );
    assert!(matches!(&frames[1], Message::Left { body, .. } if body == "second"));
    assert_eq!(reopened.waiting_for(BOB), 1);
    assert_eq!(reopened.len(), 3);
}

#[test]
fn the_outbox_is_not_readable_on_disk() {
    let mut out = empty();
    out.queue(ALICE, "meet me at six".into(), NOW).unwrap();
    let raw = out.save(&key()).unwrap();
    assert!(!raw.windows(6).any(|w| w == b"meet m"));
    assert!(!raw.windows(16).any(|w| w == &ALICE.as_bytes()[..16]));
}

#[test]
fn a_message_leaves_the_queue_only_when_it_is_acknowledged() {
    let mut out = empty();
    out.queue(ALICE, "one".into(), NOW).unwrap();
    out.queue(ALICE, "two".into(), NOW).unwrap();

    let first = first_id(&out);
    assert!(out.delivered(ALICE, first));
    assert_eq!(out.waiting_for(ALICE), 1);

    assert!(!out.delivered(ALICE, first));
    assert!(!out.delivered(ALICE, 9999));
    assert!(!out.delivered(BOB, first));
    assert_eq!(out.waiting_for(ALICE), 1);
}

#[test]
fn ids_only_ever_go_up() {
    let mut out = empty();
    out.queue(ALICE, "one".into(), NOW).unwrap();
    let first = first_id(&out);
    out.delivered(ALICE, first);

    let mut out = reopen(&mut out);
    assert_eq!(out.len(), 0);
    out.queue(ALICE, "two".into(), NOW).unwrap();
    assert!(first_id(&out) > first, "an id that went backwards would look old");
}

#[test]
fn the_queue_is_capped_and_says_when_it_drops_something() {
    let mut out = empty();
    for i in 0..MAX_WAITING {
        assert_eq!(out.queue(ALICE, format!("{i}"), NOW).unwrap(), 0);
    }
    assert_eq!(out.waiting_for(ALICE), MAX_WAITING);

    assert_eq!(out.queue(ALICE, "the newest".into(), NOW).unwrap(), 1);
    assert_eq!(out.waiting_for(ALICE), MAX_WAITING);
    let frames = out.frames_for(ALICE);
    assert!(matches!(&frames[0], Message::Left { body, .. } if body == "1"));
    assert!(matches!(frames.last().unwrap(), Message::Left { body, .. } if body == "the newest"));
}

#[test]
fn a_message_too_long_to_send_is_refused_before_it_is_kept() {
    let mut out = empty();
    let too_long = "x".repeat(MAX_TEXT + 1);
    let e = out.queue(ALICE, too_long, NOW).unwrap_err();
    assert_eq!(e, TooLong { bytes: MAX_TEXT + 1 });
    assert_eq!(
        e.describe(),
        "that message is 32769 bytes, over the 32768-byte limit. Shorten it, or send it as a file during a call."
    );
    assert_eq!(out.waiting_for(ALICE), 0, "and it must not reach the disk");
    assert!(!out.unsaved);

    let at_limit = "x".repeat(MAX_TEXT);
    assert!(out.queue(ALICE, at_limit, NOW).is_ok());
    for frame in out.frames_for(ALICE) {
        assert!(
            write_frame(&mut Vec::new(), &frame).is_ok(),
            "anything the outbox keeps has to be something the wire accepts"
        );
    }
}

#[test]
fn forgetting_a_contact_forgets_what_was_written_to_them() {
    let mut out = empty();
    out.queue(ALICE, "one".into(), NOW).unwrap();
    out.queue(ALICE, "two".into(), NOW).unwrap();
    out.queue(BOB, "yours".into(), NOW).unwrap();

    assert_eq!(out.discard(ALICE), 2);
    assert_eq!(out.waiting_for(ALICE), 0);
    assert_eq!(out.waiting_for(BOB), 1, "and nobody else's");
    assert_eq!(out.discard(ALICE), 0);
}

#[test]
fn how_long_ago_stays_coarse() {
    let now = NOW;
    assert_eq!(how_long_ago(now, now), "just now");
    assert_eq!(how_long_ago(now - 600, now), "10 minutes ago");
    assert_eq!(how_long_ago(now - 7200, now), "2 hours ago");
    assert_eq!(how_long_ago(now - 3 * 86_400, now), "3 days ago");
    assert_eq!(how_long_ago(now + 5000, now), "just now");
}

#[test]
fn an_age_changes_its_unit_at_the_edges() {
    for (seconds, text) in [
        (90, "just now"),
        (91, "1 minutes ago"),
        (5400, "90 minutes ago"),
        (5401, "1 hours ago"),
        (172_800, "48 hours ago"),
        (172_801, "2 days ago"),
    ] {
        assert_eq!(how_long_ago(NOW - seconds, NOW), text);
    }
}

/// Known bytes: the queues behind their number, then the next id.
#[test]
fn the_outbox_on_disk_is_postcard_under_the_seal() {
    let mut out = empty();
    out.queue(ALICE, "à six".into(), 300).unwrap();
    out.queue(ALICE, "b".into(), 5).unwrap();
    let plain = murmure::store::open(&key(), &out.save(&key()).unwrap()).unwrap();
    assert_eq!(
        plain,
        postcard::to_stdvec(&(
            1u64,
            ALICE,
            2u64,
            (0u64, 300u64, "à six"),
            (1u64, 5u64, "b"),
            2u64
        ))
        .unwrap()
    );
    let cut = murmure::store::seal(&key(), &plain[..plain.len() - 1]).unwrap();
    assert_eq!(
        Outbox::open(Some(cut.as_slice()), &key()).err(),
        Some(BookError::Unreadable(Garbled::End))
    );
}
