//! What was said, kept or not.

use murmure::history::{history_key, History, MAX_BYTES, SHOWN};
use murmure::identity::Identity;

const ALICE: &str = "haticvmas7sfodcos2yhp7sf43cxifwl5aafgeathnyad4culhdj7ryd.onion";
const BOB: &str = "bbticvmas7sfodcos2yhp7sf43cxifwl5aafgeathnyad4culhdj7ryd.onion";

fn key() -> [u8; 32] {
    history_key(&Identity::from_seed([1u8; 32]))
}

fn empty() -> History {
    History::open(None, &key()).unwrap()
}

fn reopen(h: &mut History) -> History {
    let disk = h.save(&key()).unwrap();
    History::open(Some(disk.as_slice()), &key()).unwrap()
}

#[test]
fn nothing_is_written_down_until_it_is_asked_for() {
    let mut history = empty();
    assert!(!history.on(), "history must be off until somebody says so");
    history.note(ALICE, true, "something said before it was on", 1);
    assert_eq!(history.len(), 0, "a note while off is not a note");
    assert!(!history.unsaved);

    history.set(true);
    let reopened = reopen(&mut history);
    assert!(reopened.on());
    assert_eq!(reopened.len(), 0, "and nothing from before it was on");
}

#[test]
fn a_conversation_comes_back_in_order() {
    let mut history = empty();
    history.set(true);
    history.note(ALICE, true, "on se voit à six heures ?", 1);
    history.note(ALICE, false, "oui", 2);
    history.note(BOB, false, "nothing to do with alice", 3);

    let reopened = reopen(&mut history);
    let with_alice = reopened.tail(Some(ALICE), SHOWN);
    assert_eq!(with_alice.len(), 2);
    assert_eq!(with_alice[0].body, "on se voit à six heures ?");
    assert!(with_alice[0].mine);
    assert!(!with_alice[1].mine);
    assert_eq!(reopened.tail(None, SHOWN).len(), 3, "and everything, together");
}

#[test]
fn turning_it_off_erases_what_was_kept() {
    let mut history = empty();
    history.set(true);
    history.note(ALICE, true, "a secret", 1);

    assert_eq!(history.set(false), 1, "and says how much it erased");
    assert_eq!(history.len(), 0);

    let raw = history.save(&key()).unwrap();
    assert!(!raw.windows(8).any(|w| w == b"a secret"));
    let reopened = reopen(&mut history);
    assert_eq!(reopened.len(), 0);
}

#[test]
fn what_is_kept_is_not_readable_on_disk() {
    let mut history = empty();
    history.set(true);
    history.note(ALICE, true, "rendez-vous à la gare", 1);
    let raw = history.save(&key()).unwrap();
    assert!(!raw.windows(10).any(|w| w == b"rendez-vou"));
    assert!(!raw.windows(16).any(|w| w == &ALICE.as_bytes()[..16]));
}

#[test]
fn the_record_is_bounded_by_bytes_not_by_optimism() {
    let mut history = empty();
    history.set(true);
    let big = "x".repeat(64 * 1024);
    for _ in 0..24 {
        history.note(ALICE, true, &big, 1);
    }
    let kept: usize = history.tail(None, usize::MAX).iter().map(|l| l.body.len()).sum();
    assert!(kept <= MAX_BYTES, "kept {kept} bytes, over the cap");
    assert!(history.len() > 0, "and it keeps what it can, not nothing");
    assert_eq!(history.len(), 16);
}

#[test]
fn forgetting_a_contact_forgets_what_they_said() {
    let mut history = empty();
    history.set(true);
    history.note(ALICE, true, "one", 1);
    history.note(ALICE, false, "two", 2);
    history.note(BOB, false, "mine", 3);

    assert_eq!(history.forget(ALICE), 2);
    assert_eq!(history.tail(Some(ALICE), SHOWN).len(), 0);
    assert_eq!(history.tail(Some(BOB), SHOWN).len(), 1, "and nobody else's");
    assert_eq!(history.forget(ALICE), 0);
}

#[test]
fn the_tail_is_the_last_lines_oldest_first() {
    let mut history = empty();
    history.set(true);
    for i in 0..5u64 {
        history.note(ALICE, false, &i.to_string(), i);
    }
    let tail = history.tail(None, 2);
    assert_eq!(tail.iter().map(|l| l.body.as_str()).collect::<Vec<_>>(), ["3", "4"]);
    assert_eq!(tail[0].at, 3);
    assert!(history.tail(None, 0).is_empty());
}

/// One line over the cap by itself is not kept; it takes the older ones with it.
#[test]
fn a_line_over_the_cap_leaves_nothing() {
    let mut history = empty();
    history.set(true);
    history.note(ALICE, false, "small", 1);
    history.note(ALICE, false, &"x".repeat(MAX_BYTES + 1), 2);
    assert_eq!(history.len(), 0);
    history.note(ALICE, false, &"x".repeat(MAX_BYTES), 3);
    assert_eq!(history.len(), 1);
}

/// Known bytes: whether it is on, then the lines behind their number.
#[test]
fn the_record_on_disk_is_postcard_under_the_seal() {
    let mut history = empty();
    history.set(true);
    history.note(ALICE, true, "é", 1_000_000);
    let plain = murmure::store::open(&key(), &history.save(&key()).unwrap()).unwrap();
    assert_eq!(
        plain,
        postcard::to_stdvec(&(true, 1u64, 1_000_000u64, ALICE, true, "é")).unwrap()
    );
}
