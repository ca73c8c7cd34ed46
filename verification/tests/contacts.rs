//! The contacts book, and presence.

use murmure::codec::Garbled;
use murmure::contacts::{
    book_key, check_name, AddError, BookError, ContactNameError, Contacts, Sealed,
};
use murmure::identity::Identity;
use murmure::message::Message;
use murmure::onion::AddressError;
use murmure::presence::Presence::{Off, On, TheyAsked, WeAsked};
use murmure::presence::{Presence, Said};
use murmure::store::StoreError;

const ADDR_A: &str = "haticvmas7sfodcos2yhp7sf43cxifwl5aafgeathnyad4culhdj7ryd.onion";
const ADDR_B: &str = "bbticvmas7sfodcos2yhp7sf43cxifwl5aafgeathnyad4culhdj7ryd.onion";
const KEY_A: &str = "descriptor:x25519:ZPRRMIV6DV6SJFL7SFBSVLJ5VUNPGCDFEVZ7M23LTLVTCCXJQBKA";
const KEY_B: &str = "descriptor:x25519:YPRRMIV6DV6SJFL7SFBSVLJ5VUNPGCDFEVZ7M23LTLVTCCXJQBKA";

fn key() -> [u8; 32] {
    book_key(&Identity::from_seed([1u8; 32]))
}

fn empty() -> Contacts {
    Contacts::open(None, &key()).unwrap()
}

/// What is on disk after a save, opened again.
fn reopen(book: &mut Contacts) -> Contacts {
    let disk = book.save(&key()).unwrap();
    Contacts::open(Some(disk.as_slice()), &key()).unwrap()
}

#[test]
fn contacts_survive_a_reopen() {
    let mut book = empty();
    book.add("alice", ADDR_A, KEY_A).unwrap();
    assert_eq!(book.len(), 1);
    assert!(book.unsaved);

    let reopened = reopen(&mut book);
    assert!(!book.unsaved);
    assert_eq!(reopened.address_of("alice").as_deref(), Some(ADDR_A));
    let entries = reopened.iter();
    let (_, alice) = entries.first().unwrap();
    assert_eq!(alice.discovery, KEY_A);
}

#[test]
fn the_book_is_not_readable_on_disk() {
    let mut book = empty();
    book.add("alice", ADDR_A, KEY_A).unwrap();
    let raw = book.save(&key()).unwrap();
    assert!(!raw.windows(5).any(|w| w == b"alice"));
    assert!(!raw.windows(16).any(|w| w == &ADDR_A.as_bytes()[..16]));
    assert!(!raw.windows(16).any(|w| w == &KEY_A.as_bytes()[..16]));
}

#[test]
fn renaming_a_contact_onto_a_new_address_needs_an_explicit_forget() {
    let mut book = empty();
    book.add("alice", ADDR_A, KEY_A).unwrap();

    assert!(book.add("alice", ADDR_A, KEY_A).is_ok());
    assert!(book.add("alice", ADDR_B, KEY_A).is_err());
    assert!(book.add("alice", ADDR_A, KEY_B).is_err());

    assert!(book.remove("alice"));
    assert!(book.add("alice", ADDR_B, KEY_B).is_ok());
}

/// Whatever has happened since, filing the same details again changes nothing.
#[test]
fn filing_again_keeps_what_was_agreed() {
    let mut book = empty();
    book.add("alice", ADDR_A, KEY_A).unwrap();
    assert!(book.set_presence("alice", Presence::On));
    assert!(book.accept_left("alice", 5));
    assert!(book.set_objection("alice", true));
    assert!(book.set_our_objection("alice", true));
    book.add(" alice ", ADDR_A, KEY_A).unwrap();
    let (_, alice) = book.iter()[0];
    assert_eq!((alice.presence, alice.seen), (Presence::On, 6));
    assert!(alice.objects_to_history && alice.we_object);
    assert!(!book.accept_left("alice", 5), "what was shown is not shown again");
}

#[test]
fn bad_names_addresses_and_keys_are_refused() {
    let mut book = empty();
    assert!(book.add("", ADDR_A, KEY_A).is_err());
    assert!(book.add("/call", ADDR_A, KEY_A).is_err());
    assert!(book.add("two words", ADDR_A, KEY_A).is_err());
    assert!(book.add("alice", "not-an-address", KEY_A).is_err());
    assert!(book.add("alice", ADDR_A, "not-a-key").is_err());
    assert!(book.add("alice", KEY_A, ADDR_A).is_err());
    assert_eq!(book.len(), 0);
    assert!(!book.unsaved);
}

#[test]
fn every_refusal_to_file_is_named() {
    let mut book = empty();
    assert_eq!(
        book.add(" ", ADDR_A, KEY_A),
        Err(AddError::Name(ContactNameError::Empty))
    );
    assert_eq!(check_name(&"n".repeat(65)), Err(ContactNameError::TooLong(65)));
    assert_eq!(check_name(&"n".repeat(64)), Ok(()));
    assert_eq!(check_name("/x"), Err(ContactNameError::Slash));
    assert_eq!(check_name("a\u{a0}b"), Err(ContactNameError::Spaces));
    assert_eq!(
        ContactNameError::TooLong(65).describe("nn"),
        "\"nn\" is 65 bytes, the limit is 64"
    );
    assert_eq!(
        book.add("alice", "abc", KEY_A),
        Err(AddError::Address(AddressError::NotOnion))
    );
    assert_eq!(book.add("alice", ADDR_A, "k"), Err(AddError::Key));
    book.add("  alice ", ADDR_A, KEY_A).unwrap();
    let e = book.add("alice", ADDR_B, KEY_A).unwrap_err();
    assert_eq!(e, AddError::Taken);
    assert_eq!(
        e.describe("alice", ADDR_B, KEY_A),
        "alice is already someone else's name in this book.\nRemove it first if you really mean to point it at a new address:\n  /forget alice"
    );
    assert_eq!(
        AddError::Key.describe("a", "b", "k"),
        "k is not a service discovery key: Invalid key format"
    );
}

#[test]
fn presence_needs_both_sides_and_gets_there_either_way() {
    let asked = Presence::Off.step(Said::WeAsk, "alice");
    assert_eq!(asked.to, Presence::WeAsked);
    assert_eq!(asked.reply, Some(Message::PresenceAsk));
    assert_eq!(asked.to.step(Said::TheyAgree, "alice").to, Presence::On);

    let told = Presence::Off.step(Said::TheyAsk, "alice");
    assert_eq!(told.to, Presence::TheyAsked);
    assert_eq!(told.reply, None, "being asked must not answer itself");
    let agreed = told.to.step(Said::WeAsk, "alice");
    assert_eq!(agreed.to, Presence::On);
    assert_eq!(agreed.reply, Some(Message::PresenceYes));

    assert_eq!(Presence::WeAsked.step(Said::TheyAsk, "a").to, Presence::On);
    assert_eq!(Presence::TheyAsked.step(Said::WeAsk, "a").to, Presence::On);
}

#[test]
fn presence_is_never_reached_by_one_side_alone() {
    assert_eq!(Presence::TheyAsked.step(Said::TheyAsk, "a").to, Presence::TheyAsked);
    assert_eq!(Presence::Off.step(Said::TheyAgree, "a").to, Presence::Off);
    assert_eq!(Presence::TheyAsked.step(Said::TheyAgree, "a").to, Presence::TheyAsked);
}

#[test]
fn presence_can_be_withdrawn_from_either_end() {
    let stopped = Presence::On.step(Said::WeStop, "alice");
    assert_eq!(stopped.to, Presence::Off);
    assert_eq!(stopped.reply, Some(Message::PresenceNo));
    assert_eq!(Presence::On.step(Said::TheyRefuse, "alice").to, Presence::Off);
    assert!(Presence::Off.step(Said::TheyRefuse, "alice").note.is_none());
}

/// Every state and every event: where it leads, what is answered, what is said.
#[test]
fn the_whole_presence_table() {
    let both = "you and bob will see each other online from now on";
    let asks = "bob asks to see when you are online — /presence bob to agree, /presence bob off to decline";
    let ask = "asked bob — they will see it the next time you are both connected";
    let ended = "bob no longer sees when you are online, and you no longer see them";
    let table = [
        (Off, Said::WeAsk, WeAsked, Some(Message::PresenceAsk), Some(ask)),
        (WeAsked, Said::WeAsk, WeAsked, Some(Message::PresenceAsk), Some(ask)),
        (TheyAsked, Said::WeAsk, On, Some(Message::PresenceYes), Some(both)),
        (On, Said::WeAsk, On, None, Some("bob already sees you online")),
        (Off, Said::WeStop, Off, None, Some("bob was not seeing you anyway")),
        (WeAsked, Said::WeStop, Off, Some(Message::PresenceNo), Some("withdrew the request to bob")),
        (TheyAsked, Said::WeStop, Off, Some(Message::PresenceNo), Some(ended)),
        (On, Said::WeStop, Off, Some(Message::PresenceNo), Some(ended)),
        (Off, Said::TheyAsk, TheyAsked, None, Some(asks)),
        (WeAsked, Said::TheyAsk, On, Some(Message::PresenceYes), Some(both)),
        (TheyAsked, Said::TheyAsk, TheyAsked, None, Some(asks)),
        (On, Said::TheyAsk, On, Some(Message::PresenceYes), None),
        (Off, Said::TheyAgree, Off, None, None),
        (WeAsked, Said::TheyAgree, On, None, Some(both)),
        (TheyAsked, Said::TheyAgree, TheyAsked, None, None),
        (On, Said::TheyAgree, On, None, Some(both)),
        (Off, Said::TheyRefuse, Off, None, None),
        (WeAsked, Said::TheyRefuse, Off, None, Some("bob would rather not be seen online")),
        (TheyAsked, Said::TheyRefuse, Off, None, Some("bob stopped sharing when they are online")),
        (On, Said::TheyRefuse, Off, None, Some("bob stopped sharing when they are online")),
    ];
    for (from, said, to, reply, note) in table {
        let step = from.step(said, "bob");
        assert_eq!(step.to, to, "{from:?} {said:?}");
        assert_eq!(step.reply, reply, "{from:?} {said:?}");
        assert_eq!(step.note.as_deref(), note, "{from:?} {said:?}");
    }
    assert_eq!(Presence::default(), Off);
}

#[test]
fn only_agreed_contacts_are_dialled_ahead() {
    let mut book = empty();
    book.add("alice", ADDR_A, KEY_A).unwrap();
    book.add("bob", ADDR_B, KEY_B).unwrap();

    assert_eq!(book.presence_of("alice"), Presence::Off);
    assert_eq!(book.agreed().len(), 0);

    assert!(book.set_presence("alice", Presence::WeAsked));
    assert_eq!(book.agreed().len(), 0);

    assert!(book.set_presence("alice", Presence::On));
    assert_eq!(book.agreed().iter().map(|(n, _)| *n).collect::<Vec<_>>(), ["alice"]);

    let reopened = reopen(&mut book);
    assert_eq!(reopened.presence_of("alice"), Presence::On);
    assert_eq!(reopened.presence_of("bob"), Presence::Off);
    assert_eq!(reopened.presence_of("nobody"), Presence::Off);
}

#[test]
fn removing_something_absent_is_not_an_error() {
    let mut book = empty();
    assert!(!book.remove("nobody"));
    assert!(!book.unsaved);
}

#[test]
fn the_book_is_listed_in_order_and_looked_up_both_ways() {
    let mut book = empty();
    book.add("zoé", ADDR_B, KEY_B).unwrap();
    book.add("alice", ADDR_A, KEY_A).unwrap();
    book.add("Bob", ADDR_A, KEY_A).unwrap();
    assert_eq!(
        book.iter().iter().map(|(n, _)| *n).collect::<Vec<_>>(),
        ["Bob", "alice", "zoé"]
    );
    assert_eq!(book.name_of(ADDR_B).as_deref(), Some("zoé"));
    assert_eq!(book.name_of(&format!(" {ADDR_A} ")).as_deref(), Some("Bob"), "the first in order");
    assert_eq!(book.name_of("x"), None);
    assert_eq!(book.address_of(" zoé").as_deref(), Some(ADDR_B));
    assert_eq!(book.address_of("nobody"), None);
}

#[test]
fn a_redelivered_message_is_accepted_once() {
    let mut book = empty();
    assert!(!book.accept_left("alice", 3), "nobody in the book");
    book.add("alice", ADDR_A, KEY_A).unwrap();
    assert!(book.accept_left("alice", 3));
    assert!(!book.accept_left("alice", 3));
    assert!(!book.accept_left("alice", 2));
    assert!(book.accept_left("alice", 4));
    let mut again = reopen(&mut book);
    assert!(!again.accept_left("alice", 4), "and the mark survives a restart");
}

#[test]
fn objections_are_kept_on_both_sides() {
    let mut book = empty();
    assert!(book.objects_to_history("alice"), "unknown names object");
    assert!(!book.set_objection("alice", true));
    assert!(!book.set_our_objection("alice", true));
    book.add("alice", ADDR_A, KEY_A).unwrap();
    assert!(!book.objects_to_history("alice"));
    assert!(book.set_objection("alice", true));
    assert!(book.set_our_objection("alice", true));
    assert!(book.objects_to_history("alice"));
    let reopened = reopen(&mut book);
    assert!(!book.unsaved);
    assert!(book.set_objection("alice", true));
    assert!(!book.unsaved, "nothing changed, so nothing is written");
    let entries = reopened.iter();
    assert!(entries[0].1.objects_to_history && entries[0].1.we_object);
}

/// Known bytes: the entries behind their number, each name and contact field by field.
#[test]
fn the_book_on_disk_is_postcard_under_the_seal() {
    let mut book = empty();
    book.add("alice", ADDR_A, KEY_A).unwrap();
    book.set_presence("alice", Presence::TheyAsked);
    book.accept_left("alice", 300);
    book.set_our_objection("alice", true);
    let plain = murmure::store::open(&key(), &book.save(&key()).unwrap()).unwrap();
    assert_eq!(
        plain,
        postcard::to_stdvec(&(1u64, "alice", ADDR_A, KEY_A, 2u32, 301u64, false, true)).unwrap()
    );
}

#[test]
fn a_book_that_cannot_be_opened_says_why() {
    let mut book = empty();
    book.add("alice", ADDR_A, KEY_A).unwrap();
    let disk = book.save(&key()).unwrap();
    let other = book_key(&Identity::from_seed([2u8; 32]));
    let e = Contacts::open(Some(disk.as_slice()), &other).err().unwrap();
    assert_eq!(e, BookError::Sealed(StoreError::Refused));
    assert_eq!(
        e.describe(Sealed::Contacts, "/x"),
        "opening /x: could not open the sealed file: wrong identity seed, or the file was tampered with"
    );
    let short = murmure::store::seal(&key(), &[1, 5]).unwrap();
    let e = Contacts::open(Some(short.as_slice()), &key()).err().unwrap();
    assert_eq!(e, BookError::Unreadable(Garbled::End));
    assert!(e
        .describe(Sealed::Contacts, "/x")
        .starts_with("the contacts book at /x is unreadable: Hit the end of buffer, expected more data\nIt was written by an older murmure"));
    assert!(e.describe(Sealed::Outbox, "/x").contains("anything still waiting in it is lost"));
    assert!(e.describe(Sealed::History, "/x").contains("/history off"));
}
