//! The program between calls.

use murmure::command::{parse, Command};
use murmure::contacts::Contacts;
use murmure::identity::{Identity, PeerId};
use murmure::message::Message;
use murmure::outbox::Outbox;
use murmure::pool::{Heard, Seen};
use murmure::presence::{Presence, Said};
use murmure::session::{
    authorized, call_opened, check_published, identity_mismatch, name_for_peer, opening_line, visibility_line,
    while_calling, Calling, Do, Session,
};
use murmure::typed::Ended;
use murmure::ui::{Kind, Typed};

const NOW: u64 = 1_800_000_000;
const KEY: &str = "descriptor:x25519:ZPRRMIV6DV6SJFL7SFBSVLJ5VUNPGCDFEVZ7M23LTLVTCCXJQBKA";

fn alice() -> Identity {
    Identity::from_seed([1u8; 32])
}
fn bob() -> Identity {
    Identity::from_seed([2u8; 32])
}

fn empty() -> Session {
    let key = [0u8; 32];
    Session::new(Contacts::open(None, &key).unwrap(), Outbox::open(None, &key).unwrap())
}

/// A session that has bob in its book.
fn with_bob() -> Session {
    let mut s = empty();
    s.book.add("bob", &bob().onion_address(), &bob().discovery_key()).unwrap();
    s
}

fn run(s: &mut Session, line: &str) -> Vec<Do> {
    s.command(parse(line), "me.onion", "mykey", NOW)
}

/// What was said, as text.
fn said(acts: &[Do]) -> Vec<String> {
    acts.iter()
        .filter_map(|d| match d {
            Do::Say(_, t) | Do::SaveAndSay(_, t) => Some(t.clone()),
            _ => None,
        })
        .collect()
}

fn errors(acts: &[Do]) -> Vec<String> {
    acts.iter()
        .filter_map(|d| match d {
            Do::Say(Kind::Error, t) => Some(t.clone()),
            _ => None,
        })
        .collect()
}

fn written(acts: &[Do]) -> Vec<(PeerId, Message)> {
    acts.iter()
        .filter_map(|d| match d {
            Do::Write(p, m) => Some((*p, m.clone())),
            _ => None,
        })
        .collect()
}

#[test]
fn every_line_is_read_as_its_command() {
    let bad = |t: &str| Command::Bad(t.to_owned());
    for (line, command) in [
        ("  ", Command::Nothing),
        ("/add a b c d", Command::Add("a".into(), "b".into(), "c".into())),
        ("/add a b", bad("usage: /add <name> <address>.onion descriptor:x25519:<key>")),
        ("/forget  bob x", Command::Forget("bob".into())),
        ("/forget", bad("usage: /forget <name>")),
        ("/contacts", Command::Contacts),
        ("/tell bob  see you  at six ", Command::Tell("bob".into(), "see you  at six".into())),
        ("/tell tell it", Command::Tell("tell".into(), "it".into())),
        ("/tell bob", bad("usage: /tell bob <message>")),
        ("/tell", bad("usage: /tell <name> <message>")),
        ("/answer", Command::Answer),
        ("/decline now", Command::Decline),
        ("/presence bob", Command::Presence("bob".into(), Said::WeAsk)),
        ("/presence bob off", Command::Presence("bob".into(), Said::WeStop)),
        ("/presence bob no", Command::Presence("bob".into(), Said::WeStop)),
        ("/presence bob please", bad("/presence bob please? the only extra word is 'off'")),
        ("/presence", bad("usage: /presence <name>   — or /presence <name> off")),
        ("/call bob", Command::Call("bob".into())),
        ("/call", bad("usage: /call <name>")),
        ("/copy", Command::Copy),
        ("/help", Command::Help),
        ("/quit", Command::Quit),
        ("/send x", bad("/send only works during a call — /call someone first")),
        ("/accept", bad("/accept only works during a call — /call someone first")),
        ("/refuse", bad("/refuse only works during a call — /call someone first")),
        ("bonjour", bad("unknown command bonjour — /help")),
    ] {
        assert_eq!(parse(line), command, "{line:?}");
    }
}

#[test]
fn filing_a_friend_tells_the_service() {
    let mut s = empty();
    let line = format!("/add bob {} {KEY}", bob().onion_address());
    let acts = run(&mut s, &line);
    assert!(matches!(acts[0], Do::SaveBook) && matches!(acts[1], Do::Resync));
    let lines = said(&acts);
    assert!(lines[0].starts_with("filed bob as "));
    assert_eq!(
        lines[1],
        "your service is now restricted: only filed contacts can discover it."
    );
    assert_eq!(lines.len(), 3);
    // Not the first any more.
    let line = format!("/add alice {} {KEY}", alice().onion_address());
    assert_eq!(said(&run(&mut s, &line)).len(), 2);
    assert_eq!(errors(&run(&mut s, "/add bob nowhere key")), ["nowhere does not end in .onion"]);
    let clients = authorized(&s.book).unwrap();
    assert_eq!(clients.len(), 2);
    assert_eq!(clients[0].0, alice().onion_address()[..16]);
    assert_eq!(clients[0].1, KEY);
}

/// Asked, agreed, online, and withdrawn: both ends, frame by frame.
#[test]
fn presence_is_agreed_and_withdrawn() {
    let (a_id, b_id) = (alice().id(), bob().id());
    let mut a = with_bob();
    let mut b = empty();
    b.book.add("alice", &alice().onion_address(), &alice().discovery_key()).unwrap();

    // Alice asks; there is no connection yet, so the request waits for one.
    let acts = run(&mut a, "/presence bob");
    assert!(written(&acts).is_empty());
    assert_eq!(a.book.presence_of("bob"), Presence::WeAsked);

    // Bob connects to her for some reason of his own: the request goes out first.
    let acts = a.connected(b_id);
    assert_eq!(written(&acts), vec![(b_id, Message::PresenceAsk)]);
    assert!(said(&acts).is_empty(), "nobody agreed to be announced");

    b.connected(a_id);
    let acts = b.heard(a_id, Message::PresenceAsk, NOW);
    assert!(written(&acts).is_empty(), "being asked must not answer itself");
    assert_eq!(b.book.presence_of("alice"), Presence::TheyAsked);
    let acts = run(&mut b, "/presence alice");
    assert_eq!(written(&acts), vec![(a_id, Message::PresenceYes)]);
    assert!(!acts.iter().any(|d| matches!(d, Do::Dial(_))), "they are connected already");

    let acts = a.heard(b_id, Message::PresenceYes, NOW);
    assert_eq!(a.book.presence_of("bob"), Presence::On);
    assert_eq!(said(&acts), ["you and bob will see each other online from now on"]);

    // The connection drops, the timer dials, the dial lands.
    let (heard, _) = a.pool.heard(Seen::Ended(b_id));
    assert_eq!(heard, Some(Heard::Lost(b_id)));
    assert_eq!(said(&a.lost(&b_id)), ["-- bob went offline --"]);
    let acts = a.sweep();
    assert!(matches!(&acts[..], [Do::Dial(p)] if *p == b_id));
    assert!(a.sweep().is_empty(), "one dial at a time");
    let (heard, _) = a.pool.heard(Seen::Landed(b_id, Some(b_id)));
    assert_eq!(heard, Some(Heard::Reached(b_id)));
    assert_eq!(said(&a.reached(&b_id)), ["-- bob is online --"]);

    // Withdrawn: he is told, and the connection is let go.
    let acts = run(&mut a, "/presence bob off");
    assert!(matches!(
        &acts[..],
        [Do::SaveBook, Do::Write(_, Message::PresenceNo), Do::Say(..), Do::LetGo(p, false, true)] if *p == b_id
    ));
    assert!(!a.pool.holds(&b_id));
    assert!(a.sweep().is_empty());
    let acts = run(&mut a, "/presence bob off");
    assert!(matches!(&acts[..], [Do::Say(..)]), "nothing to let go of a second time");
    assert_eq!(
        errors(&run(&mut a, "/presence carol")),
        ["no contact called carol — /add them first"]
    );
}

/// A message left for somebody who is out: kept, delivered, shown once, acknowledged, gone.
#[test]
fn a_left_message_arrives_once_and_is_let_go() {
    let (a_id, b_id) = (alice().id(), bob().id());
    let mut a = with_bob();
    let mut b = empty();
    b.book.add("alice", &alice().onion_address(), &alice().discovery_key()).unwrap();

    let acts = run(&mut a, "/tell bob à demain");
    assert!(matches!(acts[0], Do::SaveOutbox), "on disk before anything is attempted");
    assert_eq!(
        said(&acts),
        [
            "you (to bob)> à demain",
            "bob is not connected — kept, and it goes out when they next are (1 waiting)"
        ]
    );
    let acts = a.connected(b_id);
    assert_eq!(said(&acts), ["-- sending 1 message you left --"]);
    let sent = written(&acts);
    assert_eq!(sent.len(), 1);
    assert_eq!(a.outbox.waiting_for(&bob().onion_address()), 1, "sending lets go of nothing");

    b.connected(a_id);
    let acts = b.heard(a_id, sent[0].1.clone(), NOW + 7200);
    assert_eq!(said(&acts), ["alice (2 hours ago)> à demain"]);
    let acks = written(&acts);
    assert_eq!(acks, vec![(a_id, Message::Got(0))]);
    // Delivered again: acknowledged again, shown to nobody.
    let acts = b.heard(a_id, sent[0].1.clone(), NOW + 7200);
    assert!(said(&acts).is_empty());
    assert_eq!(written(&acts), acks);

    let acts = a.heard(b_id, Message::Got(0), NOW);
    assert!(matches!(acts[0], Do::SaveOutbox));
    assert_eq!(said(&acts), ["-- everything you wrote to bob arrived --"]);
    assert_eq!(a.outbox.len(), 0);
    assert!(a.heard(b_id, Message::Got(0), NOW).is_empty(), "twice is once");

    // Connected, so it goes out at once.
    let acts = run(&mut a, "/tell bob encore");
    assert_eq!(written(&acts).len(), 1);
    assert_eq!(errors(&run(&mut a, "/tell carol x")), ["no contact called carol — /add them first"]);
    let long = format!("/tell bob {}", "x".repeat(32769));
    assert!(errors(&run(&mut a, &long))[0].starts_with("that message is 32769 bytes"));
}

/// What somebody left is cleaned before it reaches the screen, and is acknowledged whether or
/// not the book can be written.
#[test]
fn a_left_message_cannot_steer_the_screen() {
    let b_id = bob().id();
    let mut s = with_bob();
    s.connected(b_id);
    let left = Message::Left { id: 4, at: NOW, body: "hi\u{1b}[2J\u{202e}".into() };
    let acts = s.heard(b_id, left, NOW);
    assert!(matches!(
        &acts[..],
        [Do::SaveAndSay(Kind::Theirs, t), Do::Write(p, Message::Got(4))]
            if t == "bob (just now)> hi\u{fffd}[2J\u{fffd}" && *p == b_id
    ));
}

/// Where something fails, what was not done does not count as done.
#[test]
fn what_was_not_done_is_put_back() {
    let b_id = bob().id();
    let mut s = with_bob();
    s.book.set_presence("bob", Presence::TheyAsked);
    let mut acts = run(&mut s, "/presence bob");
    assert!(matches!(acts[0], Do::SaveBook), "suppose that this fails");
    assert!(s.sweep().is_empty(), "a dial counts as under way");
    s.undone(&acts.split_off(1));
    assert!(matches!(&s.sweep()[..], [Do::Dial(p)] if *p == b_id));

    let mut s = with_bob();
    s.connected(b_id);
    let mut acts = run(&mut s, "/forget bob");
    assert!(!s.pool.holds(&b_id));
    s.undone(&acts.split_off(1));
    assert!(s.pool.holds(&b_id), "the connection was not let go");
}

/// An address in the book that stands for no key: what each command says of it.
#[test]
fn an_address_without_a_key_is_told() {
    let mut s = empty();
    // Well formed, and its checksum is wrong.
    let bad = format!("{}.onion", "a".repeat(56));
    s.book.add("bob", &bad, KEY).unwrap();
    let why = murmure::identity::peer_of(&bad).unwrap_err();
    assert_eq!(
        errors(&run(&mut s, "/tell bob x")),
        [format!("bob's address is unusable: {why}")]
    );
    assert_eq!(
        errors(&run(&mut s, "/presence bob")),
        [format!("bob's address is not a valid onion address: {why}")]
    );
    assert_eq!(
        errors(&run(&mut s, "/call bob")),
        [format!("{bad} is not a valid onion address: {why}")]
    );
}

#[test]
fn messages_that_no_longer_fit_are_told() {
    let mut a = with_bob();
    for i in 0..64 {
        assert!(errors(&run(&mut a, &format!("/tell bob {i}"))).is_empty());
    }
    assert_eq!(
        errors(&run(&mut a, "/tell bob last")),
        ["1 older message was to bob dropped — 64 were already waiting"]
    );
}

/// A call coming in is held unread until it is answered, and a second caller is told.
#[test]
fn a_call_is_held_until_it_is_answered() {
    let (b_id, c_id) = (bob().id(), Identity::from_seed([3u8; 32]).id());
    let mut s = with_bob();
    s.connected(b_id);
    s.connected(c_id);
    let acts = s.heard(b_id, Message::Text("secret".into()), NOW);
    assert_eq!(
        said(&acts),
        ["-- bob is calling — /answer to take it, /decline to refuse --"]
    );
    assert!(matches!(&acts[1], Do::Status(t) if t == "bob is calling"));

    let acts = s.heard(c_id, Message::Text("me too".into()), NOW);
    assert_eq!(written(&acts), vec![(c_id, Message::CallDecline)]);
    assert!(said(&acts)[0].ends_with("called while you were busy --"));

    let acts = run(&mut s, "/answer");
    assert!(matches!(
        &acts[..],
        [Do::Say(..), Do::Status(_), Do::Talk(p, name, Some(Message::Text(t)))]
            if *p == b_id && name == "bob" && t == "secret"
    ));
    assert!(!s.pool.holds(&b_id), "the call has the connection");
    // The call ends, and the connection is still worth keeping.
    let (acts, alive) = s.talked(b_id, "bob", Ok(Ended::WeHungUp));
    assert!(alive && s.pool.holds(&b_id));
    assert_eq!(said(&acts), ["-- you hung up --"]);
    assert!(matches!(acts.last(), Some(Do::Status(t)) if t == "listening"));

    assert_eq!(errors(&run(&mut s, "/answer")), ["nobody is calling"]);
    assert_eq!(errors(&run(&mut s, "/decline")), ["nobody is calling"]);
    s.heard(b_id, Message::Text("again".into()), NOW);
    let acts = run(&mut s, "/decline");
    assert_eq!(written(&acts), vec![(b_id, Message::CallDecline)]);
    assert_eq!(said(&acts), ["-- turned down the call from bob --"]);

    // A caller who leaves is not a caller to answer.
    s.heard(b_id, Message::Text("third".into()), NOW);
    s.pool.heard(Seen::Ended(b_id));
    assert_eq!(said(&s.lost(&b_id)), ["-- bob stopped calling --"]);
    s.connected(b_id);
    s.heard(b_id, Message::Text("fourth".into()), NOW);
    s.pool.take(&b_id);
    assert_eq!(errors(&run(&mut s, "/answer")), ["bob is no longer connected"]);
}

#[test]
fn a_call_uses_the_connection_that_is_there() {
    let b_id = bob().id();
    let mut s = with_bob();
    let acts = run(&mut s, "/call bob");
    assert!(matches!(acts.last(), Some(Do::Call(p, n)) if *p == b_id && n == "bob"));
    assert_eq!(said(&acts)[1], "7-50 s is normal. /cancel to give up.");
    s.connected(b_id);
    let acts = run(&mut s, "/call bob");
    assert!(matches!(acts.last(), Some(Do::Talk(p, _, None)) if *p == b_id));
    assert_eq!(said(&acts), ["-- still connected to bob --"]);
    let (acts, alive) = s.talked(b_id, "bob", Ok(Ended::PeerHungUp));
    assert!(!alive && !s.pool.holds(&b_id));
    assert_eq!(said(&acts), ["-- bob hung up --"]);
    let (acts, alive) = s.talked(b_id, "bob", Err("reset".into()));
    assert!(!alive);
    assert_eq!(errors(&acts), ["-- call dropped: reset --"]);
    let (acts, alive) = s.talked(b_id, "bob", Ok(Ended::Quit));
    assert!(alive && matches!(acts.last(), Some(Do::Quit)));
    assert_eq!(errors(&run(&mut s, "/call carol")), ["no contact called carol — /add them first"]);
}

#[test]
fn the_keyboard_is_answered_while_a_call_is_dialled() {
    assert_eq!(while_calling(None, "bob").0, Calling::Quit);
    let (step, acts) = while_calling(Some(" /cancel "), "bob");
    assert_eq!(step, Calling::GiveUp);
    assert_eq!(said(&acts), ["gave up calling bob"]);
    assert_eq!(while_calling(Some("/quit"), "bob").0, Calling::Quit);
    assert!(while_calling(Some(""), "bob").1.is_empty());
    let (step, acts) = while_calling(Some("/add x"), "bob");
    assert_eq!(step, Calling::Wait);
    assert_eq!(said(&acts), ["still calling bob — /cancel to give up"]);

    let (b_id, c_id) = (bob().id(), Identity::from_seed([3u8; 32]).id());
    assert!(matches!(call_opened(b_id, "bob", Ok(b_id)).last(), Some(Do::Talk(..))));
    let acts = call_opened(b_id, "bob", Ok(c_id));
    assert!(errors(&acts)[0].starts_with("-- refused: you called bob, but the far side proved a different key ("));
    assert!(!acts.iter().any(|d| matches!(d, Do::Talk(..))));
    assert_eq!(errors(&call_opened(b_id, "bob", Err("x".into()))), ["-- call dropped: x --"]);
}

#[test]
fn forgetting_a_contact_forgets_everything() {
    let b_id = bob().id();
    let mut s = with_bob();
    run(&mut s, "/tell bob one");
    run(&mut s, "/tell bob two");
    s.connected(b_id);
    let acts = run(&mut s, "/forget bob");
    assert!(matches!(
        &acts[..],
        [Do::SaveBook, Do::Resync, Do::SaveOutbox, Do::Say(..), Do::LetGo(p, false, true), Do::Say(..), Do::Say(..)]
            if *p == b_id
    ));
    assert_eq!(said(&acts)[0], "dropped 2 message(s) waiting for bob");
    assert_eq!(s.outbox.len(), 0);
    assert!(!s.pool.holds(&b_id));
    assert_eq!(said(&run(&mut s, "/forget bob")), ["no contact called bob"]);
    assert!(name_for_peer(&s.book, &b_id).starts_with("someone not in your book ("));
    // A stranger's presence frames and messages are nobody's.
    assert!(s.heard(b_id, Message::PresenceAsk, NOW).is_empty());
    assert!(s.heard(b_id, Message::Left { id: 0, at: 0, body: "x".into() }, NOW).is_empty());
}

#[test]
fn the_book_is_listed_with_who_is_there() {
    let b_id = bob().id();
    let mut s = empty();
    assert_eq!(
        said(&run(&mut s, "/contacts")),
        ["(no contacts yet — /add <name> <address>.onion <key>)"]
    );
    let mut s = with_bob();
    let print = murmure::onion::fingerprint(&bob().onion_address());
    assert_eq!(said(&run(&mut s, "/contacts")), [format!("  bob              {print}")]);
    s.book.set_presence("bob", Presence::On);
    assert!(said(&run(&mut s, "/contacts"))[0].ends_with("  (presence on, not connected)"));
    run(&mut s, "/tell bob x");
    s.connected(b_id);
    assert!(said(&run(&mut s, "/contacts"))[0].ends_with("  (online)  (1 waiting to go out)"));
    s.book.set_presence("bob", Presence::TheyAsked);
    assert!(said(&run(&mut s, "/contacts"))[0].contains("  (asks to see you — /presence bob)"));
    s.book.set_presence("bob", Presence::WeAsked);
    assert!(said(&run(&mut s, "/contacts"))[0].contains("  (presence: asked, waiting)"));
}

#[test]
fn a_typed_line_is_echoed_and_run() {
    let mut s = empty();
    let acts = s.typed(Typed::Line(" /copy ".into()), "a.onion", "k", NOW);
    assert!(matches!(&acts[0], Do::Say(Kind::Mine, t) if t == "> /copy"));
    assert!(matches!(&acts[1], Do::Copy(t) if t == "a.onion k"));
    let acts = s.typed(Typed::Post { parts: Vec::new(), direct: false }, "a", "k", NOW);
    assert_eq!(
        errors(&acts),
        ["files only go somewhere during a call — /call someone first"]
    );
    assert!(matches!(run(&mut s, "/quit").last(), Some(Do::Quit)));
    let help = said(&run(&mut s, "/help"));
    assert_eq!(help.len(), 41);
    assert_eq!(help[3], "commands:");
}

#[test]
fn startup_says_where_things_stand() {
    assert_eq!(opening_line(true, 1), "identity loaded, 1 contact");
    assert_eq!(opening_line(false, 0), "identity generated, 0 contacts");
    assert_eq!(visibility_line(2), "only your 2 contacts can see you are running");
    assert!(visibility_line(0).starts_with("no contacts yet, so your service is discoverable"));
    assert_eq!(
        identity_mismatch("/r", "/r/identity.seed", "p.onion", "e.onion"),
        "IDENTITY MISMATCH — arti published p.onion but our seed derives e.onion. The keystore at /r/service/state/keystore holds a different key than the seed at /r/identity.seed. Nothing was overwritten: delete that keystore directory to republish under our seed, or delete the seed to adopt the stored identity."
    );
}

#[test]
fn only_our_own_address_may_be_published() {
    assert_eq!(check_published("e.onion", "e.onion", "/r", "/s"), Ok(()));
    assert_eq!(
        check_published("p.onion", "e.onion", "/r", "/s"),
        Err(identity_mismatch("/r", "/s", "p.onion", "e.onion"))
    );
}

/// A refusal is told even where nobody is connected: it waits for the next connection.
#[test]
fn a_withdrawal_waits_for_a_connection() {
    let b_id = bob().id();
    for was in [Presence::WeAsked, Presence::TheyAsked, Presence::On] {
        let mut s = with_bob();
        run(&mut s, "/presence bob");
        s.book.set_presence("bob", was);
        let acts = run(&mut s, "/presence bob off");
        assert!(written(&acts).is_empty());
        assert!(matches!(acts.last(), Some(Do::LetGo(p, false, false)) if *p == b_id));
        assert_eq!(s.book.presence_of("bob"), Presence::Off);
        let acts = s.connected(b_id);
        assert_eq!(written(&acts), vec![(b_id, Message::PresenceNo)], "and the request is gone");
    }
}

/// Being turned down ends the call, and not the connection.
#[test]
fn a_declined_call_leaves_the_connection() {
    let b_id = bob().id();
    let mut s = with_bob();
    s.connected(b_id);
    run(&mut s, "/call bob");
    assert!(!s.pool.holds(&b_id));
    let (acts, alive) = s.talked(b_id, "bob", Ok(Ended::Declined));
    assert!(alive && s.pool.holds(&b_id));
    assert_eq!(said(&acts), ["-- bob is not taking the call --"]);
    assert!(matches!(acts.last(), Some(Do::Status(t)) if t == "listening"));
}

#[test]
fn filing_a_friend_again_changes_nothing() {
    let mut s = with_bob();
    s.book.set_presence("bob", Presence::On);
    let line = format!("/add bob {} {}", bob().onion_address(), bob().discovery_key());
    assert!(errors(&run(&mut s, &line)).is_empty());
    assert_eq!(s.book.presence_of("bob"), Presence::On);
}

#[test]
fn an_id_that_leaves_no_room_is_not_taken() {
    let b_id = bob().id();
    let mut s = with_bob();
    s.connected(b_id);
    assert!(s
        .heard(b_id, Message::Left { id: u64::MAX, at: 0, body: "x".into() }, NOW)
        .is_empty());
}
