//! Whole conversations: two sides, each with a disk and a screen of its own, over one wire.

use std::collections::{HashMap, VecDeque};

use murmure::chat::{
    wants_listener, Act, Conversation, Listening, PostPart, Pump, Sending, PROGRESS_EVERY,
};
use murmure::files::{describe, finish, free_candidate, hash_bytes, partial_path, Landing, Offer};
use murmure::message::{Addr, Direct, FileRef, Message, Piece};
use murmure::proto::{read_frame, write_frame, MAX_CHUNK, MAX_TEXT};
use murmure::typed::{Ended, Route};
use murmure::ui::Kind;

/// One side of a conversation.
struct Side {
    name: &'static str,
    conv: Conversation,
    disk: HashMap<String, Vec<u8>>,
    screen: Vec<(Kind, String)>,
    inbox: VecDeque<Message>,
    source: Option<(Vec<u8>, usize)>,
    partial: Option<String>,
    ended: Option<Ended>,
    /// Whether this machine can listen for a direct link at all.
    listens: bool,
    /// Whether dialling out works.
    dials: bool,
    /// What was sent outside Tor.
    outside: usize,
}

impl Side {
    fn new(name: &'static str) -> Side {
        Side {
            name,
            conv: Conversation::new(),
            disk: HashMap::new(),
            screen: Vec::new(),
            inbox: VecDeque::new(),
            source: None,
            partial: None,
            ended: None,
            listens: true,
            dials: true,
            outside: 0,
        }
    }

    fn saw(&self, text: &str) -> bool {
        self.screen.iter().any(|(_, l)| l.contains(text))
    }

    /// How often a line holding this text was shown.
    fn times(&self, text: &str) -> usize {
        self.screen.iter().filter(|(_, l)| l.contains(text)).count()
    }
}

/// Do what one side was told to, the other being where its messages go.
fn perform(me: &mut Side, them: &mut Side, acts: Vec<Act>) {
    for act in acts {
        let more = match act {
            Act::Say(kind, text) => {
                me.screen.push((kind, text));
                Vec::new()
            }
            Act::Send(msg) => {
                let mut wire = Vec::new();
                write_frame(&mut wire, &msg).unwrap();
                let (got, rest) = read_frame(&wire).unwrap().unwrap();
                assert!(rest.is_empty());
                them.inbox.push_back(got);
                Vec::new()
            }
            Act::Describe(path, route) => {
                let body = me.disk.get(&path).expect("a file to offer");
                let offer = describe(&path, false, body.len() as u64, &hash_bytes(body)).unwrap();
                me.conv.offer(path, route, offer)
            }
            Act::OpenSource(path, offset) => {
                me.source = Some((me.disk[&path].clone(), offset as usize));
                Vec::new()
            }
            Act::Dial(direct) => {
                assert_eq!(direct.candidates.len(), 1);
                if me.dials {
                    me.conv.dialled(None)
                } else {
                    me.conv.dialled(Some("unreachable".into()))
                }
            }
            Act::Push(path, offset) => {
                let body = me.disk[&path][offset as usize..].to_vec();
                me.outside += body.len();
                let offer = them.conv.pulling.as_ref().unwrap().copy();
                them.disk.insert(partial_path("in", &offer.hash), body);
                let landed = them.conv.pulled(None);
                perform(them, me, landed);
                me.conv.pushed(None)
            }
            Act::Pull(_) => Vec::new(),
            Act::StopDirect => Vec::new(),
            Act::Take(offered) => {
                let have = me
                    .disk
                    .get(&partial_path("in", &offered.offer.hash))
                    .map(|b| b.len() as u64);
                let listening = if !wants_listener(&offered, have) {
                    Listening::NotTried
                } else if me.listens {
                    Listening::Open(Direct {
                        candidates: vec![Addr::V4([127, 0, 0, 1], 1)],
                        fingerprint: [9u8; 32],
                    })
                } else {
                    Listening::Failed("no socket".into())
                };
                me.conv.taken(offered, have, listening)
            }
            Act::OpenPartial(hash, offset) => {
                let path = partial_path("in", &hash);
                let file = me.disk.entry(path.clone()).or_default();
                file.truncate(offset as usize);
                assert_eq!(file.len() as u64, offset);
                me.partial = Some(path);
                Vec::new()
            }
            Act::WritePartial(data) => {
                let path = me.partial.clone().unwrap();
                me.disk.get_mut(&path).unwrap().extend(data);
                Vec::new()
            }
            Act::Finish(offer) => land(me, &offer),
            Act::Aside(msg) => panic!("nothing is passed on here: {msg:?}"),
        };
        perform(me, them, more);
    }
}

/// Verify a complete file, and give it its name.
fn land(me: &mut Side, offer: &Offer) -> Vec<Act> {
    let got = hash_bytes(&me.disk[&partial_path("in", &offer.hash)]);
    let mut taken = Vec::new();
    while me.disk.contains_key(&free_candidate("in", &offer.name, taken.len() as u64 + 1)) {
        taken.push(true);
    }
    let landing = finish("in", offer, &got, &taken);
    match &landing {
        Landing::Keep { from, to } | Landing::Quarantine { from, to } => {
            let body = me.disk.remove(from).unwrap();
            me.disk.insert(to.clone(), body);
        }
        Landing::BadName(_) => {}
    }
    me.conv.landed(landing.outcome(&offer.name))
}

fn typed(me: &mut Side, them: &mut Side, line: &str) {
    let (acts, end) = me.conv.typed(line, Some("/home/me"));
    perform(me, them, acts);
    if end.is_some() {
        me.ended = end;
    }
}

/// Let everything happen that can, until both sides are quiet. Every line that appears on a
/// side's screen may make it type an answer, the first time only.
fn settle(a: &mut Side, b: &mut Side, mut script: Vec<(&str, &str, &str)>) {
    for _ in 0..10_000 {
        let mut moved = false;
        for turn in 0..2 {
            let (me, them) = if turn == 0 { (&mut *a, &mut *b) } else { (&mut *b, &mut *a) };
            if me.ended.is_some() {
                continue;
            }
            if let Some(i) = script.iter().position(|(who, text, _)| *who == me.name && me.saw(text)) {
                let (_, _, reply) = script.remove(i);
                typed(me, them, reply);
                moved = true;
                continue;
            }
            if let Some(msg) = me.inbox.pop_front() {
                let hashes: Vec<[u8; 32]> = match &msg {
                    Message::FileOffer { hash, .. } => vec![*hash],
                    Message::Post { pieces, .. } => pieces
                        .iter()
                        .filter_map(|p| match p {
                            Piece::File(f) => Some(f.hash),
                            Piece::Text(_) => None,
                        })
                        .collect(),
                    _ => Vec::new(),
                };
                let partials: Vec<Option<u64>> = hashes
                    .iter()
                    .map(|h| me.disk.get(&partial_path("in", h)).map(|b| b.len() as u64))
                    .collect();
                let (acts, end) = me.conv.handle(msg, them.name, &partials);
                perform(me, them, acts);
                if end.is_some() {
                    me.ended = end;
                }
                moved = true;
                continue;
            }
            match me.conv.pump() {
                Pump::Nothing => {}
                Pump::Done => {
                    let acts = me.conv.sent_all();
                    perform(me, them, acts);
                    moved = true;
                }
                Pump::Read(n) => {
                    let (body, at) = me.source.as_mut().unwrap();
                    let end = (*at + n).min(body.len());
                    let data = body[*at..end].to_vec();
                    *at = end;
                    let acts = me.conv.pumped(data);
                    perform(me, them, acts);
                    moved = true;
                }
            }
            if me.ended.is_none() {
                me.ended = me.conv.settled();
            }
        }
        if !moved {
            return;
        }
    }
    panic!("the two sides never came to rest");
}

/// One file, offered by alice and answered by bob when the offer is on his screen.
fn transfer(payload: &[u8], answer: &str, already_here: usize, route: Route) -> (Side, Side) {
    let mut alice = Side::new("alice");
    let mut bob = Side::new("bob");
    alice.disk.insert("out/rapport.pdf".into(), payload.to_vec());
    if already_here > 0 {
        bob.disk.insert(
            partial_path("in", &hash_bytes(payload)),
            payload[..already_here].to_vec(),
        );
    }
    let flag = match route {
        Route::Direct => "--direct ",
        Route::Tor => "",
    };
    typed(&mut alice, &mut bob, &format!("/send {flag}out/rapport.pdf"));
    settle(
        &mut alice,
        &mut bob,
        vec![
            ("alice", "-- sent ", "/bye"),
            ("alice", "declined", "/bye"),
            ("bob", "offers", answer),
        ],
    );
    (alice, bob)
}

fn payload(n: usize) -> Vec<u8> {
    (0..n).map(|i| (i % 251) as u8).collect()
}

#[test]
fn a_typed_line_reaches_the_other_side() {
    let (mut alice, mut bob) = (Side::new("alice"), Side::new("them"));
    typed(&mut alice, &mut bob, "bonjour");
    typed(&mut alice, &mut bob, "/bye");
    assert_eq!(bob.inbox.pop_front(), Some(Message::Text("bonjour".into())));
    assert_eq!(alice.ended, Some(Ended::WeHungUp));
    assert_eq!(alice.screen, vec![(Kind::Mine, "you> bonjour".to_owned())]);
}

#[test]
fn a_file_offered_and_accepted_arrives_intact() {
    let body = payload(MAX_CHUNK * 2 + 777);
    let (alice, bob) = transfer(&body, "/accept", 0, Route::Tor);
    assert_eq!(bob.disk.get("in/rapport.pdf"), Some(&body));
    assert_eq!(alice.outside, 0);
    assert!(bob.saw("-- received in/rapport.pdf --"));
    assert!(alice.saw("-- sent rapport.pdf --"));
    assert_eq!(alice.ended, Some(Ended::WeHungUp));
}

#[test]
fn a_direct_transfer_arrives_intact() {
    let body = payload(MAX_CHUNK * 3 + 1234);
    let (alice, bob) = transfer(&body, "/accept", 0, Route::Direct);
    assert_eq!(bob.disk.get("in/rapport.pdf"), Some(&body));
    assert_eq!(alice.outside, body.len(), "not one byte of it went over Tor");
    assert!(bob.saw("asked to go outside Tor"));
    assert!(alice.saw("it shows them your IP"));
    assert!(alice.saw("-- sent rapport.pdf directly --"));
}

#[test]
fn a_direct_offer_can_still_be_refused() {
    let (alice, bob) = transfer(b"jamais envoye", "/refuse", 0, Route::Direct);
    assert!(!bob.disk.contains_key("in/rapport.pdf"));
    assert!(alice.saw("-- bob declined \"rapport.pdf\" --"));
}

#[test]
fn a_direct_offer_with_a_partial_on_disk_uses_tor() {
    let body = payload(MAX_CHUNK + 500);
    let (alice, bob) = transfer(&body, "/accept", body.len() / 2, Route::Direct);
    assert_eq!(bob.disk.get("in/rapport.pdf"), Some(&body));
    assert_eq!(alice.outside, 0);
    assert!(bob.saw("-- resuming, so this one goes over Tor --"));
}

#[test]
fn a_refused_file_is_never_written() {
    let (_, bob) = transfer(b"bonjour tout le monde", "/refuse", 0, Route::Tor);
    assert!(bob.disk.is_empty(), "refusing must not even create anything");
    assert!(bob.saw("refused \"rapport.pdf\""));
}

#[test]
fn a_half_received_file_resumes_from_disk() {
    let body = payload(MAX_CHUNK + 500);
    let cut = body.len() / 2;
    let (alice, bob) = transfer(&body, "/accept", cut, Route::Tor);
    assert_eq!(
        bob.disk.get("in/rapport.pdf"),
        Some(&body),
        "the two halves must join with no gap and no overlap"
    );
    assert!(bob.saw("already here, /accept resumes"));
    assert!(alice.saw("-- resuming \"rapport.pdf\" from 16.6 kB --"));
}

/// A link that cannot be had, on either side, costs no transfer.
#[test]
fn a_direct_link_that_fails_falls_back_to_tor() {
    for (dials, listens) in [(false, true), (true, false)] {
        let body = payload(MAX_CHUNK + 9);
        let (mut alice, mut bob) = (Side::new("alice"), Side::new("bob"));
        alice.dials = dials;
        bob.listens = listens;
        alice.disk.insert("f".into(), body.clone());
        typed(&mut alice, &mut bob, "/send --direct f");
        settle(&mut alice, &mut bob, vec![("bob", "offers", "/accept")]);
        assert_eq!(bob.disk.get("in/f"), Some(&body));
        assert_eq!(alice.outside, 0);
        if listens {
            assert!(alice.saw("-- could not reach them directly (unreachable); using Tor --"));
            assert!(bob.saw("-- alice could not reach us directly; using Tor --"));
        } else {
            assert!(bob.saw("-- no direct link (no socket); using Tor --"));
        }
    }
}

fn two_photos() -> (Side, Side, Vec<PostPart>) {
    let mut alice = Side::new("alice");
    let bob = Side::new("bob");
    let mut parts = Vec::new();
    for (path, word, body) in [
        ("out/photo1.png", "voici", vec![1u8; 5000]),
        ("out/photo2.png", "et", vec![2u8; 7000]),
    ] {
        let offer = describe(path, false, body.len() as u64, &hash_bytes(&body)).unwrap();
        alice.disk.insert(path.into(), body);
        parts.push(PostPart::Text(word.into()));
        parts.push(PostPart::File(path.into(), offer));
    }
    (alice, bob, parts)
}

#[test]
fn a_message_can_carry_several_files() {
    let (mut alice, mut bob, parts) = two_photos();
    let acts = alice.conv.post(parts, false);
    perform(&mut alice, &mut bob, acts);
    settle(
        &mut alice,
        &mut bob,
        vec![("bob", "[2]", "/accept 2"), ("bob", "-- received", "/accept 1")],
    );
    assert_eq!(bob.disk["in/photo1.png"], vec![1u8; 5000]);
    assert_eq!(bob.disk["in/photo2.png"], vec![2u8; 7000]);
    assert_eq!(alice.times("-- sent "), 2);
    assert!(alice.saw("you> voici [photo1.png]et [photo2.png]"));
    assert!(alice.saw("-- offered 2 file(s); waiting for them to accept --"));
    assert!(bob.saw("alice> voici [photo1.png]et [photo2.png]"));
    assert!(bob.saw("/accept 2 for a particular one"));
}

#[test]
fn accepting_all_takes_each_in_turn() {
    let (mut alice, mut bob, parts) = two_photos();
    let acts = alice.conv.post(parts, false);
    perform(&mut alice, &mut bob, acts);
    settle(&mut alice, &mut bob, vec![("bob", "[2]", "/accept all")]);
    assert!(bob.disk.contains_key("in/photo1.png") && bob.disk.contains_key("in/photo2.png"));
    assert_eq!(bob.times("-- received "), 2);
    assert!(!bob.conv.taking_all, "the wish ends with the last");
    typed(&mut bob, &mut alice, "/accept all");
    assert!(bob.saw("nothing to answer"));
}

/// A corrupted transfer is put aside, under a name that says so.
#[test]
fn a_file_that_changed_on_the_way_is_not_trusted() {
    let (mut alice, mut bob) = (Side::new("alice"), Side::new("bob"));
    let offer = Offer { name: "a".into(), size: 3, hash: hash_bytes(b"abc") };
    for m in [
        Message::FileOffer { name: "a".into(), size: 3, hash: offer.hash, direct: false },
    ] {
        bob.inbox.push_back(m);
    }
    settle(&mut alice, &mut bob, vec![("bob", "offers", "/accept")]);
    for m in [Message::FileChunk(b"abX".to_vec()), Message::FileDone] {
        bob.inbox.push_back(m);
    }
    settle(&mut alice, &mut bob, Vec::new());
    assert!(!bob.disk.contains_key("in/a"));
    assert!(bob.saw("does not match the hash it was offered under"));
}

fn fault(conv: &mut Conversation, msg: Message) -> String {
    let (acts, end) = conv.handle(msg, "eve", &[]);
    assert_eq!(end, Some(Ended::PeerHungUp));
    match acts.last() {
        Some(Act::Say(Kind::Error, text)) => text.clone(),
        other => panic!("a fault is said: {other:?}"),
    }
}

fn outgoing(conv: &mut Conversation, n: u8, size: u64, route: Route) {
    let offer = Offer { name: format!("f{n}"), size, hash: [n; 32] };
    conv.offer(format!("/x/f{n}"), route, offer);
}

/// Everything a peer can get wrong ends the conversation, and says why.
#[test]
fn every_protocol_fault_is_named() {
    let mut c = Conversation::new();
    assert_eq!(
        fault(&mut c, Message::FileChunk(vec![1])),
        "eve sent file data we did not accept"
    );
    assert_eq!(fault(&mut c, Message::FileDone), "eve ended a transfer that was not running");
    assert_eq!(
        fault(&mut c, Message::FileAccept { hash: [1; 32], offset: 0, direct: None }),
        "eve accepted a file we never offered"
    );
    for size in [0, (2u64 << 30) + 1] {
        assert_eq!(
            fault(
                &mut c,
                Message::FileOffer { name: "x".into(), size, hash: [1; 32], direct: false }
            ),
            format!("eve offered a file of {size} bytes, which is not a size we take")
        );
    }
    let bad = Piece::File(FileRef { name: "a/..".into(), size: 1, hash: [0; 32] });
    assert_eq!(
        fault(&mut c, Message::Post { pieces: vec![Piece::Text("hi".into()), bad], direct: false }),
        "the peer sent \"a/..\" as a filename, which is not a name"
    );
    outgoing(&mut c, 1, 10, Route::Tor);
    assert_eq!(
        fault(&mut c, Message::FileAccept { hash: [1; 32], offset: 11, direct: None }),
        "eve asked to resume past the end of the file"
    );
    outgoing(&mut c, 1, 10, Route::Tor);
    let link = Direct { candidates: vec![Addr::V4([1, 2, 3, 4], 5)], fingerprint: [0; 32] };
    assert_eq!(
        fault(&mut c, Message::FileAccept { hash: [1; 32], offset: 0, direct: Some(link) }),
        "eve answered with a direct link we never asked for"
    );
    outgoing(&mut c, 1, 10, Route::Tor);
    outgoing(&mut c, 2, 10, Route::Tor);
    assert!(c.handle(Message::FileAccept { hash: [1; 32], offset: 0, direct: None }, "eve", &[]).1.is_none());
    assert_eq!(
        fault(&mut c, Message::FileAccept { hash: [2; 32], offset: 0, direct: None }),
        "eve accepted a second file while one is still going"
    );
    let mut c = Conversation::new();
    c.handle(
        Message::FileOffer { name: "x".into(), size: 2000, hash: [1; 32], direct: false },
        "eve",
        &[],
    );
    let (acts, _) = c.typed("/accept", None);
    let Some(Act::Take(offered)) = acts.into_iter().next() else { panic!("the offer is taken") };
    c.taken(offered, None, Listening::NotTried);
    assert_eq!(
        fault(&mut c, Message::FileChunk(vec![0; 2001])),
        "eve sent more data than the 2.0 kB offered"
    );
}

#[test]
fn commands_and_long_lines_stay_here() {
    let (mut alice, mut bob) = (Side::new("alice"), Side::new("bob"));
    typed(&mut alice, &mut bob, "/add bob x.onion key");
    typed(&mut alice, &mut bob, &"y".repeat(MAX_TEXT + 1));
    typed(&mut alice, &mut bob, "   ");
    typed(&mut alice, &mut bob, "/accept");
    typed(&mut alice, &mut bob, "/refuse 3");
    assert!(bob.inbox.is_empty(), "nothing of it may travel");
    assert_eq!(
        alice.screen.iter().map(|(k, t)| (*k, t.as_str())).collect::<Vec<_>>(),
        [
            (
                Kind::Error,
                "/add is not available during a call — /bye first. (start a line with // to send a literal slash)"
            ),
            (Kind::Error, "line dropped: 32769 bytes, the limit is 32768"),
            (Kind::Error, "nothing to answer"),
            (Kind::Error, "nothing to answer"),
        ]
    );
}

#[test]
fn a_number_that_is_not_there_is_said() {
    let mut c = Conversation::new();
    for n in [1u8, 2] {
        c.handle(
            Message::FileOffer { name: format!("f{n}"), size: 5, hash: [n; 32], direct: false },
            "bob",
            &[],
        );
    }
    let (acts, _) = c.typed("/accept 3", None);
    assert!(matches!(&acts[..], [Act::Say(Kind::Error, t)] if t == "there is no file 3; there are 2"));
    let (acts, _) = c.typed("/accept 0", None);
    assert!(matches!(&acts[..], [Act::Say(Kind::Error, _)]));
    let (acts, _) = c.typed("/refuse 2", None);
    assert!(matches!(&acts[..], [Act::Say(Kind::System, _), Act::Send(Message::FileReject { hash })] if *hash == [2; 32]));
    assert_eq!(c.pending.len(), 1);
}

/// `/bye` waits for a file, and a second one does not.
#[test]
fn a_goodbye_waits_for_the_file() {
    let mut c = Conversation::new();
    assert_eq!(c.typed("/bye", None).1, Some(Ended::WeHungUp));
    c.sending = Some(Sending {
        name: "f".into(),
        path: "/f".into(),
        accepted: true,
        start: 0,
        sent: 5,
        size: 5,
        next_report: PROGRESS_EVERY,
        route: Route::Tor,
    });
    let (acts, end) = c.typed("/bye", None);
    assert!(matches!(&acts[..], [Act::Say(Kind::System, t)] if t.contains("type it again to leave now")));
    assert_eq!(end, None);
    assert_eq!(c.settled(), None);
    assert_eq!(c.typed("/quit", None).1, Some(Ended::Quit), "a second one leaves at once");
    assert_eq!(c.pump(), Pump::Done);
    c.sent_all();
    assert_eq!(c.settled(), Some(Ended::WeHungUp), "the first one holds once it is done");
    assert_eq!(c.keyboard_closed(), Some(Ended::InputClosed));
}

/// "Here, take this, I'm off": the offer just made is not cancelled by leaving.
#[test]
fn a_goodbye_waits_for_an_answer() {
    let body = payload(1000);
    let (mut alice, mut bob) = (Side::new("alice"), Side::new("bob"));
    alice.disk.insert("f".into(), body.clone());
    typed(&mut alice, &mut bob, "/send f");
    typed(&mut alice, &mut bob, "/bye");
    assert_eq!(alice.ended, None);
    settle(&mut alice, &mut bob, vec![("bob", "offers", "/accept")]);
    assert_eq!(bob.disk.get("in/f"), Some(&body));
    assert_eq!(alice.ended, Some(Ended::WeHungUp));

    let (mut alice, mut bob) = (Side::new("alice"), Side::new("bob"));
    alice.disk.insert("f".into(), body);
    typed(&mut alice, &mut bob, "/send f");
    typed(&mut alice, &mut bob, "/bye");
    typed(&mut alice, &mut bob, "/bye");
    assert_eq!(alice.ended, Some(Ended::WeHungUp), "a second one leaves regardless");
}

#[test]
fn a_peer_who_leaves_does_not_cut_a_direct_transfer() {
    let mut c = Conversation::new();
    c.pushing = Some("f".into());
    assert_eq!(c.reader_ended(), None);
    assert!(c.peer_gone);
    assert_eq!(c.settled(), None);
    let acts = c.pushed(Some("reset".into()));
    assert!(matches!(&acts[0], Act::Say(Kind::Error, t) if t == "-- the direct link failed: reset --"));
    assert_eq!(c.settled(), Some(Ended::PeerHungUp));
    assert_eq!(Conversation::new().reader_ended(), Some(Ended::PeerHungUp));
}

/// Progress is told every megabyte, on both sides, and an interruption says where it stopped.
#[test]
fn progress_is_told_and_an_interruption_too() {
    let body = payload(2_500_000);
    let (alice, bob) = transfer(&body, "/accept", 0, Route::Tor);
    assert_eq!(alice.times(" of 2.5 MB"), 2);
    assert_eq!(bob.times(" of 2.5 MB"), 2);
    assert!(bob.saw("   1.0 MB of 2.5 MB"));

    let mut c = Conversation::new();
    assert_eq!(c.interrupted(), None);
    c.handle(
        Message::FileOffer { name: "x".into(), size: 2000, hash: [1; 32], direct: false },
        "eve",
        &[],
    );
    let (acts, _) = c.typed("/accept", None);
    let Some(Act::Take(offered)) = acts.into_iter().next() else { panic!("the offer is taken") };
    c.taken(offered, Some(1500), Listening::NotTried);
    assert_eq!(
        c.interrupted().as_deref(),
        Some("-- \"x\" interrupted at 1.5 kB of 2.0 kB; offer it again to resume --")
    );
}

#[test]
fn a_file_that_shrank_is_given_up() {
    let mut c = Conversation::new();
    outgoing(&mut c, 1, 100_000, Route::Tor);
    let (acts, _) = c.handle(
        Message::FileAccept { hash: [1; 32], offset: 99_990, direct: None },
        "bob",
        &[],
    );
    assert!(matches!(&acts[..], [Act::OpenSource(p, 99_990), Act::Say(Kind::System, _)] if p == "/x/f1"));
    assert_eq!(c.pump(), Pump::Read(10));
    let acts = c.pumped(Vec::new());
    assert!(matches!(&acts[..], [Act::Say(Kind::Error, t)] if t == "\"f1\" ended sooner than its size said"));
    assert_eq!(c.pump(), Pump::Nothing);
    outgoing(&mut c, 2, 100_000, Route::Tor);
    outgoing(&mut c, 2, 100_000, Route::Tor);
    assert_eq!(c.offered.len(), 1, "the same file is not offered twice");
}

#[test]
fn a_peer_cannot_steer_the_screen() {
    let mut c = Conversation::new();
    let (acts, _) = c.handle(Message::Text("hi\u{1b}[2J\u{202e}".into()), "eve", &[]);
    assert!(matches!(&acts[..], [Act::Say(Kind::Theirs, t)] if t == "eve> hi\u{fffd}[2J\u{fffd}"));
    let (acts, end) = c.handle(Message::CallDecline, "eve", &[]);
    assert!(acts.is_empty());
    assert_eq!(end, Some(Ended::Declined));
    assert_eq!(Ended::Declined.describe("eve"), "eve is not taking the call");
    assert!(!Ended::Declined.leaves());
    assert!(c.handle(Message::Ping, "eve", &[]).0.is_empty());
}

/// What is no part of the conversation is handed on, as it came.
#[test]
fn what_is_for_later_is_passed_on() {
    let mut c = Conversation::new();
    for m in [
        Message::PresenceAsk,
        Message::PresenceYes,
        Message::PresenceNo,
        Message::Left { id: 3, at: 7, body: "hier".into() },
        Message::Got(9),
    ] {
        let (acts, end) = c.handle(m.clone(), "bob", &[]);
        assert!(matches!(&acts[..], [Act::Aside(passed)] if *passed == m));
        assert_eq!(end, None);
    }
}

/// A disk that fails costs the transfer, and not the conversation.
#[test]
fn a_failing_disk_ends_the_transfer_alone() {
    let mut c = Conversation::new();
    outgoing(&mut c, 1, 100_000, Route::Tor);
    c.handle(Message::FileAccept { hash: [1; 32], offset: 0, direct: None }, "bob", &[]);
    let acts = c.pump_failed("bad sector".into());
    assert!(matches!(&acts[..], [Act::Say(Kind::Error, t)] if t == "bad sector"));
    assert_eq!(c.pump(), Pump::Nothing);

    c.handle(
        Message::FileOffer { name: "x".into(), size: 2000, hash: [2; 32], direct: false },
        "bob",
        &[],
    );
    let (acts, _) = c.typed("/accept", None);
    let Some(Act::Take(offered)) = acts.into_iter().next() else { panic!("the offer is taken") };
    c.taken(offered, None, Listening::NotTried);
    let acts = c.partial_failed("no room".into());
    assert!(matches!(&acts[..], [Act::Say(Kind::Error, t)] if t == "no room"));
    assert!(!c.busy());

    // Where all are to be taken, the next one is.
    for n in [3u8, 4] {
        c.handle(
            Message::FileOffer { name: format!("f{n}"), size: 9, hash: [n; 32], direct: false },
            "bob",
            &[],
        );
    }
    let (acts, _) = c.typed("/accept all", None);
    assert!(matches!(&acts[..], [Act::Take(o)] if o.offer.hash == [3; 32]));
    let acts = c.partial_failed("no room".into());
    assert!(matches!(&acts[..], [Act::Say(Kind::Error, _), Act::Take(o)] if o.offer.hash == [4; 32]));
    assert_eq!(c.partial_failed("no room".into()).len(), 1);
    assert!(!c.taking_all);
}
