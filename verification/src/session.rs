//! The program between calls: the book, what waits to be delivered, the connections held, who
//! is calling, and what every event and command does to them.
//!
//! Like a conversation, this decides and does nothing itself. Each method gives back what is
//! to be done, in order; where one of those things fails, the rest of them is not done, and is
//! given to [`Session::undone`].

use vstd::prelude::*;
use vstd::string::*;

use crate::command::{parse, parsed, Command, CommandView};
use crate::contacts::{
    accepts_left, add_fault, after_filing, after_left, agreed_of, name_for, pair_views, Contact,
    ContactView, Contacts, EntryView,
};
use crate::crypto::{
    discovery_error, discovery_fault, onion_fault, onion_key, onion_text,
};
use crate::files::{
    any_invisible, sanitize_for_display, shown_text, shown_text_is_visible, visible_decimal,
    visible_together,
};
use crate::identity::{address_of, peer_of, PeerId};
use crate::message::{Message, MessageView};
use crate::onion::{fingerprint, fingerprint_of};
use crate::outbox::{
    after_delivered, awaits, how_long_ago, age_text, left_frame, queued_behind, surplus,
    waiting_at, Outbox, TooLong, WaitingView,
};
use crate::peers::same_peer;
use crate::pool::{forgotten, held, held_for, kept, retained, Pool, PoolView};
use crate::presence::{answer_to, leads_to, note_of, Presence, Said};
use crate::proto::{utf8_len, MAX_TEXT};
use crate::text::{decimal, decimal_text, trim, trimmed};
use crate::typed::Ended;
use crate::ui::Kind;

verus! {

/// How long reaching a friend may take, in milliseconds.
pub const CALL_TIMEOUT: u64 = 240000;

/// How often we look after everyone we agreed presence with, in seconds.
pub const PRESENCE_SWEEP: u64 = 60;

/// Somebody calling, waiting for an answer. Their first words are held unread.
#[derive(Debug)]
pub struct Ringing {
    pub peer: PeerId,
    /// What we know them by.
    pub name: String,
    pub first: Message,
}

/// See [`Ringing`].
#[verifier::ext_equal]
pub struct RingingView {
    pub peer: PeerId,
    pub name: Seq<char>,
    pub first: MessageView,
}

impl View for Ringing {
    type V = RingingView;

    open spec fn view(&self) -> RingingView {
        RingingView { peer: self.peer, name: self.name@, first: self.first@ }
    }
}

/// Something to be done.
#[derive(Debug)]
pub enum Do {
    /// Put a line on screen.
    Say(Kind, String),
    /// Replace the status in the title bar.
    Status(String),
    /// Put this on the clipboard.
    Copy(String),
    /// Write the contacts book to disk.
    SaveBook,
    /// Write the contacts book to disk, then put this line on screen. Where the book cannot be
    /// written, that is said in place of the line, and the rest is done all the same.
    SaveAndSay(Kind, String),
    /// Write the outbox to disk.
    SaveOutbox,
    /// Tell the service which contacts may discover it, and hold a key for each of them.
    Resync,
    /// Send this on the connection we hold to this peer; where that fails, it is to be given
    /// to [`Pool::hold`].
    Write(PeerId, Message),
    /// Open a connection to this peer in the background.
    Dial(PeerId),
    /// Let go of this peer: give up a dial, close a connection.
    LetGo(PeerId, bool, bool),
    /// Hold a conversation with this peer over the connection we held; their first frame, if
    /// there is one, comes first.
    Talk(PeerId, String, Option<Message>),
    /// Dial this peer, and talk once it answers.
    Call(PeerId, String),
    /// Leave the program.
    Quit,
}

/// See [`Do`].
#[verifier::ext_equal]
pub enum DoView {
    Say(Kind, Seq<char>),
    Status(Seq<char>),
    Copy(Seq<char>),
    SaveBook,
    SaveAndSay(Kind, Seq<char>),
    SaveOutbox,
    Resync,
    Write(PeerId, MessageView),
    Dial(PeerId),
    LetGo(PeerId, bool, bool),
    Talk(PeerId, Seq<char>, Option<MessageView>),
    Call(PeerId, Seq<char>),
    Quit,
}

impl View for Do {
    type V = DoView;

    open spec fn view(&self) -> DoView {
        match *self {
            Do::Say(kind, text) => DoView::Say(kind, text@),
            Do::Status(text) => DoView::Status(text@),
            Do::Copy(text) => DoView::Copy(text@),
            Do::SaveBook => DoView::SaveBook,
            Do::SaveAndSay(kind, text) => DoView::SaveAndSay(kind, text@),
            Do::SaveOutbox => DoView::SaveOutbox,
            Do::Resync => DoView::Resync,
            Do::Write(peer, m) => DoView::Write(peer, m@),
            Do::Dial(peer) => DoView::Dial(peer),
            Do::LetGo(peer, dial, link) => DoView::LetGo(peer, dial, link),
            Do::Talk(peer, name, first) => DoView::Talk(
                peer,
                name@,
                match first {
                    Some(m) => Some(m@),
                    None => None,
                },
            ),
            Do::Call(peer, name) => DoView::Call(peer, name@),
            Do::Quit => DoView::Quit,
        }
    }
}

/// What is to be done, by values.
pub open spec fn dos(s: Seq<Do>) -> Seq<DoView> {
    s.map_values(|d: Do| d@)
}

/// A line of program chatter.
pub open spec fn system(text: Seq<char>) -> DoView {
    DoView::Say(Kind::System, text)
}

/// A line about a failure.
pub open spec fn failure(text: Seq<char>) -> DoView {
    DoView::Say(Kind::Error, text)
}

/// Everything the program holds between calls.
#[derive(Debug)]
pub struct Session {
    pub book: Contacts,
    pub outbox: Outbox,
    pub pool: Pool,
    pub ringing: Option<Ringing>,
}

/// See [`Session`].
#[verifier::ext_equal]
pub struct SessionView {
    pub book: Map<Seq<char>, ContactView>,
    pub outbox: Map<Seq<char>, Seq<WaitingView>>,
    pub next: u64,
    pub pool: PoolView,
    pub ringing: Option<RingingView>,
}

impl View for Session {
    type V = SessionView;

    open spec fn view(&self) -> SessionView {
        SessionView {
            book: self.book.book(),
            outbox: self.outbox.book(),
            next: self.outbox.next,
            pool: self.pool@,
            ringing: match self.ringing {
                Some(r) => Some(r@),
                None => None,
            },
        }
    }
}

/// What follows a number of things.
pub open spec fn plural(n: nat) -> Seq<char> {
    if n == 1 {
        ""@
    } else {
        "s"@
    }
}

/// The name we know a peer by, or something honest if we do not.
pub open spec fn named(names: Seq<EntryView>, peer: PeerId) -> Seq<char> {
    match name_for(names, trim(onion_text(peer@))) {
        Some(n) => n,
        None => "someone not in your book ("@ + fingerprint_of(onion_text(peer@)) + ")"@,
    }
}

/// Where a name stands on presence.
pub open spec fn presence_at(book: Map<Seq<char>, ContactView>, name: Seq<char>) -> Presence {
    if book.contains_key(trim(name)) {
        book[trim(name)].presence
    } else {
        Presence::Off
    }
}

/// What waits for a peer.
pub open spec fn waiting_for(s: SessionView, peer: PeerId) -> Seq<WaitingView> {
    waiting_at(s.outbox, trim(onion_text(peer@)))
}

/// Messages to a peer, by values.
pub open spec fn writes(peer: PeerId, frames: Seq<MessageView>) -> Seq<DoView> {
    frames.map_values(|m: MessageView| DoView::Write(peer, m))
}

/// What waits as it travels.
pub open spec fn left_frames(q: Seq<WaitingView>) -> Seq<MessageView> {
    q.map_values(|w: WaitingView| left_frame(w))
}

/// Messages by their values.
pub open spec fn message_views(s: Seq<Message>) -> Seq<MessageView> {
    s.map_values(|m: Message| m@)
}

/// Put everything waiting for a peer on the wire. Nothing is removed by it.
pub open spec fn delivery(s: SessionView, peer: PeerId) -> Seq<DoView> {
    let q = waiting_for(s, peer);
    if q.len() == 0 {
        Seq::empty()
    } else {
        seq![
            system(
                "-- sending "@ + decimal_text(q.len()) + " message"@ + plural(q.len())
                    + " you left --"@,
            ),
        ] + writes(peer, left_frames(q))
    }
}

/// Somebody connected to us. That is not yet a call.
pub open spec fn after_connected(s: SessionView, names: Seq<EntryView>, peer: PeerId) -> (
    SessionView,
    Seq<DoView>,
) {
    let name = named(names, peer);
    let news = !s.pool.idle.contains(peer) && presence_at(s.book, name) == Presence::On;
    (
        SessionView { pool: kept(s.pool, peer), ..s },
        writes(peer, message_views(held_for(s.pool, peer))) + (if news {
            seq![system("-- "@ + name + " is online --"@)]
        } else {
            Seq::empty()
        }) + delivery(s, peer),
    )
}

/// A dial in the background landed.
pub open spec fn after_reached(s: SessionView, names: Seq<EntryView>, peer: PeerId) -> Seq<DoView> {
    seq![system("-- "@ + named(names, peer) + " is online --"@)] + delivery(s, peer)
}

/// A connection ended with nobody talking over it.
pub open spec fn after_lost(s: SessionView, names: Seq<EntryView>, peer: PeerId) -> (
    SessionView,
    Seq<DoView>,
) {
    let name = named(names, peer);
    let gone = if presence_at(s.book, name) == Presence::On {
        seq![system("-- "@ + name + " went offline --"@)]
    } else {
        Seq::empty()
    };
    if s.ringing is Some && s.ringing->0.peer == peer {
        (
            SessionView { ringing: None, ..s },
            gone + seq![
                system("-- "@ + name + " stopped calling --"@),
                DoView::Status("listening"@),
            ],
        )
    } else {
        (s, gone)
    }
}

/// A frame for a peer: it goes out on the connection we hold, or waits for one.
pub open spec fn sent(s: SessionView, peer: PeerId, m: Message) -> (SessionView, Seq<DoView>) {
    if s.pool.idle.contains(peer) {
        (s, seq![DoView::Write(peer, m@)])
    } else {
        (SessionView { pool: held(s.pool, peer, m), ..s }, Seq::empty())
    }
}

/// The peer that 32 bytes stand for.
pub open spec fn peer_from(b: Seq<u8>) -> PeerId {
    choose|p: PeerId| p@ == b
}

/// The answer to a presence event, as it is sent.
pub open spec fn reply_to(from: Presence, said: Said) -> Option<Message> {
    match answer_to(from, said) {
        Some(MessageView::PresenceAsk) => Some(Message::PresenceAsk),
        Some(MessageView::PresenceYes) => Some(Message::PresenceYes),
        Some(_) => Some(Message::PresenceNo),
        None => None,
    }
}

/// Whether presence has come to an end.
pub open spec fn withdrawn(was: Presence, to: Presence) -> bool {
    to == Presence::Off && was != Presence::Off
}

/// What is done about the connection once presence has moved and is not at its end.
pub open spec fn after_moved(s: SessionView, peer: PeerId, to: Presence) -> (
    SessionView,
    Seq<DoView>,
) {
    if to == Presence::On {
        if s.pool.idle.contains(peer) || s.pool.dialling.contains(peer) {
            (s, Seq::empty())
        } else {
            (
                SessionView {
                    pool: PoolView { dialling: s.pool.dialling.insert(peer), ..s.pool },
                    ..s
                },
                seq![DoView::Dial(peer)],
            )
        }
    } else {
        (s, Seq::empty())
    }
}

/// What is said of a name that is not in the book.
pub open spec fn no_contact(name: Seq<char>) -> Seq<char> {
    "no contact called "@ + name + " — /add them first"@
}

/// What is said of a contact's address that stands for no key.
pub open spec fn no_address(name: Seq<char>, address: Seq<char>) -> Seq<char> {
    name + "'s address is not a valid onion address: "@ + onion_fault(address)
}

/// One presence event, and everything that follows from it.
pub open spec fn after_presence(s: SessionView, name: Seq<char>, said: Said) -> (
    SessionView,
    Seq<DoView>,
) {
    let key = trim(name);
    if !s.book.contains_key(key) {
        (s, seq![failure(no_contact(name))])
    } else {
        match onion_key(s.book[key].address) {
            None => (s, seq![failure(no_address(name, s.book[key].address))]),
            Some(b) => {
                let peer = peer_from(b);
                let was = s.book[key].presence;
                let to = leads_to(was, said);
                let s1 = SessionView {
                    book: s.book.insert(key, ContactView { presence: to, ..s.book[key] }),
                    ..s
                };
                let saved = if was != to {
                    seq![DoView::SaveBook]
                } else {
                    Seq::empty()
                };
                // At the end everything to do with the peer goes first, so that the frame which
                // says so is not dropped with it: without a connection it waits for the next.
                let s2 = if withdrawn(was, to) {
                    SessionView { pool: forgotten(s.pool, peer), ..s1 }
                } else {
                    s1
                };
                let (s3, reply) = match reply_to(was, said) {
                    Some(m) => if s.pool.idle.contains(peer) {
                        (s2, seq![DoView::Write(peer, m@)])
                    } else {
                        (SessionView { pool: held(s2.pool, peer, m), ..s2 }, Seq::empty())
                    },
                    None => (s2, Seq::empty()),
                };
                let note = match note_of(was, said, name) {
                    Some(n) => seq![system(n)],
                    None => Seq::empty(),
                };
                let (s4, moved) = if withdrawn(was, to) {
                    (
                        s3,
                        seq![
                            DoView::LetGo(
                                peer,
                                s.pool.dialling.contains(peer),
                                s.pool.idle.contains(peer),
                            ),
                        ],
                    )
                } else {
                    after_moved(s3, peer, to)
                };
                (s4, saved + reply + note + moved)
            },
        }
    }
}

/// A frame read as a presence event, if that is what it is.
pub open spec fn said_of(m: MessageView) -> Option<Said> {
    match m {
        MessageView::PresenceAsk => Some(Said::TheyAsk),
        MessageView::PresenceYes => Some(Said::TheyAgree),
        MessageView::PresenceNo => Some(Said::TheyRefuse),
        _ => None,
    }
}

/// A message somebody left for us arrives. It is shown the first time, and acknowledged every
/// time: the sender holds it until we say that we have it.
pub open spec fn after_left_message(
    s: SessionView,
    names: Seq<EntryView>,
    peer: PeerId,
    id: u64,
    at: u64,
    body: Seq<char>,
    now: u64,
) -> (SessionView, Seq<DoView>) {
    match name_for(names, trim(onion_text(peer@))) {
        None => (s, Seq::empty()),
        Some(name) => if id == u64::MAX {
            (s, Seq::empty())
        } else {
            let shown = if accepts_left(s.book, trim(name), id) {
                seq![
                    DoView::SaveAndSay(
                        Kind::Theirs,
                        name + " ("@ + age_text(
                            if now >= at {
                                (now - at) as u64
                            } else {
                                0
                            },
                        ) + ")> "@ + shown_text(body),
                    ),
                ]
            } else {
                Seq::empty()
            };
            let (s2, ack) = sent(
                SessionView { book: after_left(s.book, trim(name), id), ..s },
                peer,
                Message::Got(id),
            );
            (s2, shown + ack)
        },
    }
}

/// A message of ours was acknowledged. That, and only that, lets go of it.
pub open spec fn after_got(s: SessionView, names: Seq<EntryView>, peer: PeerId, id: u64) -> (
    SessionView,
    Seq<DoView>,
) {
    let address = trim(onion_text(peer@));
    if !awaits(s.outbox, address, id) {
        (s, Seq::empty())
    } else {
        let s2 = SessionView { outbox: after_delivered(s.outbox, address, id), ..s };
        (
            s2,
            if waiting_for(s2, peer).len() == 0 {
                seq![
                    DoView::SaveOutbox,
                    system(
                        "-- everything you wrote to "@ + named(names, peer) + " arrived --"@,
                    ),
                ]
            } else {
                seq![DoView::SaveOutbox]
            },
        )
    }
}

/// Somebody we are connected to starts talking. Their frame is held, not acted on; a second
/// caller is answered for us.
pub open spec fn after_ring(s: SessionView, names: Seq<EntryView>, peer: PeerId, m: MessageView) -> (
    SessionView,
    Seq<DoView>,
) {
    let name = named(names, peer);
    if s.ringing is Some {
        let (s2, decline) = sent(s, peer, Message::CallDecline);
        (s2, decline + seq![system("-- "@ + name + " called while you were busy --"@)])
    } else {
        (
            SessionView { ringing: Some(RingingView { peer, name, first: m }), ..s },
            seq![
                system(
                    "-- "@ + name + " is calling — /answer to take it, /decline to refuse --"@,
                ),
                DoView::Status(name + " is calling"@),
            ],
        )
    }
}

/// One frame on a connection nobody is talking over.
pub open spec fn after_heard(
    s: SessionView,
    names: Seq<EntryView>,
    peer: PeerId,
    m: MessageView,
    now: u64,
) -> (SessionView, Seq<DoView>) {
    match said_of(m) {
        Some(said) => match name_for(names, trim(onion_text(peer@))) {
            None => (s, Seq::empty()),
            Some(name) => after_presence(s, name, said),
        },
        None => match m {
            MessageView::Left { id, at, body } => after_left_message(
                s,
                names,
                peer,
                id,
                at,
                body,
                now,
            ),
            MessageView::Got(id) => after_got(s, names, peer, id),
            _ => after_ring(s, names, peer, m),
        },
    }
}

/// A dial to each of these peers that is neither held nor on its way, in turn.
pub open spec fn reached_all(p: PoolView, peers: Seq<PeerId>) -> (PoolView, Seq<DoView>)
    decreases peers.len(),
{
    if peers.len() == 0 {
        (p, Seq::empty())
    } else {
        let (q, acts) = reached_all(p, peers.drop_last());
        let peer = peers.last();
        if q.idle.contains(peer) || q.dialling.contains(peer) {
            (q, acts)
        } else {
            (PoolView { dialling: q.dialling.insert(peer), ..q }, acts.push(DoView::Dial(peer)))
        }
    }
}

/// The peers of these contacts, as far as their addresses stand for keys.
pub open spec fn peers_of(entries: Seq<EntryView>) -> Seq<PeerId>
    decreases entries.len(),
{
    if entries.len() == 0 {
        Seq::empty()
    } else {
        let before = peers_of(entries.drop_last());
        match onion_key(entries.last().1.address) {
            Some(b) => before.push(peer_from(b)),
            None => before,
        }
    }
}

/// Everyone who agreed presence is looked after.
pub open spec fn after_sweep(s: SessionView, names: Seq<EntryView>) -> (SessionView, Seq<DoView>) {
    let (pool, acts) = reached_all(s.pool, peers_of(agreed_of(names)));
    (SessionView { pool, ..s }, acts)
}

// --- commands -------------------------------------------------------------------------

/// A text with spaces behind it, up to a width.
pub open spec fn padded(s: Seq<char>, width: nat) -> Seq<char>
    decreases width - s.len(),
{
    if s.len() >= width {
        s
    } else {
        padded(s.push(' '), width)
    }
}

/// What the list of contacts says of one's presence.
pub open spec fn standing(name: Seq<char>, c: ContactView, pool: PoolView) -> Seq<char> {
    match c.presence {
        Presence::Off => ""@,
        Presence::WeAsked => "  (presence: asked, waiting)"@,
        Presence::TheyAsked => "  (asks to see you — /presence "@ + name + ")"@,
        Presence::On => match onion_key(c.address) {
            Some(b) => if pool.idle.contains(peer_from(b)) {
                "  (online)"@
            } else {
                "  (presence on, not connected)"@
            },
            None => "  (presence on, not connected)"@,
        },
    }
}

/// One line of the list of contacts.
pub open spec fn contact_line(s: SessionView, e: EntryView) -> Seq<char> {
    let n = waiting_at(s.outbox, trim(e.1.address)).len();
    "  "@ + padded(e.0, 16) + " "@ + fingerprint_of(e.1.address) + standing(e.0, e.1, s.pool) + (
    if n == 0 {
        ""@
    } else {
        "  ("@ + decimal_text(n) + " waiting to go out)"@
    })
}

/// The list of contacts.
pub open spec fn contact_list(s: SessionView, names: Seq<EntryView>) -> Seq<DoView> {
    if names.len() == 0 {
        seq![system("(no contacts yet — /add <name> <address>.onion <key>)"@)]
    } else {
        names.map_values(|e: EntryView| system(contact_line(s, e)))
    }
}

/// `/add`: file a friend, and let the service know.
pub open spec fn after_add(
    s: SessionView,
    names: Seq<EntryView>,
    name: Seq<char>,
    address: Seq<char>,
    key: Seq<char>,
) -> (SessionView, Seq<DoView>) {
    match add_fault(s.book, trim(name), trim(address), trim(key)) {
        Some(e) => (s, seq![failure(e.said(trim(name), trim(address), trim(key)))]),
        None => (
            SessionView {
                book: after_filing(s.book, trim(name), trim(address), trim(key)),
                ..s
            },
            seq![
                DoView::SaveBook,
                DoView::Resync,
                system("filed "@ + name + " as "@ + fingerprint_of(address)),
            ] + (if names.len() == 0 {
                seq![
                    system(
                        "your service is now restricted: only filed contacts can discover it."@,
                    ),
                ]
            } else {
                Seq::empty()
            }) + seq![
                system(
                    "give them a minute — the new descriptor has to reach the directory."@,
                ),
            ],
        ),
    }
}

/// `/forget`: drop a contact, what was written to them, and the connection to them.
pub open spec fn after_forget(s: SessionView, name: Seq<char>) -> (SessionView, Seq<DoView>) {
    let key = trim(name);
    if !s.book.contains_key(key) {
        (s, seq![system("no contact called "@ + name)])
    } else {
        let s1 = SessionView { book: s.book.remove(key), ..s };
        let tail = seq![
            system("forgot "@ + name),
            system(
                "they may still reach you until the introduction points rotate on their own."@,
            ),
        ];
        match onion_key(s.book[key].address) {
            None => (s1, seq![DoView::SaveBook, DoView::Resync] + tail),
            Some(b) => {
                let peer = peer_from(b);
                let n = waiting_for(s, peer).len();
                (
                    SessionView {
                        outbox: s.outbox.remove(trim(onion_text(peer@))),
                        pool: forgotten(s.pool, peer),
                        ..s1
                    },
                    seq![DoView::SaveBook, DoView::Resync] + (if n > 0 {
                        seq![
                            DoView::SaveOutbox,
                            system(
                                "dropped "@ + decimal_text(n) + " message(s) waiting for "@ + name,
                            ),
                        ]
                    } else {
                        Seq::empty()
                    }) + seq![
                        DoView::LetGo(
                            peer,
                            s.pool.dialling.contains(peer),
                            s.pool.idle.contains(peer),
                        ),
                    ] + tail,
                )
            },
        }
    }
}

/// The outbox cannot take another message: its ids have run out.
pub open spec fn outbox_full(s: SessionView) -> bool {
    s.next == u64::MAX
}

/// What is said of messages that had to go.
pub open spec fn dropped_line(dropped: nat, name: Seq<char>, kept: nat) -> Seq<char> {
    decimal_text(dropped) + " older message"@ + (if dropped == 1 {
        " was"@
    } else {
        "s were"@
    }) + " to "@ + name + " dropped — "@ + decimal_text(kept) + " were already waiting"@
}

/// `/tell`: a message is kept first, always, and goes out at once to whoever is connected.
pub open spec fn after_tell(s: SessionView, name: Seq<char>, body: Seq<char>, now: u64) -> (
    SessionView,
    Seq<DoView>,
) {
    let key = trim(name);
    if !s.book.contains_key(key) {
        (s, seq![failure(no_contact(name))])
    } else {
        let address = s.book[key].address;
        match onion_key(address) {
            None => (
                s,
                seq![failure(name + "'s address is unusable: "@ + onion_fault(address))],
            ),
            Some(b) => if outbox_full(s) {
                (s, seq![failure("the outbox cannot take another message"@)])
            } else if utf8_len(body) > MAX_TEXT {
                (s, seq![failure((TooLong { bytes: utf8_len(body) as usize }).said())])
            } else {
                let peer = peer_from(b);
                let q = waiting_at(s.outbox, trim(address));
                let q2 = queued_behind(q, WaitingView { id: s.next, at: now, body });
                let s2 = SessionView {
                    outbox: s.outbox.insert(trim(address), q2),
                    next: (s.next + 1) as u64,
                    ..s
                };
                let first = seq![DoView::SaveOutbox] + (if surplus(q) > 0 {
                    seq![failure(dropped_line(surplus(q), name, q2.len()))]
                } else {
                    Seq::empty()
                }) + seq![
                    DoView::Say(Kind::Mine, "you (to "@ + name + ")> "@ + body),
                ];
                if s.pool.idle.contains(peer) {
                    (s2, first + delivery(s2, peer))
                } else {
                    let kept_line = system(
                        name
                            + " is not connected — kept, and it goes out when they next are ("@
                            + decimal_text(q2.len()) + " waiting)"@,
                    );
                    if s.book[key].presence == Presence::On && !s.pool.dialling.contains(peer) {
                        (
                            SessionView {
                                pool: PoolView {
                                    dialling: s.pool.dialling.insert(peer),
                                    ..s.pool
                                },
                                ..s2
                            },
                            first + seq![kept_line, DoView::Dial(peer)],
                        )
                    } else {
                        (s2, first + seq![kept_line])
                    }
                }
            },
        }
    }
}

/// `/answer`: take the call somebody is making.
pub open spec fn after_answer(s: SessionView) -> (SessionView, Seq<DoView>) {
    match s.ringing {
        None => (s, seq![failure("nobody is calling"@)]),
        Some(call) => {
            let s1 = SessionView { ringing: None, ..s };
            if !s.pool.idle.contains(call.peer) {
                (s1, seq![failure(call.name + " is no longer connected"@)])
            } else {
                (
                    SessionView {
                        pool: PoolView { idle: s.pool.idle.remove(call.peer), ..s.pool },
                        ..s1
                    },
                    seq![
                        system("-- in a call with "@ + call.name + " --"@),
                        DoView::Status("in a call with "@ + call.name),
                        DoView::Talk(call.peer, call.name, Some(call.first)),
                    ],
                )
            }
        },
    }
}

/// `/decline`: turn it down, and say so. What they said goes with it.
pub open spec fn after_decline(s: SessionView) -> (SessionView, Seq<DoView>) {
    match s.ringing {
        None => (s, seq![failure("nobody is calling"@)]),
        Some(call) => {
            let (s2, told) = sent(
                SessionView { ringing: None, ..s },
                call.peer,
                Message::CallDecline,
            );
            (
                s2,
                told + seq![
                    system("-- turned down the call from "@ + call.name + " --"@),
                    DoView::Status("listening"@),
                ],
            )
        },
    }
}

/// `/call`: talk at once over a connection we hold, else dial.
pub open spec fn after_call(s: SessionView, name: Seq<char>) -> (SessionView, Seq<DoView>) {
    let key = trim(name);
    if !s.book.contains_key(key) {
        (s, seq![failure(no_contact(name))])
    } else {
        let address = s.book[key].address;
        match onion_key(address) {
            None => (
                s,
                seq![failure(address + " is not a valid onion address: "@ + onion_fault(address))],
            ),
            Some(b) => {
                let peer = peer_from(b);
                if s.pool.idle.contains(peer) {
                    (
                        SessionView {
                            pool: PoolView { idle: s.pool.idle.remove(peer), ..s.pool },
                            ..s
                        },
                        seq![
                            system("-- still connected to "@ + name + " --"@),
                            DoView::Status("in a call with "@ + name),
                            DoView::Talk(peer, name, None),
                        ],
                    )
                } else {
                    (
                        s,
                        seq![
                            system(
                                "calling "@ + name + " — fingerprint "@ + fingerprint_of(address),
                            ),
                            system("7-50 s is normal. /cancel to give up."@),
                            DoView::Status("calling "@ + name),
                            DoView::Call(peer, name),
                        ],
                    )
                }
            },
        }
    }
}

/// `/copy`: exactly what the other person has to type behind `/add <name>`.
pub open spec fn copy_acts(address: Seq<char>, key: Seq<char>) -> Seq<DoView> {
    seq![
        DoView::Copy(address + " "@ + key),
        system("your address and key are on the clipboard — send them both."@),
        system("(if nothing was copied, your terminal refuses OSC 52; select and copy)"@),
    ]
}

/// One command.
pub open spec fn after_command(
    s: SessionView,
    names: Seq<EntryView>,
    c: CommandView,
    address: Seq<char>,
    key: Seq<char>,
    now: u64,
) -> (SessionView, Seq<DoView>) {
    match c {
        CommandView::Nothing => (s, Seq::empty()),
        CommandView::Add(n, a, k) => after_add(s, names, n, a, k),
        CommandView::Forget(n) => after_forget(s, n),
        CommandView::Contacts => (s, contact_list(s, names)),
        CommandView::Tell(n, b) => after_tell(s, n, b, now),
        CommandView::Answer => after_answer(s),
        CommandView::Decline => after_decline(s),
        CommandView::Presence(n, said) => after_presence(s, n, said),
        CommandView::Call(n) => after_call(s, n),
        CommandView::Copy => (s, copy_acts(address, key)),
        CommandView::Help => (s, help_acts()),
        CommandView::Quit => (s, seq![DoView::Quit]),
        CommandView::Bad(text) => (s, seq![failure(text)]),
    }
}

/// The lines of `/help`, each said in turn.
pub open spec fn help_acts() -> Seq<DoView> {
    help_text().map_values(|t: Seq<char>| system(t))
}

/// The lines of `/help`.
pub open spec fn help_text() -> Seq<Seq<char>> {
    seq![
        "first time:  /copy, send both lines to them, /add theirs, then /call."@,
        "             neither line is a secret. compare the fingerprint out loud."@,
        ""@,
        "commands:"@,
        "  /add <name> <address> <key>   file a friend (address and key, both)"@,
        "  /tell <name> <message>        leave a message. it waits, sealed on your disk,"@,
        "                                until they are next online — no server holds it"@,
        "  /call <name>                  call them — 7-50 s the first time, then instant"@,
        "                                for as long as the connection holds. /cancel to give up"@,
        "  /answer                       take the call somebody is making"@,
        "  /decline                      turn it down; they are told, and hear nothing else"@,
        "  /presence <name>              ask to see when each other is online. they must agree,"@,
        "                                and either of you can stop it with /presence <name> off"@,
        "  /contacts                     list the book, and who is online"@,
        "  /forget <name>                drop a contact"@,
        "  /copy                         your address and key, to the clipboard"@,
        "  /help                         this"@,
        "  /quit                         leave, hanging up first if you are in a call"@,
        "during a call:"@,
        "  drop files on the window      they ride the message, where you put them"@,
        "  /send <path>                  offer one without a message"@,
        "  /direct <message>             send this message's files outside Tor:"@,
        "                                much faster, but it shows them your IP"@,
        "  /send --direct <path>         the same, for a file sent on its own"@,
        "  /accept  /refuse              answer the newest message that offered files"@,
        "  /accept 2   /accept all       pick one by its number, or take every one"@,
        "  /bye                          hang up"@,
        "keys:"@,
        "  up / down                     scroll one line"@,
        "  Ctrl-B / Ctrl-F               scroll one page"@,
        "  Ctrl-E                        jump back to the newest line"@,
        "  left / right / Home / End     move inside what you are typing"@,
        "                                a dropped file counts as one step"@,
        "  Ctrl-V                        paste (no Shift needed)"@,
        "  Ctrl-U                        clear the input"@,
        "  Ctrl-C                        leave, from anywhere"@,
        "mouse:"@,
        "  click an underlined file      take it, same as /accept <its number>"@,
        "  drag over the history         select it; releasing copies it"@,
        "  wheel                         scroll"@,
        "  Shift-drag                    your terminal's own selection instead"@,
    ]
}

// --- doing it -------------------------------------------------------------------------

fn say_system(text: String) -> (r: Do)
    ensures
        r@ == system(text@),
{
    Do::Say(Kind::System, text)
}

fn say_failure(text: String) -> (r: Do)
    ensures
        r@ == failure(text@),
{
    Do::Say(Kind::Error, text)
}

fn only(d: Do) -> (r: Vec<Do>)
    ensures
        dos(r@) == seq![d@],
{
    let mut v: Vec<Do> = Vec::new();
    v.push(d);
    assert(dos(v@) =~= seq![d@]);
    v
}

fn nothing() -> (r: Vec<Do>)
    ensures
        dos(r@) == Seq::<DoView>::empty(),
{
    let v: Vec<Do> = Vec::new();
    assert(dos(v@) =~= Seq::<DoView>::empty());
    v
}

fn extend(v: &mut Vec<Do>, mut more: Vec<Do>)
    ensures
        dos(final(v)@) == dos(old(v)@) + dos(more@),
{
    let ghost added = more@;
    v.append(&mut more);
    assert(dos(v@) =~= dos(old(v)@) + dos(added));
}

fn add_do(v: &mut Vec<Do>, d: Do)
    ensures
        dos(final(v)@) == dos(old(v)@).push(d@),
{
    let ghost before = v@;
    v.push(d);
    assert(dos(v@) =~= dos(before).push(d@));
}

fn cat(a: &str, b: &str) -> (r: String)
    ensures
        r@ == a@ + b@,
{
    let mut s = a.to_owned();
    s.append(b);
    s
}

fn cat3(a: &str, b: &str, c: &str) -> (r: String)
    ensures
        r@ == a@ + b@ + c@,
{
    let mut s = a.to_owned();
    s.append(b);
    s.append(c);
    s
}

/// What follows a number of things.
pub fn ending(n: usize) -> (r: &'static str)
    ensures
        r@ == plural(n as nat),
{
    if n == 1 {
        ""
    } else {
        "s"
    }
}

/// The peer an address stands for is the one that its key names.
proof fn peer_is(p: PeerId)
    ensures
        peer_from(p@) == p,
{
    let q = peer_from(p@);
    assert(q@ == p@);
    assert(q =~= p);
}

/// The name we know a proved identity by, or something honest if we do not.
pub fn name_for_peer(book: &Contacts, peer: &PeerId) -> (r: String)
    requires
        book.wf(),
    ensures
        r@ == named(book.entries(), *peer),
{
    let address = address_of(peer);
    match book.name_of(address.as_str()) {
        Some(name) => name,
        None => cat3(
            "someone not in your book (",
            fingerprint(address.as_str()).as_str(),
            ")",
        ),
    }
}

/// Read a frame as a presence event, if that is what it is.
pub fn said_about_presence(msg: &Message) -> (r: Option<Said>)
    ensures
        r == said_of(msg@),
{
    match msg {
        Message::PresenceAsk => Some(Said::TheyAsk),
        Message::PresenceYes => Some(Said::TheyAgree),
        Message::PresenceNo => Some(Said::TheyRefuse),
        _ => None,
    }
}

impl Session {
    /// The book, the outbox and the pool stand as they should.
    pub open spec fn wf(&self) -> bool {
        self.book.wf() && self.outbox.wf() && self.pool.wf()
    }

    /// Everything on its way to or from disk, with nothing connected yet.
    pub fn new(book: Contacts, outbox: Outbox) -> (r: Session)
        requires
            book.wf(),
            outbox.wf(),
        ensures
            r.wf(),
            r.book == book,
            r.outbox == outbox,
            r@.pool.idle == Set::<PeerId>::empty(),
            r@.pool.dialling == Set::<PeerId>::empty(),
            r@.pool.waiting == Map::<PeerId, Seq<Message>>::empty(),
            r.ringing is None,
    {
        Session { book, outbox, pool: Pool::new(), ringing: None }
    }

    /// Put everything waiting for a connected peer on the wire.
    fn deliver(&self, peer: &PeerId) -> (r: Vec<Do>)
        requires
            self.wf(),
        ensures
            dos(r@) == delivery(self@, *peer),
    {
        let address = address_of(peer);
        let frames = self.outbox.frames_for(address.as_str());
        let ghost q = waiting_for(self@, *peer);
        if frames.len() == 0 {
            return nothing();
        }
        let n: usize = frames.len();
        let mut s = cat3("-- sending ", decimal(n as u128).as_str(), " message");
        s.append(ending(n));
        s.append(" you left --");
        let mut v = only(say_system(s));
        let more = write_all(peer, frames);
        proof {
            assert(message_views(frames@) =~= left_frames(q));
        }
        extend(&mut v, more);
        v
    }

    /// Send a frame to a peer, or hold it until there is a connection.
    fn send(&mut self, peer: PeerId, m: Message) -> (r: Vec<Do>)
        requires
            old(self).wf(),
        ensures
            final(self).wf(),
            (final(self)@, dos(r@)) == sent(old(self)@, peer, m),
            final(self).book == old(self).book,
    {
        match self.pool.send(peer, m) {
            Some(m) => only(Do::Write(peer, m)),
            None => nothing(),
        }
    }

    /// Somebody connected to us, and proved who they are.
    pub fn connected(&mut self, peer: PeerId) -> (r: Vec<Do>)
        requires
            old(self).wf(),
        ensures
            final(self).wf(),
            (final(self)@, dos(r@)) == after_connected(
                old(self)@,
                old(self).book.entries(),
                peer,
            ),
    {
        let name = name_for_peer(&self.book, &peer);
        let agreed = match self.book.presence_of(name.as_str()) {
            Presence::On => true,
            _ => false,
        };
        let (frames, first) = self.pool.keep(peer);
        let mut v = write_all(&peer, frames);
        if first && agreed {
            add_do(&mut v, say_system(cat3("-- ", name.as_str(), " is online --")));
        }
        proof {
            let s = old(self)@;
            assert(dos(v@) =~= writes(peer, message_views(held_for(s.pool, peer))) + (if first
                && agreed {
                seq![system("-- "@ + name@ + " is online --"@)]
            } else {
                Seq::empty()
            }));
        }
        let more = self.deliver(&peer);
        extend(&mut v, more);
        v
    }

    /// A background dial landed.
    pub fn reached(&self, peer: &PeerId) -> (r: Vec<Do>)
        requires
            self.wf(),
        ensures
            dos(r@) == after_reached(self@, self.book.entries(), *peer),
    {
        let name = name_for_peer(&self.book, peer);
        let mut v = only(say_system(cat3("-- ", name.as_str(), " is online --")));
        let more = self.deliver(peer);
        extend(&mut v, more);
        v
    }

    /// A connection ended with nobody talking over it.
    pub fn lost(&mut self, peer: &PeerId) -> (r: Vec<Do>)
        requires
            old(self).wf(),
        ensures
            final(self).wf(),
            (final(self)@, dos(r@)) == after_lost(old(self)@, old(self).book.entries(), *peer),
    {
        let name = name_for_peer(&self.book, peer);
        let mut v = match self.book.presence_of(name.as_str()) {
            Presence::On => only(say_system(cat3("-- ", name.as_str(), " went offline --"))),
            _ => nothing(),
        };
        let ghost gone = dos(v@);
        let ours = match &self.ringing {
            Some(call) => same_peer(&call.peer, peer),
            None => false,
        };
        if ours {
            self.ringing = None;
            add_do(&mut v, say_system(cat3("-- ", name.as_str(), " stopped calling --")));
            add_do(&mut v, Do::Status("listening".to_owned()));
            assert(dos(v@) =~= after_lost(old(self)@, old(self).book.entries(), *peer).1);
        }
        v
    }

    /// Look after everyone who agreed presence.
    pub fn sweep(&mut self) -> (r: Vec<Do>)
        requires
            old(self).wf(),
        ensures
            final(self).wf(),
            (final(self)@, dos(r@)) == after_sweep(old(self)@, old(self).book.entries()),
    {
        let peers = self.agreed_peers();
        let mut v = nothing();
        let mut i: usize = 0;
        while i < peers.len()
            invariant
                i <= peers@.len(),
                self.wf(),
                self@ == (SessionView { pool: self@.pool, ..old(self)@ }),
                (self@.pool, dos(v@)) == reached_all(old(self)@.pool, peers@.take(i as int)),
            decreases peers@.len() - i,
        {
            let ghost now = peers@.take(i + 1);
            proof {
                assert(now.drop_last() =~= peers@.take(i as int));
                assert(now.last() == peers@[i as int]);
            }
            if self.pool.reach(peers[i]) {
                add_do(&mut v, Do::Dial(peers[i]));
            }
            i = i + 1;
        }
        assert(peers@.take(i as int) =~= peers@);
        v
    }

    /// The peers of everyone who agreed presence.
    fn agreed_peers(&self) -> (r: Vec<PeerId>)
        requires
            self.wf(),
        ensures
            r@ == peers_of(agreed_of(self.book.entries())),
    {
        let entries = self.book.agreed();
        let ghost es = agreed_of(self.book.entries());
        let mut peers: Vec<PeerId> = Vec::new();
        let mut i: usize = 0;
        assert(pair_views(entries@).len() == entries@.len());
        assert(peers@ =~= peers_of(es.take(0)));
        while i < entries.len()
            invariant
                i <= entries@.len(),
                es == pair_views(entries@),
                es.len() == entries@.len(),
                peers@ == peers_of(es.take(i as int)),
            decreases entries@.len() - i,
        {
            let ghost now = es.take(i + 1);
            let (_, c) = entries[i];
            proof {
                assert(now.drop_last() =~= es.take(i as int));
                assert(now.last() == es[i as int]);
                assert(es[i as int].1 == c@);
            }
            match peer_of(c.address.as_str()) {
                Ok(p) => {
                    proof {
                        peer_is(p);
                    }
                    peers.push(p);
                },
                Err(_) => {},
            }
            i = i + 1;
        }
        assert(es.take(i as int) =~= es);
        peers
    }
}

/// Messages to a peer, each to be written.
fn write_all(peer: &PeerId, frames: Vec<Message>) -> (r: Vec<Do>)
    ensures
        dos(r@) == writes(*peer, message_views(frames@)),
{
    let mut frames = frames;
    let ghost all = frames@;
    let mut back: Vec<Do> = Vec::new();
    assert(all.take(all.len() as int) =~= all);
    assert(dos(back@) =~= writes(*peer, message_views(all.skip(all.len() as int))).reverse());
    while frames.len() > 0
        invariant
            frames@.len() <= all.len(),
            frames@ == all.take(frames@.len() as int),
            dos(back@) == writes(
                *peer,
                message_views(all.skip(frames@.len() as int)),
            ).reverse(),
        decreases frames@.len(),
    {
        let ghost n = frames@.len() as int;
        match frames.pop() {
            Some(m) => {
                proof {
                    assert(m == all[n - 1]);
                    assert(all.take(n).drop_last() =~= all.take(n - 1));
                    let a = writes(*peer, message_views(all.skip(n)));
                    let b = writes(*peer, message_views(all.skip(n - 1)));
                    assert(b =~= seq![DoView::Write(*peer, m@)] + a);
                    assert(b.reverse() =~= a.reverse().push(DoView::Write(*peer, m@)));
                }
                add_do(&mut back, Do::Write(*peer, m));
            },
            None => {},
        }
    }
    assert(all.skip(0) =~= all);
    reversed(back)
}

/// The same, last one first.
fn reversed(v: Vec<Do>) -> (r: Vec<Do>)
    ensures
        dos(r@) == dos(v@).reverse(),
{
    let mut v = v;
    let ghost all = v@;
    let mut out: Vec<Do> = Vec::new();
    assert(dos(out@) =~= dos(all.skip(all.len() as int)).reverse());
    assert(all.take(all.len() as int) =~= all);
    while v.len() > 0
        invariant
            v@.len() <= all.len(),
            v@ == all.take(v@.len() as int),
            dos(out@) == dos(all.skip(v@.len() as int)).reverse(),
        decreases v@.len(),
    {
        let ghost n = v@.len() as int;
        match v.pop() {
            Some(d) => {
                proof {
                    assert(d == all[n - 1]);
                    assert(all.take(n).drop_last() =~= all.take(n - 1));
                    assert(dos(all.skip(n - 1)).reverse() =~= dos(all.skip(n)).reverse().push(d@));
                }
                add_do(&mut out, d);
            },
            None => {},
        }
    }
    assert(all.skip(0) =~= all);
    out
}

impl Session {
    /// Apply one presence event, and everything that follows from it.
    pub fn presence(&mut self, name: &str, said: Said) -> (r: Vec<Do>)
        requires
            old(self).wf(),
        ensures
            final(self).wf(),
            (final(self)@, dos(r@)) == after_presence(old(self)@, name@, said),
    {
        let ghost s0 = self@;
        let ghost key = trim(name@);
        let address = match self.book.address_of(name) {
            Some(a) => a,
            None => {
                return only(
                    say_failure(cat3("no contact called ", name, " — /add them first")),
                );
            },
        };
        let peer = match peer_of(address.as_str()) {
            Ok(p) => p,
            Err(why) => {
                return only(
                    say_failure(
                        cat3(name, "'s address is not a valid onion address: ", why.as_str()),
                    ),
                );
            },
        };
        proof {
            peer_is(peer);
        }
        let was = self.book.presence_of(name);
        let step = was.step(said, name);
        let _ = self.book.set_presence(name, step.to);
        let mut v = if was != step.to {
            only(Do::SaveBook)
        } else {
            nothing()
        };
        let ghost s1 = self@;
        assert(s1 =~= (SessionView {
            book: s0.book.insert(key, ContactView { presence: step.to, ..s0.book[key] }),
            ..s0
        }));
        let idle = self.pool.holds(&peer);
        let ends = step.to == Presence::Off && was != Presence::Off;
        let (dial, link) = if ends {
            self.pool.forget(&peer)
        } else {
            (false, false)
        };
        let more = match step.reply {
            Some(m) => {
                assert(reply_to(was, said) == Some(m));
                if idle {
                    only(Do::Write(peer, m))
                } else {
                    self.pool.hold(peer, m);
                    nothing()
                }
            },
            None => nothing(),
        };
        extend(&mut v, more);
        let note = match step.note {
            Some(n) => only(say_system(n)),
            None => nothing(),
        };
        extend(&mut v, note);
        let moved = if ends {
            only(Do::LetGo(peer, dial, link))
        } else {
            self.moved(peer, step.to)
        };
        extend(&mut v, moved);
        v
    }

    /// What is done about the connection once presence has moved.
    fn moved(&mut self, peer: PeerId, to: Presence) -> (r: Vec<Do>)
        requires
            old(self).wf(),
        ensures
            final(self).wf(),
            (final(self)@, dos(r@)) == after_moved(old(self)@, peer, to),
    {
        if to == Presence::On && self.pool.reach(peer) {
            only(Do::Dial(peer))
        } else {
            nothing()
        }
    }

    /// A message somebody left for us arrives, at `now`.
    fn left_message(&mut self, peer: PeerId, id: u64, at: u64, body: &str, now: u64) -> (r: Vec<
        Do,
    >)
        requires
            old(self).wf(),
        ensures
            final(self).wf(),
            (final(self)@, dos(r@)) == after_left_message(
                old(self)@,
                old(self).book.entries(),
                peer,
                id,
                at,
                body@,
                now,
            ),
    {
        let ghost s0 = self@;
        let address = address_of(&peer);
        let name = match self.book.name_of(address.as_str()) {
            Some(n) => n,
            None => {
                return nothing();
            },
        };
        if id == u64::MAX {
            return nothing();
        }
        let new = self.book.accept_left(name.as_str(), id);
        let mut v = nothing();
        if new {
            let mut s = cat3(name.as_str(), " (", how_long_ago(at, now).as_str());
            s.append(")> ");
            s.append(sanitize_for_display(body).as_str());
            add_do(&mut v, Do::SaveAndSay(Kind::Theirs, s));
        }
        let ghost shown = dos(v@);
        assert(self@ =~= (SessionView { book: after_left(s0.book, trim(name@), id), ..s0 }));
        let ack = self.send(peer, Message::Got(id));
        extend(&mut v, ack);
        proof {
            let end = after_left_message(
                s0,
                old(self).book.entries(),
                peer,
                id,
                at,
                body@,
                now,
            );
            assert(dos(v@) =~= end.1);
        }
        v
    }

    /// A message of ours was acknowledged.
    fn acknowledged(&mut self, peer: PeerId, id: u64) -> (r: Vec<Do>)
        requires
            old(self).wf(),
        ensures
            final(self).wf(),
            (final(self)@, dos(r@)) == after_got(old(self)@, old(self).book.entries(), peer, id),
    {
        let address = address_of(&peer);
        if !self.outbox.delivered(address.as_str(), id) {
            assert(self@ =~= old(self)@);
            return nothing();
        }
        let mut v = only(Do::SaveOutbox);
        let left: usize = self.outbox.waiting_for(address.as_str());
        if left == 0 {
            let name = name_for_peer(&self.book, &peer);
            add_do(
                &mut v,
                say_system(
                    cat3("-- everything you wrote to ", name.as_str(), " arrived --"),
                ),
            );
        }
        proof {
            let end = after_got(old(self)@, old(self).book.entries(), peer, id);
            assert(self@ =~= end.0);
            assert(dos(v@) =~= end.1);
        }
        v
    }

    /// Somebody we are connected to starts talking.
    fn rings(&mut self, peer: PeerId, m: Message) -> (r: Vec<Do>)
        requires
            old(self).wf(),
        ensures
            final(self).wf(),
            (final(self)@, dos(r@)) == after_ring(
                old(self)@,
                old(self).book.entries(),
                peer,
                m@,
            ),
    {
        let name = name_for_peer(&self.book, &peer);
        if self.ringing.is_some() {
            let mut v = self.send(peer, Message::CallDecline);
            let ghost declined = dos(v@);
            add_do(
                &mut v,
                say_system(cat3("-- ", name.as_str(), " called while you were busy --")),
            );
            assert(dos(v@) =~= after_ring(old(self)@, old(self).book.entries(), peer, m@).1);
            return v;
        }
        let mut v = only(
            say_system(
                cat3(
                    "-- ",
                    name.as_str(),
                    " is calling — /answer to take it, /decline to refuse --",
                ),
            ),
        );
        add_do(&mut v, Do::Status(cat(name.as_str(), " is calling")));
        let ghost end = after_ring(old(self)@, old(self).book.entries(), peer, m@);
        assert(dos(v@) =~= end.1);
        self.ringing = Some(Ringing { peer, name, first: m });
        assert(self@ =~= end.0);
        v
    }

    /// A frame arrived, at `now`, on a connection nobody is talking over.
    pub fn heard(&mut self, peer: PeerId, m: Message, now: u64) -> (r: Vec<Do>)
        requires
            old(self).wf(),
        ensures
            final(self).wf(),
            (final(self)@, dos(r@)) == after_heard(
                old(self)@,
                old(self).book.entries(),
                peer,
                m@,
                now,
            ),
    {
        match said_about_presence(&m) {
            Some(said) => {
                let address = address_of(&peer);
                match self.book.name_of(address.as_str()) {
                    None => nothing(),
                    Some(name) => self.presence(name.as_str(), said),
                }
            },
            None => match m {
                Message::Left { id, at, body } => self.left_message(
                    peer,
                    id,
                    at,
                    body.as_str(),
                    now,
                ),
                Message::Got(id) => self.acknowledged(peer, id),
                other => self.rings(peer, other),
            },
        }
    }

    /// `/add`.
    fn add(&mut self, name: &str, address: &str, key: &str) -> (r: Vec<Do>)
        requires
            old(self).wf(),
        ensures
            final(self).wf(),
            (final(self)@, dos(r@)) == after_add(
                old(self)@,
                old(self).book.entries(),
                name@,
                address@,
                key@,
            ),
    {
        let first = self.book.len() == 0;
        match self.book.add(name, address, key) {
            Err(e) => only(
                say_failure(
                    e.describe(
                        trimmed(name).as_str(),
                        trimmed(address).as_str(),
                        trimmed(key).as_str(),
                    ),
                ),
            ),
            Ok(_) => {
                let mut v = only(Do::SaveBook);
                add_do(&mut v, Do::Resync);
                let mut s = cat3("filed ", name, " as ");
                s.append(fingerprint(address).as_str());
                add_do(&mut v, say_system(s));
                if first {
                    add_do(
                        &mut v,
                        say_system(
                            "your service is now restricted: only filed contacts can discover it.".to_owned(),
                        ),
                    );
                }
                add_do(
                    &mut v,
                    say_system(
                        "give them a minute — the new descriptor has to reach the directory.".to_owned(),
                    ),
                );
                proof {
                    let end = after_add(
                        old(self)@,
                        old(self).book.entries(),
                        name@,
                        address@,
                        key@,
                    );
                    assert(self@ =~= end.0);
                    assert(dos(v@) =~= end.1);
                }
                v
            },
        }
    }

    /// `/forget`.
    fn forget(&mut self, name: &str) -> (r: Vec<Do>)
        requires
            old(self).wf(),
        ensures
            final(self).wf(),
            (final(self)@, dos(r@)) == after_forget(old(self)@, name@),
    {
        let ghost end = after_forget(old(self)@, name@);
        let peer = match self.book.address_of(name) {
            Some(a) => match peer_of(a.as_str()) {
                Ok(p) => Some(p),
                Err(_) => None,
            },
            None => None,
        };
        if !self.book.remove(name) {
            assert(self@ =~= old(self)@);
            return only(say_system(cat("no contact called ", name)));
        }
        let mut v = only(Do::SaveBook);
        add_do(&mut v, Do::Resync);
        match peer {
            Some(p) => {
                proof {
                    peer_is(p);
                }
                let dropped: usize = self.outbox.discard(address_of(&p).as_str());
                if dropped > 0 {
                    add_do(&mut v, Do::SaveOutbox);
                    let mut s = cat3(
                        "dropped ",
                        decimal(dropped as u128).as_str(),
                        " message(s) waiting for ",
                    );
                    s.append(name);
                    add_do(&mut v, say_system(s));
                }
                let (dial, link) = self.pool.forget(&p);
                add_do(&mut v, Do::LetGo(p, dial, link));
            },
            None => {},
        }
        add_do(&mut v, say_system(cat("forgot ", name)));
        add_do(
            &mut v,
            say_system(
                "they may still reach you until the introduction points rotate on their own.".to_owned(),
            ),
        );
        proof {
            assert(self@ =~= end.0);
            assert(dos(v@) =~= end.1);
        }
        v
    }

    /// `/tell`, at `now`.
    fn tell(&mut self, name: &str, body: String, now: u64) -> (r: Vec<Do>)
        requires
            old(self).wf(),
        ensures
            final(self).wf(),
            (final(self)@, dos(r@)) == after_tell(old(self)@, name@, body@, now),
    {
        let ghost end = after_tell(old(self)@, name@, body@, now);
        let address = match self.book.address_of(name) {
            Some(a) => a,
            None => {
                return only(
                    say_failure(cat3("no contact called ", name, " — /add them first")),
                );
            },
        };
        let peer = match peer_of(address.as_str()) {
            Ok(p) => p,
            Err(why) => {
                return only(say_failure(cat3(name, "'s address is unusable: ", why.as_str())));
            },
        };
        proof {
            peer_is(peer);
        }
        if self.outbox.next == u64::MAX {
            return only(say_failure("the outbox cannot take another message".to_owned()));
        }
        let mut mine = cat3("you (to ", name, ")> ");
        mine.append(body.as_str());
        let dropped: usize = match self.outbox.queue(address.as_str(), body, now) {
            Err(e) => {
                return only(say_failure(e.describe()));
            },
            Ok(n) => n,
        };
        let kept_now: usize = self.outbox.waiting_for(address.as_str());
        let mut v = only(Do::SaveOutbox);
        if dropped > 0 {
            let mut s = cat3(
                decimal(dropped as u128).as_str(),
                " older message",
                if dropped == 1 {
                    " was"
                } else {
                    "s were"
                },
            );
            s.append(" to ");
            s.append(name);
            s.append(" dropped — ");
            s.append(decimal(kept_now as u128).as_str());
            s.append(" were already waiting");
            add_do(&mut v, say_failure(s));
        }
        add_do(&mut v, Do::Say(Kind::Mine, mine));
        let ghost first = dos(v@);
        if self.pool.holds(&peer) {
            let more = self.deliver(&peer);
            extend(&mut v, more);
        } else {
            let mut s = cat3(
                name,
                " is not connected — kept, and it goes out when they next are (",
                decimal(kept_now as u128).as_str(),
            );
            s.append(" waiting)");
            add_do(&mut v, say_system(s));
            let on = match self.book.presence_of(name) {
                Presence::On => true,
                _ => false,
            };
            if on {
                if self.pool.reach(peer) {
                    add_do(&mut v, Do::Dial(peer));
                }
            }
        }
        proof {
            assert(self@ =~= end.0);
            assert(dos(v@) =~= end.1);
        }
        v
    }

    /// `/answer`.
    fn answer(&mut self) -> (r: Vec<Do>)
        requires
            old(self).wf(),
        ensures
            final(self).wf(),
            (final(self)@, dos(r@)) == after_answer(old(self)@),
    {
        let ghost end = after_answer(old(self)@);
        match self.ringing.take() {
            None => only(say_failure("nobody is calling".to_owned())),
            Some(call) => {
                if !self.pool.take(&call.peer) {
                    assert(self@.pool =~= old(self)@.pool) by {
                        assert(old(self)@.pool.idle.remove(call.peer) =~= old(self)@.pool.idle);
                    }
                    return only(
                        say_failure(cat(call.name.as_str(), " is no longer connected")),
                    );
                }
                let mut v = only(
                    say_system(cat3("-- in a call with ", call.name.as_str(), " --")),
                );
                add_do(&mut v, Do::Status(cat("in a call with ", call.name.as_str())));
                add_do(&mut v, Do::Talk(call.peer, call.name, Some(call.first)));
                proof {
                    assert(self@ =~= end.0);
                    assert(dos(v@) =~= end.1);
                }
                v
            },
        }
    }

    /// `/decline`.
    fn decline(&mut self) -> (r: Vec<Do>)
        requires
            old(self).wf(),
        ensures
            final(self).wf(),
            (final(self)@, dos(r@)) == after_decline(old(self)@),
    {
        match self.ringing.take() {
            None => only(say_failure("nobody is calling".to_owned())),
            Some(call) => {
                let mut v = self.send(call.peer, Message::CallDecline);
                let ghost told = dos(v@);
                add_do(
                    &mut v,
                    say_system(cat3("-- turned down the call from ", call.name.as_str(), " --")),
                );
                add_do(&mut v, Do::Status("listening".to_owned()));
                assert(dos(v@) =~= after_decline(old(self)@).1);
                v
            },
        }
    }

    /// `/call`.
    fn call(&mut self, name: &str) -> (r: Vec<Do>)
        requires
            old(self).wf(),
        ensures
            final(self).wf(),
            (final(self)@, dos(r@)) == after_call(old(self)@, name@),
    {
        let ghost end = after_call(old(self)@, name@);
        let address = match self.book.address_of(name) {
            Some(a) => a,
            None => {
                return only(
                    say_failure(cat3("no contact called ", name, " — /add them first")),
                );
            },
        };
        let peer = match peer_of(address.as_str()) {
            Ok(p) => p,
            Err(why) => {
                return only(
                    say_failure(
                        cat3(address.as_str(), " is not a valid onion address: ", why.as_str()),
                    ),
                );
            },
        };
        proof {
            peer_is(peer);
        }
        if self.pool.holds(&peer) {
            let _ = self.pool.take(&peer);
            let mut v = only(say_system(cat3("-- still connected to ", name, " --")));
            add_do(&mut v, Do::Status(cat("in a call with ", name)));
            add_do(&mut v, Do::Talk(peer, name.to_owned(), None));
            proof {
                assert(self@ =~= end.0);
                assert(dos(v@) =~= end.1);
            }
            return v;
        }
        let mut s = cat3("calling ", name, " — fingerprint ");
        s.append(fingerprint(address.as_str()).as_str());
        let mut v = only(say_system(s));
        add_do(&mut v, say_system("7-50 s is normal. /cancel to give up.".to_owned()));
        add_do(&mut v, Do::Status(cat("calling ", name)));
        add_do(&mut v, Do::Call(peer, name.to_owned()));
        assert(dos(v@) =~= end.1);
        v
    }

    /// One line of the list of contacts.
    fn contact_text(&self, name: &str, c: &Contact) -> (r: String)
        requires
            self.wf(),
        ensures
            r@ == contact_line(self@, (name@, c@)),
    {
        let mut s = "  ".to_owned();
        s.append(pad(name, 16).as_str());
        s.append(" ");
        s.append(fingerprint(c.address.as_str()).as_str());
        match c.presence {
            Presence::Off => s.append(""),
            Presence::WeAsked => s.append("  (presence: asked, waiting)"),
            Presence::TheyAsked => {
                let t = cat3("  (asks to see you — /presence ", name, ")");
                s.append(t.as_str());
            },
            Presence::On => {
                let online = match peer_of(c.address.as_str()) {
                    Ok(p) => {
                        proof {
                            peer_is(p);
                        }
                        self.pool.holds(&p)
                    },
                    Err(_) => false,
                };
                if online {
                    s.append("  (online)");
                } else {
                    s.append("  (presence on, not connected)");
                }
            },
        }
        let n: usize = self.outbox.waiting_for(c.address.as_str());
        if n == 0 {
            s.append("");
        } else {
            let t = cat3("  (", decimal(n as u128).as_str(), " waiting to go out)");
            s.append(t.as_str());
        }
        s
    }

    /// `/contacts`.
    fn list(&self) -> (r: Vec<Do>)
        requires
            self.wf(),
        ensures
            dos(r@) == contact_list(self@, self.book.entries()),
    {
        let entries = self.book.iter();
        let ghost es = self.book.entries();
        if entries.len() == 0 {
            return only(
                say_system("(no contacts yet — /add <name> <address>.onion <key>)".to_owned()),
            );
        }
        let mut v = nothing();
        let mut i: usize = 0;
        assert(dos(v@) =~= contact_list(self@, es).take(0));
        while i < entries.len()
            invariant
                i <= entries@.len(),
                entries@.len() == es.len(),
                es.len() > 0,
                es == self.book.entries(),
                self.wf(),
                forall|j: int|
                    0 <= j < entries@.len() ==> (#[trigger] entries@[j]).0@ == es[j].0
                        && entries@[j].1@ == es[j].1,
                dos(v@) == contact_list(self@, es).take(i as int),
            decreases entries@.len() - i,
        {
            let (name, c) = entries[i];
            let line = self.contact_text(name, c);
            let ghost before = dos(v@);
            add_do(&mut v, say_system(line));
            proof {
                assert(entries@[i as int].0@ == es[i as int].0);
                assert((name@, c@) == es[i as int]);
                let all = contact_list(self@, es);
                assert(all[i as int] == system(contact_line(self@, es[i as int])));
                assert(all.take(i + 1) =~= all.take(i as int).push(all[i as int]));
            }
            i = i + 1;
        }
        assert(contact_list(self@, es).take(i as int) =~= contact_list(self@, es));
        v
    }

    /// Run one command, typed at `now`. `address` and `key` are our own.
    pub fn command(&mut self, c: Command, address: &str, key: &str, now: u64) -> (r: Vec<Do>)
        requires
            old(self).wf(),
        ensures
            final(self).wf(),
            (final(self)@, dos(r@)) == after_command(
                old(self)@,
                old(self).book.entries(),
                c@,
                address@,
                key@,
                now,
            ),
    {
        match c {
            Command::Nothing => nothing(),
            Command::Add(n, a, k) => self.add(n.as_str(), a.as_str(), k.as_str()),
            Command::Forget(n) => self.forget(n.as_str()),
            Command::Contacts => self.list(),
            Command::Tell(n, b) => self.tell(n.as_str(), b, now),
            Command::Answer => self.answer(),
            Command::Decline => self.decline(),
            Command::Presence(n, said) => self.presence(n.as_str(), said),
            Command::Call(n) => self.call(n.as_str()),
            Command::Copy => {
                let mut v = only(Do::Copy(cat3(address, " ", key)));
                add_do(
                    &mut v,
                    say_system(
                        "your address and key are on the clipboard — send them both.".to_owned(),
                    ),
                );
                add_do(
                    &mut v,
                    say_system(
                        "(if nothing was copied, your terminal refuses OSC 52; select and copy)".to_owned(),
                    ),
                );
                assert(dos(v@) =~= copy_acts(address@, key@));
                v
            },
            Command::Help => help(),
            Command::Quit => only(Do::Quit),
            Command::Bad(text) => only(say_failure(text)),
        }
    }

    /// A line was typed outside a call, at `now`: it is echoed, then run. A message with
    /// files in it only means something during a call.
    pub fn typed(&mut self, t: crate::ui::Typed, address: &str, key: &str, now: u64) -> (r: Vec<Do>)
        requires
            old(self).wf(),
        ensures
            final(self).wf(),
            match t {
                crate::ui::Typed::Post { .. } => final(self)@ == old(self)@ && dos(r@) == seq![
                    failure(
                        "files only go somewhere during a call — /call someone first"@,
                    ),
                ],
                crate::ui::Typed::Line(line) => {
                    let (s, acts) = after_command(
                        old(self)@,
                        old(self).book.entries(),
                        parsed(line@),
                        address@,
                        key@,
                        now,
                    );
                    &&& final(self)@ == s
                    &&& dos(r@) == seq![DoView::Say(Kind::Mine, "> "@ + trim(line@))] + acts
                },
            },
    {
        match t {
            crate::ui::Typed::Post { .. } => only(
                say_failure(
                    "files only go somewhere during a call — /call someone first".to_owned(),
                ),
            ),
            crate::ui::Typed::Line(line) => {
                let mut v = only(
                    Do::Say(Kind::Mine, cat("> ", trimmed(line.as_str()).as_str())),
                );
                let more = self.command(parse(line.as_str()), address, key, now);
                extend(&mut v, more);
                v
            },
        }
    }
}

fn pad(s: &str, width: usize) -> (r: String)
    ensures
        r@ == padded(s@, width as nat),
{
    let mut t = s.to_owned();
    let mut n: usize = s.unicode_len();
    while n < width
        invariant
            n == t@.len(),
            padded(s@, width as nat) == padded(t@, width as nat),
        decreases
                if n < width {
                    width - n
                } else {
                    0
                },
    {
        t.push(' ');
        n = n + 1;
    }
    t
}

/// The lines of `/help`, to be said in turn.
pub fn help() -> (r: Vec<Do>)
    ensures
        dos(r@) == help_acts(),
{
    let mut v: Vec<Do> = Vec::new();
    v.push(say_system("first time:  /copy, send both lines to them, /add theirs, then /call.".to_owned()));
    v.push(say_system("             neither line is a secret. compare the fingerprint out loud.".to_owned()));
    v.push(say_system("".to_owned()));
    v.push(say_system("commands:".to_owned()));
    v.push(say_system("  /add <name> <address> <key>   file a friend (address and key, both)".to_owned()));
    v.push(say_system("  /tell <name> <message>        leave a message. it waits, sealed on your disk,".to_owned()));
    v.push(say_system("                                until they are next online — no server holds it".to_owned()));
    v.push(say_system("  /call <name>                  call them — 7-50 s the first time, then instant".to_owned()));
    v.push(say_system("                                for as long as the connection holds. /cancel to give up".to_owned()));
    v.push(say_system("  /answer                       take the call somebody is making".to_owned()));
    v.push(say_system("  /decline                      turn it down; they are told, and hear nothing else".to_owned()));
    v.push(say_system("  /presence <name>              ask to see when each other is online. they must agree,".to_owned()));
    v.push(say_system("                                and either of you can stop it with /presence <name> off".to_owned()));
    v.push(say_system("  /contacts                     list the book, and who is online".to_owned()));
    v.push(say_system("  /forget <name>                drop a contact".to_owned()));
    v.push(say_system("  /copy                         your address and key, to the clipboard".to_owned()));
    v.push(say_system("  /help                         this".to_owned()));
    v.push(say_system("  /quit                         leave, hanging up first if you are in a call".to_owned()));
    v.push(say_system("during a call:".to_owned()));
    v.push(say_system("  drop files on the window      they ride the message, where you put them".to_owned()));
    v.push(say_system("  /send <path>                  offer one without a message".to_owned()));
    v.push(say_system("  /direct <message>             send this message's files outside Tor:".to_owned()));
    v.push(say_system("                                much faster, but it shows them your IP".to_owned()));
    v.push(say_system("  /send --direct <path>         the same, for a file sent on its own".to_owned()));
    v.push(say_system("  /accept  /refuse              answer the newest message that offered files".to_owned()));
    v.push(say_system("  /accept 2   /accept all       pick one by its number, or take every one".to_owned()));
    v.push(say_system("  /bye                          hang up".to_owned()));
    v.push(say_system("keys:".to_owned()));
    v.push(say_system("  up / down                     scroll one line".to_owned()));
    v.push(say_system("  Ctrl-B / Ctrl-F               scroll one page".to_owned()));
    v.push(say_system("  Ctrl-E                        jump back to the newest line".to_owned()));
    v.push(say_system("  left / right / Home / End     move inside what you are typing".to_owned()));
    v.push(say_system("                                a dropped file counts as one step".to_owned()));
    v.push(say_system("  Ctrl-V                        paste (no Shift needed)".to_owned()));
    v.push(say_system("  Ctrl-U                        clear the input".to_owned()));
    v.push(say_system("  Ctrl-C                        leave, from anywhere".to_owned()));
    v.push(say_system("mouse:".to_owned()));
    v.push(say_system("  click an underlined file      take it, same as /accept <its number>".to_owned()));
    v.push(say_system("  drag over the history         select it; releasing copies it".to_owned()));
    v.push(say_system("  wheel                         scroll".to_owned()));
    v.push(say_system("  Shift-drag                    your terminal's own selection instead".to_owned()));
    assert(dos(v@) =~= help_acts());
    v
}

// --- calling --------------------------------------------------------------------------

/// What a line typed while a call is being dialled does.
#[derive(Clone, Copy, Debug, PartialEq, Eq, Structural)]
pub enum Calling {
    /// Keep dialling.
    Wait,
    /// Give the call up.
    GiveUp,
    /// Give it up, and leave the program.
    Quit,
}

/// A line typed while a call is being dialled; none means that the interface is gone. Nothing
/// of it ever reaches the peer.
pub open spec fn after_waiting(line: Option<Seq<char>>, name: Seq<char>) -> (Calling, Seq<DoView>) {
    match line {
        None => (Calling::Quit, Seq::empty()),
        Some(l) => if trim(l) == "/cancel"@ {
            (
                Calling::GiveUp,
                seq![system("gave up calling "@ + name), DoView::Status("listening"@)],
            )
        } else if trim(l) == "/quit"@ {
            (Calling::Quit, seq![system("gave up calling "@ + name)])
        } else if trim(l).len() == 0 {
            (Calling::Wait, Seq::empty())
        } else {
            (
                Calling::Wait,
                seq![system("still calling "@ + name + " — /cancel to give up"@)],
            )
        },
    }
}

/// What comes of a line typed while a call is being dialled.
pub fn while_calling(line: Option<&str>, name: &str) -> (r: (Calling, Vec<Do>))
    ensures
        (r.0, dos(r.1@)) == after_waiting(
            match line {
                Some(l) => Some(l@),
                None => None,
            },
            name@,
        ),
{
    match line {
        None => (Calling::Quit, nothing()),
        Some(l) => {
            let t = trimmed(l);
            if crate::text::same(t.as_str(), "/cancel") {
                let mut v = only(say_system(cat("gave up calling ", name)));
                add_do(&mut v, Do::Status("listening".to_owned()));
                assert(dos(v@) =~= seq![
                    system("gave up calling "@ + name@),
                    DoView::Status("listening"@),
                ]);
                (Calling::GiveUp, v)
            } else if crate::text::same(t.as_str(), "/quit") {
                (Calling::Quit, only(say_system(cat("gave up calling ", name))))
            } else if t.as_str().unicode_len() == 0 {
                (Calling::Wait, nothing())
            } else {
                (
                    Calling::Wait,
                    only(say_system(cat3("still calling ", name, " — /cancel to give up"))),
                )
            }
        },
    }
}

/// A call was dialled, and the far side proved who it is, or did not. Somebody else than the
/// one dialled is refused.
pub open spec fn after_opening(
    dialled: PeerId,
    name: Seq<char>,
    proved: Result<PeerId, Seq<char>>,
) -> Seq<DoView> {
    match proved {
        Err(why) => seq![
            failure("-- call dropped: "@ + why + " --"@),
            DoView::Status("listening"@),
        ],
        Ok(p) => if p != dialled {
            seq![
                failure(
                    "-- refused: you called "@ + name
                        + ", but the far side proved a different key ("@ + fingerprint_of(
                        onion_text(p@),
                    ) + ") --"@,
                ),
                DoView::Status("listening"@),
            ]
        } else {
            seq![
                system("-- connected to "@ + name + " --"@),
                DoView::Status("in a call with "@ + name),
                DoView::Talk(dialled, name, None),
            ]
        },
    }
}

/// An outcome whose failure is taken by its text.
pub open spec fn said_error<T>(r: Result<T, String>) -> Result<T, Seq<char>> {
    match r {
        Ok(t) => Ok(t),
        Err(why) => Err(why@),
    }
}

/// What comes of a connection that a call opened.
pub fn call_opened(dialled: PeerId, name: &str, proved: Result<PeerId, String>) -> (r: Vec<Do>)
    ensures
        dos(r@) == after_opening(dialled, name@, said_error(proved)),
{
    let ghost end = after_opening(dialled, name@, said_error(proved));
    let mut v = match proved {
        Err(why) => {
            let mut v = only(say_failure(cat3("-- call dropped: ", why.as_str(), " --")));
            add_do(&mut v, Do::Status("listening".to_owned()));
            v
        },
        Ok(p) => {
            if !same_peer(&p, &dialled) {
                let mut s = cat3(
                    "-- refused: you called ",
                    name,
                    ", but the far side proved a different key (",
                );
                s.append(fingerprint(address_of(&p).as_str()).as_str());
                s.append(") --");
                let mut v = only(say_failure(s));
                add_do(&mut v, Do::Status("listening".to_owned()));
                v
            } else {
                let mut v = only(say_system(cat3("-- connected to ", name, " --")));
                add_do(&mut v, Do::Status(cat("in a call with ", name)));
                add_do(&mut v, Do::Talk(dialled, name.to_owned(), None));
                v
            }
        },
    };
    assert(dos(v@) =~= end);
    v
}

/// Whether the connection outlives the call: only the peer going away, or a fault, ends it.
pub open spec fn survives(ended: Result<Ended, Seq<char>>) -> bool {
    match ended {
        Ok(e) => e != Ended::PeerHungUp,
        Err(_) => false,
    }
}

/// Whether the program ends with the call.
pub open spec fn quits(ended: Result<Ended, Seq<char>>) -> bool {
    match ended {
        Ok(e) => e == Ended::Quit || e == Ended::InputClosed,
        Err(_) => false,
    }
}

/// A conversation ended. Hanging up is not disconnecting: a connection that lives goes back
/// where it was.
pub open spec fn after_talk(
    s: SessionView,
    peer: PeerId,
    name: Seq<char>,
    ended: Result<Ended, Seq<char>>,
) -> (SessionView, Seq<DoView>) {
    let said = match ended {
        Ok(e) => system("-- "@ + e.said(name) + " --"@),
        Err(why) => failure("-- call dropped: "@ + why + " --"@),
    };
    let last = if quits(ended) {
        DoView::Quit
    } else {
        DoView::Status("listening"@)
    };
    if survives(ended) {
        (
            SessionView { pool: kept(s.pool, peer), ..s },
            seq![said] + writes(peer, message_views(held_for(s.pool, peer))) + seq![last],
        )
    } else {
        (s, seq![said, last])
    }
}

impl Session {
    /// A conversation ended. The flag says whether its connection is kept; where it is not, it
    /// is to be closed.
    pub fn talked(&mut self, peer: PeerId, name: &str, ended: Result<Ended, String>) -> (r: (
        Vec<Do>,
        bool,
    ))
        requires
            old(self).wf(),
        ensures
            final(self).wf(),
            (final(self)@, dos(r.0@)) == after_talk(old(self)@, peer, name@, said_error(ended)),
            r.1 == survives(said_error(ended)),
    {
        let ghost e = said_error(ended);
        let (mut v, alive, leaves) = match ended {
            Ok(how) => {
                let alive = match how {
                    Ended::PeerHungUp => false,
                    _ => true,
                };
                (
                    only(say_system(cat3("-- ", how.describe(name).as_str(), " --"))),
                    alive,
                    how.leaves(),
                )
            },
            Err(why) => (
                only(say_failure(cat3("-- call dropped: ", why.as_str(), " --"))),
                false,
                false,
            ),
        };
        let ghost said = dos(v@);
        if alive {
            let (frames, _) = self.pool.keep(peer);
            let more = write_all(&peer, frames);
            extend(&mut v, more);
        }
        let ghost before = dos(v@);
        if leaves {
            add_do(&mut v, Do::Quit);
        } else {
            add_do(&mut v, Do::Status("listening".to_owned()));
        }
        proof {
            let end = after_talk(old(self)@, peer, name@, e);
            assert(dos(v@) =~= end.1);
            assert(self@ =~= end.0);
        }
        (v, alive)
    }
}

/// What is held and dialled, where one thing that was to be done was not: a dial that was not
/// made is not on its way, and what was not let go is still there.
pub open spec fn put_back(p: PoolView, d: DoView) -> PoolView {
    match d {
        DoView::Dial(peer) => PoolView { dialling: p.dialling.remove(peer), ..p },
        DoView::LetGo(peer, dial, link) => retained(p, peer, dial, link),
        _ => p,
    }
}

/// The same for several things, in turn.
pub open spec fn all_put_back(p: PoolView, acts: Seq<DoView>) -> PoolView
    decreases acts.len(),
{
    if acts.len() == 0 {
        p
    } else {
        put_back(all_put_back(p, acts.drop_last()), acts.last())
    }
}

impl Session {
    /// Something failed, and these things behind it were not done.
    pub fn undone(&mut self, rest: &Vec<Do>)
        requires
            old(self).wf(),
        ensures
            final(self).wf(),
            final(self)@ == (SessionView {
                pool: all_put_back(old(self)@.pool, dos(rest@)),
                ..old(self)@
            }),
    {
        let mut i: usize = 0;
        assert(dos(rest@).take(0) =~= Seq::empty());
        assert(self@ =~= (SessionView { pool: old(self)@.pool, ..old(self)@ }));
        while i < rest.len()
            invariant
                i <= rest@.len(),
                self.wf(),
                self@ == (SessionView {
                    pool: all_put_back(old(self)@.pool, dos(rest@).take(i as int)),
                    ..old(self)@
                }),
            decreases rest@.len() - i,
        {
            let ghost now = dos(rest@).take(i + 1);
            proof {
                assert(now.drop_last() =~= dos(rest@).take(i as int));
                assert(now.last() == rest@[i as int]@);
            }
            match &rest[i] {
                Do::Dial(peer) => self.pool.unreach(peer),
                Do::LetGo(peer, dial, link) => self.pool.retain(*peer, *dial, *link),
                _ => {},
            }
            assert(self@ =~= (SessionView {
                pool: all_put_back(old(self)@.pool, now),
                ..old(self)@
            }));
            i = i + 1;
        }
        assert(dos(rest@).take(i as int) =~= dos(rest@));
    }
}

// --- starting up ----------------------------------------------------------------------

/// What is said of the identity and the book at the start.
pub fn opening_line(existed: bool, contacts: usize) -> (r: String)
    ensures
        r@ == "identity "@ + (if existed {
            "loaded"@
        } else {
            "generated"@
        }) + ", "@ + decimal_text(contacts as nat) + " contact"@ + plural(contacts as nat),
{
    let mut s = "identity ".to_owned();
    s.append(
        if existed {
            "loaded"
        } else {
            "generated"
        },
    );
    s.append(", ");
    s.append(decimal(contacts as u128).as_str());
    s.append(" contact");
    s.append(ending(contacts));
    s
}

/// What is said of who can see that we are running.
pub fn visibility_line(contacts: usize) -> (r: String)
    ensures
        r@ == if contacts == 0 {
            "no contacts yet, so your service is discoverable by anyone with the address. /add someone and it goes dark."@
        } else {
            "only your "@ + decimal_text(contacts as nat) + " contact"@ + plural(contacts as nat)
                + " can see you are running"@
        },
{
    if contacts == 0 {
        "no contacts yet, so your service is discoverable by anyone with the address. /add someone and it goes dark.".to_owned()
    } else {
        let mut s = cat3("only your ", decimal(contacts as u128).as_str(), " contact");
        s.append(ending(contacts));
        s.append(" can see you are running");
        s
    }
}

/// The address that is published must be the one our seed derives: the two texts compared, and
/// what is said where they differ.
pub fn check_published(published: &str, expected: &str, run_dir: &str, seed_path: &str) -> (r:
    Result<(), String>)
    ensures
        r is Ok <==> published@ == expected@,
        r is Err ==> r->Err_0@ == mismatch_text(run_dir@, seed_path@, published@, expected@),
{
    if crate::text::same(published, expected) {
        Ok(())
    } else {
        Err(identity_mismatch(run_dir, seed_path, published, expected))
    }
}

/// What is said of an address that is not ours.
pub open spec fn mismatch_text(
    run_dir: Seq<char>,
    seed_path: Seq<char>,
    published: Seq<char>,
    expected: Seq<char>,
) -> Seq<char> {
    "IDENTITY MISMATCH — arti published "@ + published + " but our seed derives "@ + expected
        + ". The keystore at "@ + run_dir
        + "/service/state/keystore holds a different key than the seed at "@ + seed_path
        + ". Nothing was overwritten: delete that keystore directory to republish under our seed, or delete the seed to adopt the stored identity."@
}

/// The message for the one failure that must never be papered over.
pub fn identity_mismatch(run_dir: &str, seed_path: &str, published: &str, expected: &str) -> (r:
    String)
    ensures
        r@ == mismatch_text(run_dir@, seed_path@, published@, expected@),
{
    let mut s = cat3("IDENTITY MISMATCH — arti published ", published, " but our seed derives ");
    s.append(expected);
    s.append(". The keystore at ");
    s.append(run_dir);
    s.append("/service/state/keystore holds a different key than the seed at ");
    s.append(seed_path);
    s.append(
        ". Nothing was overwritten: delete that keystore directory to republish under our seed, or delete the seed to adopt the stored identity.",
    );
    s
}

/// The clients who may discover the service: a nickname and a discovery key for each contact.
pub open spec fn clients_of(entries: Seq<EntryView>) -> Seq<(Seq<char>, Seq<char>)> {
    entries.map_values(
        |e: EntryView| (crate::transport::nickname_of(e.1.address), e.1.discovery),
    )
}

/// The first contact whose discovery key cannot be used, and what is said of it.
pub open spec fn unusable_key(entries: Seq<EntryView>) -> Option<Seq<char>>
    decreases entries.len(),
{
    if entries.len() == 0 {
        None
    } else {
        match unusable_key(entries.drop_last()) {
            Some(n) => Some(n),
            None => match discovery_fault(entries.last().1.discovery) {
                None => None,
                Some((why, _)) => Some(
                    entries.last().0 + "'s discovery key is unusable: "@ + why,
                ),
            },
        }
    }
}

/// Nicknames and keys by their values.
pub open spec fn client_views(s: Seq<(String, String)>) -> Seq<(Seq<char>, Seq<char>)> {
    s.map_values(|p: (String, String)| (p.0@, p.1@))
}

proof fn unusable_stays(entries: Seq<EntryView>, k: int)
    requires
        0 <= k <= entries.len(),
        unusable_key(entries.take(k)) is Some,
    ensures
        unusable_key(entries) == unusable_key(entries.take(k)),
    decreases entries.len(),
{
    if k < entries.len() {
        assert(entries.drop_last().take(k) =~= entries.take(k));
        unusable_stays(entries.drop_last(), k);
    } else {
        assert(entries.take(k) =~= entries);
    }
}

/// The book as the service's list of authorised clients, or what is wrong with it.
pub fn authorized(book: &Contacts) -> (r: Result<Vec<(String, String)>, String>)
    requires
        book.wf(),
    ensures
        match r {
            Ok(v) => unusable_key(book.entries()) is None && client_views(v@) == clients_of(
                book.entries(),
            ),
            Err(text) => unusable_key(book.entries()) == Some(text@),
        },
{
    let entries = book.iter();
    let ghost es = book.entries();
    let mut v: Vec<(String, String)> = Vec::new();
    let mut i: usize = 0;
    assert(client_views(v@) =~= clients_of(es.take(0)));
    while i < entries.len()
        invariant
            i <= entries@.len(),
            entries@.len() == es.len(),
            es == book.entries(),
            forall|j: int|
                0 <= j < entries@.len() ==> (#[trigger] entries@[j]).0@ == es[j].0
                    && entries@[j].1@ == es[j].1,
            unusable_key(es.take(i as int)) is None,
            client_views(v@) == clients_of(es.take(i as int)),
        decreases entries@.len() - i,
    {
        let (name, c) = entries[i];
        let ghost now = es.take(i + 1);
        proof {
            assert(entries@[i as int].0@ == es[i as int].0);
            assert(now.drop_last() =~= es.take(i as int));
            assert(now.last() == es[i as int]);
        }
        match discovery_error(c.discovery.as_str()) {
            Some((why, _)) => {
                proof {
                    unusable_stays(es, i + 1);
                }
                return Err(cat3(name, "'s discovery key is unusable: ", why.as_str()));
            },
            None => {},
        }
        let ghost before = v@;
        v.push(
            (crate::transport::client_nickname(c.address.as_str()), c.discovery.clone()),
        );
        proof {
            assert(client_views(v@) =~= client_views(before).push(
                (crate::transport::nickname_of(c.address@), c.discovery@),
            ));
            assert(clients_of(now) =~= clients_of(es.take(i as int)).push(
                (crate::transport::nickname_of(c.address@), c.discovery@),
            ));
        }
        i = i + 1;
    }
    assert(es.take(i as int) =~= es);
    Ok(v)
}

// --- laws -----------------------------------------------------------------------------

/// Nothing is dialled without agreement: the timer dials only peers of contacts who agreed.
pub proof fn only_the_agreed_are_swept(s: SessionView, names: Seq<EntryView>, i: int)
    requires
        0 <= i < after_sweep(s, names).1.len(),
    ensures
        after_sweep(s, names).1[i] is Dial,
        peers_of(agreed_of(names)).contains(after_sweep(s, names).1[i]->Dial_0),
{
    dials_are_of(s.pool, peers_of(agreed_of(names)), i);
}

proof fn dials_are_of(p: PoolView, peers: Seq<PeerId>, i: int)
    requires
        0 <= i < reached_all(p, peers).1.len(),
    ensures
        reached_all(p, peers).1[i] is Dial,
        peers.contains(reached_all(p, peers).1[i]->Dial_0),
    decreases peers.len(),
{
    if peers.len() > 0 {
        let init = peers.drop_last();
        let a = reached_all(p, init).1;
        if i < a.len() {
            dials_are_of(p, init, i);
            let x = a[i]->Dial_0;
            let j = init.index_of(x);
            assert(peers[j] == x);
        } else {
            assert(peers[peers.len() - 1] == peers.last());
        }
    }
}

/// This peer is a contact who agreed presence with us.
pub open spec fn agreed_peer(book: Map<Seq<char>, ContactView>, peer: PeerId) -> bool {
    exists|name: Seq<char>| #[trigger]
        book.contains_key(name) && book[name].presence == Presence::On && onion_key(
            book[name].address,
        ) is Some && peer == peer_from(onion_key(book[name].address)->0)
}

/// Nothing is dialled without agreement, whatever is typed: a connection is opened in the
/// background only to a contact who agreed presence, and a call is placed only by `/call`.
pub proof fn a_command_dials_only_the_agreed(
    s: SessionView,
    names: Seq<EntryView>,
    c: CommandView,
    address: Seq<char>,
    key: Seq<char>,
    now: u64,
    i: int,
)
    requires
        0 <= i < after_command(s, names, c, address, key, now).1.len(),
    ensures
        ({
            let (t, acts) = after_command(s, names, c, address, key, now);
            &&& acts[i] is Dial ==> agreed_peer(t.book, acts[i]->Dial_0)
            &&& acts[i] is Call ==> c is Call
            &&& acts[i] is Talk ==> c is Call || c is Answer
        }),
{
    match c {
        CommandView::Presence(n, said) => presence_dials_only_the_agreed(s, n, said, i),
        CommandView::Tell(n, b) => tell_dials_only_the_agreed(s, n, b, now, i),
        CommandView::Add(n, a, k) => add_dials_nobody(s, names, n, a, k, i),
        CommandView::Forget(n) => forget_dials_nobody(s, n, i),
        CommandView::Contacts => {
            if names.len() > 0 {
                assert(contact_list(s, names)[i] == system(contact_line(s, names[i])));
            }
        },
        CommandView::Answer => {},
        CommandView::Decline => decline_dials_nobody(s, i),
        CommandView::Call(n) => call_dials_nobody_else(s, n, i),
        CommandView::Help => help_only_says(i),
        _ => {},
    }
}

/// This opens no connection and begins no conversation.
spec fn quiet(d: DoView) -> bool {
    !(d is Dial) && !(d is Call) && !(d is Talk)
}

proof fn tell_dials_only_the_agreed(s: SessionView, n: Seq<char>, b: Seq<char>, now: u64, i: int)
    requires
        0 <= i < after_tell(s, n, b, now).1.len(),
    ensures
        ({
            let (t, acts) = after_tell(s, n, b, now);
            &&& acts[i] is Dial ==> agreed_peer(t.book, acts[i]->Dial_0)
            &&& !(acts[i] is Call) && !(acts[i] is Talk)
        }),
{
    let t = after_tell(s, n, b, now).0;
    if s.book.contains_key(trim(n)) {
        assert(t.book == s.book);
        assert(t.book.contains_key(trim(n)));
    }
}

proof fn add_dials_nobody(
    s: SessionView,
    names: Seq<EntryView>,
    n: Seq<char>,
    a: Seq<char>,
    k: Seq<char>,
    i: int,
)
    requires
        0 <= i < after_add(s, names, n, a, k).1.len(),
    ensures
        quiet(after_add(s, names, n, a, k).1[i]),
{
}

proof fn forget_dials_nobody(s: SessionView, n: Seq<char>, i: int)
    requires
        0 <= i < after_forget(s, n).1.len(),
    ensures
        quiet(after_forget(s, n).1[i]),
{
}

proof fn decline_dials_nobody(s: SessionView, i: int)
    requires
        0 <= i < after_decline(s).1.len(),
    ensures
        quiet(after_decline(s).1[i]),
{
}

proof fn call_dials_nobody_else(s: SessionView, n: Seq<char>, i: int)
    requires
        0 <= i < after_call(s, n).1.len(),
    ensures
        !(after_call(s, n).1[i] is Dial),
{
}

proof fn help_only_says(i: int)
    requires
        0 <= i < help_acts().len(),
    ensures
        help_acts()[i] is Say,
{
}

proof fn presence_dials_only_the_agreed(s: SessionView, name: Seq<char>, said: Said, i: int)
    requires
        0 <= i < after_presence(s, name, said).1.len(),
    ensures
        ({
            let (t, acts) = after_presence(s, name, said);
            &&& acts[i] is Dial ==> agreed_peer(t.book, acts[i]->Dial_0)
            &&& !(acts[i] is Call)
            &&& !(acts[i] is Talk)
        }),
{
    let t = after_presence(s, name, said).0;
    if s.book.contains_key(trim(name)) {
        assert(t.book.contains_key(trim(name)));
    }
}

/// Nothing is answered on anybody's behalf: no frame places a call or begins a conversation,
/// and none has us dial anyone but a contact who agreed presence.
pub proof fn a_frame_starts_no_call(
    s: SessionView,
    names: Seq<EntryView>,
    peer: PeerId,
    m: MessageView,
    now: u64,
    i: int,
)
    requires
        0 <= i < after_heard(s, names, peer, m, now).1.len(),
    ensures
        ({
            let (t, acts) = after_heard(s, names, peer, m, now);
            &&& acts[i] is Dial ==> agreed_peer(t.book, acts[i]->Dial_0)
            &&& !(acts[i] is Call)
            &&& !(acts[i] is Talk)
        }),
{
    if said_of(m) is Some && name_for(names, trim(onion_text(peer@))) is Some {
        let name = name_for(names, trim(onion_text(peer@)))->0;
        presence_dials_only_the_agreed(s, name, said_of(m)->0, i);
    }
}

/// A caller's first words are not read before the call is taken: what is done when somebody
/// rings, and when they are turned down, is the same whatever they said.
pub proof fn a_held_call_is_unread(
    s: SessionView,
    names: Seq<EntryView>,
    peer: PeerId,
    one: MessageView,
    other: MessageView,
)
    ensures
        after_ring(s, names, peer, one).1 == after_ring(s, names, peer, other).1,
        after_decline(
            SessionView { ringing: Some(RingingView { peer, name: named(names, peer), first: one }), ..s },
        ) == after_decline(
            SessionView {
                ringing: Some(RingingView { peer, name: named(names, peer), first: other }),
                ..s
            },
        ),
{
    let x = SessionView {
        ringing: Some(RingingView { peer, name: named(names, peer), first: one }),
        ..s
    };
    let y = SessionView {
        ringing: Some(RingingView { peer, name: named(names, peer), first: other }),
        ..s
    };
    assert(after_decline(x).0 =~= after_decline(y).0);
}

/// Answering a call begins the conversation with the words that were held.
pub proof fn answering_hands_over_the_first_words(s: SessionView)
    requires
        s.ringing is Some,
        s.pool.idle.contains(s.ringing->0.peer),
    ensures
        after_answer(s).1.last() == DoView::Talk(
            s.ringing->0.peer,
            s.ringing->0.name,
            Some(s.ringing->0.first),
        ),
        after_answer(s).0.ringing is None,
{
}

/// A message is kept before anything is attempted with it: once it is accepted, it waits for
/// its recipient, the first thing done is to write that down, and sending it takes nothing
/// away.
pub proof fn a_message_is_kept_before_it_is_sent(
    s: SessionView,
    name: Seq<char>,
    body: Seq<char>,
    now: u64,
)
    requires
        s.book.contains_key(trim(name)),
        onion_key(s.book[trim(name)].address) is Some,
        !outbox_full(s),
        utf8_len(body) <= MAX_TEXT,
    ensures
        after_tell(s, name, body, now).1[0] == DoView::SaveOutbox,
        waiting_at(
            after_tell(s, name, body, now).0.outbox,
            trim(s.book[trim(name)].address),
        ).last() == (WaitingView { id: s.next, at: now, body }),
{
    crate::outbox::the_queue_is_capped(
        waiting_at(s.outbox, trim(s.book[trim(name)].address)),
        WaitingView { id: s.next, at: now, body },
    );
}

/// A message left for us is shown once, and acknowledged every time it comes.
pub proof fn a_left_message_is_shown_once(
    s: SessionView,
    names: Seq<EntryView>,
    peer: PeerId,
    id: u64,
    at: u64,
    body: Seq<char>,
    now: u64,
    later: u64,
)
    requires
        name_for(names, trim(onion_text(peer@))) is Some,
        id < u64::MAX,
        s.pool.idle.contains(peer),
    ensures
        ({
            let s1 = after_left_message(s, names, peer, id, at, body, now).0;
            let again = after_left_message(s1, names, peer, id, at, body, later);
            &&& again.1 == seq![DoView::Write(peer, MessageView::Got(id))]
            &&& again.0 == s1
        }),
        after_left_message(s, names, peer, id, at, body, now).1.last() == DoView::Write(
            peer,
            MessageView::Got(id),
        ),
{
    let name = name_for(names, trim(onion_text(peer@)))->0;
    let s1 = after_left_message(s, names, peer, id, at, body, now).0;
    let again = after_left_message(s1, names, peer, id, at, body, later);
    if accepts_left(s.book, trim(name), id) {
        crate::contacts::a_message_is_shown_once(s.book, trim(name), id, id);
    }
    assert(again.1 =~= seq![DoView::Write(peer, MessageView::Got(id))]);
    assert(again.0 =~= s1);
}

/// What somebody left for us is shown clean: whatever they wrote, the line holds no character
/// that moves, hides or reorders what is on screen.
pub proof fn a_left_message_is_visible(
    s: SessionView,
    names: Seq<EntryView>,
    peer: PeerId,
    m: MessageView,
    now: u64,
    i: int,
)
    requires
        !any_invisible(named(names, peer)),
        0 <= i < after_heard(s, names, peer, m, now).1.len(),
        after_heard(s, names, peer, m, now).1[i] is SaveAndSay,
    ensures
        !any_invisible(after_heard(s, names, peer, m, now).1[i]->SaveAndSay_1),
{
    let act = after_heard(s, names, peer, m, now).1[i];
    match m {
        MessageView::Left { id, at, body } => {
            let name = named(names, peer);
            let age = age_text(
                if now >= at {
                    (now - at) as u64
                } else {
                    0
                },
            );
            reveal_strlit(" (");
            reveal_strlit(")> ");
            shown_text_is_visible(body);
            age_is_visible(
                if now >= at {
                    (now - at) as u64
                } else {
                    0
                },
            );
            visible_together(name, " ("@);
            visible_together(name + " ("@, age);
            visible_together(name + " ("@ + age, ")> "@);
            visible_together(name + " ("@ + age + ")> "@, shown_text(body));
        },
        _ => {},
    }
}

proof fn age_is_visible(seconds: u64)
    ensures
        !any_invisible(age_text(seconds)),
{
    reveal_strlit("just now");
    reveal_strlit(" minutes ago");
    reveal_strlit(" hours ago");
    reveal_strlit(" days ago");
    visible_decimal(seconds as nat / 60);
    visible_decimal(seconds as nat / 3600);
    visible_decimal(seconds as nat / 86400);
    visible_together(decimal_text(seconds as nat / 60), " minutes ago"@);
    visible_together(decimal_text(seconds as nat / 3600), " hours ago"@);
    visible_together(decimal_text(seconds as nat / 86400), " days ago"@);
}

/// An acknowledgement is what lets go of a message, and nothing else in hearing a frame does:
/// any other frame leaves everything that waits as it was.
pub proof fn only_an_acknowledgement_lets_go(
    s: SessionView,
    names: Seq<EntryView>,
    peer: PeerId,
    m: MessageView,
    now: u64,
)
    requires
        !(m is Got),
    ensures
        after_heard(s, names, peer, m, now).0.outbox == s.outbox,
{
}

/// Forgetting a contact is complete: the name, what was written to them and the connection
/// are all gone.
pub proof fn forgetting_leaves_nothing(s: SessionView, name: Seq<char>)
    requires
        s.book.contains_key(trim(name)),
        onion_key(s.book[trim(name)].address) is Some,
    ensures
        ({
            let peer = peer_from(onion_key(s.book[trim(name)].address)->0);
            let t = after_forget(s, name).0;
            &&& !t.book.contains_key(trim(name))
            &&& waiting_for(t, peer).len() == 0
            &&& !t.pool.idle.contains(peer)
            &&& !t.pool.dialling.contains(peer)
            &&& held_for(t.pool, peer).len() == 0
        }),
{
}

/// Somebody other than the one dialled is never talked to.
pub proof fn a_different_key_is_refused(dialled: PeerId, name: Seq<char>, proved: PeerId, i: int)
    requires
        proved != dialled,
        0 <= i < after_opening(dialled, name, Ok(proved)).len(),
    ensures
        !(after_opening(dialled, name, Ok(proved))[i] is Talk),
{
}

/// A call that is turned down leaves the connection open: the conversation ends at the frame
/// that says so, and what carried it is held again.
pub proof fn a_declined_call_keeps_the_link(
    c: crate::chat::ConvView,
    s: SessionView,
    peer: PeerId,
    name: Seq<char>,
    partials: Seq<Option<u64>>,
)
    ensures
        crate::chat::after_frame(c, MessageView::CallDecline, name, partials).2 == Some(
            Ended::Declined,
        ),
        after_talk(s, peer, name, Ok(Ended::Declined)).0.pool.idle.contains(peer),
        after_talk(s, peer, name, Ok(Ended::Declined)).1[0] == system(
            "-- "@ + (name + " is not taking the call"@) + " --"@,
        ),
{
}

/// Withdrawing presence is told: over a connection we hold the refusal is written before that
/// connection is let go, and without one it is the one thing that waits for the peer, and goes
/// out first on the next connection.
pub proof fn a_withdrawal_is_told(s: SessionView, names: Seq<EntryView>, name: Seq<char>)
    requires
        s.book.contains_key(trim(name)),
        s.book[trim(name)].presence != Presence::Off,
        onion_key(s.book[trim(name)].address) is Some,
    ensures
        ({
            let peer = peer_from(onion_key(s.book[trim(name)].address)->0);
            let (t, acts) = after_presence(s, name, Said::WeStop);
            &&& presence_at(t.book, name) == Presence::Off
            &&& s.pool.idle.contains(peer) ==> acts[1] == DoView::Write(
                peer,
                MessageView::PresenceNo,
            ) && acts.last() == DoView::LetGo(peer, s.pool.dialling.contains(peer), true)
            &&& !s.pool.idle.contains(peer) ==> {
                &&& t.pool == held(forgotten(s.pool, peer), peer, Message::PresenceNo)
                &&& held_for(t.pool, peer) == seq![Message::PresenceNo]
                &&& after_connected(t, names, peer).1[0] == DoView::Write(
                    peer,
                    MessageView::PresenceNo,
                )
            }
        }),
{
    let peer = peer_from(onion_key(s.book[trim(name)].address)->0);
    let (t, acts) = after_presence(s, name, Said::WeStop);
    if !s.pool.idle.contains(peer) {
        assert(held_for(forgotten(s.pool, peer), peer) =~= Seq::empty());
        assert(held_for(t.pool, peer) =~= seq![Message::PresenceNo]);
        assert(message_views(held_for(t.pool, peer))[0] == MessageView::PresenceNo);
    }
}

/// A call ending is not the connection ending: unless the peer went away, it is held again,
/// and the next call needs no dial.
pub proof fn a_link_outlives_its_call(
    s: SessionView,
    peer: PeerId,
    name: Seq<char>,
    how: Ended,
)
    requires
        how != Ended::PeerHungUp,
    ensures
        after_talk(s, peer, name, Ok(how)).0.pool.idle.contains(peer),
{
}

} // verus!
