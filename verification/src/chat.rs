//! One conversation: what each typed line, each frame and each finished piece of outside work
//! does to it.
//!
//! The state is owned here and nowhere else. Every method takes what happened and gives back
//! what to do: lines for the screen, messages for the peer, work on files and sockets. A file
//! is offered, never pushed: the recipient answers, and an answer names the byte to start at.

use vstd::prelude::*;
use vstd::string::*;

use crate::bytes::equal;
use crate::files::{
    any_invisible, human, human_text, kept_name, name_fault, resumable, resume_offset, safe_name,
    sanitize_for_display, shown_text, shown_text_is_visible, visible_together, visible_trimmed,
    Offer, OfferView, MAX_FILE,
};
use crate::message::{
    piece_views, Direct, DirectView, FileRef, FileView, Message, MessageView, Piece, PieceView,
};
use crate::proto::{utf8_len, MAX_CHUNK, MAX_TEXT};
use crate::text::{chars, decimal, decimal_text, quoted, quoted_text, trim, trimmed};
use crate::typed::{classified, classify, Ended, Route, Typed, TypedView};
use crate::ui::Kind;

verus! {

/// How often a running transfer reports progress, in bytes.
pub const PROGRESS_EVERY: u64 = 1048576;

/// A file going out, and how far it has got.
#[derive(Debug)]
pub struct Sending {
    pub name: String,
    /// Where this file lives.
    pub path: String,
    /// Whether chunks may flow. Nothing is read from disk before they may.
    pub accepted: bool,
    /// The byte the peer asked to start at.
    pub start: u64,
    /// Bytes written to the wire so far, counted from zero even on a resume.
    pub sent: u64,
    pub size: u64,
    /// Next progress report, in bytes sent.
    pub next_report: u64,
    /// Whether the offer asked for a direct link.
    pub route: Route,
}

/// A file a peer put in a message, waiting for our answer.
#[derive(Debug)]
pub struct Offered {
    pub offer: Offer,
    /// Whether the sender asked for it to travel outside Tor.
    pub direct: bool,
}

/// A file we put in a message, waiting for theirs.
#[derive(Debug)]
pub struct Outgoing {
    pub hash: [u8; 32],
    pub path: String,
    pub name: String,
    pub size: u64,
    pub route: Route,
}

/// A file coming in, and how far it has got.
#[derive(Debug)]
pub struct Receiving {
    pub offer: Offer,
    pub written: u64,
    pub next_report: u64,
}

/// One part of a message we send: words, or a file by its path and what it is.
#[derive(Debug)]
pub enum PostPart {
    Text(String),
    File(String, Offer),
}

/// Something to be done because of what happened.
#[derive(Debug)]
pub enum Act {
    /// Put a line on screen.
    Say(Kind, String),
    /// Send this to the peer.
    Send(Message),
    /// Read and hash this file of ours, then call [`Conversation::offer`].
    Describe(String, Route),
    /// Open this file of ours at this byte, for the chunks to come.
    OpenSource(String, u64),
    /// Reach the peer outside Tor, then call [`Conversation::dialled`].
    Dial(Direct),
    /// Send this file over the direct link from this byte on, then call
    /// [`Conversation::pushed`].
    Push(String, u64),
    /// Receive this file over the direct link, then call [`Conversation::pulled`].
    Pull(Offer),
    /// Give up whatever runs outside Tor.
    StopDirect,
    /// The operator wants this file: see what is on disk of it, listen if asked to, then
    /// call [`Conversation::taken`]; where there is no place for it, call
    /// [`Conversation::partial_failed`].
    Take(Offered),
    /// Open the partial file of this digest, holding this many bytes, to append to it. Where
    /// that cannot be done, nothing that stands behind it in the list is, and
    /// [`Conversation::partial_failed`] is called: an answer that follows must not go out.
    OpenPartial([u8; 32], u64),
    /// Append this to the partial file.
    WritePartial(Vec<u8>),
    /// Verify this file and give it its name, then call [`Conversation::landed`].
    Finish(Offer),
    /// This is no part of the conversation: it is for the program between calls, once the
    /// conversation is over.
    Aside(Message),
}

/// All state of one conversation.
#[derive(Debug)]
pub struct Conversation {
    pub sending: Option<Sending>,
    pub receiving: Option<Receiving>,
    /// Offers waiting for our answer, oldest first.
    pub pending: Vec<Offered>,
    /// Files we offered and have not been answered about yet.
    pub offered: Vec<Outgoing>,
    /// Set once the operator has asked to leave but a transfer is still running.
    pub leaving: Option<Ended>,
    /// False once the keyboard is gone for good.
    pub keyboard_open: bool,
    /// True once the peer's stream has ended and we stayed for a direct transfer.
    pub peer_gone: bool,
    /// The file that is going out over a direct link, by its name.
    pub pushing: Option<String>,
    /// The file that is coming in over a direct link.
    pub pulling: Option<Offer>,
    /// Whether every waiting file is to be taken, one after the other.
    pub taking_all: bool,
}

/// See [`Sending`].
#[verifier::ext_equal]
pub struct SendingView {
    pub name: Seq<char>,
    pub path: Seq<char>,
    pub accepted: bool,
    pub start: u64,
    pub sent: u64,
    pub size: u64,
    pub next_report: u64,
    pub route: Route,
}

/// See [`Offered`].
#[verifier::ext_equal]
pub struct OfferedView {
    pub offer: OfferView,
    pub direct: bool,
}

/// See [`Outgoing`].
#[verifier::ext_equal]
pub struct OutgoingView {
    pub hash: Seq<u8>,
    pub path: Seq<char>,
    pub name: Seq<char>,
    pub size: u64,
    pub route: Route,
}

/// See [`Receiving`].
#[verifier::ext_equal]
pub struct ReceivingView {
    pub offer: OfferView,
    pub written: u64,
    pub next_report: u64,
}

/// See [`PostPart`].
#[verifier::ext_equal]
pub enum PostPartView {
    Text(Seq<char>),
    File(Seq<char>, OfferView),
}

/// See [`Act`].
#[verifier::ext_equal]
pub enum ActView {
    Say(Kind, Seq<char>),
    Send(MessageView),
    Describe(Seq<char>, Route),
    OpenSource(Seq<char>, u64),
    Dial(DirectView),
    Push(Seq<char>, u64),
    Pull(OfferView),
    StopDirect,
    Take(OfferedView),
    OpenPartial(Seq<u8>, u64),
    WritePartial(Seq<u8>),
    Finish(OfferView),
    Aside(MessageView),
}

/// See [`Conversation`].
#[verifier::ext_equal]
pub struct ConvView {
    pub sending: Option<SendingView>,
    pub receiving: Option<ReceivingView>,
    pub pending: Seq<OfferedView>,
    pub offered: Seq<OutgoingView>,
    pub leaving: Option<Ended>,
    pub keyboard_open: bool,
    pub peer_gone: bool,
    pub pushing: Option<Seq<char>>,
    pub pulling: Option<OfferView>,
    pub taking_all: bool,
}

impl View for Sending {
    type V = SendingView;

    open spec fn view(&self) -> SendingView {
        SendingView {
            name: self.name@,
            path: self.path@,
            accepted: self.accepted,
            start: self.start,
            sent: self.sent,
            size: self.size,
            next_report: self.next_report,
            route: self.route,
        }
    }
}

impl View for Offered {
    type V = OfferedView;

    open spec fn view(&self) -> OfferedView {
        OfferedView { offer: self.offer@, direct: self.direct }
    }
}

impl View for Outgoing {
    type V = OutgoingView;

    open spec fn view(&self) -> OutgoingView {
        OutgoingView {
            hash: self.hash@,
            path: self.path@,
            name: self.name@,
            size: self.size,
            route: self.route,
        }
    }
}

impl View for Receiving {
    type V = ReceivingView;

    open spec fn view(&self) -> ReceivingView {
        ReceivingView {
            offer: self.offer@,
            written: self.written,
            next_report: self.next_report,
        }
    }
}

impl View for PostPart {
    type V = PostPartView;

    open spec fn view(&self) -> PostPartView {
        match *self {
            PostPart::Text(t) => PostPartView::Text(t@),
            PostPart::File(path, offer) => PostPartView::File(path@, offer@),
        }
    }
}

impl View for Act {
    type V = ActView;

    open spec fn view(&self) -> ActView {
        match *self {
            Act::Say(kind, text) => ActView::Say(kind, text@),
            Act::Send(m) => ActView::Send(m@),
            Act::Describe(path, route) => ActView::Describe(path@, route),
            Act::OpenSource(path, offset) => ActView::OpenSource(path@, offset),
            Act::Dial(d) => ActView::Dial(d@),
            Act::Push(path, offset) => ActView::Push(path@, offset),
            Act::Pull(offer) => ActView::Pull(offer@),
            Act::StopDirect => ActView::StopDirect,
            Act::Take(o) => ActView::Take(o@),
            Act::OpenPartial(hash, offset) => ActView::OpenPartial(hash@, offset),
            Act::WritePartial(data) => ActView::WritePartial(data@),
            Act::Finish(offer) => ActView::Finish(offer@),
            Act::Aside(m) => ActView::Aside(m@),
        }
    }
}

impl View for Conversation {
    type V = ConvView;

    open spec fn view(&self) -> ConvView {
        ConvView {
            sending: match self.sending {
                Some(s) => Some(s@),
                None => None,
            },
            receiving: match self.receiving {
                Some(r) => Some(r@),
                None => None,
            },
            pending: offered_views(self.pending@),
            offered: outgoing_views(self.offered@),
            leaving: self.leaving,
            keyboard_open: self.keyboard_open,
            peer_gone: self.peer_gone,
            pushing: match self.pushing {
                Some(n) => Some(n@),
                None => None,
            },
            pulling: match self.pulling {
                Some(o) => Some(o@),
                None => None,
            },
            taking_all: self.taking_all,
        }
    }
}

/// Offers by their values.
pub open spec fn offered_views(s: Seq<Offered>) -> Seq<OfferedView> {
    s.map_values(|o: Offered| o@)
}

/// Files of ours by their values.
pub open spec fn outgoing_views(s: Seq<Outgoing>) -> Seq<OutgoingView> {
    s.map_values(|o: Outgoing| o@)
}

/// What is to be done, by values.
pub open spec fn acts(s: Seq<Act>) -> Seq<ActView> {
    s.map_values(|a: Act| a@)
}

/// Parts by their values.
pub open spec fn part_views(s: Seq<PostPart>) -> Seq<PostPartView> {
    s.map_values(|p: PostPart| p@)
}

/// A line of program chatter.
pub open spec fn system(text: Seq<char>) -> ActView {
    ActView::Say(Kind::System, text)
}

/// A line about a failure.
pub open spec fn failure(text: Seq<char>) -> ActView {
    ActView::Say(Kind::Error, text)
}

/// A size we take.
pub open spec fn takeable(size: u64) -> bool {
    0 < size <= MAX_FILE
}

/// What holds of every conversation: no more is sent or written than a file has, and no file
/// is larger than allowed.
pub open spec fn sound(c: ConvView) -> bool {
    &&& match c.sending {
        Some(s) => s.sent <= s.size && s.start <= s.size && s.size <= MAX_FILE,
        None => true,
    }
    &&& match c.receiving {
        Some(r) => r.written <= r.offer.size && takeable(r.offer.size),
        None => true,
    }
    &&& match c.pulling {
        Some(o) => takeable(o.size) && c.receiving is None,
        None => true,
    }
    &&& forall|i: int| 0 <= i < c.pending.len() ==> takeable((#[trigger] c.pending[i]).offer.size)
    &&& forall|i: int| 0 <= i < c.offered.len() ==> (#[trigger] c.offered[i]).size <= MAX_FILE
}

/// Is there file business we should not walk out on? An offer that is not answered yet
/// counts, as long as somebody is there to answer it: leaving would cancel the very thing
/// that was just offered.
pub open spec fn busy(c: ConvView) -> bool {
    c.sending is Some || c.receiving is Some || c.pushing is Some || c.pulling is Some || (
    c.offered.len() > 0 && !c.peer_gone)
}

/// Is a file on its way to us, or anything under way outside Tor?
pub open spec fn occupied(c: ConvView) -> bool {
    c.receiving is Some || c.pushing is Some || c.pulling is Some
}

/// Why an offer could not be picked.
#[derive(Clone, Copy, Debug, PartialEq, Eq, Structural)]
pub enum TakeError {
    /// Nothing waits.
    Nothing,
    /// There is no such number; what was asked for, and how many there are.
    NoSuch { asked: usize, have: usize },
}

impl TakeError {
    /// What the operator is told.
    pub open spec fn said(self) -> Seq<char> {
        match self {
            TakeError::Nothing => "nothing to answer"@,
            TakeError::NoSuch { asked, have } => "there is no file "@ + decimal_text(asked as nat)
                + "; there are "@ + decimal_text(have as nat),
        }
    }

    /// Say why.
    pub fn describe(&self) -> (r: String)
        ensures
            r@ == self.said(),
    {
        match self {
            TakeError::Nothing => "nothing to answer".to_owned(),
            TakeError::NoSuch { asked, have } => {
                let mut s = "there is no file ".to_owned();
                s.append(decimal(*asked as u128).as_str());
                s.append("; there are ");
                s.append(decimal(*have as u128).as_str());
                s
            },
        }
    }
}

/// Which of `n` waiting offers is meant: the numbered one, counted from one, or the oldest.
pub open spec fn picked(n: nat, which: Option<usize>) -> Result<int, TakeError> {
    if n == 0 {
        Err(TakeError::Nothing)
    } else {
        match which {
            None => Ok(0),
            Some(k) => if 1 <= k <= n {
                Ok(k - 1)
            } else {
                Err(TakeError::NoSuch { asked: k, have: n as usize })
            },
        }
    }
}

/// Take one offer out of the queue: the numbered one, or the oldest.
pub fn take_pending(pending: &mut Vec<Offered>, which: Option<usize>) -> (r: Result<
    Offered,
    TakeError,
>)
    ensures
        match r {
            Ok(o) => {
                let i = picked(old(pending)@.len(), which)->Ok_0;
                &&& picked(old(pending)@.len(), which) is Ok
                &&& o == old(pending)@[i]
                &&& final(pending)@ == old(pending)@.remove(i)
            },
            Err(e) => {
                &&& picked(old(pending)@.len(), which) == Err::<int, TakeError>(e)
                &&& final(pending)@ == old(pending)@
            },
        },
{
    let n: usize = pending.len();
    if n == 0 {
        return Err(TakeError::Nothing);
    }
    let index: usize = match which {
        None => 0,
        Some(k) => {
            if 1 <= k && k <= n {
                k - 1
            } else {
                return Err(TakeError::NoSuch { asked: k, have: n });
            }
        },
    };
    Ok(pending.remove(index))
}

/// What the operator is told when a second file is asked for.
pub open spec fn one_at_a_time() -> Seq<char> {
    "one file at a time — this one waits until the current transfer ends"@
}

/// The operator asks for a file.
pub open spec fn began(c: ConvView, which: Option<usize>) -> (ConvView, Seq<ActView>) {
    if occupied(c) {
        (c, seq![failure(one_at_a_time())])
    } else {
        match picked(c.pending.len(), which) {
            Err(e) => (c, seq![failure(e.said())]),
            Ok(i) => (
                ConvView { pending: c.pending.remove(i), ..c },
                seq![ActView::Take(c.pending[i])],
            ),
        }
    }
}

/// Where every waiting file is to be taken, a free line takes the next; the wish ends with
/// the last.
pub open spec fn next_taken(c: ConvView) -> (ConvView, Seq<ActView>) {
    if !c.taking_all || occupied(c) {
        (c, Seq::empty())
    } else if c.pending.len() == 0 {
        (ConvView { taking_all: false, ..c }, Seq::empty())
    } else {
        began(c, None)
    }
}

/// The operator asks for every file.
pub open spec fn began_all(c: ConvView) -> (ConvView, Seq<ActView>) {
    if c.pending.len() == 0 {
        (c, seq![failure(TakeError::Nothing.said())])
    } else {
        next_taken(ConvView { taking_all: true, ..c })
    }
}

/// A typed line.
pub open spec fn after_typed(c: ConvView, t: TypedView) -> (ConvView, Seq<ActView>, Option<Ended>) {
    match t {
        TypedView::Nothing => (c, Seq::empty(), None),
        TypedView::HangUp(how) => if !busy(c) || c.leaving is Some {
            (c, Seq::empty(), Some(how))
        } else {
            (
                ConvView { leaving: Some(how), ..c },
                seq![
                    system(
                        "-- hanging up when the file is done; type it again to leave now --"@,
                    ),
                ],
                None,
            )
        },
        TypedView::UnknownCommand(verb) => (
            c,
            seq![
                failure(
                    verb
                        + " is not available during a call — /bye first. (start a line with // to send a literal slash)"@,
                ),
            ],
            None,
        ),
        TypedView::Send(path, route) => (c, seq![ActView::Describe(path, route)], None),
        TypedView::Accept(which) => {
            let (d, a) = began(c, which);
            (d, a, None)
        },
        TypedView::AcceptAll => {
            let (d, a) = began_all(c);
            (d, a, None)
        },
        TypedView::Refuse(which) => match picked(c.pending.len(), which) {
            Err(e) => (c, seq![failure(e.said())], None),
            Ok(i) => (
                ConvView { pending: c.pending.remove(i), ..c },
                seq![
                    system("refused "@ + quoted_text(c.pending[i].offer.name)),
                    ActView::Send(MessageView::FileReject { hash: c.pending[i].offer.hash }),
                ],
                None,
            ),
        },
        TypedView::Message(text) => if utf8_len(text) > MAX_TEXT {
            (
                c,
                seq![
                    failure(
                        "line dropped: "@ + decimal_text(utf8_len(text))
                            + " bytes, the limit is 32768"@,
                    ),
                ],
                None,
            )
        } else {
            (
                c,
                seq![
                    ActView::Say(Kind::Mine, "you> "@ + text),
                    ActView::Send(MessageView::Text(text)),
                ],
                None,
            )
        },
    }
}

/// The keyboard is gone: leave, once nothing is under way.
pub open spec fn after_keyboard_closed(c: ConvView) -> (ConvView, Option<Ended>) {
    let d = ConvView { keyboard_open: false, ..c };
    if !busy(c) {
        (d, Some(Ended::InputClosed))
    } else {
        (ConvView { leaving: Some(Ended::InputClosed), ..d }, None)
    }
}

/// Whether answering an offer means listening for a direct link: it asks for one, and
/// nothing of it is on disk yet. A resumed transfer always uses Tor.
pub open spec fn listens(o: OfferedView, partial: Option<u64>) -> bool {
    o.direct && resumable(partial, o.offer.size) == 0
}

/// What came of listening for a direct link.
#[derive(Debug)]
pub enum Listening {
    /// It was not called for.
    NotTried,
    /// We listen there.
    Open(Direct),
    /// It could not be done; why.
    Failed(String),
}

/// The same by its values.
#[verifier::ext_equal]
pub enum ListeningView {
    NotTried,
    Open(DirectView),
    Failed(Seq<char>),
}

impl View for Listening {
    type V = ListeningView;

    open spec fn view(&self) -> ListeningView {
        match *self {
            Listening::NotTried => ListeningView::NotTried,
            Listening::Open(d) => ListeningView::Open(d@),
            Listening::Failed(why) => ListeningView::Failed(why@),
        }
    }
}

/// An offer the operator wants is answered: directly where that was asked for and can be
/// done, else over Tor from the first byte that is missing.
pub open spec fn after_taken(
    c: ConvView,
    o: OfferedView,
    partial: Option<u64>,
    listening: ListeningView,
) -> (ConvView, Seq<ActView>) {
    let offset = resumable(partial, o.offer.size);
    let over_tor = ConvView {
        receiving: Some(
            ReceivingView {
                offer: o.offer,
                written: offset,
                next_report: (offset + PROGRESS_EVERY) as u64,
            },
        ),
        ..c
    };
    let tor = seq![
        ActView::OpenPartial(o.offer.hash, offset),
        system("-- taking "@ + quoted_text(o.offer.name) + " --"@),
        ActView::Send(
            MessageView::FileAccept { hash: o.offer.hash, offset, direct: None },
        ),
    ];
    if !o.direct {
        (over_tor, tor)
    } else if offset > 0 {
        (over_tor, seq![system("-- resuming, so this one goes over Tor --"@)] + tor)
    } else {
        match listening {
            ListeningView::Open(d) => (
                ConvView { pulling: Some(o.offer), ..c },
                seq![
                    system("-- taking "@ + quoted_text(o.offer.name) + " over a direct link --"@),
                    ActView::Pull(o.offer),
                    ActView::Send(
                        MessageView::FileAccept { hash: o.offer.hash, offset, direct: Some(d) },
                    ),
                ],
            ),
            ListeningView::Failed(why) => (
                over_tor,
                seq![system("-- no direct link ("@ + why + "); using Tor --"@)] + tor,
            ),
            ListeningView::NotTried => (over_tor, tor),
        }
    }
}

/// Where in a list of our files one with this digest stands first, or the length of the list.
pub open spec fn place_of(s: Seq<OutgoingView>, hash: Seq<u8>) -> nat
    decreases s.len(),
{
    if s.len() == 0 || s[0].hash == hash {
        0
    } else {
        1 + place_of(s.drop_first(), hash)
    }
}

/// A file of ours is offered on its own.
pub open spec fn after_offer(c: ConvView, path: Seq<char>, route: Route, o: OfferView) -> (
    ConvView,
    Seq<ActView>,
) {
    if place_of(c.offered, o.hash) < c.offered.len() {
        (
            c,
            seq![failure("that file is already offered and waiting for an answer"@)],
        )
    } else {
        let first = system(
            "-- offered "@ + quoted_text(o.name) + " ("@ + human_text(o.size)
                + "); waiting for them to accept --"@,
        );
        let warned = system(
            "   asked for a direct link — they decide, and it shows them your IP"@,
        );
        let sent = ActView::Send(
            MessageView::FileOffer {
                name: o.name,
                size: o.size,
                hash: o.hash,
                direct: route == Route::Direct,
            },
        );
        (
            ConvView {
                offered: c.offered.push(
                    OutgoingView { hash: o.hash, path, name: o.name, size: o.size, route },
                ),
                ..c
            },
            if route == Route::Direct {
                seq![first, warned, sent]
            } else {
                seq![first, sent]
            },
        )
    }
}

/// A file's chip in a line of text, set off by a space from what stands before it.
pub open spec fn with_chip(line: Seq<char>, name: Seq<char>) -> Seq<char> {
    (if line.len() > 0 && line.last() != ' ' {
        line + " "@
    } else {
        line
    }) + "["@ + name + "]"@
}

/// A message of ours as one line.
pub open spec fn parts_line(parts: Seq<PostPartView>) -> Seq<char>
    decreases parts.len(),
{
    if parts.len() == 0 {
        Seq::empty()
    } else {
        let before = parts_line(parts.drop_last());
        match parts.last() {
            PostPartView::Text(t) => before + t,
            PostPartView::File(_, o) => with_chip(before, o.name),
        }
    }
}

/// A message of ours as it travels.
pub open spec fn parts_pieces(parts: Seq<PostPartView>) -> Seq<PieceView> {
    parts.map_values(
        |p: PostPartView|
            match p {
                PostPartView::Text(t) => PieceView::Text(t),
                PostPartView::File(_, o) => PieceView::File(
                    FileView { name: o.name, size: o.size, hash: o.hash },
                ),
            },
    )
}

/// The files in a message of ours.
pub open spec fn parts_files(parts: Seq<PostPartView>, route: Route) -> Seq<OutgoingView>
    decreases parts.len(),
{
    if parts.len() == 0 {
        Seq::empty()
    } else {
        let before = parts_files(parts.drop_last(), route);
        match parts.last() {
            PostPartView::Text(_) => before,
            PostPartView::File(path, o) => before.push(
                OutgoingView { hash: o.hash, path, name: o.name, size: o.size, route },
            ),
        }
    }
}

/// A message of ours goes out, with the files that were put inside it.
pub open spec fn after_post(c: ConvView, parts: Seq<PostPartView>, direct: bool) -> (
    ConvView,
    Seq<ActView>,
) {
    if parts.len() == 0 {
        (c, Seq::empty())
    } else {
        let fresh = parts_files(
            parts,
            if direct {
                Route::Direct
            } else {
                Route::Tor
            },
        );
        let line = ActView::Say(Kind::Mine, "you> "@ + trim(parts_line(parts)));
        let sent = ActView::Send(MessageView::Post { pieces: parts_pieces(parts), direct });
        (
            ConvView { offered: c.offered + fresh, ..c },
            if fresh.len() > 0 {
                seq![
                    line,
                    system(
                        "-- offered "@ + decimal_text(fresh.len())
                            + " file(s); waiting for them to accept --"@,
                    ),
                    sent,
                ]
            } else {
                seq![line, sent]
            },
        )
    }
}

/// A protocol fault: it is said, and the conversation is over.
pub open spec fn fault(c: ConvView, text: Seq<char>) -> (ConvView, Seq<ActView>, Option<Ended>) {
    (c, seq![failure(text)], Some(Ended::PeerHungUp))
}

/// What is on disk of the `i`-th file.
pub open spec fn partial_at(partials: Seq<Option<u64>>, i: int) -> Option<u64> {
    if 0 <= i < partials.len() {
        partials[i]
    } else {
        None
    }
}

/// What the operator sees of the `n`-th offer.
pub open spec fn offer_lines(n: nat, o: OfferView, direct: bool, partial: Option<u64>) -> Seq<
    ActView,
> {
    let here = resumable(partial, o.size);
    let resume = if here == 0 {
        Seq::empty()
    } else {
        " — "@ + human_text(here) + " already here, /accept resumes"@
    };
    let first = system(
        "   ["@ + decimal_text(n) + "] "@ + quoted_text(o.name) + " ("@ + human_text(o.size) + ")"@
            + resume,
    );
    if direct {
        seq![first, system("       asked to go outside Tor — faster, shows them your IP"@)]
    } else {
        seq![first]
    }
}

/// An offered file is queued, if it is one we would take.
pub open spec fn took_offer(
    c: ConvView,
    f: FileView,
    direct: bool,
    peer: Seq<char>,
    partial: Option<u64>,
) -> (ConvView, Seq<ActView>, Option<Ended>) {
    match name_fault(kept_name(f.name)) {
        Some(e) => fault(c, e.said(f.name)),
        None => if !takeable(f.size) {
            fault(
                c,
                peer + " offered a file of "@ + decimal_text(f.size as nat)
                    + " bytes, which is not a size we take"@,
            )
        } else {
            let o = OfferView { name: kept_name(f.name), size: f.size, hash: f.hash };
            (
                ConvView { pending: c.pending.push(OfferedView { offer: o, direct }), ..c },
                offer_lines(c.pending.len() + 1, o, direct, partial),
                None,
            )
        },
    }
}

/// Several offered files are queued in turn, up to the first that is refused.
pub open spec fn took_offers(
    c: ConvView,
    files: Seq<FileView>,
    direct: bool,
    peer: Seq<char>,
    partials: Seq<Option<u64>>,
) -> (ConvView, Seq<ActView>, Option<Ended>)
    decreases files.len(),
{
    if files.len() == 0 {
        (c, Seq::empty(), None)
    } else {
        let (d, a, e) = took_offers(c, files.drop_last(), direct, peer, partials);
        if e is Some {
            (d, a, e)
        } else {
            let (d2, a2, e2) = took_offer(
                d,
                files.last(),
                direct,
                peer,
                partial_at(partials, files.len() - 1),
            );
            (d2, a + a2, e2)
        }
    }
}

/// A peer's message as one line, its files as chips.
pub open spec fn pieces_line(pieces: Seq<PieceView>) -> Seq<char>
    decreases pieces.len(),
{
    if pieces.len() == 0 {
        Seq::empty()
    } else {
        let before = pieces_line(pieces.drop_last());
        match pieces.last() {
            PieceView::Text(t) => before + shown_text(t),
            PieceView::File(f) => with_chip(before, kept_name(f.name)),
        }
    }
}

/// The files in a peer's message, under the names they may keep.
pub open spec fn pieces_files(pieces: Seq<PieceView>) -> Seq<FileView>
    decreases pieces.len(),
{
    if pieces.len() == 0 {
        Seq::empty()
    } else {
        let before = pieces_files(pieces.drop_last());
        match pieces.last() {
            PieceView::Text(_) => before,
            PieceView::File(f) => before.push(
                FileView { name: kept_name(f.name), size: f.size, hash: f.hash },
            ),
        }
    }
}

/// The first filename in a peer's message that is refused, and what is said of it.
pub open spec fn pieces_fault(pieces: Seq<PieceView>) -> Option<Seq<char>>
    decreases pieces.len(),
{
    if pieces.len() == 0 {
        None
    } else {
        match pieces_fault(pieces.drop_last()) {
            Some(t) => Some(t),
            None => match pieces.last() {
                PieceView::Text(_) => None,
                PieceView::File(f) => match name_fault(kept_name(f.name)) {
                    Some(e) => Some(e.said(f.name)),
                    None => None,
                },
            },
        }
    }
}

/// How the operator is told to answer.
pub open spec fn answer_hint(n: nat) -> Seq<char> {
    if n == 1 {
        "   /accept to take it, /refuse to decline"@
    } else {
        "   /accept to take them one by one, /refuse to decline — or /accept 2 for a particular one"@
    }
}

/// A peer's message with its files.
pub open spec fn after_pieces(
    c: ConvView,
    pieces: Seq<PieceView>,
    direct: bool,
    peer: Seq<char>,
    partials: Seq<Option<u64>>,
) -> (ConvView, Seq<ActView>, Option<Ended>) {
    match pieces_fault(pieces) {
        Some(text) => fault(c, text),
        None => {
            let line = ActView::Say(Kind::Theirs, peer + "> "@ + trim(pieces_line(pieces)));
            let (d, a, e) = took_offers(c, pieces_files(pieces), direct, peer, partials);
            let all = seq![line] + a;
            if e is None && d.pending.len() > 0 {
                (d, all.push(system(answer_hint(d.pending.len()))), None)
            } else {
                (d, all, e)
            }
        },
    }
}

/// What is said when chunks begin to flow.
pub open spec fn sending_line(name: Seq<char>, offset: u64) -> ActView {
    if offset == 0 {
        system("-- sending "@ + quoted_text(name) + " --"@)
    } else {
        system("-- resuming "@ + quoted_text(name) + " from "@ + human_text(offset) + " --"@)
    }
}

/// A file of ours is wanted, from this byte on.
pub open spec fn after_accept(
    c: ConvView,
    hash: Seq<u8>,
    offset: u64,
    direct: Option<DirectView>,
    peer: Seq<char>,
) -> (ConvView, Seq<ActView>, Option<Ended>) {
    let i = place_of(c.offered, hash) as int;
    if i >= c.offered.len() {
        fault(c, peer + " accepted a file we never offered"@)
    } else if c.sending is Some {
        fault(c, peer + " accepted a second file while one is still going"@)
    } else {
        let out = c.offered[i];
        let d = ConvView { offered: c.offered.remove(i), ..c };
        let s = SendingView {
            name: out.name,
            path: out.path,
            accepted: direct is None,
            start: offset,
            sent: if direct is None {
                offset
            } else {
                0
            },
            size: out.size,
            next_report: if direct is None {
                (offset + PROGRESS_EVERY) as u64
            } else {
                PROGRESS_EVERY
            },
            route: out.route,
        };
        if offset > out.size {
            fault(d, peer + " asked to resume past the end of the file"@)
        } else {
            match direct {
                None => (
                    ConvView { sending: Some(s), ..d },
                    seq![ActView::OpenSource(out.path, offset), sending_line(out.name, offset)],
                    None,
                ),
                Some(link) => if out.route != Route::Direct {
                    fault(d, peer + " answered with a direct link we never asked for"@)
                } else {
                    (
                        ConvView { sending: Some(s), ..d },
                        seq![
                            ActView::OpenSource(out.path, offset),
                            system("-- "@ + peer + " agreed to a direct link; connecting --"@),
                            ActView::Dial(link),
                        ],
                        None,
                    )
                },
            }
        }
    }
}

/// A file of ours is not wanted.
pub open spec fn after_reject(c: ConvView, hash: Seq<u8>, peer: Seq<char>) -> (
    ConvView,
    Seq<ActView>,
) {
    let i = place_of(c.offered, hash) as int;
    if i < c.offered.len() {
        (
            ConvView { offered: c.offered.remove(i), ..c },
            seq![
                system("-- "@ + peer + " declined "@ + quoted_text(c.offered[i].name) + " --"@),
            ],
        )
    } else {
        match c.sending {
            Some(s) => (
                ConvView { sending: None, ..c },
                seq![system("-- "@ + peer + " declined "@ + quoted_text(s.name) + " --"@)],
            ),
            None => (c, seq![system("-- "@ + peer + " declined a file --"@)]),
        }
    }
}

/// The peer could not reach us outside Tor. What we were going to receive there comes as
/// chunks instead, from its first byte.
pub open spec fn after_direct_failed(c: ConvView, peer: Seq<char>) -> (ConvView, Seq<ActView>) {
    let line = system("-- "@ + peer + " could not reach us directly; using Tor --"@);
    match c.pulling {
        Some(o) => (
            ConvView {
                pulling: None,
                receiving: Some(
                    ReceivingView { offer: o, written: 0, next_report: PROGRESS_EVERY },
                ),
                ..c
            },
            seq![ActView::StopDirect, ActView::OpenPartial(o.hash, 0), line],
        ),
        None => if c.pushing is Some {
            (ConvView { pushing: None, ..c }, seq![ActView::StopDirect, line])
        } else {
            (c, seq![line])
        },
    }
}

/// How far a transfer has come.
pub open spec fn progress_line(done: u64, size: u64) -> ActView {
    system("   "@ + human_text(done) + " of "@ + human_text(size))
}

/// File data arrives.
pub open spec fn after_chunk(c: ConvView, data: Seq<u8>, peer: Seq<char>) -> (
    ConvView,
    Seq<ActView>,
    Option<Ended>,
) {
    match c.receiving {
        None => fault(c, peer + " sent file data we did not accept"@),
        Some(r) => if data.len() > r.offer.size - r.written {
            fault(c, peer + " sent more data than the "@ + human_text(r.offer.size) + " offered"@)
        } else {
            let written = (r.written + data.len()) as u64;
            if written >= r.next_report {
                (
                    ConvView {
                        receiving: Some(
                            ReceivingView {
                                written,
                                next_report: (written + PROGRESS_EVERY) as u64,
                                ..r
                            },
                        ),
                        ..c
                    },
                    seq![ActView::WritePartial(data), progress_line(written, r.offer.size)],
                    None,
                )
            } else {
                (
                    ConvView { receiving: Some(ReceivingView { written, ..r }), ..c },
                    seq![ActView::WritePartial(data)],
                    None,
                )
            }
        },
    }
}

/// A transfer's data is complete: verify it before it is kept.
pub open spec fn after_done(c: ConvView, peer: Seq<char>) -> (
    ConvView,
    Seq<ActView>,
    Option<Ended>,
) {
    match c.receiving {
        None => fault(c, peer + " ended a transfer that was not running"@),
        Some(r) => (
            ConvView { receiving: None, ..c },
            seq![ActView::Finish(r.offer)],
            None,
        ),
    }
}

/// One frame from the peer.
pub open spec fn after_frame(
    c: ConvView,
    m: MessageView,
    peer: Seq<char>,
    partials: Seq<Option<u64>>,
) -> (ConvView, Seq<ActView>, Option<Ended>) {
    match m {
        MessageView::Text(body) => (
            c,
            seq![ActView::Say(Kind::Theirs, peer + "> "@ + shown_text(body))],
            None,
        ),
        MessageView::FileOffer { name, size, hash, direct } => {
            let line = system("-- "@ + peer + " offers a file --"@);
            let (d, a, e) = took_offer(
                c,
                FileView { name, size, hash },
                direct,
                peer,
                partial_at(partials, 0),
            );
            (d, seq![line] + a, e)
        },
        MessageView::Post { pieces, direct } => after_pieces(c, pieces, direct, peer, partials),
        MessageView::FileAccept { hash, offset, direct } => after_accept(
            c,
            hash,
            offset,
            direct,
            peer,
        ),
        MessageView::FileReject { hash } => {
            let (d, a) = after_reject(c, hash, peer);
            (d, a, None)
        },
        MessageView::DirectFailed => {
            let (d, a) = after_direct_failed(c, peer);
            (d, a, None)
        },
        MessageView::FileChunk(data) => after_chunk(c, data, peer),
        MessageView::FileDone => after_done(c, peer),
        MessageView::CallDecline => (c, Seq::empty(), Some(Ended::Declined)),
        MessageView::Ping => (c, Seq::empty(), None),
        MessageView::PresenceAsk
        | MessageView::PresenceYes
        | MessageView::PresenceNo
        | MessageView::Left { .. }
        | MessageView::Got(_) => (c, seq![ActView::Aside(m)], None),
    }
}

/// What came of reaching the peer outside Tor. Where it failed, the file goes over Tor.
pub open spec fn after_dial(c: ConvView, failed: Option<Seq<char>>) -> (ConvView, Seq<ActView>) {
    match c.sending {
        None => (c, Seq::empty()),
        Some(s) => match failed {
            None => (
                ConvView { sending: None, pushing: Some(s.name), ..c },
                seq![ActView::Push(s.path, s.start)],
            ),
            Some(why) => (
                ConvView {
                    sending: Some(
                        SendingView {
                            accepted: true,
                            sent: s.start,
                            next_report: (s.start + PROGRESS_EVERY) as u64,
                            ..s
                        },
                    ),
                    ..c
                },
                seq![
                    system("-- could not reach them directly ("@ + why + "); using Tor --"@),
                    ActView::Send(MessageView::DirectFailed),
                    sending_line(s.name, s.start),
                ],
            ),
        },
    }
}

/// What is said of a direct transfer that failed.
pub open spec fn direct_failure(why: Seq<char>) -> Seq<ActView> {
    seq![
        failure("-- the direct link failed: "@ + why + " --"@),
        system("   the part already received is kept; offer it again to resume over Tor"@),
    ]
}

/// A file of ours has gone out over a direct link, or has not.
pub open spec fn after_push(c: ConvView, failed: Option<Seq<char>>) -> (ConvView, Seq<ActView>) {
    match c.pushing {
        None => (c, Seq::empty()),
        Some(name) => {
            let d = ConvView { pushing: None, ..c };
            let (e, a) = next_taken(d);
            (
                e,
                (match failed {
                    None => seq![system("-- sent "@ + name + " directly --"@)],
                    Some(why) => direct_failure(why),
                }) + a,
            )
        },
    }
}

/// A file has come in over a direct link, or has not. It is verified like any other.
pub open spec fn after_pull(c: ConvView, failed: Option<Seq<char>>) -> (ConvView, Seq<ActView>) {
    match c.pulling {
        None => (c, Seq::empty()),
        Some(offer) => {
            let d = ConvView { pulling: None, ..c };
            match failed {
                None => (d, seq![ActView::Finish(offer)]),
                Some(why) => {
                    let (e, a) = next_taken(d);
                    (e, direct_failure(why) + a)
                },
            }
        },
    }
}

/// A complete file was verified: it has its name, or it was put aside. The next one follows,
/// where all are to be taken.
pub open spec fn after_landing(c: ConvView, landed: Result<Seq<char>, Seq<char>>) -> (
    ConvView,
    Seq<ActView>,
) {
    let (d, a) = next_taken(c);
    (
        d,
        seq![
            match landed {
                Ok(path) => system("-- received "@ + path + " --"@),
                Err(why) => failure(why),
            },
        ] + a,
    )
}

/// There is no place on disk for a file that was taken.
pub open spec fn after_no_place(c: ConvView, why: Seq<char>) -> (ConvView, Seq<ActView>) {
    let (d, a) = next_taken(ConvView { receiving: None, ..c });
    (d, seq![failure(why)] + a)
}

/// The peer's stream ended. A direct transfer runs on its own, so it is waited for.
pub open spec fn after_reader(c: ConvView) -> (ConvView, Option<Ended>) {
    if c.pushing is Some || c.pulling is Some {
        (
            ConvView {
                peer_gone: true,
                leaving: match c.leaving {
                    Some(how) => Some(how),
                    None => Some(Ended::PeerHungUp),
                },
                ..c
            },
            None,
        )
    } else {
        (c, Some(Ended::PeerHungUp))
    }
}

/// What to do with room on the wire.
#[derive(Clone, Copy, Debug, PartialEq, Eq, Structural)]
pub enum Pump {
    /// Nothing goes out, or not yet.
    Nothing,
    /// Read this many bytes of the file, or as many as there are, then call
    /// [`Conversation::pumped`].
    Read(usize),
    /// The last byte has gone: call [`Conversation::sent_all`].
    Done,
}

/// What a transfer has to do next.
pub open spec fn pump_want(c: ConvView) -> Pump {
    match c.sending {
        None => Pump::Nothing,
        Some(s) => if !s.accepted {
            Pump::Nothing
        } else if s.sent >= s.size {
            Pump::Done
        } else if s.size - s.sent < MAX_CHUNK {
            Pump::Read((s.size - s.sent) as usize)
        } else {
            Pump::Read(MAX_CHUNK)
        },
    }
}

/// The next bytes of a file were read: they go out. None at all means that it shrank.
pub open spec fn after_read(c: ConvView, data: Seq<u8>) -> (ConvView, Seq<ActView>) {
    match c.sending {
        None => (c, Seq::empty()),
        Some(s) => if data.len() == 0 {
            (
                ConvView { sending: None, ..c },
                seq![failure(quoted_text(s.name) + " ended sooner than its size said"@)],
            )
        } else {
            let sent = (s.sent + data.len()) as u64;
            let chunk = ActView::Send(MessageView::FileChunk(data));
            if sent >= s.next_report {
                (
                    ConvView {
                        sending: Some(
                            SendingView {
                                sent,
                                next_report: (sent + PROGRESS_EVERY) as u64,
                                ..s
                            },
                        ),
                        ..c
                    },
                    seq![progress_line(sent, s.size), chunk],
                )
            } else {
                (ConvView { sending: Some(SendingView { sent, ..s }), ..c }, seq![chunk])
            }
        },
    }
}

/// The last byte of a file has gone.
pub open spec fn after_all_sent(c: ConvView) -> (ConvView, Seq<ActView>) {
    match c.sending {
        None => (c, Seq::empty()),
        Some(s) => (
            ConvView { sending: None, ..c },
            seq![system("-- sent "@ + s.name + " --"@), ActView::Send(MessageView::FileDone)],
        ),
    }
}

/// A conversation that was to end with its transfer, and has none left.
pub open spec fn settled_end(c: ConvView) -> Option<Ended> {
    if !busy(c) {
        c.leaving
    } else {
        None
    }
}

/// What is said of a file that was still coming in when the conversation ended.
pub open spec fn interrupted(c: ConvView) -> Option<Seq<char>> {
    match c.receiving {
        None => None,
        Some(r) => Some(
            "-- "@ + quoted_text(r.offer.name) + " interrupted at "@ + human_text(r.written)
                + " of "@ + human_text(r.offer.size) + "; offer it again to resume --"@,
        ),
    }
}

/// A line of program chatter.
fn say_system(text: String) -> (r: Act)
    ensures
        r@ == system(text@),
{
    Act::Say(Kind::System, text)
}

/// A line about a failure.
fn say_failure(text: String) -> (r: Act)
    ensures
        r@ == failure(text@),
{
    Act::Say(Kind::Error, text)
}

/// One act, as a list.
fn only(a: Act) -> (r: Vec<Act>)
    ensures
        acts(r@) == seq![a@],
{
    let mut v: Vec<Act> = Vec::new();
    v.push(a);
    assert(acts(v@) =~= seq![a@]);
    v
}

/// Two texts, one after the other.
fn cat(a: &str, b: &str) -> (r: String)
    ensures
        r@ == a@ + b@,
{
    let mut s = a.to_owned();
    s.append(b);
    s
}

/// Three texts, one after the other.
fn cat3(a: &str, b: &str, c: &str) -> (r: String)
    ensures
        r@ == a@ + b@ + c@,
{
    let mut s = a.to_owned();
    s.append(b);
    s.append(c);
    s
}

/// Append a file's chip to a line.
fn add_chip(line: &mut String, name: &str)
    ensures
        final(line)@ == with_chip(old(line)@, name@),
{
    let cs = chars(line.as_str());
    if cs.len() > 0 && cs[cs.len() - 1] != ' ' {
        line.append(" ");
    }
    line.append("[");
    line.append(name);
    line.append("]");
}

/// What is said when chunks begin to flow.
fn say_sending(name: &str, offset: u64) -> (r: Act)
    ensures
        r@ == sending_line(name@, offset),
{
    if offset == 0 {
        say_system(cat3("-- sending ", quoted(name).as_str(), " --"))
    } else {
        let mut s = cat3("-- resuming ", quoted(name).as_str(), " from ");
        s.append(human(offset).as_str());
        s.append(" --");
        say_system(s)
    }
}

/// How far a transfer has come.
fn say_progress(done: u64, size: u64) -> (r: Act)
    ensures
        r@ == progress_line(done, size),
{
    let mut s = cat3("   ", human(done).as_str(), " of ");
    s.append(human(size).as_str());
    say_system(s)
}

/// What the operator sees of the `n`-th offer.
fn say_offer(n: u128, o: &Offer, direct: bool, partial: Option<u64>) -> (r: Vec<Act>)
    ensures
        acts(r@) == offer_lines(n as nat, o@, direct, partial),
{
    let mut s = cat3("   [", decimal(n).as_str(), "] ");
    s.append(quoted(o.name.as_str()).as_str());
    s.append(" (");
    s.append(human(o.size).as_str());
    s.append(")");
    let here = resume_offset(partial, o.size);
    let ghost before = s@;
    if here != 0 {
        let tail = cat3(" — ", human(here).as_str(), " already here, /accept resumes");
        s.append(tail.as_str());
    } else {
        assert(before + Seq::<char>::empty() =~= before);
    }
    let mut v: Vec<Act> = Vec::new();
    v.push(say_system(s));
    if direct {
        v.push(
            say_system(
                "       asked to go outside Tor — faster, shows them your IP".to_owned(),
            ),
        );
    }
    assert(acts(v@) =~= offer_lines(n as nat, o@, direct, partial));
    v
}

/// Where the file of this digest stands first among our offers.
fn find_offered(s: &Vec<Outgoing>, hash: &[u8; 32]) -> (r: usize)
    ensures
        r == place_of(outgoing_views(s@), hash@),
        r <= s@.len(),
{
    let ghost views = outgoing_views(s@);
    let mut i: usize = 0;
    assert(views.skip(0) =~= views);
    while i < s.len()
        invariant
            i <= s@.len(),
            views == outgoing_views(s@),
            place_of(views, hash@) == i + place_of(views.skip(i as int), hash@),
        decreases s@.len() - i,
    {
        let ghost t = views.skip(i as int);
        proof {
            assert(t[0] == s@[i as int]@);
            assert(t.drop_first() =~= views.skip(i + 1));
        }
        if equal(&s[i].hash, hash) {
            return i;
        }
        i = i + 1;
    }
    i
}

/// Append one list of acts to another.
fn extend(v: &mut Vec<Act>, mut more: Vec<Act>)
    ensures
        acts(final(v)@) == acts(old(v)@) + acts(more@),
{
    let ghost added = more@;
    v.append(&mut more);
    assert(acts(v@) =~= acts(old(v)@) + acts(added));
}

impl Conversation {
    /// A conversation in which nothing has happened yet.
    pub fn new() -> (r: Conversation)
        ensures
            r@ == (ConvView {
                sending: None,
                receiving: None,
                pending: Seq::empty(),
                offered: Seq::empty(),
                leaving: None,
                keyboard_open: true,
                peer_gone: false,
                pushing: None,
                pulling: None,
                taking_all: false,
            }),
            sound(r@),
    {
        let r = Conversation {
            sending: None,
            receiving: None,
            pending: Vec::new(),
            offered: Vec::new(),
            leaving: None,
            keyboard_open: true,
            peer_gone: false,
            pushing: None,
            pulling: None,
            taking_all: false,
        };
        assert(offered_views(r.pending@) =~= Seq::empty());
        assert(outgoing_views(r.offered@) =~= Seq::empty());
        r
    }

    /// Is there file business we should not walk out on? An unanswered offer counts.
    pub fn busy(&self) -> (r: bool)
        ensures
            r == busy(self@),
    {
        self.sending.is_some() || self.receiving.is_some() || self.pushing.is_some()
            || self.pulling.is_some() || (self.offered.len() > 0 && !self.peer_gone)
    }

    fn occupied(&self) -> (r: bool)
        ensures
            r == occupied(self@),
    {
        self.receiving.is_some() || self.pushing.is_some() || self.pulling.is_some()
    }

    /// Take one offer out of the queue.
    fn pick(&mut self, which: Option<usize>) -> (r: Result<Offered, TakeError>)
        ensures
            match r {
                Ok(o) => {
                    let i = picked(old(self)@.pending.len(), which)->Ok_0;
                    &&& picked(old(self)@.pending.len(), which) is Ok
                    &&& 0 <= i < old(self)@.pending.len()
                    &&& o@ == old(self)@.pending[i]
                    &&& final(self)@ == (ConvView {
                        pending: old(self)@.pending.remove(i),
                        ..old(self)@
                    })
                },
                Err(e) => {
                    &&& picked(old(self)@.pending.len(), which) == Err::<int, TakeError>(e)
                    &&& final(self)@ == old(self)@
                },
            },
    {
        let ghost before = self.pending@;
        let r = take_pending(&mut self.pending, which);
        proof {
            if r is Ok {
                let i = picked(before.len(), which)->Ok_0;
                assert(offered_views(before.remove(i)) =~= offered_views(before).remove(i));
            }
        }
        r
    }

    /// The operator asks for a file.
    fn begin(&mut self, which: Option<usize>) -> (r: Vec<Act>)
        requires
            sound(old(self)@),
        ensures
            (final(self)@, acts(r@)) == began(old(self)@, which),
            sound(final(self)@),
    {
        if self.occupied() {
            return only(
                say_failure(
                    "one file at a time — this one waits until the current transfer ends".to_owned(),
                ),
            );
        }
        match self.pick(which) {
            Err(e) => only(say_failure(e.describe())),
            Ok(o) => {
                proof {
                    let i = picked(old(self)@.pending.len(), which)->Ok_0;
                    removing_keeps_sound(old(self)@, i);
                }
                only(Act::Take(o))
            },
        }
    }

    /// Take the next file, where all are to be taken.
    fn next(&mut self) -> (r: Vec<Act>)
        requires
            sound(old(self)@),
        ensures
            (final(self)@, acts(r@)) == next_taken(old(self)@),
            sound(final(self)@),
    {
        if !self.taking_all || self.occupied() {
            let v: Vec<Act> = Vec::new();
            assert(acts(v@) =~= Seq::empty());
            v
        } else if self.pending.len() == 0 {
            self.taking_all = false;
            let v: Vec<Act> = Vec::new();
            assert(acts(v@) =~= Seq::empty());
            v
        } else {
            self.begin(None)
        }
    }

    /// A line was typed.
    pub fn typed(&mut self, line: &str, home: Option<&str>) -> (r: (Vec<Act>, Option<Ended>))
        requires
            sound(old(self)@),
        ensures
            (final(self)@, acts(r.0@), r.1) == after_typed(
                old(self)@,
                classified(
                    line@,
                    match home {
                        Some(h) => Some(h@),
                        None => None,
                    },
                ),
            ),
            sound(final(self)@),
    {
        let none: Vec<Act> = Vec::new();
        assert(acts(none@) =~= Seq::empty());
        match classify(line, home) {
            Typed::Nothing => (none, None),
            Typed::HangUp(how) => {
                if !self.busy() || self.leaving.is_some() {
                    return (none, Some(how));
                }
                self.leaving = Some(how);
                (
                    only(
                        say_system(
                            "-- hanging up when the file is done; type it again to leave now --".to_owned(),
                        ),
                    ),
                    None,
                )
            },
            Typed::UnknownCommand(verb) => (
                only(
                    say_failure(
                        cat(
                            verb.as_str(),
                            " is not available during a call — /bye first. (start a line with // to send a literal slash)",
                        ),
                    ),
                ),
                None,
            ),
            Typed::Send(path, route) => (only(Act::Describe(path, route)), None),
            Typed::Accept(which) => (self.begin(which), None),
            Typed::AcceptAll => {
                if self.pending.len() == 0 {
                    return (only(say_failure(TakeError::Nothing.describe())), None);
                }
                self.taking_all = true;
                (self.next(), None)
            },
            Typed::Refuse(which) => match self.pick(which) {
                Err(e) => (only(say_failure(e.describe())), None),
                Ok(o) => {
                    let ghost i = picked(old(self)@.pending.len(), which)->Ok_0;
                    proof {
                        removing_keeps_sound(old(self)@, i);
                    }
                    let mut v = only(
                        say_system(cat("refused ", quoted(o.offer.name.as_str()).as_str())),
                    );
                    let m = Act::Send(Message::FileReject { hash: o.offer.hash });
                    extend(&mut v, only(m));
                    assert(acts(v@) =~= after_typed(old(self)@, TypedView::Refuse(which)).1);
                    (v, None)
                },
            },
            Typed::Message(text) => {
                let n: usize = text.as_str().as_bytes().len();
                if n > MAX_TEXT {
                    return (
                        only(
                            say_failure(
                                cat3(
                                    "line dropped: ",
                                    decimal(n as u128).as_str(),
                                    " bytes, the limit is 32768",
                                ),
                            ),
                        ),
                        None,
                    );
                }
                let mut v = only(Act::Say(Kind::Mine, cat("you> ", text.as_str())));
                extend(&mut v, only(Act::Send(Message::Text(text))));
                assert(acts(v@) =~= after_typed(old(self)@, TypedView::Message(text@)).1);
                (v, None)
            },
        }
    }

    /// The keyboard is gone for good.
    pub fn keyboard_closed(&mut self) -> (r: Option<Ended>)
        requires
            sound(old(self)@),
        ensures
            (final(self)@, r) == after_keyboard_closed(old(self)@),
            sound(final(self)@),
    {
        let b = self.busy();
        self.keyboard_open = false;
        if !b {
            return Some(Ended::InputClosed);
        }
        self.leaving = Some(Ended::InputClosed);
        None
    }

    /// A chosen offer is answered. `partial` is how long its partial file is, where there is
    /// one; `listening` what came of listening, where [`wants_listener`] said to.
    pub fn taken(&mut self, o: Offered, partial: Option<u64>, listening: Listening) -> (r: Vec<
        Act,
    >)
        requires
            sound(old(self)@),
            takeable(o.offer.size),
            !occupied(old(self)@),
        ensures
            (final(self)@, acts(r@)) == after_taken(old(self)@, o@, partial, listening@),
            sound(final(self)@),
    {
        let offset = resume_offset(partial, o.offer.size);
        let hash = o.offer.hash;
        let mut v: Vec<Act> = Vec::new();
        let ghost end = after_taken(old(self)@, o@, partial, listening@);
        if o.direct {
            if offset > 0 {
                v.push(say_system("-- resuming, so this one goes over Tor --".to_owned()));
            } else {
                match listening {
                    Listening::Open(d) => {
                        v.push(
                            say_system(
                                cat3(
                                    "-- taking ",
                                    quoted(o.offer.name.as_str()).as_str(),
                                    " over a direct link --",
                                ),
                            ),
                        );
                        v.push(Act::Pull(o.offer.copy()));
                        v.push(
                            Act::Send(Message::FileAccept { hash, offset, direct: Some(d) }),
                        );
                        self.pulling = Some(o.offer);
                        assert(acts(v@) =~= end.1);
                        return v;
                    },
                    Listening::Failed(why) => {
                        v.push(
                            say_system(
                                cat3("-- no direct link (", why.as_str(), "); using Tor --"),
                            ),
                        );
                    },
                    Listening::NotTried => {},
                }
            }
        }
        v.push(Act::OpenPartial(hash, offset));
        v.push(
            say_system(cat3("-- taking ", quoted(o.offer.name.as_str()).as_str(), " --")),
        );
        v.push(Act::Send(Message::FileAccept { hash, offset, direct: None }));
        self.receiving = Some(
            Receiving { offer: o.offer, written: offset, next_report: offset + PROGRESS_EVERY },
        );
        assert(acts(v@) =~= end.1);
        v
    }

    /// There is no place on disk for the file that was just taken. The next one follows, where
    /// all are to be taken.
    pub fn partial_failed(&mut self, why: String) -> (r: Vec<Act>)
        requires
            sound(old(self)@),
        ensures
            (final(self)@, acts(r@)) == after_no_place(old(self)@, why@),
            sound(final(self)@),
    {
        self.receiving = None;
        assert(self@ =~= (ConvView { receiving: None, ..old(self)@ }));
        let mut v = only(say_failure(why));
        let more = self.next();
        extend(&mut v, more);
        v
    }

    /// A file of ours is offered on its own, once it has been described.
    pub fn offer(&mut self, path: String, route: Route, o: Offer) -> (r: Vec<Act>)
        requires
            sound(old(self)@),
            o.size <= MAX_FILE,
        ensures
            (final(self)@, acts(r@)) == after_offer(old(self)@, path@, route, o@),
            sound(final(self)@),
    {
        let ghost end = after_offer(old(self)@, path@, route, o@);
        if find_offered(&self.offered, &o.hash) < self.offered.len() {
            return only(
                say_failure("that file is already offered and waiting for an answer".to_owned()),
            );
        }
        let mut v: Vec<Act> = Vec::new();
        let mut s = cat3("-- offered ", quoted(o.name.as_str()).as_str(), " (");
        s.append(human(o.size).as_str());
        s.append("); waiting for them to accept --");
        v.push(say_system(s));
        let direct = match route {
            Route::Direct => true,
            Route::Tor => false,
        };
        if direct {
            v.push(
                say_system(
                    "   asked for a direct link — they decide, and it shows them your IP".to_owned(),
                ),
            );
        }
        v.push(
            Act::Send(
                Message::FileOffer { name: o.name.clone(), size: o.size, hash: o.hash, direct },
            ),
        );
        let out = Outgoing { hash: o.hash, path, name: o.name, size: o.size, route };
        proof {
            assert(outgoing_views(self.offered@.push(out)) =~= outgoing_views(self.offered@).push(
                out@,
            ));
        }
        self.offered.push(out);
        proof {
            assert(acts(v@) =~= end.1);
            assert(self@ =~= end.0);
            assert forall|i: int| 0 <= i < self@.offered.len() implies (
            #[trigger] self@.offered[i]).size <= MAX_FILE by {
                if i < old(self)@.offered.len() {
                    assert(old(self)@.offered[i].size <= MAX_FILE);
                }
            }
        }
        v
    }
}

/// Taking an offer out of the queue leaves what holds of every conversation.
proof fn removing_keeps_sound(c: ConvView, i: int)
    requires
        sound(c),
        0 <= i < c.pending.len(),
    ensures
        sound(ConvView { pending: c.pending.remove(i), ..c }),
{
    let s = c.pending.remove(i);
    assert forall|j: int| 0 <= j < s.len() implies takeable((#[trigger] s[j]).offer.size) by {
        if j < i {
            assert(s[j] == c.pending[j]);
        } else {
            assert(s[j] == c.pending[j + 1]);
        }
    }
}

/// Whether to listen for a direct link before answering an offer.
pub fn wants_listener(o: &Offered, partial: Option<u64>) -> (r: bool)
    ensures
        r == listens(o@, partial),
{
    o.direct && resume_offset(partial, o.offer.size) == 0
}

/// The size of every file in a message of ours is one that may be sent.
pub open spec fn parts_sized(parts: Seq<PostPartView>) -> bool {
    forall|i: int|
        0 <= i < parts.len() ==> match #[trigger] parts[i] {
            PostPartView::File(_, o) => o.size <= MAX_FILE,
            PostPartView::Text(_) => true,
        }
}

proof fn parts_files_sized(parts: Seq<PostPartView>, route: Route)
    requires
        parts_sized(parts),
    ensures
        forall|i: int|
            0 <= i < parts_files(parts, route).len() ==> (#[trigger] parts_files(
                parts,
                route,
            )[i]).size <= MAX_FILE,
    decreases parts.len(),
{
    if parts.len() > 0 {
        let init = parts.drop_last();
        assert(parts_sized(init)) by {
            assert forall|i: int| 0 <= i < init.len() implies match #[trigger] init[i] {
                PostPartView::File(_, o) => o.size <= MAX_FILE,
                PostPartView::Text(_) => true,
            } by {
                assert(init[i] == parts[i]);
            }
        }
        parts_files_sized(init, route);
        let before = parts_files(init, route);
        assert(parts[parts.len() - 1] == parts.last());
        assert forall|i: int| 0 <= i < parts_files(parts, route).len() implies (
        #[trigger] parts_files(parts, route)[i]).size <= MAX_FILE by {
            if i < before.len() {
                assert(before[i].size <= MAX_FILE);
            }
        }
    }
}

impl Conversation {
    /// A message of ours goes out, with the files that were put inside it.
    pub fn post(&mut self, parts: Vec<PostPart>, direct: bool) -> (r: Vec<Act>)
        requires
            sound(old(self)@),
            parts_sized(part_views(parts@)),
        ensures
            (final(self)@, acts(r@)) == after_post(old(self)@, part_views(parts@), direct),
            sound(final(self)@),
    {
        let mut v: Vec<Act> = Vec::new();
        if parts.len() == 0 {
            assert(acts(v@) =~= Seq::empty());
            return v;
        }
        let ghost views = part_views(parts@);
        let ghost end = after_post(old(self)@, views, direct);
        let route = if direct {
            Route::Direct
        } else {
            Route::Tor
        };
        let mut line = String::new();
        let mut pieces: Vec<Piece> = Vec::new();
        let mut fresh: Vec<Outgoing> = Vec::new();
        let mut i: usize = 0;
        proof {
            assert(piece_views(pieces@) =~= parts_pieces(views.take(0)));
            assert(outgoing_views(fresh@) =~= parts_files(views.take(0), route));
        }
        while i < parts.len()
            invariant
                i <= parts@.len(),
                views == part_views(parts@),
                line@ == parts_line(views.take(i as int)),
                piece_views(pieces@) == parts_pieces(views.take(i as int)),
                outgoing_views(fresh@) == parts_files(views.take(i as int), route),
            decreases parts@.len() - i,
        {
            let ghost now = views.take(i + 1);
            proof {
                assert(now.drop_last() =~= views.take(i as int));
                assert(now.last() == parts@[i as int]@);
            }
            let ghost p0 = pieces@;
            let ghost f0 = fresh@;
            match &parts[i] {
                PostPart::Text(t) => {
                    line.append(t.as_str());
                    pieces.push(Piece::Text(t.clone()));
                },
                PostPart::File(path, o) => {
                    add_chip(&mut line, o.name.as_str());
                    pieces.push(
                        Piece::File(FileRef { name: o.name.clone(), size: o.size, hash: o.hash }),
                    );
                    fresh.push(
                        Outgoing {
                            hash: o.hash,
                            path: path.clone(),
                            name: o.name.clone(),
                            size: o.size,
                            route,
                        },
                    );
                    assert(outgoing_views(fresh@) =~= outgoing_views(f0).push(fresh@.last()@));
                },
            }
            proof {
                assert(piece_views(pieces@) =~= piece_views(p0).push(pieces@.last()@));
                assert(piece_views(pieces@) =~= parts_pieces(now));
            }
            i = i + 1;
        }
        assert(views.take(i as int) =~= views);
        v.push(Act::Say(Kind::Mine, cat("you> ", trimmed(line.as_str()).as_str())));
        if fresh.len() > 0 {
            v.push(
                say_system(
                    cat3(
                        "-- offered ",
                        decimal(fresh.len() as u128).as_str(),
                        " file(s); waiting for them to accept --",
                    ),
                ),
            );
        }
        v.push(Act::Send(Message::Post { pieces, direct }));
        let ghost added = fresh@;
        self.offered.append(&mut fresh);
        proof {
            assert(self@.offered =~= old(self)@.offered + outgoing_views(added));
            assert(acts(v@) =~= end.1);
            assert(self@ =~= end.0);
            parts_files_sized(views, route);
            assert forall|k: int| 0 <= k < self@.offered.len() implies (
            #[trigger] self@.offered[k]).size <= MAX_FILE by {
                if k < old(self)@.offered.len() {
                    assert(old(self)@.offered[k].size <= MAX_FILE);
                } else {
                    assert(parts_files(views, route)[k - old(self)@.offered.len()].size
                        <= MAX_FILE);
                }
            }
        }
        v
    }

    /// Queue one offered file, if it is one we would take.
    fn take_offer(
        &mut self,
        f: FileRef,
        direct: bool,
        peer: &str,
        partial: Option<u64>,
    ) -> (r: (Vec<Act>, Option<Ended>))
        requires
            sound(old(self)@),
        ensures
            (final(self)@, acts(r.0@), r.1) == took_offer(old(self)@, f@, direct, peer@, partial),
            sound(final(self)@),
    {
        match safe_name(f.name.as_str()) {
            Err(e) => (
                only(say_failure(e.describe(f.name.as_str()))),
                Some(Ended::PeerHungUp),
            ),
            Ok(name) => {
                if f.size == 0 || f.size > MAX_FILE {
                    let mut s = cat3(
                        peer,
                        " offered a file of ",
                        decimal(f.size as u128).as_str(),
                    );
                    s.append(" bytes, which is not a size we take");
                    return (only(say_failure(s)), Some(Ended::PeerHungUp));
                }
                let offer = Offer { name, size: f.size, hash: f.hash };
                let n: usize = self.pending.len();
                let v = say_offer(n as u128 + 1, &offer, direct, partial);
                let o = Offered { offer, direct };
                proof {
                    assert(offered_views(self.pending@.push(o)) =~= offered_views(
                        self.pending@,
                    ).push(o@));
                }
                self.pending.push(o);
                proof {
                    assert(self@ =~= took_offer(old(self)@, f@, direct, peer@, partial).0);
                    assert forall|i: int| 0 <= i < self@.pending.len() implies takeable(
                        (#[trigger] self@.pending[i]).offer.size,
                    ) by {
                        if i < old(self)@.pending.len() {
                            assert(takeable(old(self)@.pending[i].offer.size));
                        }
                    }
                }
                (v, None)
            },
        }
    }
}

/// A protocol fault, as said.
fn broken(text: String) -> (r: (Vec<Act>, Option<Ended>))
    ensures
        acts(r.0@) == seq![failure(text@)],
        r.1 == Some(Ended::PeerHungUp),
{
    (only(say_failure(text)), Some(Ended::PeerHungUp))
}

/// What is on disk of the `i`-th file.
fn partial_of(partials: &[Option<u64>], i: usize) -> (r: Option<u64>)
    ensures
        r == partial_at(partials@, i as int),
{
    if i < partials.len() {
        partials[i]
    } else {
        None
    }
}

/// A peer's message as one line, and the files in it under the names they may keep; or what
/// is said of the first name that is refused.
fn read_pieces(pieces: &Vec<Piece>) -> (r: Result<(String, Vec<FileRef>), String>)
    ensures
        match r {
            Ok((line, files)) => {
                &&& pieces_fault(piece_views(pieces@)) is None
                &&& line@ == pieces_line(piece_views(pieces@))
                &&& file_views(files@) == pieces_files(piece_views(pieces@))
            },
            Err(text) => pieces_fault(piece_views(pieces@)) == Some(text@),
        },
{
    let ghost views = piece_views(pieces@);
    let mut line = String::new();
    let mut files: Vec<FileRef> = Vec::new();
    let mut i: usize = 0;
    assert(file_views(files@) =~= pieces_files(views.take(0)));
    while i < pieces.len()
        invariant
            i <= pieces@.len(),
            views == piece_views(pieces@),
            pieces_fault(views.take(i as int)) is None,
            line@ == pieces_line(views.take(i as int)),
            file_views(files@) == pieces_files(views.take(i as int)),
        decreases pieces@.len() - i,
    {
        let ghost now = views.take(i + 1);
        proof {
            assert(now.drop_last() =~= views.take(i as int));
            assert(now.last() == pieces@[i as int]@);
        }
        let ghost f0 = files@;
        match &pieces[i] {
            Piece::Text(t) => {
                line.append(sanitize_for_display(t.as_str()).as_str());
            },
            Piece::File(f) => {
                match safe_name(f.name.as_str()) {
                    Err(e) => {
                        proof {
                            first_fault_stays(views, i + 1);
                        }
                        return Err(e.describe(f.name.as_str()));
                    },
                    Ok(name) => {
                        add_chip(&mut line, name.as_str());
                        files.push(FileRef { name, size: f.size, hash: f.hash });
                        assert(file_views(files@) =~= file_views(f0).push(files@.last()@));
                    },
                }
            },
        }
        i = i + 1;
    }
    assert(views.take(i as int) =~= views);
    Ok((line, files))
}

/// Files on the wire by their values.
pub open spec fn file_views(s: Seq<FileRef>) -> Seq<FileView> {
    s.map_values(|f: FileRef| f@)
}

proof fn first_fault_stays(pieces: Seq<PieceView>, k: int)
    requires
        0 <= k <= pieces.len(),
        pieces_fault(pieces.take(k)) is Some,
    ensures
        pieces_fault(pieces) == pieces_fault(pieces.take(k)),
    decreases pieces.len(),
{
    if k < pieces.len() {
        assert(pieces.drop_last().take(k) =~= pieces.take(k));
        first_fault_stays(pieces.drop_last(), k);
    } else {
        assert(pieces.take(k) =~= pieces);
    }
}

proof fn first_refusal_stays(
    c: ConvView,
    files: Seq<FileView>,
    direct: bool,
    peer: Seq<char>,
    partials: Seq<Option<u64>>,
    k: int,
)
    requires
        0 <= k <= files.len(),
        took_offers(c, files.take(k), direct, peer, partials).2 is Some,
    ensures
        took_offers(c, files, direct, peer, partials) == took_offers(
            c,
            files.take(k),
            direct,
            peer,
            partials,
        ),
    decreases files.len(),
{
    if k < files.len() {
        assert(files.drop_last().take(k) =~= files.take(k));
        first_refusal_stays(c, files.drop_last(), direct, peer, partials, k);
    } else {
        assert(files.take(k) =~= files);
    }
}

impl Conversation {
    /// Queue several offered files in turn.
    fn take_offers(
        &mut self,
        files: &Vec<FileRef>,
        direct: bool,
        peer: &str,
        partials: &[Option<u64>],
    ) -> (r: (Vec<Act>, Option<Ended>))
        requires
            sound(old(self)@),
        ensures
            (final(self)@, acts(r.0@), r.1) == took_offers(
                old(self)@,
                file_views(files@),
                direct,
                peer@,
                partials@,
            ),
            sound(final(self)@),
    {
        let ghost views = file_views(files@);
        let mut v: Vec<Act> = Vec::new();
        let mut i: usize = 0;
        assert(acts(v@) =~= Seq::empty());
        while i < files.len()
            invariant
                i <= files@.len(),
                views == file_views(files@),
                sound(self@),
                (self@, acts(v@), None::<Ended>) == took_offers(
                    old(self)@,
                    views.take(i as int),
                    direct,
                    peer@,
                    partials@,
                ),
            decreases files@.len() - i,
        {
            let ghost now = views.take(i + 1);
            proof {
                assert(now.drop_last() =~= views.take(i as int));
                assert(now.last() == files@[i as int]@);
            }
            let f = FileRef {
                name: files[i].name.clone(),
                size: files[i].size,
                hash: files[i].hash,
            };
            let (more, end) = self.take_offer(f, direct, peer, partial_of(partials, i));
            extend(&mut v, more);
            if end.is_some() {
                proof {
                    first_refusal_stays(old(self)@, views, direct, peer@, partials@, i + 1);
                }
                return (v, end);
            }
            i = i + 1;
        }
        assert(views.take(i as int) =~= views);
        (v, None)
    }

    /// A peer's message with its files.
    fn handle_post(
        &mut self,
        pieces: &Vec<Piece>,
        direct: bool,
        peer: &str,
        partials: &[Option<u64>],
    ) -> (r: (Vec<Act>, Option<Ended>))
        requires
            sound(old(self)@),
        ensures
            (final(self)@, acts(r.0@), r.1) == after_pieces(
                old(self)@,
                piece_views(pieces@),
                direct,
                peer@,
                partials@,
            ),
            sound(final(self)@),
    {
        match read_pieces(pieces) {
            Err(text) => broken(text),
            Ok((line, files)) => {
                let mut v = only(
                    Act::Say(Kind::Theirs, cat3(peer, "> ", trimmed(line.as_str()).as_str())),
                );
                let (more, end) = self.take_offers(&files, direct, peer, partials);
                extend(&mut v, more);
                if end.is_none() && self.pending.len() > 0 {
                    let ghost before = v@;
                    v.push(
                        say_system(
                            if self.pending.len() == 1 {
                                "   /accept to take it, /refuse to decline".to_owned()
                            } else {
                                "   /accept to take them one by one, /refuse to decline — or /accept 2 for a particular one".to_owned()
                            },
                        ),
                    );
                    assert(acts(v@) =~= acts(before).push(v@.last()@));
                }
                (v, end)
            },
        }
    }

    /// A file of ours is wanted.
    fn handle_accept(
        &mut self,
        hash: [u8; 32],
        offset: u64,
        direct: Option<Direct>,
        peer: &str,
    ) -> (r: (Vec<Act>, Option<Ended>))
        requires
            sound(old(self)@),
        ensures
            (final(self)@, acts(r.0@), r.1) == after_accept(
                old(self)@,
                hash@,
                offset,
                match direct {
                    Some(d) => Some(d@),
                    None => None,
                },
                peer@,
            ),
            sound(final(self)@),
    {
        let i = find_offered(&self.offered, &hash);
        if i >= self.offered.len() {
            return broken(cat(peer, " accepted a file we never offered"));
        }
        if self.sending.is_some() {
            return broken(cat(peer, " accepted a second file while one is still going"));
        }
        let ghost before = self.offered@;
        let out = self.offered.remove(i);
        proof {
            assert(outgoing_views(before.remove(i as int)) =~= outgoing_views(before).remove(
                i as int,
            ));
            assert(before[i as int]@ == old(self)@.offered[i as int]);
            assert(old(self)@.offered[i as int].size <= MAX_FILE);
            assert forall|k: int| 0 <= k < self@.offered.len() implies (
            #[trigger] self@.offered[k]).size <= MAX_FILE by {
                if k < i {
                    assert(old(self)@.offered[k].size <= MAX_FILE);
                } else {
                    assert(old(self)@.offered[k + 1].size <= MAX_FILE);
                }
            }
        }
        if offset > out.size {
            return broken(cat(peer, " asked to resume past the end of the file"));
        }
        let mut v: Vec<Act> = Vec::new();
        match direct {
            None => {
                v.push(Act::OpenSource(out.path.clone(), offset));
                v.push(say_sending(out.name.as_str(), offset));
                self.sending = Some(
                    Sending {
                        name: out.name,
                        path: out.path,
                        accepted: true,
                        start: offset,
                        sent: offset,
                        size: out.size,
                        next_report: offset + PROGRESS_EVERY,
                        route: out.route,
                    },
                );
                proof {
                    let end = after_accept(old(self)@, hash@, offset, None, peer@);
                    assert(acts(v@) =~= end.1);
                    assert(self@ =~= end.0);
                }
                (v, None)
            },
            Some(d) => {
                let asked = match out.route {
                    Route::Direct => true,
                    Route::Tor => false,
                };
                if !asked {
                    return broken(cat(peer, " answered with a direct link we never asked for"));
                }
                let ghost dv = d@;
                v.push(Act::OpenSource(out.path.clone(), offset));
                v.push(
                    say_system(cat3("-- ", peer, " agreed to a direct link; connecting --")),
                );
                v.push(Act::Dial(d));
                self.sending = Some(
                    Sending {
                        name: out.name,
                        path: out.path,
                        accepted: false,
                        start: offset,
                        sent: 0,
                        size: out.size,
                        next_report: PROGRESS_EVERY,
                        route: out.route,
                    },
                );
                proof {
                    let end = after_accept(old(self)@, hash@, offset, Some(dv), peer@);
                    assert(acts(v@) =~= end.1);
                    assert(self@ =~= end.0);
                }
                (v, None)
            },
        }
    }

    /// A file of ours is not wanted.
    fn handle_reject(&mut self, hash: [u8; 32], peer: &str) -> (r: Vec<Act>)
        requires
            sound(old(self)@),
        ensures
            (final(self)@, acts(r@)) == after_reject(old(self)@, hash@, peer@),
            sound(final(self)@),
    {
        let i = find_offered(&self.offered, &hash);
        if i < self.offered.len() {
            let ghost before = self.offered@;
            let out = self.offered.remove(i);
            proof {
                assert(outgoing_views(before.remove(i as int)) =~= outgoing_views(before).remove(
                    i as int,
                ));
                assert(before[i as int]@ == old(self)@.offered[i as int]);
                assert forall|k: int| 0 <= k < self@.offered.len() implies (
                #[trigger] self@.offered[k]).size <= MAX_FILE by {
                    if k < i {
                        assert(old(self)@.offered[k].size <= MAX_FILE);
                    } else {
                        assert(old(self)@.offered[k + 1].size <= MAX_FILE);
                    }
                }
            }
            let mut s = cat3("-- ", peer, " declined ");
            s.append(quoted(out.name.as_str()).as_str());
            s.append(" --");
            only(say_system(s))
        } else {
            match self.sending.take() {
                Some(t) => {
                    let mut s = cat3("-- ", peer, " declined ");
                    s.append(quoted(t.name.as_str()).as_str());
                    s.append(" --");
                    only(say_system(s))
                },
                None => only(say_system(cat3("-- ", peer, " declined a file --"))),
            }
        }
    }

    /// The peer could not reach us outside Tor.
    fn handle_direct_failed(&mut self, peer: &str) -> (r: Vec<Act>)
        requires
            sound(old(self)@),
        ensures
            (final(self)@, acts(r@)) == after_direct_failed(old(self)@, peer@),
            sound(final(self)@),
    {
        let line = say_system(cat3("-- ", peer, " could not reach us directly; using Tor --"));
        let mut v: Vec<Act> = Vec::new();
        match self.pulling.take() {
            Some(o) => {
                v.push(Act::StopDirect);
                v.push(Act::OpenPartial(o.hash, 0));
                v.push(line);
                self.receiving = Some(
                    Receiving { offer: o, written: 0, next_report: PROGRESS_EVERY },
                );
            },
            None => {
                if self.pushing.is_some() {
                    self.pushing = None;
                    v.push(Act::StopDirect);
                    v.push(line);
                } else {
                    v.push(line);
                }
            },
        }
        assert(acts(v@) =~= after_direct_failed(old(self)@, peer@).1);
        v
    }

    /// File data arrives.
    fn handle_chunk(&mut self, data: Vec<u8>, peer: &str) -> (r: (Vec<Act>, Option<Ended>))
        requires
            sound(old(self)@),
        ensures
            (final(self)@, acts(r.0@), r.1) == after_chunk(old(self)@, data@, peer@),
            sound(final(self)@),
    {
        match self.receiving.take() {
            None => broken(cat(peer, " sent file data we did not accept")),
            Some(t) => {
                let mut t = t;
                let room: u64 = t.offer.size - t.written;
                let n: u64 = data.len() as u64;
                let size: u64 = t.offer.size;
                if n > room {
                    let mut s = cat3(peer, " sent more data than the ", human(size).as_str());
                    s.append(" offered");
                    self.receiving = Some(t);
                    return broken(s);
                }
                let ghost dv = data@;
                let mut v: Vec<Act> = Vec::new();
                v.push(Act::WritePartial(data));
                let written: u64 = t.written + n;
                t.written = written;
                if written >= t.next_report {
                    v.push(say_progress(written, size));
                    t.next_report = written + PROGRESS_EVERY;
                }
                self.receiving = Some(t);
                assert(acts(v@) =~= after_chunk(old(self)@, dv, peer@).1);
                (v, None)
            },
        }
    }

    /// Act on one frame from the peer. `partials` tells of each file the frame offers, in
    /// turn, how long its partial file is, where there is one.
    pub fn handle(&mut self, msg: Message, peer: &str, partials: &[Option<u64>]) -> (r: (
        Vec<Act>,
        Option<Ended>,
    ))
        requires
            sound(old(self)@),
        ensures
            (final(self)@, acts(r.0@), r.1) == after_frame(
                old(self)@,
                msg@,
                peer@,
                partials@,
            ),
            sound(final(self)@),
    {
        match msg {
            Message::Text(body) => (
                only(
                    Act::Say(
                        Kind::Theirs,
                        cat3(peer, "> ", sanitize_for_display(body.as_str()).as_str()),
                    ),
                ),
                None,
            ),
            Message::FileOffer { name, size, hash, direct } => {
                let mut v = only(say_system(cat3("-- ", peer, " offers a file --")));
                let (more, end) = self.take_offer(
                    FileRef { name, size, hash },
                    direct,
                    peer,
                    partial_of(partials, 0),
                );
                extend(&mut v, more);
                (v, end)
            },
            Message::Post { pieces, direct } => self.handle_post(&pieces, direct, peer, partials),
            Message::FileAccept { hash, offset, direct } => self.handle_accept(
                hash,
                offset,
                direct,
                peer,
            ),
            Message::FileReject { hash } => (self.handle_reject(hash, peer), None),
            Message::DirectFailed => (self.handle_direct_failed(peer), None),
            Message::FileChunk(data) => self.handle_chunk(data, peer),
            Message::FileDone => match self.receiving.take() {
                None => broken(cat(peer, " ended a transfer that was not running")),
                Some(t) => (only(Act::Finish(t.offer)), None),
            },
            Message::CallDecline => {
                let v: Vec<Act> = Vec::new();
                assert(acts(v@) =~= Seq::empty());
                (v, Some(Ended::Declined))
            },
            Message::Ping => {
                let v: Vec<Act> = Vec::new();
                assert(acts(v@) =~= Seq::empty());
                (v, None)
            },
            other => (only(Act::Aside(other)), None),
        }
    }

    /// What came of reaching the peer outside Tor: nothing, or why it failed.
    pub fn dialled(&mut self, failed: Option<String>) -> (r: Vec<Act>)
        requires
            sound(old(self)@),
        ensures
            (final(self)@, acts(r@)) == after_dial(
                old(self)@,
                match failed {
                    Some(why) => Some(why@),
                    None => None,
                },
            ),
            sound(final(self)@),
    {
        let mut v: Vec<Act> = Vec::new();
        match self.sending.take() {
            None => {
                assert(acts(v@) =~= Seq::empty());
            },
            Some(t) => {
                let mut t = t;
                match failed {
                    None => {
                        v.push(Act::Push(t.path, t.start));
                        self.pushing = Some(t.name);
                        assert(acts(v@) =~= after_dial(old(self)@, None).1);
                    },
                    Some(why) => {
                        v.push(
                            say_system(
                                cat3(
                                    "-- could not reach them directly (",
                                    why.as_str(),
                                    "); using Tor --",
                                ),
                            ),
                        );
                        v.push(Act::Send(Message::DirectFailed));
                        v.push(say_sending(t.name.as_str(), t.start));
                        t.accepted = true;
                        t.sent = t.start;
                        t.next_report = t.start + PROGRESS_EVERY;
                        self.sending = Some(t);
                        assert(acts(v@) =~= after_dial(old(self)@, Some(why@)).1);
                    },
                }
            },
        }
        v
    }

    /// A file of ours has gone out over a direct link, or why not.
    pub fn pushed(&mut self, failed: Option<String>) -> (r: Vec<Act>)
        requires
            sound(old(self)@),
        ensures
            (final(self)@, acts(r@)) == after_push(
                old(self)@,
                match failed {
                    Some(why) => Some(why@),
                    None => None,
                },
            ),
            sound(final(self)@),
    {
        match self.pushing.take() {
            None => {
                let v: Vec<Act> = Vec::new();
                assert(acts(v@) =~= Seq::empty());
                v
            },
            Some(name) => {
                let mut v = match failed {
                    None => only(say_system(cat3("-- sent ", name.as_str(), " directly --"))),
                    Some(why) => say_direct_failure(why.as_str()),
                };
                assert(self@ =~= (ConvView { pushing: None, ..old(self)@ }));
                let more = self.next();
                extend(&mut v, more);
                v
            },
        }
    }

    /// A file has come in over a direct link, or why not.
    pub fn pulled(&mut self, failed: Option<String>) -> (r: Vec<Act>)
        requires
            sound(old(self)@),
        ensures
            (final(self)@, acts(r@)) == after_pull(
                old(self)@,
                match failed {
                    Some(why) => Some(why@),
                    None => None,
                },
            ),
            sound(final(self)@),
    {
        match self.pulling.take() {
            None => {
                let v: Vec<Act> = Vec::new();
                assert(acts(v@) =~= Seq::empty());
                v
            },
            Some(offer) => match failed {
                None => only(Act::Finish(offer)),
                Some(why) => {
                    let mut v = say_direct_failure(why.as_str());
                    assert(self@ =~= (ConvView { pulling: None, ..old(self)@ }));
                    let more = self.next();
                    extend(&mut v, more);
                    v
                },
            },
        }
    }

    /// A complete file was verified: where it landed, or why it was put aside.
    pub fn landed(&mut self, outcome: Result<String, String>) -> (r: Vec<Act>)
        requires
            sound(old(self)@),
        ensures
            (final(self)@, acts(r@)) == after_landing(
                old(self)@,
                match outcome {
                    Ok(path) => Ok::<Seq<char>, Seq<char>>(path@),
                    Err(why) => Err::<Seq<char>, Seq<char>>(why@),
                },
            ),
            sound(final(self)@),
    {
        let mut v = match outcome {
            Ok(path) => only(say_system(cat3("-- received ", path.as_str(), " --"))),
            Err(why) => only(say_failure(why)),
        };
        let more = self.next();
        extend(&mut v, more);
        v
    }

    /// The peer's stream ended.
    pub fn reader_ended(&mut self) -> (r: Option<Ended>)
        requires
            sound(old(self)@),
        ensures
            (final(self)@, r) == after_reader(old(self)@),
            sound(final(self)@),
    {
        if self.pushing.is_some() || self.pulling.is_some() {
            self.peer_gone = true;
            if self.leaving.is_none() {
                self.leaving = Some(Ended::PeerHungUp);
            }
            proof {
                assert(self@ =~= after_reader(old(self)@).0);
                assert(self@.pending =~= old(self)@.pending);
                assert(self@.offered =~= old(self)@.offered);
            }
            None
        } else {
            Some(Ended::PeerHungUp)
        }
    }

    /// There is room on the wire: what the transfer going out has to do next.
    pub fn pump(&self) -> (r: Pump)
        requires
            sound(self@),
        ensures
            r == pump_want(self@),
    {
        match &self.sending {
            None => Pump::Nothing,
            Some(t) => if !t.accepted {
                Pump::Nothing
            } else if t.sent >= t.size {
                Pump::Done
            } else if t.size - t.sent < MAX_CHUNK as u64 {
                Pump::Read((t.size - t.sent) as usize)
            } else {
                Pump::Read(MAX_CHUNK)
            },
        }
    }

    /// The bytes that [`Conversation::pump`] asked for, or as many as there were.
    pub fn pumped(&mut self, data: Vec<u8>) -> (r: Vec<Act>)
        requires
            sound(old(self)@),
            pump_want(old(self)@) is Read,
            data@.len() <= pump_want(old(self)@)->Read_0,
        ensures
            (final(self)@, acts(r@)) == after_read(old(self)@, data@),
            sound(final(self)@),
    {
        let mut v: Vec<Act> = Vec::new();
        match self.sending.take() {
            None => {
                assert(acts(v@) =~= Seq::empty());
            },
            Some(t) => {
                let mut t = t;
                let ghost dv = data@;
                let n: u64 = data.len() as u64;
                if n == 0 {
                    return only(
                        say_failure(
                            cat(
                                quoted(t.name.as_str()).as_str(),
                                " ended sooner than its size said",
                            ),
                        ),
                    );
                }
                let sent: u64 = t.sent + n;
                t.sent = sent;
                if sent >= t.next_report {
                    v.push(say_progress(sent, t.size));
                    t.next_report = sent + PROGRESS_EVERY;
                }
                v.push(Act::Send(Message::FileChunk(data)));
                self.sending = Some(t);
                assert(acts(v@) =~= after_read(old(self)@, dv).1);
            },
        }
        v
    }

    /// The file going out could not be read; why.
    pub fn pump_failed(&mut self, why: String) -> (r: Vec<Act>)
        requires
            sound(old(self)@),
        ensures
            final(self)@ == (ConvView { sending: None, ..old(self)@ }),
            acts(r@) == seq![failure(why@)],
            sound(final(self)@),
    {
        self.sending = None;
        only(say_failure(why))
    }

    /// The last byte of the file going out has gone.
    pub fn sent_all(&mut self) -> (r: Vec<Act>)
        requires
            sound(old(self)@),
        ensures
            (final(self)@, acts(r@)) == after_all_sent(old(self)@),
            sound(final(self)@),
    {
        let mut v: Vec<Act> = Vec::new();
        match self.sending.take() {
            None => {},
            Some(t) => {
                v.push(say_system(cat3("-- sent ", t.name.as_str(), " --")));
                v.push(Act::Send(Message::FileDone));
            },
        }
        assert(acts(v@) =~= after_all_sent(old(self)@).1);
        v
    }

    /// Whether a conversation that was to end with its transfer can end now.
    pub fn settled(&self) -> (r: Option<Ended>)
        ensures
            r == settled_end(self@),
    {
        if !self.busy() {
            self.leaving
        } else {
            None
        }
    }

    /// What is said of a file that was still coming in when the conversation ended.
    pub fn interrupted(&self) -> (r: Option<String>)
        ensures
            match r {
                Some(s) => interrupted(self@) == Some(s@),
                None => interrupted(self@) is None,
            },
    {
        match &self.receiving {
            None => None,
            Some(t) => {
                let mut s = cat3("-- ", quoted(t.offer.name.as_str()).as_str(), " interrupted at ");
                s.append(human(t.written).as_str());
                s.append(" of ");
                s.append(human(t.offer.size).as_str());
                s.append("; offer it again to resume --");
                Some(s)
            },
        }
    }
}

/// What is said of a direct transfer that failed.
fn say_direct_failure(why: &str) -> (r: Vec<Act>)
    ensures
        acts(r@) == direct_failure(why@),
{
    let mut v: Vec<Act> = Vec::new();
    v.push(say_failure(cat3("-- the direct link failed: ", why, " --")));
    v.push(
        say_system(
            "   the part already received is kept; offer it again to resume over Tor".to_owned(),
        ),
    );
    assert(acts(v@) =~= direct_failure(why@));
    v
}

// --- laws -----------------------------------------------------------------------------

/// Nothing of ours goes out unasked: a frame starts a transfer only by accepting a file that
/// we offered, and the transfer is of that file.
pub proof fn a_file_goes_out_only_when_accepted(
    c: ConvView,
    m: MessageView,
    peer: Seq<char>,
    partials: Seq<Option<u64>>,
)
    requires
        c.sending is None,
        after_frame(c, m, peer, partials).0.sending is Some,
    ensures
        m is FileAccept,
        ({
            let i = place_of(c.offered, m->FileAccept_hash) as int;
            let s = after_frame(c, m, peer, partials).0.sending->0;
            0 <= i < c.offered.len() && s.path == c.offered[i].path && s.size == c.offered[i].size
        }),
{
    offers_leave_transfers(c, m, peer, partials);
}

/// Nothing lands on our disk unasked: file data is written, and a file finished, only while a
/// transfer that the operator accepted is coming in.
pub proof fn nothing_is_written_unasked(
    c: ConvView,
    m: MessageView,
    peer: Seq<char>,
    partials: Seq<Option<u64>>,
)
    requires
        c.receiving is None,
    ensures
        forall|i: int|
            0 <= i < after_frame(c, m, peer, partials).1.len() ==> !((
            #[trigger] after_frame(c, m, peer, partials).1[i]) is WritePartial) && !(after_frame(
                c,
                m,
                peer,
                partials,
            ).1[i] is Finish),
        after_frame(c, m, peer, partials).0.receiving is Some ==> c.pulling is Some && m
            == MessageView::DirectFailed,
{
    offers_leave_transfers(c, m, peer, partials);
}

/// Offering a file changes what waits for an answer, and nothing else; and all it does is
/// put lines on screen.
proof fn offers_leave_transfers(
    c: ConvView,
    m: MessageView,
    peer: Seq<char>,
    partials: Seq<Option<u64>>,
)
    ensures
        m is FileOffer || m is Post ==> ({
            let (d, a, e) = after_frame(c, m, peer, partials);
            &&& d == (ConvView { pending: d.pending, ..c })
            &&& forall|i: int| 0 <= i < a.len() ==> (#[trigger] a[i]) is Say
        }),
{
    match m {
        MessageView::Post { pieces, direct } => {
            offers_only_say(c, pieces_files(pieces), direct, peer, partials);
        },
        MessageView::FileOffer { name, size, hash, direct } => {},
        _ => {},
    }
}

proof fn offers_only_say(
    c: ConvView,
    files: Seq<FileView>,
    direct: bool,
    peer: Seq<char>,
    partials: Seq<Option<u64>>,
)
    ensures
        ({
            let (d, a, e) = took_offers(c, files, direct, peer, partials);
            &&& d == (ConvView { pending: d.pending, ..c })
            &&& forall|i: int| 0 <= i < a.len() ==> (#[trigger] a[i]) is Say
        }),
    decreases files.len(),
{
    if files.len() > 0 {
        offers_only_say(c, files.drop_last(), direct, peer, partials);
    }
}

/// A peer cannot steer the screen: whatever they say, and whatever they call their files, what
/// is shown as theirs holds no character that moves, hides or reorders what is on it.
pub proof fn a_peer_s_words_are_visible(
    c: ConvView,
    m: MessageView,
    peer: Seq<char>,
    partials: Seq<Option<u64>>,
    i: int,
)
    requires
        !any_invisible(peer),
        0 <= i < after_frame(c, m, peer, partials).1.len(),
        after_frame(c, m, peer, partials).1[i] is Say,
        after_frame(c, m, peer, partials).1[i]->Say_0 == Kind::Theirs,
    ensures
        !any_invisible(after_frame(c, m, peer, partials).1[i]->Say_1),
{
    reveal_strlit("> ");
    visible_together(peer, "> "@);
    match m {
        MessageView::Text(body) => {
            shown_text_is_visible(body);
            visible_together(peer + "> "@, shown_text(body));
        },
        MessageView::Post { pieces, direct } => {
            let (d, a, e) = took_offers(c, pieces_files(pieces), direct, peer, partials);
            offers_are_chatter(c, pieces_files(pieces), direct, peer, partials);
            if pieces_fault(pieces) is None {
                pieces_are_visible(pieces);
                visible_trimmed(pieces_line(pieces));
                visible_together(peer + "> "@, trim(pieces_line(pieces)));
            }
        },
        MessageView::FileOffer { name, size, hash, direct } => {
            let f = FileView { name, size, hash };
            let a = took_offer(c, f, direct, peer, partial_at(partials, 0)).1;
            if i > 0 {
                assert(after_frame(c, m, peer, partials).1[i] == a[i - 1]);
            }
        },
        _ => {},
    }
}

proof fn pieces_are_visible(pieces: Seq<PieceView>)
    requires
        pieces_fault(pieces) is None,
    ensures
        !any_invisible(pieces_line(pieces)),
    decreases pieces.len(),
{
    if pieces.len() > 0 {
        let before = pieces_line(pieces.drop_last());
        pieces_are_visible(pieces.drop_last());
        match pieces.last() {
            PieceView::Text(t) => {
                shown_text_is_visible(t);
                visible_together(before, shown_text(t));
            },
            PieceView::File(f) => {
                reveal_strlit(" ");
                reveal_strlit("[");
                reveal_strlit("]");
                let name = kept_name(f.name);
                visible_together(before, " "@);
                let spaced = if before.len() > 0 && before.last() != ' ' {
                    before + " "@
                } else {
                    before
                };
                visible_together(spaced, "["@);
                visible_together(spaced + "["@, name);
                visible_together(spaced + "["@ + name, "]"@);
            },
        }
    }
}

proof fn offers_are_chatter(
    c: ConvView,
    files: Seq<FileView>,
    direct: bool,
    peer: Seq<char>,
    partials: Seq<Option<u64>>,
)
    ensures
        forall|i: int|
            0 <= i < took_offers(c, files, direct, peer, partials).1.len() ==> (
            #[trigger] took_offers(c, files, direct, peer, partials).1[i])->Say_0 != Kind::Theirs,
    decreases files.len(),
{
    if files.len() > 0 {
        offers_are_chatter(c, files.drop_last(), direct, peer, partials);
    }
}

/// What is no part of a conversation is not lost to it: presence, messages left and their
/// acknowledgements are passed on as they came, and change nothing here.
pub proof fn what_is_not_said_is_passed_on(
    c: ConvView,
    m: MessageView,
    peer: Seq<char>,
    partials: Seq<Option<u64>>,
)
    requires
        m is PresenceAsk || m is PresenceYes || m is PresenceNo || m is Left || m is Got,
    ensures
        after_frame(c, m, peer, partials) == (c, seq![ActView::Aside(m)], None::<Ended>),
{
}

/// Only what was meant is sent: the one message that a typed line sends is the text of a line
/// that is no command, or the refusal of an offer.
pub proof fn only_what_was_meant_is_sent(c: ConvView, t: TypedView, i: int)
    requires
        0 <= i < after_typed(c, t).1.len(),
        after_typed(c, t).1[i] is Send,
    ensures
        t is Message || t is Refuse,
        t is Message ==> after_typed(c, t).1[i] == ActView::Send(MessageView::Text(t->Message_0)),
        t is Refuse ==> after_typed(c, t).1[i]->Send_0 is FileReject,
{
}

/// Hanging up waits for a file instead of truncating it, and for the answer to an offer: the
/// first time it is asked for during a transfer the conversation goes on, the second time it
/// is over.
pub proof fn a_second_goodbye_leaves(c: ConvView, how: Ended, again: Ended)
    requires
        busy(c),
        c.leaving is None,
    ensures
        after_typed(c, TypedView::HangUp(how)).2 is None,
        settled_end(after_typed(c, TypedView::HangUp(how)).0) is None,
        after_typed(after_typed(c, TypedView::HangUp(how)).0, TypedView::HangUp(again)).2 == Some(
            again,
        ),
{
}

/// With nothing under way, hanging up is immediate.
pub proof fn an_idle_goodbye_leaves_at_once(c: ConvView, how: Ended)
    requires
        !busy(c),
    ensures
        after_typed(c, TypedView::HangUp(how)).2 == Some(how),
{
}

/// An address is revealed only by agreeing to a direct offer: an answer names one only if the
/// offer asked for it, nothing of the file is on disk, and we are listening.
pub proof fn an_address_is_named_only_on_request(
    c: ConvView,
    o: OfferedView,
    partial: Option<u64>,
    listening: ListeningView,
    i: int,
)
    requires
        0 <= i < after_taken(c, o, partial, listening).1.len(),
        after_taken(c, o, partial, listening).1[i] is Send,
        after_taken(c, o, partial, listening).1[i]->Send_0 != (MessageView::FileAccept {
            hash: o.offer.hash,
            offset: resumable(partial, o.offer.size),
            direct: None,
        }),
    ensures
        listens(o, partial),
        listening is Open,
{
}

/// We reach out outside Tor only for a file that we asked to send so.
pub proof fn a_link_is_dialled_only_if_asked_for(
    c: ConvView,
    hash: Seq<u8>,
    offset: u64,
    direct: Option<DirectView>,
    peer: Seq<char>,
    i: int,
)
    requires
        0 <= i < after_accept(c, hash, offset, direct, peer).1.len(),
        after_accept(c, hash, offset, direct, peer).1[i] is Dial,
    ensures
        place_of(c.offered, hash) < c.offered.len(),
        c.offered[place_of(c.offered, hash) as int].route == Route::Direct,
        direct is Some,
{
}

/// A direct link that cannot be had costs no transfer: what was to come over it is then
/// expected as chunks on one side and sent as chunks on the other, from the same byte.
pub proof fn a_failed_link_falls_back_to_tor(
    sender: ConvView,
    recipient: ConvView,
    why: Seq<char>,
    peer: Seq<char>,
)
    requires
        sender.sending is Some,
        sender.sending->0.start == 0,
        recipient.pulling is Some,
    ensures
        after_dial(sender, Some(why)).0.sending is Some,
        after_dial(sender, Some(why)).0.sending->0.accepted,
        after_dial(sender, Some(why)).1[1] == ActView::Send(MessageView::DirectFailed),
        after_direct_failed(recipient, peer).0.receiving is Some,
        after_direct_failed(recipient, peer).0.receiving->0.offer == recipient.pulling->0,
        after_direct_failed(recipient, peer).0.receiving->0.written == after_dial(
            sender,
            Some(why),
        ).0.sending->0.sent,
{
}

/// The two ends of a transfer over Tor are at the same byte of the same file.
pub open spec fn in_step(sender: ConvView, recipient: ConvView) -> bool {
    match (sender.sending, recipient.receiving) {
        (Some(s), Some(r)) => s.accepted && s.sent == r.written && s.size == r.offer.size,
        _ => false,
    }
}

/// An answer puts both ends at the first byte that the recipient lacks, so that the two
/// halves of a resumed file join with no gap and no overlap.
pub proof fn an_answer_sets_both_ends_alike(
    sender: ConvView,
    recipient: ConvView,
    o: OfferedView,
    partial: Option<u64>,
    peer: Seq<char>,
)
    requires
        sender.sending is None,
        place_of(sender.offered, o.offer.hash) < sender.offered.len(),
        sender.offered[place_of(sender.offered, o.offer.hash) as int].size == o.offer.size,
        takeable(o.offer.size),
        !listens(o, partial),
    ensures
        ({
            let (r, acts) = after_taken(recipient, o, partial, ListeningView::NotTried);
            let offset = resumable(partial, o.offer.size);
            let (s, _, end) = after_accept(sender, o.offer.hash, offset, None, peer);
            &&& acts.last() == ActView::Send(
                MessageView::FileAccept { hash: o.offer.hash, offset, direct: None },
            )
            &&& end is None
            &&& in_step(s, r)
        }),
{
}

/// Two ends in step stay in step: what one sends, the other writes, and neither runs past
/// the end of the file.
pub proof fn chunks_keep_both_ends_in_step(
    sender: ConvView,
    recipient: ConvView,
    data: Seq<u8>,
    peer: Seq<char>,
)
    requires
        sound(sender),
        sound(recipient),
        in_step(sender, recipient),
        pump_want(sender) is Read,
        0 < data.len() <= pump_want(sender)->Read_0,
    ensures
        after_read(sender, data).1.last() == ActView::Send(MessageView::FileChunk(data)),
        after_chunk(recipient, data, peer).2 is None,
        after_chunk(recipient, data, peer).1[0] == ActView::WritePartial(data),
        in_step(after_read(sender, data).0, after_chunk(recipient, data, peer).0),
{
}

/// When the sender has no more, the recipient has it all, and verifies it.
pub proof fn a_finished_transfer_is_complete(
    sender: ConvView,
    recipient: ConvView,
    peer: Seq<char>,
)
    requires
        sound(sender),
        in_step(sender, recipient),
        pump_want(sender) == Pump::Done,
    ensures
        recipient.receiving->0.written == recipient.receiving->0.offer.size,
        after_all_sent(sender).1.last() == ActView::Send(MessageView::FileDone),
        after_done(recipient, peer).1 == seq![ActView::Finish(recipient.receiving->0.offer)],
{
}

/// While a transfer is not finished, there is always something to read for it.
pub proof fn an_accepted_transfer_moves(c: ConvView)
    requires
        sound(c),
        c.sending is Some,
        c.sending->0.accepted,
    ensures
        pump_want(c) == Pump::Done || (pump_want(c) is Read && 0 < pump_want(c)->Read_0
            <= MAX_CHUNK),
{
}

/// Taking all of them takes each in turn: while any waits and the line is free, the oldest is
/// taken; when none is left, the wish is over.
pub proof fn taking_all_takes_the_oldest(c: ConvView)
    requires
        c.taking_all,
        !occupied(c),
    ensures
        c.pending.len() > 0 ==> next_taken(c).1 == seq![ActView::Take(c.pending[0])]
            && next_taken(c).0.pending == c.pending.remove(0) && next_taken(c).0.taking_all,
        c.pending.len() == 0 ==> !next_taken(c).0.taking_all,
{
}

} // verus!
