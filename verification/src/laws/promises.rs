//! What the calls on the book, the outbox, the record and the pool promise a caller, one after
//! the other.

use vstd::prelude::*;
use vstd::string::*;
use vstd::utf8::*;

use crate::contacts::{AddError, BookError, Contacts};
use crate::history::{ref_views, History, Line, LineView};
use crate::identity::PeerId;
use crate::message::{Message, MessageView};
use crate::outbox::{Outbox, TooLong};
use crate::pool::{Heard, Pool, Seen};
use crate::presence::Presence;
use crate::store::StoreError;
use crate::text::trim;

verus! {

// --- the outbox -----------------------------------------------------------------------

/// A message that is kept is the last that goes out to whom it is for, under a number of its
/// own, with its time and its words; and those that waited go out before it.
pub proof fn a_message_kept_goes_out_last(
    o: &mut Outbox,
    address: &str,
    body: String,
    at: u64,
    kept: Result<usize, TooLong>,
    earlier: Vec<Message>,
    now: &Outbox,
    frames: Vec<Message>,
)
    requires
        old(o).wf(),
        call_ensures(Outbox::frames_for, (old(o), address), earlier),
        call_ensures(Outbox::queue, (o, address, body, at), kept),
        *now == *final(o),
        call_ensures(Outbox::frames_for, (now, address), frames),
    ensures
        kept is Ok <==> encode_utf8(body@).len() <= 32768,
        kept is Err ==> frames@.len() == earlier@.len(),
        kept is Ok ==> {
            &&& frames@.len() > 0
            &&& frames@.last()@ == (MessageView::Left { id: old(o).next, at, body: body@ })
            &&& final(o).next > old(o).next
            &&& frames@.len() + kept->Ok_0 == earlier@.len() + 1
            &&& earlier@.len() < 64 ==> kept->Ok_0 == 0
            &&& forall|i: int|
                0 <= i < frames@.len() - 1 ==> (#[trigger] frames@[i])@ == earlier@[i
                    + kept->Ok_0]@
        },
{
}

/// Whoever acknowledges a message is not sent it again, and is still sent every other; nobody
/// else is sent less for it.
pub proof fn an_acknowledged_message_is_not_sent_again(
    o: &mut Outbox,
    address: &str,
    i: int,
    before: Vec<Message>,
    known: bool,
    now: &Outbox,
    after: Vec<Message>,
    other: &str,
    theirs: Vec<Message>,
    still_theirs: Vec<Message>,
)
    requires
        old(o).wf(),
        call_ensures(Outbox::frames_for, (old(o), address), before),
        call_ensures(Outbox::frames_for, (old(o), other), theirs),
        0 <= i < before@.len(),
        forall|j: int| 0 <= j < i ==> (#[trigger] before@[j])@->id != before@[i]@->id,
        call_ensures(Outbox::delivered, (o, address, before@[i]@->id), known),
        *now == *final(o),
        call_ensures(Outbox::frames_for, (now, address), after),
        call_ensures(Outbox::frames_for, (now, other), still_theirs),
        trim(other@) != trim(address@),
    ensures
        known,
        after@.len() == before@.len() - 1,
        forall|j: int| 0 <= j < i ==> (#[trigger] after@[j])@ == before@[j]@,
        forall|j: int| i <= j < after@.len() ==> (#[trigger] after@[j])@ == before@[j + 1]@,
        still_theirs@.len() == theirs@.len(),
        forall|j: int| 0 <= j < theirs@.len() ==> (#[trigger] still_theirs@[j])@ == theirs@[j]@,
{
    let book = old(o).book();
    let a = trim(address@);
    let q = crate::outbox::waiting_at(book, a);
    assert(before@[i]@->id == q[i].id);
    assert forall|j: int| 0 <= j < i implies (#[trigger] q[j]).id != q[i].id by {
        assert(before@[j]@->id == q[j].id);
    }
    crate::laws::keeping::an_acknowledgement_takes_one(book, a, i, trim(other@));
}

/// What is discarded is not sent, and how much it was is told.
pub proof fn what_is_discarded_is_not_sent(
    o: &mut Outbox,
    address: &str,
    before: Vec<Message>,
    gone: usize,
    now: &Outbox,
    after: Vec<Message>,
    count: usize,
)
    requires
        old(o).wf(),
        call_ensures(Outbox::frames_for, (old(o), address), before),
        call_ensures(Outbox::discard, (o, address), gone),
        *now == *final(o),
        call_ensures(Outbox::frames_for, (now, address), after),
        call_ensures(Outbox::waiting_for, (now, address), count),
    ensures
        gone == before@.len(),
        after@.len() == 0,
        count == 0,
        final(o).next == old(o).next,
{
}

/// Nothing of what is kept is lost by saving it and opening it again.
pub proof fn an_outbox_outlives_the_program(
    o: &mut Outbox,
    key: &[u8; 32],
    saved: Result<Vec<u8>, StoreError>,
    stored: &[u8],
    opened: Result<Outbox, BookError>,
)
    requires
        old(o).wf(),
        call_ensures(Outbox::save, (o, key), saved),
        saved is Ok,
        stored@ == saved->Ok_0@,
        call_ensures(Outbox::open, (Some(stored), key), opened),
    ensures
        opened is Ok,
        opened->Ok_0.book() == old(o).book(),
        opened->Ok_0.next == old(o).next,
        !final(o).unsaved,
{
}

// --- the book -------------------------------------------------------------------------

/// A friend who was filed is found under that name, at that address, and is not yet watched
/// unless they were; a friend who could not be filed changes nothing.
pub proof fn a_filed_friend_is_found(
    b: &mut Contacts,
    name: &str,
    address: &str,
    key: &str,
    filed: Result<(), AddError>,
    now: &Contacts,
    found: Option<String>,
)
    requires
        old(b).wf(),
        call_ensures(Contacts::add, (b, name, address, key), filed),
        *now == *final(b),
        call_ensures(Contacts::address_of, (now, name), found),
    ensures
        filed is Ok ==> found is Some && found->0@ == trim(address@),
        filed is Err ==> final(b).book() == old(b).book(),
{
}

/// A friend who was forgotten is not found, and everyone else is, as before.
pub proof fn a_forgotten_friend_is_gone(
    b: &mut Contacts,
    name: &str,
    was: bool,
    now: &Contacts,
    found: Option<String>,
    other: &str,
    theirs: Option<String>,
    still_theirs: Option<String>,
)
    requires
        old(b).wf(),
        trim(other@) != trim(name@),
        call_ensures(Contacts::address_of, (old(b), other), theirs),
        call_ensures(Contacts::remove, (b, name), was),
        *now == *final(b),
        call_ensures(Contacts::address_of, (now, name), found),
        call_ensures(Contacts::address_of, (now, other), still_theirs),
    ensures
        found is None,
        theirs is Some <==> still_theirs is Some,
        theirs is Some ==> theirs->0@ == still_theirs->0@,
{
}

/// What is agreed with a friend is what is found, and is agreed with nobody else.
pub proof fn what_was_agreed_is_found(
    b: &mut Contacts,
    name: &str,
    presence: Presence,
    done: bool,
    now: &Contacts,
    found: Presence,
    other: &str,
    theirs: Presence,
    still_theirs: Presence,
)
    requires
        old(b).wf(),
        trim(other@) != trim(name@),
        call_ensures(Contacts::presence_of, (old(b), other), theirs),
        call_ensures(Contacts::set_presence, (b, name, presence), done),
        *now == *final(b),
        call_ensures(Contacts::presence_of, (now, name), found),
        call_ensures(Contacts::presence_of, (now, other), still_theirs),
    ensures
        done ==> found == presence,
        !done ==> found == Presence::Off && final(b).book() == old(b).book(),
        theirs == still_theirs,
{
}

/// Whether a friend objects to a record is what they last said; a stranger always does.
pub proof fn an_objection_is_remembered(
    b: &mut Contacts,
    name: &str,
    objects: bool,
    done: bool,
    now: &Contacts,
    found: bool,
    presence: Presence,
    still: Presence,
)
    requires
        old(b).wf(),
        call_ensures(Contacts::presence_of, (old(b), name), presence),
        call_ensures(Contacts::set_objection, (b, name, objects), done),
        *now == *final(b),
        call_ensures(Contacts::objects_to_history, (now, name), found),
        call_ensures(Contacts::presence_of, (now, name), still),
    ensures
        done ==> found == objects,
        !done ==> found,
        presence == still,
{
}

/// A message with a number is taken once: not again, and none that is older either, but the
/// next one is.
pub proof fn a_message_is_taken_once(
    b: &mut Contacts,
    again: &mut Contacts,
    next: &mut Contacts,
    name: &str,
    id: u64,
    older: u64,
    first: bool,
    second: bool,
    third: bool,
)
    requires
        old(b).wf(),
        older <= id,
        id + 1 < u64::MAX,
        call_ensures(Contacts::accept_left, (b, name, id), first),
        first,
        *old(again) == *final(b),
        call_ensures(Contacts::accept_left, (again, name, older), second),
        *old(next) == *final(b),
        call_ensures(Contacts::accept_left, (next, name, (id + 1) as u64), third),
    ensures
        !second,
        third,
        final(again).book() == final(b).book(),
{
}

/// Nothing of the book is lost by saving it and opening it again.
pub proof fn a_book_outlives_the_program(
    b: &mut Contacts,
    key: &[u8; 32],
    saved: Result<Vec<u8>, StoreError>,
    stored: &[u8],
    opened: Result<Contacts, BookError>,
)
    requires
        old(b).wf(),
        call_ensures(Contacts::save, (b, key), saved),
        saved is Ok,
        stored@ == saved->Ok_0@,
        call_ensures(Contacts::open, (Some(stored), key), opened),
    ensures
        opened is Ok,
        opened->Ok_0.book() == old(b).book(),
        !final(b).unsaved,
{
}

// --- the record -----------------------------------------------------------------------

/// While a record is kept, what was said last is the last line of it, as it was said; while none
/// is, nothing is written down.
pub proof fn what_was_said_last_is_told_last(
    h: &mut History,
    with: &str,
    mine: bool,
    body: &str,
    at: u64,
    now: &History,
    told: Vec<&Line>,
)
    requires
        call_ensures(History::note, (h, with, mine, body, at), ()),
        encode_utf8(body@).len() <= 1_048_576,
        *now == *final(h),
        call_ensures(History::tail, (now, None, 1), told),
    ensures
        old(h).on ==> told@.len() == 1 && told@[0]@ == (LineView {
            at,
            with: trim(with@),
            mine,
            body: body@,
        }),
        !old(h).on ==> *final(h) == *old(h),
        final(h).on == old(h).on,
{
    let l = LineView { at, with: trim(with@), mine, body: body@ };
    if old(h).on {
        crate::history::the_newest_line_is_kept(old(h).record(), l);
        crate::laws::keeping::a_conversation_is_told_apart(now.record(), Seq::empty());
        let t = crate::history::last_of(now.record(), 1);
        assert(ref_views(told@) == t);
        assert(t[0] == now.record().last());
        assert(ref_views(told@)[0] == told@[0]@);
    }
}

/// Once a peer is forgotten nothing of theirs is told, and how much it was is known; what was
/// said with anyone else is told as before.
pub proof fn a_forgotten_conversation_is_not_told(
    h: &mut History,
    with: &str,
    other: &str,
    gone: usize,
    now: &History,
    told: Vec<&Line>,
    theirs: Vec<&Line>,
    still_theirs: Vec<&Line>,
    count: usize,
)
    requires
        trim(other@) != trim(with@),
        call_ensures(History::tail, (old(h), Some(other), count), theirs),
        call_ensures(History::forget, (h, with), gone),
        *now == *final(h),
        call_ensures(History::tail, (now, Some(with), count), told),
        call_ensures(History::tail, (now, Some(other), count), still_theirs),
    ensures
        told@.len() == 0,
        ref_views(still_theirs@) == ref_views(theirs@),
        gone > 0 ==> final(h).unsaved,
{
    crate::laws::keeping::a_conversation_is_told_apart(old(h).record(), with@);
    assert(ref_views(told@).len() == told@.len());
    others_are_left(old(h).record(), with@, other@);
}

proof fn others_are_left(lines: Seq<LineView>, with: Seq<char>, other: Seq<char>)
    requires
        trim(other) != trim(with),
    ensures
        crate::history::matching(crate::history::without(lines, with), Some(other))
            == crate::history::matching(lines, Some(other)),
    decreases lines.len(),
{
    if lines.len() > 0 {
        others_are_left(lines.drop_last(), with, other);
        let w = crate::history::without(lines.drop_last(), with);
        if lines.last().with != trim(with) {
            assert(w.push(lines.last()).drop_last() =~= w);
        }
    }
}

/// Stopping a record erases it and says how much there was; starting one erases nothing.
pub proof fn stopping_erases(h: &mut History, on: bool, gone: usize, now: &History, left: usize)
    requires
        call_ensures(History::set, (h, on), gone),
        *now == *final(h),
        call_ensures(History::len, (now,), left),
    ensures
        !on ==> left == 0 && gone == old(h).record().len(),
        on ==> gone == 0 && left == old(h).record().len(),
        final(h).on == on,
        final(h).unsaved,
{
}

// --- the pool -------------------------------------------------------------------------

/// A connection that is kept is handed out once; what waited for it comes with it, in order, and
/// no frame waits any more.
pub proof fn a_connection_is_handed_out_once(
    a: &mut Pool,
    b: &mut Pool,
    c: &mut Pool,
    peer: PeerId,
    came: (Vec<Message>, bool),
    first: bool,
    second: bool,
)
    requires
        old(a).wf(),
        call_ensures(Pool::keep, (a, peer), came),
        *old(b) == *final(a),
        call_ensures(Pool::take, (b, &peer), first),
        *old(c) == *final(b),
        call_ensures(Pool::take, (c, &peer), second),
    ensures
        first,
        !second,
        came.1 <==> !old(a)@.idle.contains(peer),
{
}

/// A frame for somebody who is not connected is among those that come with the connection.
pub proof fn a_frame_comes_with_the_connection(
    a: &mut Pool,
    b: &mut Pool,
    peer: PeerId,
    msg: Message,
    sent: Option<Message>,
    came: (Vec<Message>, bool),
)
    requires
        old(a).wf(),
        call_ensures(Pool::send, (a, peer, msg), sent),
        *old(b) == *final(a),
        call_ensures(Pool::keep, (b, peer), came),
    ensures
        old(a)@.idle.contains(peer) ==> sent == Some(msg) && !came.1,
        !old(a)@.idle.contains(peer) ==> sent is None && came.1,
        !old(a)@.idle.contains(peer) && !old(a)@.waiting.contains_key(peer) ==> came.0@ == seq![
            msg,
        ],
        !old(a)@.idle.contains(peer) && old(a)@.waiting.contains_key(peer)
            && old(a)@.waiting[peer].len() < 4 ==> came.0@ == old(a)@.waiting[peer].push(msg),
{
    if !old(a)@.idle.contains(peer) && !old(a)@.waiting.contains_key(peer) {
        assert(came.0@ =~= seq![msg]);
    }
}

/// Nobody is dialled twice at a time, nor while they are connected; once the dial has come to
/// its end they may be dialled again, unless it brought the connection.
pub proof fn nobody_is_dialled_twice(
    a: &mut Pool,
    b: &mut Pool,
    c: &mut Pool,
    d: &mut Pool,
    peer: PeerId,
    proved: Option<PeerId>,
    first: bool,
    second: bool,
    seen: (Option<Heard>, Vec<Message>),
    third: bool,
)
    requires
        old(a).wf(),
        call_ensures(Pool::reach, (a, peer), first),
        first,
        *old(b) == *final(a),
        call_ensures(Pool::reach, (b, peer), second),
        *old(c) == *final(b),
        call_ensures(Pool::heard, (c, Seen::Landed(peer, proved)), seen),
        *old(d) == *final(c),
        call_ensures(Pool::reach, (d, peer), third),
    ensures
        !old(a)@.idle.contains(peer),
        !second,
        proved == Some(peer) <==> seen.0 == Some(Heard::Reached(peer)),
        proved == Some(peer) <==> !third,
        proved != Some(peer) ==> seen.0 is None && seen.1@.len() == 0,
        proved != Some(peer) ==> !final(c)@.idle.contains(peer),
{
}

/// A frame that came in is passed on with whom it came from, unless it only keeps the connection
/// alive; a connection that ended is no connection, and is told as lost.
pub proof fn what_comes_in_is_passed_on(
    a: &mut Pool,
    b: &mut Pool,
    peer: PeerId,
    msg: Message,
    came: (Option<Heard>, Vec<Message>),
    ended: (Option<Heard>, Vec<Message>),
)
    requires
        old(a).wf(),
        call_ensures(Pool::heard, (a, Seen::Frame(peer, msg)), came),
        *old(b) == *final(a),
        call_ensures(Pool::heard, (b, Seen::Ended(peer)), ended),
    ensures
        msg == Message::Ping ==> came.0 is None,
        msg != Message::Ping ==> came.0 == Some(Heard::Frame(peer, msg)),
        final(a)@ == old(a)@,
        ended.0 == Some(Heard::Lost(peer)),
        !final(b)@.idle.contains(peer),
        final(b)@.waiting == old(a)@.waiting,
        final(b)@.dialling == old(a)@.dialling,
{
}

} // verus!
