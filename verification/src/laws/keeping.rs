//! What is kept on disk and in memory: the record, the outbox, and the open connections.

use vstd::prelude::*;
use vstd::string::*;

use crate::history::{body_total, fitting, last_of, matching, without, LineView, MAX_BYTES};
use crate::identity::PeerId;
use crate::message::Message;
use crate::outbox::{
    after_delivered, age_text, left_frame, place_of_id, queued_behind, surplus, total,
    waiting_at, QueueView, WaitingView,
};
use crate::pool::{forgotten, held, held_for, kept, retained, PoolView};
use crate::text::{decimal_text, trim};

verus! {

// --- the record -----------------------------------------------------------------------

/// No line goes that still fits: only the oldest are dropped, and of them no more than it takes
/// to get the text of what stays down to a mebibyte.
pub proof fn no_line_goes_that_fits(lines: Seq<LineView>)
    ensures
        fitting(lines).len() <= lines.len(),
        fitting(lines) == lines.skip(lines.len() - fitting(lines).len()),
        body_total(fitting(lines)) <= 1_048_576,
        fitting(lines).len() < lines.len() ==> body_total(
            lines.skip(lines.len() - fitting(lines).len() - 1),
        ) > 1_048_576,
    decreases lines.len(),
{
    if body_total(lines) > MAX_BYTES && lines.len() > 0 {
        let t = lines.drop_first();
        no_line_goes_that_fits(t);
        let n = fitting(t).len();
        assert(t.skip(t.len() - n) =~= lines.skip(lines.len() - n));
        if n < t.len() {
            assert(t.skip(t.len() - n - 1) =~= lines.skip(lines.len() - n - 1));
        } else {
            assert(lines.skip(0) =~= lines);
        }
    } else {
        assert(lines.skip(0) =~= lines);
    }
}

/// What counts is the text of every line.
pub proof fn every_line_counts(lines: Seq<LineView>, i: int)
    requires
        0 <= i < lines.len(),
    ensures
        body_total(lines) == body_total(lines.remove(i)) + vstd::utf8::encode_utf8(
            lines[i].body,
        ).len(),
    decreases lines.len(),
{
    let t = lines.drop_first();
    if i == 0 {
        assert(lines.remove(0) =~= t);
    } else {
        every_line_counts(t, i - 1);
        let r = lines.remove(i);
        assert(r[0] == lines[0]);
        assert(r.drop_first() =~= t.remove(i - 1));
        assert(t[i - 1] == lines[i]);
    }
}

/// Asking for a conversation gives every line of it and no other, in the order in which they
/// were written down; forgetting it leaves exactly the others, in theirs.
pub proof fn a_conversation_is_told_apart(lines: Seq<LineView>, with: Seq<char>)
    ensures
        matching(lines, Some(with)) == lines.filter(|l: LineView| l.with == trim(with)),
        matching(lines, None) == lines,
        without(lines, with) == lines.filter(|l: LineView| l.with != trim(with)),
        matching(without(lines, with), Some(with)) == Seq::<LineView>::empty(),
        matching(lines, Some(with)).len() + without(lines, with).len() == lines.len(),
    decreases lines.len(),
{
    reveal(Seq::filter);
    if lines.len() > 0 {
        a_conversation_is_told_apart(lines.drop_last(), with);
        assert(lines.drop_last().push(lines.last()) =~= lines);
        let w = without(lines, with);
        if lines.last().with != trim(with) {
            assert(w.drop_last() =~= without(lines.drop_last(), with));
        }
    } else {
        assert(matching(lines, None) =~= lines);
    }
}

/// The last lines are the newest ones, as many as were asked for or all there are.
pub proof fn the_last_lines_are_the_newest(lines: Seq<LineView>, count: nat)
    ensures
        last_of(lines, count).len() == if lines.len() < count {
            lines.len()
        } else {
            count
        },
        forall|i: int|
            0 <= i < last_of(lines, count).len() ==> #[trigger] last_of(lines, count)[i]
                == lines[lines.len() - last_of(lines, count).len() + i],
{
}

// --- the outbox -----------------------------------------------------------------------

/// A message goes behind those that wait already. Where that makes one too many, the oldest
/// makes room, and nothing else does.
pub proof fn a_message_waits_its_turn(q: Seq<WaitingView>, w: WaitingView)
    ensures
        q.len() < 64 ==> queued_behind(q, w) == q.push(w),
        q.len() == 64 ==> queued_behind(q, w) == q.drop_first().push(w),
        q.len() <= 64 ==> queued_behind(q, w).len() <= 64,
        queued_behind(q, w).len() > 0,
        queued_behind(q, w).last() == w,
        surplus(q) + queued_behind(q, w).len() == q.len() + 1,
{
    if q.len() < 64 {
        assert(queued_behind(q, w) =~= q.push(w));
    } else if q.len() == 64 {
        assert(queued_behind(q, w) =~= q.drop_first().push(w));
    }
}

/// An acknowledgement takes out the message that it names, where it is for whom it came from,
/// and leaves every other message of everyone in its place.
pub proof fn an_acknowledgement_takes_one(
    book: Map<Seq<char>, Seq<WaitingView>>,
    address: Seq<char>,
    i: int,
    other: Seq<char>,
)
    requires
        book.contains_key(address),
        0 <= i < book[address].len(),
        forall|j: int| 0 <= j < i ==> (#[trigger] book[address][j]).id != book[address][i].id,
        other != address,
    ensures
        ({
            let after = after_delivered(book, address, book[address][i].id);
            &&& waiting_at(after, address) == book[address].take(i) + book[address].skip(i + 1)
            &&& waiting_at(after, other) == waiting_at(book, other)
            &&& after.contains_key(other) == book.contains_key(other)
            &&& after.contains_key(address) <==> book[address].len() > 1
        }),
{
    let q = book[address];
    stands_first(q, i);
    assert(q.remove(i) =~= q.take(i) + q.skip(i + 1));
}

/// An acknowledgement of what does not wait for its sender changes nothing.
pub proof fn a_stray_acknowledgement_takes_nothing(
    book: Map<Seq<char>, Seq<WaitingView>>,
    address: Seq<char>,
    id: u64,
)
    requires
        forall|j: int|
            0 <= j < waiting_at(book, address).len() ==> (#[trigger] waiting_at(
                book,
                address,
            )[j]).id != id,
    ensures
        after_delivered(book, address, id) == book,
{
    stands_nowhere(waiting_at(book, address), id);
}

proof fn stands_first(q: Seq<WaitingView>, i: int)
    requires
        0 <= i < q.len(),
        forall|j: int| 0 <= j < i ==> (#[trigger] q[j]).id != q[i].id,
    ensures
        place_of_id(q, q[i].id) == i,
    decreases q.len(),
{
    if i > 0 {
        let t = q.drop_first();
        assert(q[0].id != q[i].id);
        assert(t[i - 1] == q[i]);
        assert forall|j: int| 0 <= j < i - 1 implies (#[trigger] t[j]).id != t[i - 1].id by {
            assert(t[j] == q[j + 1]);
        }
        stands_first(t, i - 1);
    }
}

proof fn stands_nowhere(q: Seq<WaitingView>, id: u64)
    requires
        forall|j: int| 0 <= j < q.len() ==> (#[trigger] q[j]).id != id,
    ensures
        place_of_id(q, id) == q.len(),
    decreases q.len(),
{
    if q.len() > 0 {
        let t = q.drop_first();
        assert(q[0].id != id);
        assert forall|j: int| 0 <= j < t.len() implies (#[trigger] t[j]).id != id by {
            assert(t[j] == q[j + 1]);
        }
        stands_nowhere(t, id);
    }
}

/// A message travels under the number, with the time and in the words that it was kept with.
pub proof fn a_message_travels_as_kept(w: WaitingView)
    ensures
        left_frame(w) is Left,
        left_frame(w)->id == w.id,
        left_frame(w)->at == w.at,
        left_frame(w)->body == w.body,
{
}

/// The messages of all queues are those of each.
pub proof fn every_queue_counts(queues: Seq<QueueView>, i: int)
    requires
        0 <= i < queues.len(),
    ensures
        total(queues) == total(queues.remove(i)) + queues[i].1.len(),
        total(Seq::empty()) == 0,
    decreases queues.len(),
{
    let t = queues.drop_last();
    if i == queues.len() - 1 {
        assert(queues.remove(i) =~= t);
    } else {
        every_queue_counts(t, i);
        let r = queues.remove(i);
        assert(r.last() == queues.last());
        assert(r.drop_last() =~= t.remove(i));
    }
}

/// How long ago something was, is told in whole units that have passed: never more than it was,
/// and less than one unit short of it.
pub proof fn an_age_is_told_in_whole_units(seconds: u64)
    ensures
        seconds <= 90 ==> age_text(seconds) == "just now"@,
        90 < seconds <= 5400 ==> exists|n: nat| #[trigger]
            decimal_text(n) + " minutes ago"@ == age_text(seconds) && n * 60 <= seconds < (n + 1)
                * 60,
        5400 < seconds <= 172800 ==> exists|n: nat| #[trigger]
            decimal_text(n) + " hours ago"@ == age_text(seconds) && n * 3600 <= seconds < (n + 1)
                * 3600,
        seconds > 172800 ==> exists|n: nat| #[trigger]
            decimal_text(n) + " days ago"@ == age_text(seconds) && n * 86400 <= seconds < (n + 1)
                * 86400,
{
    let s = seconds as nat;
    let (m, h, d) = (s / 60, s / 3600, s / 86400);
    assert(decimal_text(m) + " minutes ago"@ == decimal_text(m) + " minutes ago"@);
    assert(m * 60 <= s < (m + 1) * 60);
    assert(h * 3600 <= s < (h + 1) * 3600);
    assert(d * 86400 <= s < (d + 1) * 86400);
    if 90 < seconds <= 5400 {
        assert(decimal_text(m) + " minutes ago"@ == age_text(seconds));
    } else if 5400 < seconds <= 172800 {
        assert(decimal_text(h) + " hours ago"@ == age_text(seconds));
    } else if seconds > 172800 {
        assert(decimal_text(d) + " days ago"@ == age_text(seconds));
    }
}

// --- open connections -----------------------------------------------------------------

/// What is done about one peer leaves everyone else's connections, dials and frames alone.
pub proof fn one_peer_s_connection_is_theirs(
    p: PoolView,
    peer: PeerId,
    msg: Message,
    other: PeerId,
    dial: bool,
    link: bool,
)
    requires
        other != peer,
    ensures
        ({
            let same = |q: PoolView|
                {
                    &&& q.idle.contains(other) == p.idle.contains(other)
                    &&& q.dialling.contains(other) == p.dialling.contains(other)
                    &&& held_for(q, other) == held_for(p, other)
                };
            &&& same(kept(p, peer))
            &&& same(held(p, peer, msg))
            &&& same(forgotten(p, peer))
            &&& same(retained(p, peer, dial, link))
        }),
{
}

/// A frame waits behind at most three others, in the order in which they came; one too many is
/// not kept, and none that waits already is lost for it. A connection that lands takes them all.
pub proof fn a_frame_waits_for_its_connection(p: PoolView, peer: PeerId, msg: Message)
    ensures
        held_for(p, peer).len() < 4 ==> held_for(held(p, peer, msg), peer) == held_for(
            p,
            peer,
        ).push(msg),
        held_for(p, peer).len() >= 4 ==> held_for(held(p, peer, msg), peer) == held_for(p, peer),
        held(p, peer, msg).idle == p.idle,
        held(p, peer, msg).dialling == p.dialling,
        held_for(kept(p, peer), peer).len() == 0,
        kept(p, peer).idle.contains(peer),
        kept(p, peer).dialling == p.dialling,
{
}

/// What could not be let go is there again, as it was.
pub proof fn what_was_not_let_go_is_back(p: PoolView, peer: PeerId)
    ensures
        ({
            let dial = p.dialling.contains(peer);
            let link = p.idle.contains(peer);
            let back = retained(forgotten(p, peer), peer, dial, link);
            &&& back.idle == p.idle
            &&& back.dialling == p.dialling
            &&& held_for(back, peer).len() == 0
        }),
{
    let dial = p.dialling.contains(peer);
    let link = p.idle.contains(peer);
    let back = retained(forgotten(p, peer), peer, dial, link);
    assert(back.idle =~= p.idle);
    assert(back.dialling =~= p.dialling);
}

} // verus!
