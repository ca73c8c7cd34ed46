//! Messages left for somebody who is out: kept, delivered, shown once, let go.

use vstd::prelude::*;
use vstd::string::*;

use crate::command::CommandView;
use crate::contacts::{name_for, EntryView};
use crate::crypto::{onion_key, onion_text};
use crate::files::shown_text;
use crate::identity::PeerId;
use crate::message::{Message, MessageView};
use crate::outbox::{age_text, WaitingView};
use crate::presence::Presence;
use crate::proto::utf8_len;
use crate::session::{
    after_command, after_connected, after_heard, after_reached, named, peer_from, DoView,
    SessionView,
};
use crate::text::trim;
use crate::ui::Kind;

verus! {

/// What waits in the outbox for a peer.
pub open spec fn queue_for(s: SessionView, peer: PeerId) -> Seq<WaitingView> {
    let address = trim(onion_text(peer@));
    if s.outbox.contains_key(address) {
        s.outbox[address]
    } else {
        Seq::empty()
    }
}

/// The frames that wait for a connection to a peer.
pub open spec fn frames_held(s: SessionView, peer: PeerId) -> Seq<Message> {
    if s.pool.waiting.contains_key(peer) {
        s.pool.waiting[peer]
    } else {
        Seq::empty()
    }
}

/// These things, from `at` on to their end, put all of `q` on the wire: one line that says so,
/// then every message once, oldest first, with its id, its time and its words. Of an empty
/// queue nothing is said.
pub open spec fn delivers_all(acts: Seq<DoView>, at: int, peer: PeerId, q: Seq<WaitingView>) -> bool {
    if q.len() == 0 {
        acts.len() == at
    } else {
        &&& acts.len() == at + 1 + q.len()
        &&& acts[at] is Say
        &&& forall|i: int|
            0 <= i < q.len() ==> acts[at + 1 + i] == DoView::Write(
                peer,
                MessageView::Left {
                    id: (#[trigger] q[i]).id,
                    at: q[i].at,
                    body: q[i].body,
                },
            )
    }
}

/// The presence of the contact that a peer is known as is agreed.
pub open spec fn watched(s: SessionView, names: Seq<EntryView>, peer: PeerId) -> bool {
    let key = trim(named(names, peer));
    s.book.contains_key(key) && s.book[key].presence == Presence::On
}

/// Somebody connects. What was held for them goes out first, in order; then, exactly if we
/// watch them and they were not connected before, it is said that they are online; then
/// everything that waits in the outbox for them goes out. Nothing of it is let go, and the one
/// thing that changes is that they are connected and nothing is held for them any more.
pub proof fn an_arrival_is_told_and_served(s: SessionView, names: Seq<EntryView>, peer: PeerId)
    ensures
        ({
            let (t, acts) = after_connected(s, names, peer);
            let held = frames_held(s, peer);
            let online = watched(s, names, peer) && !s.pool.idle.contains(peer);
            let line = DoView::Say(Kind::System, "-- "@ + named(names, peer) + " is online --"@);
            let n = held.len() as int;
            &&& forall|i: int| 0 <= i < n ==> acts[i] == DoView::Write(peer, (#[trigger] held[i])@)
            &&& online ==> acts[n] == line && delivers_all(acts, n + 1, peer, queue_for(s, peer))
            &&& !online ==> delivers_all(acts, n, peer, queue_for(s, peer))
            &&& t.outbox == s.outbox && t.book == s.book && t.next == s.next && t.ringing
                == s.ringing
            &&& t.pool.dialling == s.pool.dialling
            &&& t.pool.idle == s.pool.idle.insert(peer)
            &&& t.pool.waiting == s.pool.waiting.remove(peer)
        }),
{
    let acts = after_connected(s, names, peer).1;
    let held = frames_held(s, peer);
    let q = queue_for(s, peer);
    assert(forall|i: int| 0 <= i < held.len() ==> acts[i] == DoView::Write(peer, (#[trigger] held[i])@));
}

/// A dial that lands tells that they are online, and delivers everything that waits for them.
pub proof fn a_dial_that_lands_delivers(s: SessionView, names: Seq<EntryView>, peer: PeerId)
    ensures
        ({
            let acts = after_reached(s, names, peer);
            &&& acts.len() > 0
            &&& acts[0] == DoView::Say(
                Kind::System,
                "-- "@ + named(names, peer) + " is online --"@,
            )
            &&& delivers_all(acts, 1, peer, queue_for(s, peer))
        }),
{
}

/// A message is written down at the end of what waits for its recipient, with the next id, the
/// time and the words, before anything else is done; nobody else's queue changes. To whoever is
/// connected everything that waits goes out at once, the new message last; to nobody else is
/// anything written.
pub proof fn a_message_told_is_kept_and_sent(
    s: SessionView,
    names: Seq<EntryView>,
    name: Seq<char>,
    body: Seq<char>,
    address: Seq<char>,
    key: Seq<char>,
    now: u64,
    other: Seq<char>,
)
    requires
        s.book.contains_key(trim(name)),
        onion_key(s.book[trim(name)].address) is Some,
        s.next < u64::MAX,
        utf8_len(body) <= 32768,
    ensures
        ({
            let (t, acts) = after_command(s, names, CommandView::Tell(name, body), address, key, now);
            let to = trim(s.book[trim(name)].address);
            let peer = peer_from(onion_key(s.book[trim(name)].address)->0);
            let w = WaitingView { id: s.next, at: now, body };
            &&& acts[0] == DoView::SaveOutbox
            &&& t.next == s.next + 1
            &&& t.book == s.book && t.ringing == s.ringing
            &&& t.outbox.contains_key(to) && t.outbox[to].len() > 0 && t.outbox[to].last() == w
            &&& s.outbox.contains_key(to) && s.outbox[to].len() < 64 ==> t.outbox[to]
                == s.outbox[to].push(w)
            &&& s.outbox.contains_key(to) && s.outbox[to].len() == 64 ==> t.outbox[to]
                == s.outbox[to].drop_first().push(w)
            &&& !s.outbox.contains_key(to) ==> t.outbox[to] == seq![w]
            &&& other != to ==> (t.outbox.contains_key(other) <==> s.outbox.contains_key(other))
            &&& other != to && s.outbox.contains_key(other) ==> t.outbox[other] == s.outbox[other]
            &&& s.pool.idle.contains(peer) ==> {
                &&& t.pool == s.pool
                &&& exists|at: int|
                    0 < at <= 3 && #[trigger] delivers_all(acts, at, peer, queue_for(t, peer))
            }
            &&& !s.pool.idle.contains(peer) ==> {
                &&& forall|i: int| 0 <= i < acts.len() ==> !((#[trigger] acts[i]) is Write)
                &&& acts.contains(DoView::Dial(peer)) <==> s.book[trim(name)].presence == Presence::On
                    && !s.pool.dialling.contains(peer)
                &&& t.pool.idle == s.pool.idle && t.pool.waiting == s.pool.waiting
            }
        }),
{
    let (t, acts) = after_command(s, names, CommandView::Tell(name, body), address, key, now);
    let to = trim(s.book[trim(name)].address);
    let peer = peer_from(onion_key(s.book[trim(name)].address)->0);
    let w = WaitingView { id: s.next, at: now, body };
    let q = if s.outbox.contains_key(to) {
        s.outbox[to]
    } else {
        Seq::empty()
    };
    crate::outbox::the_queue_is_capped(q, w);
    if !s.outbox.contains_key(to) {
        assert(t.outbox[to] =~= seq![w]);
    }
    let first: int = if q.len() + 1 > 64 {
        3
    } else {
        2
    };
    if s.pool.idle.contains(peer) {
        assert(delivers_all(acts, first, peer, queue_for(t, peer)));
    } else if s.book[trim(name)].presence == Presence::On && !s.pool.dialling.contains(peer) {
        assert(acts[first + 1] == DoView::Dial(peer));
    }
}

/// A message that somebody we know left is shown, with how old it is and its words cleaned, if
/// it is new: if its id is not below the mark of what we have from them. The mark then stands
/// behind it, and nothing else about them changes. In any case it is acknowledged, over the
/// connection where there is one, and nobody else's entry is touched.
pub proof fn a_new_message_is_shown_and_acknowledged(
    s: SessionView,
    names: Seq<EntryView>,
    peer: PeerId,
    name: Seq<char>,
    w: WaitingView,
    now: u64,
)
    requires
        name_for(names, trim(onion_text(peer@))) == Some(name),
        s.book.contains_key(trim(name)),
        w.id < u64::MAX,
        s.pool.idle.contains(peer),
    ensures
        ({
            let m = MessageView::Left { id: w.id, at: w.at, body: w.body };
            let (t, acts) = after_heard(s, names, peer, m, now);
            let c = s.book[trim(name)];
            let age: u64 = if now >= w.at {
                (now - w.at) as u64
            } else {
                0
            };
            let line = name + " ("@ + age_text(age) + ")> "@ + shown_text(w.body);
            &&& acts.last() == DoView::Write(peer, MessageView::Got(w.id))
            &&& t == (SessionView { book: t.book, ..s })
            &&& w.id >= c.seen ==> {
                &&& acts.len() == 2
                &&& acts[0] == DoView::SaveAndSay(Kind::Theirs, line)
                &&& t.book == s.book.insert(
                    trim(name),
                    crate::contacts::ContactView { seen: (w.id + 1) as u64, ..c },
                )
            }
            &&& w.id < c.seen ==> acts.len() == 1 && t.book == s.book
        }),
{
    let m = MessageView::Left { id: w.id, at: w.at, body: w.body };
    let (t, acts) = after_heard(s, names, peer, m, now);
    if w.id < s.book[trim(name)].seen {
        assert(t.book =~= s.book);
    }
}

/// The recipient's side once these messages have come in, one after the other.
pub open spec fn having_heard(
    s: SessionView,
    names: Seq<EntryView>,
    peer: PeerId,
    q: Seq<WaitingView>,
    now: u64,
) -> SessionView
    decreases q.len(),
{
    if q.len() == 0 {
        s
    } else {
        let before = having_heard(s, names, peer, q.drop_last(), now);
        let w = q.last();
        after_heard(
            before,
            names,
            peer,
            MessageView::Left { id: w.id, at: w.at, body: w.body },
            now,
        ).0
    }
}

/// A delivery loses nothing: where somebody's queue, in the order in which it was written, comes
/// in whole, every message in it that is new to the recipient is shown, each when its turn
/// comes; and when the queue comes again none is.
pub proof fn a_delivery_is_shown_whole_and_once(
    s: SessionView,
    names: Seq<EntryView>,
    peer: PeerId,
    name: Seq<char>,
    q: Seq<WaitingView>,
    now: u64,
    i: int,
)
    requires
        name_for(names, trim(onion_text(peer@))) == Some(name),
        s.book.contains_key(trim(name)),
        s.pool.idle.contains(peer),
        forall|j: int, k: int| 0 <= j < k < q.len() ==> (#[trigger] q[j]).id < (#[trigger] q[k]).id,
        forall|j: int| 0 <= j < q.len() ==> s.book[trim(name)].seen <= (#[trigger] q[j]).id < u64::MAX,
        0 <= i < q.len(),
    ensures
        ({
            let m = MessageView::Left { id: q[i].id, at: q[i].at, body: q[i].body };
            let before = having_heard(s, names, peer, q.take(i), now);
            let after = having_heard(s, names, peer, q, now);
            &&& after_heard(before, names, peer, m, now).1.len() == 2
            &&& after_heard(before, names, peer, m, now).1[0] is SaveAndSay
            &&& after_heard(after, names, peer, m, now).1 == seq![
                DoView::Write(peer, MessageView::Got(q[i].id)),
            ]
        }),
{
    let m = MessageView::Left { id: q[i].id, at: q[i].at, body: q[i].body };
    let before = having_heard(s, names, peer, q.take(i), now);
    let after = having_heard(s, names, peer, q, now);
    marks_rise(s, names, peer, name, q.take(i), now);
    marks_rise(s, names, peer, name, q, now);
    if i > 0 {
        assert(q.take(i).last() == q[i - 1]);
    }
    a_new_message_is_shown_and_acknowledged(before, names, peer, name, q[i], now);
    if i < q.len() - 1 {
        assert(q[i].id < q[q.len() - 1].id);
    }
    a_new_message_is_shown_and_acknowledged(after, names, peer, name, q[i], now);
    assert(after_heard(after, names, peer, m, now).1 =~= seq![
        DoView::Write(peer, MessageView::Got(q[i].id)),
    ]);
}

proof fn marks_rise(
    s: SessionView,
    names: Seq<EntryView>,
    peer: PeerId,
    name: Seq<char>,
    q: Seq<WaitingView>,
    now: u64,
)
    requires
        name_for(names, trim(onion_text(peer@))) == Some(name),
        s.book.contains_key(trim(name)),
        s.pool.idle.contains(peer),
        forall|j: int, k: int| 0 <= j < k < q.len() ==> (#[trigger] q[j]).id < (#[trigger] q[k]).id,
        forall|j: int| 0 <= j < q.len() ==> s.book[trim(name)].seen <= (#[trigger] q[j]).id < u64::MAX,
    ensures
        ({
            let t = having_heard(s, names, peer, q, now);
            &&& t == (SessionView { book: t.book, ..s })
            &&& t.book.contains_key(trim(name))
            &&& q.len() == 0 ==> t.book[trim(name)].seen == s.book[trim(name)].seen
            &&& q.len() > 0 ==> t.book[trim(name)].seen == q.last().id + 1
        }),
    decreases q.len(),
{
    if q.len() > 0 {
        let init = q.drop_last();
        assert forall|j: int, k: int| 0 <= j < k < init.len() implies (#[trigger] init[j]).id < (
        #[trigger] init[k]).id by {
            assert(q[j].id < q[k].id);
        }
        assert forall|j: int| 0 <= j < init.len() implies s.book[trim(name)].seen <= (
        #[trigger] init[j]).id < u64::MAX by {
            assert(q[j] == init[j]);
        }
        marks_rise(s, names, peer, name, init, now);
        if init.len() > 0 {
            assert(q[init.len() - 1].id < q[q.len() - 1].id);
        }
        let before = having_heard(s, names, peer, init, now);
        assert(q[q.len() - 1] == q.last());
        a_new_message_is_shown_and_acknowledged(before, names, peer, name, q.last(), now);
    }
}

/// An acknowledgement lets go of the message it names, and of no other, for no other address;
/// that everything arrived is said exactly when nothing is left. One that names nothing that
/// waits does nothing.
pub proof fn an_acknowledgement_lets_go_of_one(
    s: SessionView,
    names: Seq<EntryView>,
    peer: PeerId,
    id: u64,
    k: int,
    now: u64,
)
    requires
        0 <= k < queue_for(s, peer).len(),
        queue_for(s, peer)[k].id == id,
        forall|i: int| 0 <= i < k ==> (#[trigger] queue_for(s, peer)[i]).id != id,
    ensures
        ({
            let (t, acts) = after_heard(s, names, peer, MessageView::Got(id), now);
            let a = trim(onion_text(peer@));
            let q = queue_for(s, peer);
            &&& queue_for(t, peer) == q.remove(k)
            &&& t == (SessionView { outbox: t.outbox, ..s })
            &&& t.outbox.remove(a) == s.outbox.remove(a)
            &&& acts[0] == DoView::SaveOutbox
            &&& acts.len() == if q.len() == 1 {
                2int
            } else {
                1
            }
            &&& forall|i: int| 1 <= i < acts.len() ==> (#[trigger] acts[i]) is Say
        }),
{
    let a = trim(onion_text(peer@));
    let q = queue_for(s, peer);
    let (t, acts) = after_heard(s, names, peer, MessageView::Got(id), now);
    id_stands_first(q, id, k);
    assert(t.outbox.remove(a) =~= s.outbox.remove(a));
    if q.len() == 1 {
        assert(queue_for(t, peer) =~= q.remove(k));
    }
}

proof fn id_stands_first(q: Seq<WaitingView>, id: u64, k: int)
    requires
        0 <= k < q.len(),
        q[k].id == id,
        forall|i: int| 0 <= i < k ==> (#[trigger] q[i]).id != id,
    ensures
        crate::outbox::place_of_id(q, id) == k,
    decreases k,
{
    if k > 0 {
        let t = q.drop_first();
        assert(q[0].id != id);
        assert forall|i: int| 0 <= i < k - 1 implies (#[trigger] t[i]).id != id by {
            assert(q[i + 1].id != id);
        }
        id_stands_first(t, id, k - 1);
    }
}

/// An acknowledgement of nothing that waits does nothing.
pub proof fn an_idle_acknowledgement_does_nothing(
    s: SessionView,
    names: Seq<EntryView>,
    peer: PeerId,
    id: u64,
    now: u64,
)
    requires
        forall|i: int| 0 <= i < queue_for(s, peer).len() ==> (#[trigger] queue_for(s, peer)[i]).id != id,
    ensures
        after_heard(s, names, peer, MessageView::Got(id), now) == (s, Seq::<DoView>::empty()),
{
    id_stands_nowhere(queue_for(s, peer), id);
}

proof fn id_stands_nowhere(q: Seq<WaitingView>, id: u64)
    requires
        forall|i: int| 0 <= i < q.len() ==> (#[trigger] q[i]).id != id,
    ensures
        crate::outbox::place_of_id(q, id) == q.len(),
    decreases q.len(),
{
    if q.len() > 0 {
        let t = q.drop_first();
        assert(q[0].id != id);
        assert forall|i: int| 0 <= i < t.len() implies (#[trigger] t[i]).id != id by {
            assert(q[i + 1].id != id);
        }
        id_stands_nowhere(t, id);
    }
}

} // verus!
