//! What the calls on a conversation, a session and the input line promise a caller.

use vstd::prelude::*;
use vstd::string::*;

use crate::chat::{acts, part_views, parts_sized, sound, Act, ActView, Conversation, PostPart};
use crate::command::Command;
use crate::crypto::{onion_key, onion_text};
use crate::identity::PeerId;
use crate::laws::line::{marks_in, marks_of, marks_on, Mark};
use crate::laws::messages::{delivers_all, frames_held, queue_for, watched};
use crate::laws::sending::{file_parts, remembered_as, travels_as};
use crate::laws::transfers::{line_taken, offers_kept, only_says, sends_only};
use crate::laws::words::then_word;
use crate::message::{Direct, Message, MessageView, PieceView};
use crate::outbox::WaitingView;
use crate::screen::{has_file, App};
use crate::session::{dos, named, peer_from, Do, DoView, Session};
use crate::text::{decimal_text, trim};
use crate::typed::Ended;
use crate::ui::{Kind, Typed};

verus! {

// --- answering offers -----------------------------------------------------------------

/// Asking for a file while another is coming in takes nothing and loses nothing: every offer
/// waits on, the operator is told, and nothing goes to the peer.
pub proof fn asking_while_busy_loses_nothing(
    c: &mut Conversation,
    line: &str,
    home: Option<&str>,
    n: usize,
    r: (Vec<Act>, Option<Ended>),
)
    requires
        sound(old(c)@),
        line_taken(old(c)@),
        line@ == "/accept"@ || line@ == then_word("/accept"@, decimal_text(n as nat)),
        call_ensures(Conversation::typed, (c, line, home), r),
    ensures
        final(c)@ == old(c)@,
        only_says(acts(r.0@)),
        r.0@.len() == 1,
        r.1 is None,
{
    let h = match home {
        Some(h) => Some(h@),
        None => None,
    };
    crate::laws::words::an_answer_names_its_offer(n, h);
    crate::laws::transfers::a_busy_line_keeps_every_offer(old(c)@, None);
    crate::laws::transfers::a_busy_line_keeps_every_offer(old(c)@, Some(n));
    assert(acts(r.0@).len() == r.0@.len());
}

/// Asked for by its number while nothing else is coming in, that very offer is taken, and the
/// others wait on.
pub proof fn asking_by_number_takes_that_one(
    c: &mut Conversation,
    line: &str,
    home: Option<&str>,
    n: usize,
    r: (Vec<Act>, Option<Ended>),
)
    requires
        sound(old(c)@),
        !line_taken(old(c)@),
        1 <= n <= old(c)@.pending.len(),
        line@ == then_word("/accept"@, decimal_text(n as nat)),
        call_ensures(Conversation::typed, (c, line, home), r),
    ensures
        acts(r.0@).contains(ActView::Take(old(c)@.pending[n - 1])),
        final(c)@.pending == old(c)@.pending.remove(n - 1),
        r.1 is None,
{
    let h = match home {
        Some(h) => Some(h@),
        None => None,
    };
    crate::laws::words::an_answer_names_its_offer(n, h);
    crate::laws::transfers::an_offer_is_taken_by_its_number(old(c)@, Some(n));
    assert(acts(r.0@)[0] == ActView::Take(old(c)@.pending[n - 1]));
}

/// Whatever is typed, an offer leaves only by being taken or refused.
pub proof fn whatever_is_typed_no_offer_is_lost(
    c: &mut Conversation,
    line: &str,
    home: Option<&str>,
    r: (Vec<Act>, Option<Ended>),
)
    requires
        sound(old(c)@),
        call_ensures(Conversation::typed, (c, line, home), r),
    ensures
        offers_kept(old(c)@, final(c)@, acts(r.0@)),
{
    let h = match home {
        Some(h) => Some(h@),
        None => None,
    };
    crate::laws::transfers::an_offer_leaves_only_when_answered(
        old(c)@,
        crate::typed::classified(line@, h),
    );
}

// --- sending --------------------------------------------------------------------------

/// A message with files goes out as one frame that says whether they are to travel outside Tor,
/// and each file in it is remembered under exactly that route.
pub proof fn a_message_says_how_its_files_travel(
    c: &mut Conversation,
    parts: Vec<PostPart>,
    direct: bool,
    r: Vec<Act>,
)
    requires
        sound(old(c)@),
        parts_sized(part_views(parts@)),
        parts@.len() > 0,
        call_ensures(Conversation::post, (c, parts, direct), r),
    ensures
        ({
            let files = file_parts(part_views(parts@));
            let n = old(c)@.offered.len() as int;
            &&& exists|pieces: Seq<PieceView>|
                {
                    &&& #[trigger] sends_only(acts(r@), MessageView::Post { pieces, direct })
                    &&& pieces.len() == parts@.len()
                    &&& forall|i: int|
                        0 <= i < parts@.len() ==> travels_as((#[trigger] parts@[i])@, pieces[i])
                }
            &&& final(c)@.offered.len() == n + files.len()
            &&& final(c)@.offered.take(n) == old(c)@.offered
            &&& forall|i: int|
                0 <= i < files.len() ==> remembered_as(
                    #[trigger] files[i],
                    final(c)@.offered[n + i],
                    direct,
                )
        }),
{
    let ps = part_views(parts@);
    crate::laws::sending::a_message_goes_out_as_it_was_composed(old(c)@, ps, direct);
    let pieces = choose|pieces: Seq<PieceView>|
        {
            &&& #[trigger] sends_only(acts(r@), MessageView::Post { pieces, direct })
            &&& pieces.len() == ps.len()
            &&& forall|i: int| 0 <= i < ps.len() ==> travels_as(#[trigger] ps[i], pieces[i])
        };
    assert forall|i: int| 0 <= i < parts@.len() implies travels_as(
        (#[trigger] parts@[i])@,
        pieces[i],
    ) by {
        assert(ps[i] == parts@[i]@);
    }
    assert(sends_only(acts(r@), MessageView::Post { pieces, direct }));
}

/// A message that asked for a direct link can be answered with one: the answer leads to that
/// link, and the conversation goes on.
pub proof fn a_direct_answer_is_dialled(
    c: &mut Conversation,
    d: &mut Conversation,
    parts: Vec<PostPart>,
    k: int,
    posted: Vec<Act>,
    answer: Message,
    link: Direct,
    peer: &str,
    partials: &[Option<u64>],
    r: (Vec<Act>, Option<Ended>),
)
    requires
        sound(old(c)@),
        parts_sized(part_views(parts@)),
        old(c)@.sending is None,
        old(c)@.offered.len() == 0,
        0 <= k < parts@.len(),
        parts@[k] is File,
        forall|i: int|
            0 <= i < parts@.len() && (#[trigger] parts@[i]) is File ==> answer@->offset
                <= parts@[i]->File_1.size,
        call_ensures(Conversation::post, (c, parts, true), posted),
        *old(d) == *final(c),
        answer@ is FileAccept,
        answer@->FileAccept_hash == parts@[k]->File_1.hash@,
        answer@->FileAccept_direct == Some(link@),
        call_ensures(Conversation::handle, (d, answer, peer, partials), r),
    ensures
        acts(r.0@).contains(ActView::Dial(link@)),
        r.1 is None,
        final(d)@.sending is Some,
{
    let ps = part_views(parts@);
    assert forall|i: int|
        0 <= i < ps.len() && (#[trigger] ps[i]) is File implies answer@->offset
        <= ps[i]->File_1.size by {
        assert(ps[i] == parts@[i]@);
        assert(parts@[i] is File);
    }
    assert(ps[k] == parts@[k]@);
    assert(answer@ == (MessageView::FileAccept {
        hash: ps[k]->File_1.hash,
        offset: answer@->offset,
        direct: Some(link@),
    }));
    crate::laws::sending::a_direct_message_may_be_answered_directly(
        old(c)@,
        ps,
        k,
        answer@->offset,
        link@,
        peer@,
        partials@,
    );
}

// --- leaving messages -----------------------------------------------------------------

/// Somebody connects: whatever waited for them goes out, all of it, in order, once; and it is
/// said that they are online exactly if both agreed to that and they were not connected before.
pub proof fn a_connection_delivers_and_is_told(s: &mut Session, peer: PeerId, r: Vec<Do>)
    requires
        old(s).wf(),
        call_ensures(Session::connected, (s, peer), r),
    ensures
        ({
            let names = old(s).book.entries();
            let held = frames_held(old(s)@, peer);
            let online = watched(old(s)@, names, peer) && !old(s)@.pool.idle.contains(peer);
            let line = DoView::Say(Kind::System, "-- "@ + named(names, peer) + " is online --"@);
            let n = held.len() as int;
            let q = queue_for(old(s)@, peer);
            &&& forall|i: int|
                0 <= i < n ==> dos(r@)[i] == DoView::Write(peer, (#[trigger] held[i])@)
            &&& online ==> dos(r@)[n] == line && delivers_all(dos(r@), n + 1, peer, q)
            &&& !online ==> delivers_all(dos(r@), n, peer, q)
            &&& final(s)@.outbox == old(s)@.outbox
            &&& final(s)@.pool.idle == old(s)@.pool.idle.insert(peer)
        }),
{
    crate::laws::messages::an_arrival_is_told_and_served(
        old(s)@,
        old(s).book.entries(),
        peer,
    );
}

/// A dial ahead that lands says that they are online and delivers everything that waits.
pub proof fn a_dial_ahead_delivers(s: &Session, peer: &PeerId, r: Vec<Do>)
    requires
        s.wf(),
        call_ensures(Session::reached, (s, peer), r),
    ensures
        r@.len() > 0,
        dos(r@)[0] == DoView::Say(
            Kind::System,
            "-- "@ + named(s.book.entries(), *peer) + " is online --"@,
        ),
        delivers_all(dos(r@), 1, *peer, queue_for(s@, *peer)),
{
    crate::laws::messages::a_dial_that_lands_delivers(s@, s.book.entries(), *peer);
    assert(dos(r@).len() == r@.len());
}

/// A message left for somebody who is connected goes out at once, behind what waited for them;
/// for somebody who is not it waits, and goes out with the rest when they connect.
pub proof fn a_message_left_goes_out(
    s: &mut Session,
    t: &mut Session,
    c: Command,
    name: String,
    body: String,
    address: &str,
    key: &str,
    now: u64,
    r: Vec<Do>,
    later: Vec<Do>,
)
    requires
        old(s).wf(),
        c == Command::Tell(name, body),
        old(s)@.book.contains_key(trim(name@)),
        onion_key(old(s)@.book[trim(name@)].address) is Some,
        old(s)@.next < u64::MAX,
        crate::proto::utf8_len(body@) <= 32768,
        call_ensures(Session::command, (s, c, address, key, now), r),
        *old(t) == *final(s),
        call_ensures(
            Session::connected,
            (t, peer_from(onion_key(old(s)@.book[trim(name@)].address)->0)),
            later,
        ),
        trim(onion_text(peer_from(onion_key(old(s)@.book[trim(name@)].address)->0)@)) == trim(
            old(s)@.book[trim(name@)].address,
        ),
    ensures
        ({
            let peer = peer_from(onion_key(old(s)@.book[trim(name@)].address)->0);
            let frame = DoView::Write(
                peer,
                MessageView::Left { id: old(s)@.next, at: now, body: body@ },
            );
            &&& dos(r@)[0] == DoView::SaveOutbox
            &&& old(s)@.pool.idle.contains(peer) ==> dos(r@).last() == frame
            &&& !old(s)@.pool.idle.contains(peer) ==> forall|i: int|
                0 <= i < r@.len() ==> !((#[trigger] dos(r@)[i]) is Write)
            &&& dos(later@).last() == frame
        }),
{
    let names = old(s).book.entries();
    let peer = peer_from(onion_key(old(s)@.book[trim(name@)].address)->0);
    let to = trim(old(s)@.book[trim(name@)].address);
    crate::laws::messages::a_message_told_is_kept_and_sent(
        old(s)@,
        names,
        name@,
        body@,
        address@,
        key@,
        now,
        Seq::empty(),
    );
    crate::laws::messages::an_arrival_is_told_and_served(final(s)@, old(t).book.entries(), peer);
    let q = queue_for(final(s)@, peer);
    assert(q.last() == (WaitingView { id: old(s)@.next, at: now, body: body@ }));
    assert(q[q.len() - 1] == q.last());
    if old(s)@.pool.idle.contains(peer) {
        let at = choose|at: int| 0 < at <= 3 && #[trigger] delivers_all(dos(r@), at, peer, q);
        assert(delivers_all(dos(r@), at, peer, q));
    }
}

// --- the input line -------------------------------------------------------------------

/// What Enter hands over is what was on the line: every character that is no white space and
/// every file, in order, and nothing else; and the line is then empty.
pub proof fn enter_hands_over_the_whole_line(a: &mut App, typed: Option<Typed>)
    requires
        call_ensures(App::compose, (a,), typed),
    ensures
        final(a).items@.len() == 0,
        final(a).cursor == 0,
        has_file(old(a).items@) <==> typed is Some && typed->0 is Post,
        match typed {
            None => marks_on(old(a).items@) == Seq::<Mark>::empty(),
            Some(Typed::Line(s)) => marks_on(old(a).items@) == marks_of(s@),
            Some(Typed::Post { parts, direct }) => marks_on(old(a).items@) == (if direct {
                marks_of("/direct"@)
            } else {
                Seq::empty()
            }) + marks_in(crate::screen::part_views(parts@)),
        },
{
    crate::laws::line::composing_loses_nothing(old(a).items@, typed);
    crate::laws::line::files_make_it_a_message(old(a).items@, typed);
}

} // verus!
