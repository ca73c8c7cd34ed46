//! Calls: placed, announced, answered or turned down, and what is left of them.

use vstd::prelude::*;
use vstd::string::*;

use crate::command::CommandView;
use crate::contacts::EntryView;
use crate::crypto::onion_key;
use crate::identity::PeerId;
use crate::laws::messages::frames_held;
use crate::message::{Message, MessageView};
use crate::pool::PoolView;
use crate::session::{
    after_command, after_heard, after_opening, after_talk, after_waiting, all_put_back, named,
    peer_from, Calling, DoView, RingingView, SessionView,
};
use crate::text::trim;
use crate::typed::Ended;
use crate::ui::Kind;

verus! {

/// The frames that mean somebody starts to talk: all but those about presence and messages left.
pub open spec fn starts_to_talk(m: MessageView) -> bool {
    !(m is PresenceAsk) && !(m is PresenceYes) && !(m is PresenceNo) && !(m is Left) && !(m is Got)
}

/// A call is announced, with whoever it is by name, and held with its first words; nothing is
/// sent, and nobody is talked to. While somebody is calling, another caller is turned down, over
/// the connection where there is one, is named on screen, and does not take the first one's
/// place.
pub proof fn a_call_is_announced_and_held(
    s: SessionView,
    names: Seq<EntryView>,
    peer: PeerId,
    m: MessageView,
    now: u64,
)
    requires
        starts_to_talk(m),
    ensures
        ({
            let (t, acts) = after_heard(s, names, peer, m, now);
            let name = named(names, peer);
            &&& s.ringing is None ==> {
                &&& t == (SessionView {
                    ringing: Some(RingingView { peer, name, first: m }),
                    ..s
                })
                &&& acts == seq![
                    DoView::Say(
                        Kind::System,
                        "-- "@ + name + " is calling — /answer to take it, /decline to refuse --"@,
                    ),
                    DoView::Status(name + " is calling"@),
                ]
            }
            &&& s.ringing is Some ==> {
                &&& t.ringing == s.ringing && t.book == s.book && t.outbox == s.outbox
                &&& s.pool.idle.contains(peer) ==> t.pool == s.pool && acts[0] == DoView::Write(
                    peer,
                    MessageView::CallDecline,
                )
                &&& !s.pool.idle.contains(peer) && frames_held(s, peer).len() < 4 ==> frames_held(
                    t,
                    peer,
                ).last() == Message::CallDecline
                &&& acts.last() == DoView::Say(
                    Kind::System,
                    "-- "@ + name + " called while you were busy --"@,
                )
            }
        }),
{
}

/// Answering talks to whoever is calling, over the connection they called on, beginning with the
/// words that were held; the connection is theirs for as long as the call lasts. Where it is
/// gone, nobody is talked to. In either case nobody is calling any more. With nobody calling
/// there is nothing to answer.
pub proof fn answering_takes_the_call(
    s: SessionView,
    names: Seq<EntryView>,
    address: Seq<char>,
    key: Seq<char>,
    now: u64,
)
    ensures
        ({
            let (t, acts) = after_command(s, names, CommandView::Answer, address, key, now);
            match s.ringing {
                None => t == s && acts.len() == 1 && acts[0] is Say && acts[0]->Say_0
                    == Kind::Error,
                Some(call) => {
                    &&& t.ringing is None
                    &&& t.book == s.book && t.outbox == s.outbox && t.next == s.next
                    &&& s.pool.idle.contains(call.peer) ==> {
                        &&& acts.last() == DoView::Talk(call.peer, call.name, Some(call.first))
                        &&& t.pool == (PoolView { idle: s.pool.idle.remove(call.peer), ..s.pool })
                    }
                    &&& !s.pool.idle.contains(call.peer) ==> t.pool == s.pool && acts.len() == 1
                        && acts[0] is Say && acts[0]->Say_0 == Kind::Error
                },
            }
        }),
{
}

/// Turning a call down tells the caller, shows nothing of what they said, keeps the connection,
/// and leaves nobody calling.
pub proof fn turning_down_tells_the_caller(
    s: SessionView,
    names: Seq<EntryView>,
    address: Seq<char>,
    key: Seq<char>,
    now: u64,
)
    ensures
        ({
            let (t, acts) = after_command(s, names, CommandView::Decline, address, key, now);
            match s.ringing {
                None => t == s && acts.len() == 1 && acts[0] is Say && acts[0]->Say_0
                    == Kind::Error,
                Some(call) => {
                    &&& t.ringing is None
                    &&& t.book == s.book && t.outbox == s.outbox
                    &&& t.pool.idle == s.pool.idle
                    &&& s.pool.idle.contains(call.peer) ==> acts[0] == DoView::Write(
                        call.peer,
                        MessageView::CallDecline,
                    )
                    &&& !s.pool.idle.contains(call.peer) && frames_held(s, call.peer).len() < 4
                        ==> frames_held(t, call.peer).last() == Message::CallDecline
                    &&& forall|i: int|
                        0 <= i < acts.len() ==> !((#[trigger] acts[i]) is Talk) && !(acts[i] is LetGo)
                },
            }
        }),
{
}

/// Calling somebody who is connected talks to them at once over that connection, and dials
/// nobody; calling anybody else dials exactly them. A name that is not in the book, or whose
/// address stands for no key, calls nobody.
pub proof fn a_call_reaches_whom_it_names(
    s: SessionView,
    names: Seq<EntryView>,
    name: Seq<char>,
    address: Seq<char>,
    key: Seq<char>,
    now: u64,
)
    ensures
        ({
            let (t, acts) = after_command(s, names, CommandView::Call(name), address, key, now);
            if s.book.contains_key(trim(name)) && onion_key(s.book[trim(name)].address) is Some {
                let peer = peer_from(onion_key(s.book[trim(name)].address)->0);
                &&& s.pool.idle.contains(peer) ==> {
                    &&& acts.last() == DoView::Talk(peer, name, None)
                    &&& t == (SessionView {
                        pool: PoolView { idle: s.pool.idle.remove(peer), ..s.pool },
                        ..s
                    })
                }
                &&& !s.pool.idle.contains(peer) ==> acts.last() == DoView::Call(peer, name) && t
                    == s
                &&& forall|i: int|
                    0 <= i < acts.len() - 1 ==> (#[trigger] acts[i]) is Say || acts[i] is Status
            } else {
                t == s && acts.len() == 1 && acts[0] is Say && acts[0]->Say_0 == Kind::Error
            }
        }),
{
}

/// A dialled connection is talked over exactly if the far side proved the key that was dialled.
pub proof fn only_the_dialled_is_talked_to(
    dialled: PeerId,
    name: Seq<char>,
    proved: Result<PeerId, Seq<char>>,
)
    ensures
        ({
            let acts = after_opening(dialled, name, proved);
            &&& proved == Ok::<PeerId, Seq<char>>(dialled) ==> acts.last() == DoView::Talk(
                dialled,
                name,
                None,
            )
            &&& proved != Ok::<PeerId, Seq<char>>(dialled) ==> {
                &&& acts.len() == 2
                &&& acts[0] is Say && acts[0]->Say_0 == Kind::Error
                &&& acts[1] == DoView::Status("listening"@)
            }
        }),
{
}

/// While a call is being dialled, `/cancel` gives it up, `/quit` and a lost interface leave the
/// program, and anything else leaves it dialling; nothing that is typed reaches anybody.
pub proof fn nothing_typed_while_dialling_is_sent(line: Option<Seq<char>>, name: Seq<char>)
    ensures
        ({
            let (step, acts) = after_waiting(line, name);
            &&& line is None ==> step == Calling::Quit
            &&& line is Some && trim(line->0) == "/cancel"@ ==> step == Calling::GiveUp
            &&& line is Some && trim(line->0) == "/quit"@ ==> step == Calling::Quit
            &&& line is Some && trim(line->0) != "/cancel"@ && trim(line->0) != "/quit"@ ==> step
                == Calling::Wait
            &&& forall|i: int|
                0 <= i < acts.len() ==> (#[trigger] acts[i]) is Say || acts[i] is Status
        }),
{
    reveal_strlit("/cancel");
    reveal_strlit("/quit");
    assert("/cancel"@.len() == 7);
    assert("/quit"@.len() == 5);
    if line is Some && trim(line->0) == "/quit"@ {
        assert(trim(line->0).len() == 5);
        assert(trim(line->0) != "/cancel"@);
    }
}

/// A call that ends without the peer going away gives the connection back, and what was held
/// for them meanwhile goes out on it, in order; otherwise it is not held. How it ended is said
/// first, and the program goes back to listening, or ends where that was asked for.
pub proof fn a_call_gives_the_connection_back(
    s: SessionView,
    peer: PeerId,
    name: Seq<char>,
    ended: Result<Ended, Seq<char>>,
)
    ensures
        ({
            let (t, acts) = after_talk(s, peer, name, ended);
            let lives = ended is Ok && ended->Ok_0 != Ended::PeerHungUp;
            let leaves = ended is Ok && (ended->Ok_0 == Ended::Quit || ended->Ok_0
                == Ended::InputClosed);
            let held = frames_held(s, peer);
            &&& acts[0] is Say
            &&& ended is Err <==> acts[0]->Say_0 == Kind::Error
            &&& acts.last() == if leaves {
                DoView::Quit
            } else {
                DoView::Status("listening"@)
            }
            &&& t.book == s.book && t.outbox == s.outbox && t.ringing == s.ringing
            &&& lives ==> {
                &&& t.pool.idle == s.pool.idle.insert(peer)
                &&& t.pool.waiting == s.pool.waiting.remove(peer)
                &&& acts.len() == held.len() + 2
                &&& forall|i: int|
                    0 <= i < held.len() ==> acts[1 + i] == DoView::Write(
                        peer,
                        (#[trigger] held[i])@,
                    )
            }
            &&& !lives ==> t == s && acts.len() == 2
        }),
{
    let (t, acts) = after_talk(s, peer, name, ended);
    let held = frames_held(s, peer);
    assert(ended is Ok && ended->Ok_0 != Ended::PeerHungUp ==> forall|i: int|
        0 <= i < held.len() ==> acts[1 + i] == DoView::Write(peer, (#[trigger] held[i])@));
}

/// What was not done does not count as done: a dial that was not made is not on its way, and a
/// connection that was not let go is held.
pub proof fn what_was_not_done_does_not_count(p: PoolView, rest: Seq<DoView>, last: DoView)
    ensures
        all_put_back(p, Seq::empty()) == p,
        ({
            let before = all_put_back(p, rest);
            let q = all_put_back(p, rest.push(last));
            match last {
                DoView::Dial(peer) => q == (PoolView {
                    dialling: before.dialling.remove(peer),
                    ..before
                }),
                DoView::LetGo(peer, dial, link) => {
                    &&& q.waiting == before.waiting
                    &&& q.idle == if link {
                        before.idle.insert(peer)
                    } else {
                        before.idle
                    }
                    &&& q.dialling == if dial {
                        before.dialling.insert(peer)
                    } else {
                        before.dialling
                    }
                },
                _ => q == before,
            }
        }),
{
    assert(rest.push(last).drop_last() =~= rest);
}

} // verus!
