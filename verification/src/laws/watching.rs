//! Presence: agreed by both, told, kept up, and withdrawn by either.

use vstd::prelude::*;
use vstd::string::*;

use crate::contacts::{agreed_of, name_for, ContactView, EntryView};
use crate::crypto::{onion_key, onion_text};
use crate::identity::PeerId;
use crate::laws::messages::{frames_held, watched};
use crate::message::MessageView;
use crate::pool::PoolView;
use crate::presence::{answer_to, leads_to, note_of, Presence, Said};
use crate::session::{
    after_heard, after_lost, after_presence, after_sweep, named, peer_from, peers_of,
    reached_all, DoView, SessionView,
};
use crate::text::trim;
use crate::ui::Kind;

verus! {

/// Asking is agreeing exactly where the other side asked, or an agreement stands; otherwise it
/// is a request. What they are told is a yes to their request, a request where there was none,
/// and nothing where there is nothing new.
pub proof fn asking_answers_or_requests(from: Presence)
    ensures
        leads_to(from, Said::WeAsk) == Presence::On <==> from == Presence::TheyAsked || from
            == Presence::On,
        leads_to(from, Said::WeAsk) == Presence::WeAsked <==> from == Presence::Off || from
            == Presence::WeAsked,
        answer_to(from, Said::WeAsk) == Some(MessageView::PresenceYes) <==> from
            == Presence::TheyAsked,
        answer_to(from, Said::WeAsk) is None <==> from == Presence::On,
        answer_to(from, Said::WeAsk) is Some && from != Presence::TheyAsked ==> answer_to(
            from,
            Said::WeAsk,
        ) == Some(MessageView::PresenceAsk),
{
}

/// Being asked answers itself only where we had asked too, or had agreed; otherwise it waits for
/// us, and nothing is sent. A yes counts only where it was asked for. Neither a yes nor a no is
/// answered.
pub proof fn being_asked_is_not_agreeing(from: Presence)
    ensures
        leads_to(from, Said::TheyAsk) == Presence::On <==> from == Presence::WeAsked || from
            == Presence::On,
        leads_to(from, Said::TheyAsk) == Presence::TheyAsked <==> from == Presence::Off || from
            == Presence::TheyAsked,
        answer_to(from, Said::TheyAsk) == Some(MessageView::PresenceYes) <==> leads_to(
            from,
            Said::TheyAsk,
        ) == Presence::On,
        answer_to(from, Said::TheyAsk) is None <==> leads_to(from, Said::TheyAsk)
            == Presence::TheyAsked,
        leads_to(from, Said::TheyAgree) == Presence::On <==> from == Presence::WeAsked || from
            == Presence::On,
        leads_to(from, Said::TheyAgree) != Presence::On ==> leads_to(from, Said::TheyAgree) == from,
        answer_to(from, Said::TheyAgree) is None,
        answer_to(from, Said::TheyRefuse) is None,
        answer_to(from, Said::WeStop) is None <==> from == Presence::Off,
        note_of(from, Said::TheyAsk, Seq::empty()) is None <==> from == Presence::On,
        note_of(from, Said::TheyAgree, Seq::empty()) is None <==> from == Presence::Off || from
            == Presence::TheyAsked,
        note_of(from, Said::TheyRefuse, Seq::empty()) is None <==> from == Presence::Off,
        note_of(from, Said::WeAsk, Seq::empty()) is Some,
        note_of(from, Said::WeStop, Seq::empty()) is Some,
{
}

/// A presence event moves the one contact it is about, and nothing else in the book; the book is
/// written down exactly if that changed it. What has to be told is written to a peer who is
/// connected, and held for one who is not. A peer who agreed is dialled unless they are
/// connected or being dialled, and nobody else is; at the end of an agreement or a request the
/// connection is let go.
pub proof fn presence_moves_one_contact(s: SessionView, name: Seq<char>, said: Said)
    requires
        s.book.contains_key(trim(name)),
        onion_key(s.book[trim(name)].address) is Some,
    ensures
        ({
            let (t, acts) = after_presence(s, name, said);
            let key = trim(name);
            let was = s.book[key].presence;
            let to = leads_to(was, said);
            let peer = peer_from(onion_key(s.book[key].address)->0);
            let connected = s.pool.idle.contains(peer);
            let ends = to == Presence::Off && was != Presence::Off;
            &&& t.book == s.book.insert(key, ContactView { presence: to, ..s.book[key] })
            &&& t.outbox == s.outbox && t.next == s.next && t.ringing == s.ringing
            &&& acts.contains(DoView::SaveBook) <==> to != was
            &&& to != was ==> acts[0] == DoView::SaveBook
            &&& answer_to(was, said) is Some && connected ==> acts.contains(
                DoView::Write(peer, answer_to(was, said)->0),
            )
            &&& answer_to(was, said) is None || !connected ==> forall|i: int|
                0 <= i < acts.len() ==> !((#[trigger] acts[i]) is Write)
            &&& answer_to(was, said) is Some && !connected && frames_held(s, peer).len() < 4
                ==> frames_held(t, peer).len() > 0 && frames_held(t, peer).last()@ == answer_to(
                was,
                said,
            )->0
            &&& acts.contains(DoView::Dial(peer)) <==> to == Presence::On && !connected
                && !s.pool.dialling.contains(peer)
            &&& to == Presence::On ==> t.pool.idle.contains(peer) || t.pool.dialling.contains(peer)
            &&& ends ==> acts.last() == DoView::LetGo(
                peer,
                s.pool.dialling.contains(peer),
                connected,
            ) && !t.pool.idle.contains(peer) && !t.pool.dialling.contains(peer)
            &&& !ends ==> forall|i: int| 0 <= i < acts.len() ==> !((#[trigger] acts[i]) is LetGo)
            &&& !ends ==> t.pool.idle == s.pool.idle
        }),
{
    let (t, acts) = after_presence(s, name, said);
    let key = trim(name);
    let was = s.book[key].presence;
    let to = leads_to(was, said);
    let peer = peer_from(onion_key(s.book[key].address)->0);
    let connected = s.pool.idle.contains(peer);
    let saved: int = if was != to {
        1
    } else {
        0
    };
    let wrote: int = if answer_to(was, said) is Some && connected {
        1
    } else {
        0
    };
    let noted: int = if note_of(was, said, name) is Some {
        1
    } else {
        0
    };
    if answer_to(was, said) is Some && connected {
        assert(acts[saved] == DoView::Write(peer, answer_to(was, said)->0));
    }
    if to == Presence::On && !connected && !s.pool.dialling.contains(peer) {
        assert(acts[saved + wrote + noted] == DoView::Dial(peer));
    }
    if was != to {
        assert(acts[0] == DoView::SaveBook);
    }
}

/// A presence frame is about whoever sent it: it moves the contact that we know the sender as,
/// and comes to nothing from somebody we do not know.
pub proof fn a_presence_frame_is_about_its_sender(
    s: SessionView,
    names: Seq<EntryView>,
    peer: PeerId,
    now: u64,
)
    ensures
        match name_for(names, trim(onion_text(peer@))) {
            Some(name) => {
                &&& after_heard(s, names, peer, MessageView::PresenceAsk, now) == after_presence(
                    s,
                    name,
                    Said::TheyAsk,
                )
                &&& after_heard(s, names, peer, MessageView::PresenceYes, now) == after_presence(
                    s,
                    name,
                    Said::TheyAgree,
                )
                &&& after_heard(s, names, peer, MessageView::PresenceNo, now) == after_presence(
                    s,
                    name,
                    Said::TheyRefuse,
                )
            },
            None => {
                let nothing = (s, Seq::<DoView>::empty());
                &&& after_heard(s, names, peer, MessageView::PresenceAsk, now) == nothing
                &&& after_heard(s, names, peer, MessageView::PresenceYes, now) == nothing
                &&& after_heard(s, names, peer, MessageView::PresenceNo, now) == nothing
            },
        },
{
}

/// That somebody went offline is said exactly of those whose presence is agreed; where they were
/// calling, that they stopped is said, and there is nobody to answer any more. Nothing else
/// changes.
pub proof fn a_loss_is_told(s: SessionView, names: Seq<EntryView>, peer: PeerId)
    ensures
        ({
            let (t, acts) = after_lost(s, names, peer);
            let name = named(names, peer);
            let calling = s.ringing is Some && s.ringing->0.peer == peer;
            let gone = DoView::Say(Kind::System, "-- "@ + name + " went offline --"@);
            let stopped = DoView::Say(Kind::System, "-- "@ + name + " stopped calling --"@);
            &&& acts == (if watched(s, names, peer) {
                seq![gone]
            } else {
                Seq::empty()
            }) + (if calling {
                seq![stopped, DoView::Status("listening"@)]
            } else {
                Seq::empty()
            })
            &&& t == (SessionView { ringing: t.ringing, ..s })
            &&& calling ==> t.ringing is None
            &&& !calling ==> t.ringing == s.ringing
        }),
{
    let (t, acts) = after_lost(s, names, peer);
    let gone = DoView::Say(
        Kind::System,
        "-- "@ + named(names, peer) + " went offline --"@,
    );
    assert(seq![gone] + Seq::<DoView>::empty() =~= seq![gone]);
    assert(Seq::<DoView>::empty() + Seq::<DoView>::empty() =~= Seq::<DoView>::empty());
    assert(acts =~= (if watched(s, names, peer) {
        seq![gone]
    } else {
        Seq::empty()
    }) + (if s.ringing is Some && s.ringing->0.peer == peer {
        seq![
            DoView::Say(
                Kind::System,
                "-- "@ + named(names, peer) + " stopped calling --"@,
            ),
            DoView::Status("listening"@),
        ]
    } else {
        Seq::empty()
    }));
}

/// The timer looks after everyone who agreed: each of them is then connected or being dialled,
/// whoever was neither is dialled, and nobody is dialled twice.
pub proof fn everyone_agreed_is_looked_after(s: SessionView, names: Seq<EntryView>, k: int)
    requires
        0 <= k < names.len(),
        names[k].1.presence == Presence::On,
        onion_key(names[k].1.address) is Some,
    ensures
        ({
            let (t, acts) = after_sweep(s, names);
            let peer = peer_from(onion_key(names[k].1.address)->0);
            &&& t.pool.idle.contains(peer) || t.pool.dialling.contains(peer)
            &&& acts.contains(DoView::Dial(peer)) <==> !s.pool.idle.contains(peer)
                && !s.pool.dialling.contains(peer)
            &&& t == (SessionView { pool: t.pool, ..s })
            &&& t.pool.idle == s.pool.idle && t.pool.waiting == s.pool.waiting
            &&& forall|i: int, j: int|
                0 <= i < j < acts.len() ==> #[trigger] acts[i] != #[trigger] acts[j]
        }),
{
    let e = names[k];
    crate::contacts::only_the_agreed_are_dialled_ahead(names, e);
    let agreed = agreed_of(names);
    assert(names.contains(e));
    let i = agreed.index_of(e);
    let peer = peer_from(onion_key(e.1.address)->0);
    peers_are_found(agreed, i);
    let peers = peers_of(agreed);
    dials_are_made(s.pool, peers);
}

proof fn peers_are_found(entries: Seq<EntryView>, i: int)
    requires
        0 <= i < entries.len(),
        onion_key(entries[i].1.address) is Some,
    ensures
        peers_of(entries).contains(peer_from(onion_key(entries[i].1.address)->0)),
    decreases entries.len(),
{
    let init = entries.drop_last();
    let peer = peer_from(onion_key(entries[i].1.address)->0);
    if i < init.len() {
        peers_are_found(init, i);
        let j = peers_of(init).index_of(peer);
        assert(peers_of(entries)[j] == peer);
    } else {
        assert(peers_of(entries)[peers_of(init).len() as int] == peer);
    }
}

proof fn dials_are_made(p: PoolView, peers: Seq<PeerId>)
    ensures
        ({
            let (q, acts) = reached_all(p, peers);
            &&& q.idle == p.idle && q.waiting == p.waiting
            &&& forall|peer: PeerId|
                #![trigger q.dialling.contains(peer)]
                q.dialling.contains(peer) <==> p.dialling.contains(peer) || acts.contains(
                    DoView::Dial(peer),
                )
            &&& forall|peer: PeerId|
                #![trigger acts.contains(DoView::Dial(peer))]
                acts.contains(DoView::Dial(peer)) <==> peers.contains(peer) && !p.idle.contains(
                    peer,
                ) && !p.dialling.contains(peer)
            &&& forall|i: int| 0 <= i < acts.len() ==> (#[trigger] acts[i]) is Dial
            &&& forall|i: int, j: int|
                0 <= i < j < acts.len() ==> #[trigger] acts[i] != #[trigger] acts[j]
        }),
    decreases peers.len(),
{
    if peers.len() > 0 {
        let init = peers.drop_last();
        dials_are_made(p, init);
        let (q0, a0) = reached_all(p, init);
        let (q, acts) = reached_all(p, peers);
        let last = peers.last();
        assert(peers[peers.len() - 1] == last);
        assert forall|peer: PeerId| #![trigger peers.contains(peer)]
            peers.contains(peer) <==> init.contains(peer) || peer == last by {
            if init.contains(peer) {
                let i = init.index_of(peer);
                assert(peers[i] == peer);
            }
            if peers.contains(peer) && peer != last {
                let i = peers.index_of(peer);
                assert(init[i] == peer);
            }
        }
        assert forall|peer: PeerId| #![trigger acts.contains(DoView::Dial(peer))]
            acts.contains(DoView::Dial(peer)) <==> a0.contains(DoView::Dial(peer)) || (peer == last
            && acts != a0) by {
            if a0.contains(DoView::Dial(peer)) {
                let i = a0.index_of(DoView::Dial(peer));
                assert(acts[i] == DoView::Dial(peer));
            }
            if acts.contains(DoView::Dial(peer)) {
                let i = acts.index_of(DoView::Dial(peer));
                if i < a0.len() {
                    assert(a0[i] == DoView::Dial(peer));
                }
            }
            if peer == last && acts.len() != a0.len() {
                assert(acts[a0.len() as int] == DoView::Dial(last));
            }
        }
        if q0.idle.contains(last) || q0.dialling.contains(last) {
            assert(acts == a0);
        } else {
            assert(acts.len() != a0.len());
            assert(!a0.contains(DoView::Dial(last)));
        }
    }
}

} // verus!
