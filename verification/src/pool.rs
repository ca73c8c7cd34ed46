//! Connections kept open between calls: which there are, which are on their way, and what
//! waits for one.
//!
//! The connections themselves belong to whoever runs them. Nothing is dialled that was not
//! asked for by name.

use vstd::prelude::*;

use crate::identity::PeerId;
use crate::message::Message;
use crate::peers::{same_peer, PeerMap};

verus! {

/// How long one background dial may take before it is given up on, in seconds.
pub const DIAL_AHEAD: u64 = 120;

/// How many frames may wait for a connection that does not exist yet.
pub const WAITING: usize = 4;

/// What one turn of waiting found.
#[derive(Debug, PartialEq, Eq)]
pub enum Heard {
    /// A frame arrived on a connection nobody was talking over: a call starting.
    Frame(PeerId, Message),
    /// A connection ended, and is no longer held.
    Lost(PeerId),
    /// A background dial landed, and that contact is now reachable instantly.
    Reached(PeerId),
}

/// One turn of the wait, before anything has been done about it.
#[derive(Debug)]
pub enum Seen {
    /// A frame on a connection we hold.
    Frame(PeerId, Message),
    /// A connection we held ended, cleanly or not.
    Ended(PeerId),
    /// A dial to the first came to an end; the second is who the far side proved to be, if
    /// it came that far.
    Landed(PeerId, Option<PeerId>),
}

/// Every connection that is open but not in use, every dial in flight, and what waits.
#[derive(Debug)]
pub struct Pool {
    pub idle: PeerMap<()>,
    pub dialling: PeerMap<()>,
    pub waiting: PeerMap<Vec<Message>>,
}

/// The same by its values.
#[verifier::ext_equal]
pub struct PoolView {
    pub idle: Set<PeerId>,
    pub dialling: Set<PeerId>,
    pub waiting: Map<PeerId, Seq<Message>>,
}

impl View for Pool {
    type V = PoolView;

    open spec fn view(&self) -> PoolView {
        PoolView {
            idle: self.idle.map().dom(),
            dialling: self.dialling.map().dom(),
            waiting: queues(self.waiting.map()),
        }
    }
}

/// Queues by what is in them.
pub open spec fn queues(m: Map<PeerId, Vec<Message>>) -> Map<PeerId, Seq<Message>> {
    Map::new(|k: PeerId| m.contains_key(k), |k: PeerId| m[k]@)
}

/// What waits for a peer.
pub open spec fn held_for(p: PoolView, peer: PeerId) -> Seq<Message> {
    if p.waiting.contains_key(peer) {
        p.waiting[peer]
    } else {
        Seq::empty()
    }
}

/// A connection to a peer is held: what waited for it goes out on it.
pub open spec fn kept(p: PoolView, peer: PeerId) -> PoolView {
    PoolView { idle: p.idle.insert(peer), waiting: p.waiting.remove(peer), ..p }
}

/// A frame waits for a connection, if there is still room for it.
pub open spec fn held(p: PoolView, peer: PeerId, msg: Message) -> PoolView {
    let q = held_for(p, peer);
    PoolView {
        waiting: p.waiting.insert(
            peer,
            if q.len() < WAITING {
                q.push(msg)
            } else {
                q
            },
        ),
        ..p
    }
}

/// Everything to do with a peer is dropped.
pub open spec fn forgotten(p: PoolView, peer: PeerId) -> PoolView {
    PoolView {
        idle: p.idle.remove(peer),
        dialling: p.dialling.remove(peer),
        waiting: p.waiting.remove(peer),
    }
}

/// A dial and a connection that were to be let go are still there.
pub open spec fn retained(p: PoolView, peer: PeerId, dial: bool, link: bool) -> PoolView {
    PoolView {
        idle: if link {
            p.idle.insert(peer)
        } else {
            p.idle
        },
        dialling: if dial {
            p.dialling.insert(peer)
        } else {
            p.dialling
        },
        ..p
    }
}

proof fn queues_remove(m: Map<PeerId, Vec<Message>>, peer: PeerId)
    ensures
        queues(m.remove(peer)) == queues(m).remove(peer),
{
    assert(queues(m.remove(peer)) =~= queues(m).remove(peer));
}

proof fn queues_insert(m: Map<PeerId, Vec<Message>>, peer: PeerId, v: Vec<Message>)
    ensures
        queues(m.insert(peer, v)) == queues(m).insert(peer, v@),
{
    assert(queues(m.insert(peer, v)) =~= queues(m).insert(peer, v@));
}

impl Pool {
    /// The three lists stand as they should.
    pub open spec fn wf(&self) -> bool {
        self.idle.wf() && self.dialling.wf() && self.waiting.wf()
    }

    /// Nothing held, nothing dialled, nothing waiting.
    pub fn new() -> (r: Pool)
        ensures
            r.wf(),
            r@ == (PoolView {
                idle: Set::empty(),
                dialling: Set::empty(),
                waiting: Map::empty(),
            }),
    {
        let r = Pool { idle: PeerMap::new(), dialling: PeerMap::new(), waiting: PeerMap::new() };
        proof {
            assert(r@.idle =~= Set::empty());
            assert(r@.dialling =~= Set::empty());
            assert(r@.waiting =~= Map::empty());
        }
        r
    }

    /// A connection to `peer` is held from here on. The frames are to go out on it, in order;
    /// the flag says whether this peer went from unconnected to connected.
    pub fn keep(&mut self, peer: PeerId) -> (r: (Vec<Message>, bool))
        requires
            old(self).wf(),
        ensures
            final(self).wf(),
            final(self)@ == kept(old(self)@, peer),
            r.0@ == held_for(old(self)@, peer),
            r.1 == !old(self)@.idle.contains(peer),
    {
        proof {
            queues_remove(self.waiting.map(), peer);
        }
        let frames = match self.waiting.remove(&peer) {
            Some(q) => q,
            None => Vec::new(),
        };
        let was = self.idle.put(peer, ());
        proof {
            assert(self@.idle =~= old(self)@.idle.insert(peer));
        }
        let fresh = match was {
            Some(_) => false,
            None => true,
        };
        (frames, fresh)
    }

    /// Hand out the open connection to `peer`, if there is one.
    pub fn take(&mut self, peer: &PeerId) -> (r: bool)
        requires
            old(self).wf(),
        ensures
            final(self).wf(),
            r == old(self)@.idle.contains(*peer),
            final(self)@ == (PoolView { idle: old(self)@.idle.remove(*peer), ..old(self)@ }),
    {
        let gone = self.idle.remove(peer);
        proof {
            assert(self@.idle =~= old(self)@.idle.remove(*peer));
        }
        match gone {
            Some(_) => true,
            None => false,
        }
    }

    /// Is there an open connection to this peer right now?
    pub fn holds(&self, peer: &PeerId) -> (r: bool)
        requires
            self.wf(),
        ensures
            r == self@.idle.contains(*peer),
    {
        self.idle.has(peer)
    }

    /// Whether to dial `peer` in the background: not where a connection exists or is on its
    /// way. The dial then counts as in flight.
    pub fn reach(&mut self, peer: PeerId) -> (r: bool)
        requires
            old(self).wf(),
        ensures
            final(self).wf(),
            r == (!old(self)@.idle.contains(peer) && !old(self)@.dialling.contains(peer)),
            final(self)@ == if r {
                PoolView { dialling: old(self)@.dialling.insert(peer), ..old(self)@ }
            } else {
                old(self)@
            },
    {
        if self.idle.has(&peer) || self.dialling.has(&peer) {
            return false;
        }
        let _ = self.dialling.put(peer, ());
        proof {
            assert(self@.dialling =~= old(self)@.dialling.insert(peer));
        }
        true
    }

    /// Hold a frame until there is a connection to send it on.
    pub fn hold(&mut self, peer: PeerId, msg: Message)
        requires
            old(self).wf(),
        ensures
            final(self).wf(),
            final(self)@ == held(old(self)@, peer, msg),
    {
        let ghost m0 = self.waiting.map();
        proof {
            queues_remove(m0, peer);
        }
        let mut q = match self.waiting.remove(&peer) {
            Some(q) => q,
            None => Vec::new(),
        };
        if q.len() < WAITING {
            q.push(msg);
        }
        proof {
            queues_insert(self.waiting.map(), peer, q);
        }
        let _ = self.waiting.put(peer, q);
        proof {
            assert(self@.waiting =~= held(old(self)@, peer, msg).waiting);
        }
    }

    /// Send a frame to `peer`: it comes back where it can go out at once on the connection we
    /// hold, and waits where there is none. One that could not be written is then to be
    /// given to [`Pool::hold`].
    pub fn send(&mut self, peer: PeerId, msg: Message) -> (r: Option<Message>)
        requires
            old(self).wf(),
        ensures
            final(self).wf(),
            if old(self)@.idle.contains(peer) {
                r == Some(msg) && final(self)@ == old(self)@
            } else {
                r is None && final(self)@ == held(old(self)@, peer, msg)
            },
    {
        if self.idle.has(&peer) {
            Some(msg)
        } else {
            self.hold(peer, msg);
            None
        }
    }

    /// Drop everything to do with this peer. Says whether a dial is to be given up, and
    /// whether a connection is to be closed.
    pub fn forget(&mut self, peer: &PeerId) -> (r: (bool, bool))
        requires
            old(self).wf(),
        ensures
            final(self).wf(),
            final(self)@ == forgotten(old(self)@, *peer),
            r.0 == old(self)@.dialling.contains(*peer),
            r.1 == old(self)@.idle.contains(*peer),
    {
        proof {
            queues_remove(self.waiting.map(), *peer);
        }
        let dial = self.dialling.remove(peer);
        let _ = self.waiting.remove(peer);
        let link = self.idle.remove(peer);
        proof {
            assert(self@.idle =~= old(self)@.idle.remove(*peer));
            assert(self@.dialling =~= old(self)@.dialling.remove(*peer));
        }
        (dial.is_some(), link.is_some())
    }

    /// A dial that was to be made is not on its way after all.
    pub fn unreach(&mut self, peer: &PeerId)
        requires
            old(self).wf(),
        ensures
            final(self).wf(),
            final(self)@ == (PoolView {
                dialling: old(self)@.dialling.remove(*peer),
                ..old(self)@
            }),
    {
        let _ = self.dialling.remove(peer);
        proof {
            assert(self@.dialling =~= old(self)@.dialling.remove(*peer));
        }
    }

    /// A dial and a connection that were to be let go are still there.
    pub fn retain(&mut self, peer: PeerId, dial: bool, link: bool)
        requires
            old(self).wf(),
        ensures
            final(self).wf(),
            final(self)@ == retained(old(self)@, peer, dial, link),
    {
        if dial {
            let _ = self.dialling.put(peer, ());
        }
        if link {
            let _ = self.idle.put(peer, ());
        }
        proof {
            let end = retained(old(self)@, peer, dial, link);
            assert(self@.dialling =~= end.dialling);
            assert(self@.idle =~= end.idle);
        }
    }

    /// Act on what one turn of waiting found: what to tell the rest of the program, if
    /// anything, and the frames that are to go out on a connection that just landed. A
    /// connection to someone other than the one dialled is no connection.
    pub fn heard(&mut self, seen: Seen) -> (r: (Option<Heard>, Vec<Message>))
        requires
            old(self).wf(),
        ensures
            final(self).wf(),
            match seen {
                Seen::Frame(peer, msg) => {
                    &&& final(self)@ == old(self)@
                    &&& r.1@.len() == 0
                    &&& r.0 == if msg == Message::Ping {
                        None
                    } else {
                        Some(Heard::Frame(peer, msg))
                    }
                },
                Seen::Ended(peer) => {
                    &&& final(self)@ == (PoolView {
                        idle: old(self)@.idle.remove(peer),
                        ..old(self)@
                    })
                    &&& r.1@.len() == 0
                    &&& r.0 == Some(Heard::Lost(peer))
                },
                Seen::Landed(peer, proved) => {
                    let p = PoolView { dialling: old(self)@.dialling.remove(peer), ..old(self)@ };
                    if proved == Some(peer) {
                        &&& final(self)@ == kept(p, peer)
                        &&& r.1@ == held_for(p, peer)
                        &&& r.0 == if p.idle.contains(peer) {
                            None
                        } else {
                            Some(Heard::Reached(peer))
                        }
                    } else {
                        final(self)@ == p && r.0 is None && r.1@.len() == 0
                    }
                },
            },
    {
        match seen {
            Seen::Frame(peer, msg) => {
                let none: Vec<Message> = Vec::new();
                match msg {
                    Message::Ping => (None, none),
                    other => (Some(Heard::Frame(peer, other)), none),
                }
            },
            Seen::Ended(peer) => {
                let _ = self.take(&peer);
                (Some(Heard::Lost(peer)), Vec::new())
            },
            Seen::Landed(peer, proved) => {
                let _ = self.dialling.remove(&peer);
                proof {
                    assert(self@.dialling =~= old(self)@.dialling.remove(peer));
                    assert(self@ =~= (PoolView {
                        dialling: old(self)@.dialling.remove(peer),
                        ..old(self)@
                    }));
                }
                match proved {
                    Some(who) => {
                        if same_peer(&who, &peer) {
                            let (frames, fresh) = self.keep(peer);
                            if fresh {
                                (Some(Heard::Reached(peer)), frames)
                            } else {
                                (None, frames)
                            }
                        } else {
                            (None, Vec::new())
                        }
                    },
                    None => (None, Vec::new()),
                }
            },
        }
    }
}

// --- laws -----------------------------------------------------------------------------

/// No queue is longer than allowed.
pub open spec fn capped(p: PoolView) -> bool {
    forall|k: PeerId| #[trigger] p.waiting.contains_key(k) ==> p.waiting[k].len() <= WAITING
}

/// A contact who never answers cannot make a queue grow past its cap, however much is sent.
pub proof fn waiting_stays_capped(p: PoolView, peer: PeerId, msg: Message)
    requires
        capped(p),
    ensures
        capped(held(p, peer, msg)),
        capped(kept(p, peer)),
        capped(forgotten(p, peer)),
{
}

/// A frame with nowhere to go waits for a connection: when one comes, it is among what goes
/// out, behind what waited before it.
pub proof fn a_held_frame_goes_out(p: PoolView, peer: PeerId, msg: Message)
    requires
        held_for(p, peer).len() < WAITING,
    ensures
        held_for(held(p, peer, msg), peer) == held_for(p, peer).push(msg),
        held_for(kept(held(p, peer, msg), peer), peer) == Seq::<Message>::empty(),
{
}

/// A kept connection is found again, and handed out once.
pub proof fn a_kept_link_is_handed_out_once(p: PoolView, peer: PeerId)
    ensures
        kept(p, peer).idle.contains(peer),
        !kept(p, peer).idle.remove(peer).contains(peer),
{
}

/// Forgetting a peer leaves nothing of theirs, and everything of everyone else's.
pub proof fn forgetting_is_complete(p: PoolView, peer: PeerId, other: PeerId)
    requires
        other != peer,
    ensures
        !forgotten(p, peer).idle.contains(peer),
        !forgotten(p, peer).dialling.contains(peer),
        held_for(forgotten(p, peer), peer) == Seq::<Message>::empty(),
        forgotten(p, peer).idle.contains(other) == p.idle.contains(other),
        forgotten(p, peer).dialling.contains(other) == p.dialling.contains(other),
        held_for(forgotten(p, peer), other) == held_for(p, other),
{
}

} // verus!
