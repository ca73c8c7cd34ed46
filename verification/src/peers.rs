//! Peers and what is held for each of them.

use vstd::prelude::*;

use crate::bytes::equal;
use crate::identity::PeerId;

verus! {

/// Whether two peers are the same.
pub fn same_peer(a: &PeerId, b: &PeerId) -> (r: bool)
    ensures
        r == (*a == *b),
{
    let r = equal(a, b);
    proof {
        if a@ == b@ {
            assert(*a =~= *b);
        }
    }
    r
}

/// A map from peers to values.
#[derive(Debug)]
pub struct PeerMap<V> {
    pub keys: Vec<PeerId>,
    pub vals: Vec<V>,
}

/// The map that pairs peers with values.
pub open spec fn peered<V>(ks: Seq<PeerId>, vs: Seq<V>) -> Map<PeerId, V> {
    Map::new(|k: PeerId| ks.contains(k), |k: PeerId| vs[ks.index_of(k)])
}

impl<V> PeerMap<V> {
    /// Every peer stands once, and has a value.
    pub open spec fn wf(&self) -> bool {
        self.keys@.len() == self.vals@.len() && self.keys@.no_duplicates()
    }

    /// The map.
    pub open spec fn map(&self) -> Map<PeerId, V> {
        peered(self.keys@, self.vals@)
    }

    /// A map of nobody.
    pub fn new() -> (r: PeerMap<V>)
        ensures
            r.wf(),
            r.map() == Map::<PeerId, V>::empty(),
    {
        let r = PeerMap { keys: Vec::new(), vals: Vec::new() };
        assert(r.map() =~= Map::<PeerId, V>::empty());
        r
    }

    /// Where a peer stands.
    pub fn find(&self, peer: &PeerId) -> (r: Option<usize>)
        requires
            self.wf(),
        ensures
            match r {
                Some(i) => {
                    &&& i < self.keys@.len()
                    &&& self.keys@[i as int] == *peer
                    &&& self.map().contains_key(*peer)
                    &&& self.map()[*peer] == self.vals@[i as int]
                },
                None => !self.map().contains_key(*peer),
            },
    {
        let mut i: usize = 0;
        while i < self.keys.len()
            invariant
                i <= self.keys@.len(),
                self.wf(),
                forall|j: int| 0 <= j < i ==> #[trigger] self.keys@[j] != *peer,
            decreases self.keys@.len() - i,
        {
            if same_peer(&self.keys[i], peer) {
                proof {
                    assert(self.keys@.contains(*peer));
                    let j = self.keys@.index_of(*peer);
                    assert(self.keys@[j] == *peer);
                    assert(j == i);
                }
                return Some(i);
            }
            i = i + 1;
        }
        None
    }

    /// Is there a value for this peer?
    pub fn has(&self, peer: &PeerId) -> (r: bool)
        requires
            self.wf(),
        ensures
            r == self.map().contains_key(*peer),
    {
        match self.find(peer) {
            Some(_) => true,
            None => false,
        }
    }

    /// Take a peer out.
    pub fn remove(&mut self, peer: &PeerId) -> (r: Option<V>)
        requires
            old(self).wf(),
        ensures
            final(self).wf(),
            final(self).map() == old(self).map().remove(*peer),
            match r {
                Some(v) => old(self).map().contains_key(*peer) && v == old(self).map()[*peer],
                None => !old(self).map().contains_key(*peer),
            },
    {
        match self.find(peer) {
            None => {
                assert(self.map() =~= self.map().remove(*peer));
                None
            },
            Some(i) => {
                let ghost ks = self.keys@;
                let ghost vs = self.vals@;
                let _ = self.keys.remove(i);
                let v = self.vals.remove(i);
                proof {
                    unpeered(ks, vs, i as int);
                }
                Some(v)
            },
        }
    }

    /// Put a value under a peer, in place of the one there was.
    pub fn put(&mut self, peer: PeerId, v: V) -> (r: Option<V>)
        requires
            old(self).wf(),
        ensures
            final(self).wf(),
            final(self).map() == old(self).map().insert(peer, v),
            match r {
                Some(was) => old(self).map().contains_key(peer) && was == old(self).map()[peer],
                None => !old(self).map().contains_key(peer),
            },
    {
        let ghost m0 = self.map();
        let was = self.remove(&peer);
        let ghost ks = self.keys@;
        let ghost vs = self.vals@;
        let ghost m1 = self.map();
        self.keys.push(peer);
        self.vals.push(v);
        proof {
            assert(!ks.contains(peer)) by {
                assert(!m1.contains_key(peer));
            }
            pushed(ks, vs, peer, v);
            assert(m1.insert(peer, v) =~= m0.insert(peer, v));
        }
        was
    }
}

proof fn unpeered<V>(ks: Seq<PeerId>, vs: Seq<V>, i: int)
    requires
        ks.no_duplicates(),
        ks.len() == vs.len(),
        0 <= i < ks.len(),
    ensures
        ks.remove(i).no_duplicates(),
        peered(ks.remove(i), vs.remove(i)) == peered(ks, vs).remove(ks[i]),
{
    let ks2 = ks.remove(i);
    let vs2 = vs.remove(i);
    assert forall|x: int, y: int| 0 <= x < ks2.len() && 0 <= y < ks2.len() && x != y implies ks2[x]
        != ks2[y] by {
        let ox = if x < i {
            x
        } else {
            x + 1
        };
        let oy = if y < i {
            y
        } else {
            y + 1
        };
        assert(ks2[x] == ks[ox]);
        assert(ks2[y] == ks[oy]);
    }
    let a = peered(ks2, vs2);
    let b = peered(ks, vs).remove(ks[i]);
    assert forall|k: PeerId| a.contains_key(k) <==> b.contains_key(k) by {
        if a.contains_key(k) {
            let j = ks2.index_of(k);
            assert(ks2[j] == k);
            let o = if j < i {
                j
            } else {
                j + 1
            };
            assert(ks[o] == k);
            assert(ks[o] != ks[i]);
        }
        if b.contains_key(k) {
            let j = ks.index_of(k);
            assert(ks[j] == k);
            if j < i {
                assert(ks2[j] == k);
            } else {
                assert(j != i);
                assert(ks2[j - 1] == k);
            }
        }
    }
    assert forall|k: PeerId| a.contains_key(k) implies a[k] == b[k] by {
        let j = ks2.index_of(k);
        assert(ks2[j] == k);
        let o = if j < i {
            j
        } else {
            j + 1
        };
        assert(ks[o] == k);
        assert(ks.contains(k));
        let p = ks.index_of(k);
        assert(ks[p] == k);
        assert(p == o);
        assert(vs2[j] == vs[o]);
    }
    assert(a =~= b);
}

proof fn pushed<V>(ks: Seq<PeerId>, vs: Seq<V>, peer: PeerId, v: V)
    requires
        ks.no_duplicates(),
        ks.len() == vs.len(),
        !ks.contains(peer),
    ensures
        ks.push(peer).no_duplicates(),
        peered(ks.push(peer), vs.push(v)) == peered(ks, vs).insert(peer, v),
{
    let ks2 = ks.push(peer);
    let vs2 = vs.push(v);
    let a = peered(ks2, vs2);
    let b = peered(ks, vs).insert(peer, v);
    assert forall|x: int, y: int| 0 <= x < ks2.len() && 0 <= y < ks2.len() && x != y implies ks2[x]
        != ks2[y] by {
        if x == ks.len() {
            assert(ks2[y] == ks[y]);
            assert(ks.contains(ks[y]));
        } else if y == ks.len() {
            assert(ks2[x] == ks[x]);
            assert(ks.contains(ks[x]));
        }
    }
    assert forall|k: PeerId| a.contains_key(k) <==> b.contains_key(k) by {
        if ks2.contains(k) {
            let j = ks2.index_of(k);
            assert(ks2[j] == k);
            if j < ks.len() {
                assert(ks[j] == k);
            }
        }
        if ks.contains(k) {
            let j = ks.index_of(k);
            assert(ks2[j] == k);
        }
        assert(ks2[ks.len() as int] == peer);
    }
    assert forall|k: PeerId| a.contains_key(k) implies a[k] == b[k] by {
        let j = ks2.index_of(k);
        assert(ks2[j] == k);
        if j < ks.len() {
            assert(ks[j] == k);
            assert(ks.contains(k));
            let p = ks.index_of(k);
            assert(ks[p] == k);
            assert(p == j);
        }
    }
    assert(a =~= b);
}

} // verus!
