//! A map from names to values, kept in the order of the names.

use vstd::prelude::*;
use vstd::string::*;
use vstd::utf8::*;

use crate::text::chars;

verus! {

/// `a` comes before `b`: at the first character where they differ, or by being shorter.
pub open spec fn before(a: Seq<char>, b: Seq<char>) -> bool
    decreases a.len(),
{
    if b.len() == 0 {
        false
    } else if a.len() == 0 {
        true
    } else if a[0] == b[0] {
        before(a.drop_first(), b.drop_first())
    } else {
        (a[0] as u32) < (b[0] as u32)
    }
}

/// Nothing comes before itself.
pub proof fn before_is_strict(a: Seq<char>)
    ensures
        !before(a, a),
    decreases a.len(),
{
    if a.len() > 0 {
        before_is_strict(a.drop_first());
    }
}

/// The order goes on.
pub proof fn before_goes_on(a: Seq<char>, b: Seq<char>, c: Seq<char>)
    requires
        before(a, b),
        before(b, c),
    ensures
        before(a, c),
    decreases a.len(),
{
    if a.len() > 0 && b.len() > 0 && c.len() > 0 && a[0] == b[0] && b[0] == c[0] {
        before_goes_on(a.drop_first(), b.drop_first(), c.drop_first());
    }
}

/// Of two different texts, one comes before the other.
pub proof fn before_is_total(a: Seq<char>, b: Seq<char>)
    requires
        a != b,
        !before(a, b),
    ensures
        before(b, a),
    decreases a.len(),
{
    if a.len() > 0 && b.len() > 0 {
        if a[0] == b[0] {
            if a.drop_first() == b.drop_first() {
                assert(a =~= seq![a[0]] + a.drop_first());
                assert(b =~= seq![b[0]] + b.drop_first());
            }
            before_is_total(a.drop_first(), b.drop_first());
        } else {
            char_u32_cast(a[0], a[0] as u32);
            char_u32_cast(b[0], b[0] as u32);
        }
    } else if a.len() == 0 && b.len() == 0 {
        assert(a =~= b);
    }
}

/// How two names stand to each other.
#[derive(Clone, Copy, Debug, PartialEq, Eq, Structural)]
pub enum Standing {
    First,
    Same,
    Second,
}

/// Which of two names comes first.
pub fn order(a: &str, b: &str) -> (r: Standing)
    ensures
        match r {
            Standing::First => before(a@, b@) && a@ != b@,
            Standing::Same => a@ == b@,
            Standing::Second => before(b@, a@) && a@ != b@,
        },
{
    let x = chars(a);
    let y = chars(b);
    let mut i: usize = 0;
    proof {
        assert(x@.skip(0) =~= a@);
        assert(y@.skip(0) =~= b@);
    }
    while i < x.len() && i < y.len() && x[i] == y[i]
        invariant
            i <= x@.len(),
            i <= y@.len(),
            x@ == a@,
            y@ == b@,
            forall|j: int| 0 <= j < i ==> x@[j] == y@[j],
            before(a@, b@) == before(x@.skip(i as int), y@.skip(i as int)),
            before(b@, a@) == before(y@.skip(i as int), x@.skip(i as int)),
        decreases x@.len() - i,
    {
        proof {
            assert(x@.skip(i as int).drop_first() =~= x@.skip(i + 1));
            assert(y@.skip(i as int).drop_first() =~= y@.skip(i + 1));
        }
        i = i + 1;
    }
    if i == x.len() && i == y.len() {
        assert(a@ =~= b@);
        Standing::Same
    } else if i == x.len() {
        assert(a@.len() != b@.len());
        assert(x@.skip(i as int).len() == 0);
        assert(before(a@, b@));
        Standing::First
    } else if i == y.len() {
        assert(a@.len() != b@.len());
        Standing::Second
    } else {
        let p: char = x[i];
        let q: char = y[i];
        proof {
            assert(a@[i as int] != b@[i as int]);
            assert(x@.skip(i as int)[0] == p);
            assert(y@.skip(i as int)[0] == q);
        }
        let pn: u32 = p as u32;
        let qn: u32 = q as u32;
        proof {
            char_u32_cast(p, pn);
            char_u32_cast(q, qn);
        }
        if pn < qn {
            Standing::First
        } else {
            Standing::Second
        }
    }
}

/// A map from names to values.
#[derive(Debug)]
pub struct NameMap<V> {
    /// The names, in order.
    pub keys: Vec<String>,
    /// The value of each.
    pub vals: Vec<V>,
}

/// Names by their characters.
pub open spec fn texts(s: Seq<String>) -> Seq<Seq<char>> {
    s.map_values(|t: String| t@)
}

/// Each name comes before all that follow it.
pub open spec fn ascending(s: Seq<Seq<char>>) -> bool {
    forall|i: int, j: int| 0 <= i < j < s.len() ==> #[trigger] before(s[i], s[j])
}

/// The map that pairs names with values.
pub open spec fn paired<V>(ks: Seq<Seq<char>>, vs: Seq<V>) -> Map<Seq<char>, V> {
    Map::new(
        |k: Seq<char>| ks.contains(k),
        |k: Seq<char>| vs[ks.index_of(k)],
    )
}

/// In ascending names each stands once.
pub proof fn ascending_is_unique(s: Seq<Seq<char>>, i: int)
    requires
        ascending(s),
        0 <= i < s.len(),
    ensures
        s.index_of(s[i]) == i,
{
    let j = s.index_of(s[i]);
    assert(s.contains(s[i]));
    assert(0 <= j < s.len() && s[j] == s[i]);
    before_is_strict(s[i]);
    if i < j {
        assert(before(s[i], s[j]));
    } else if j < i {
        assert(before(s[j], s[i]));
    }
}

impl<V> NameMap<V> {
    /// The names, in order.
    pub open spec fn names(&self) -> Seq<Seq<char>> {
        texts(self.keys@)
    }

    /// Every name stands once, in order, and has a value.
    pub open spec fn wf(&self) -> bool {
        self.keys@.len() == self.vals@.len() && ascending(self.names())
    }

    /// The map.
    pub open spec fn map(&self) -> Map<Seq<char>, V> {
        paired(self.names(), self.vals@)
    }

    /// A map of nothing.
    pub fn new() -> (r: NameMap<V>)
        ensures
            r.wf(),
            r.map() == Map::<Seq<char>, V>::empty(),
            r.keys@.len() == 0,
            r.vals@.len() == 0,
    {
        let r = NameMap { keys: Vec::new(), vals: Vec::new() };
        assert(r.map() =~= Map::<Seq<char>, V>::empty());
        r
    }

    /// How many names there are.
    pub fn len(&self) -> (r: usize)
        requires
            self.wf(),
        ensures
            r == self.names().len(),
    {
        self.keys.len()
    }

    /// Where a name stands, or where it would.
    pub fn find(&self, name: &str) -> (r: Result<usize, usize>)
        requires
            self.wf(),
        ensures
            match r {
                Ok(i) => {
                    &&& i < self.names().len()
                    &&& self.names()[i as int] == name@
                    &&& self.map().contains_key(name@)
                    &&& self.map()[name@] == self.vals@[i as int]
                },
                Err(i) => {
                    &&& i <= self.names().len()
                    &&& !self.map().contains_key(name@)
                    &&& forall|j: int| 0 <= j < i ==> before(#[trigger] self.names()[j], name@)
                    &&& forall|j: int|
                        i <= j < self.names().len() ==> before(name@, #[trigger] self.names()[j])
                },
            },
    {
        let mut i: usize = 0;
        while i < self.keys.len()
            invariant
                i <= self.keys@.len(),
                self.wf(),
                forall|j: int| 0 <= j < i ==> before(#[trigger] self.names()[j], name@),
            decreases self.keys@.len() - i,
        {
            assert(self.names()[i as int] == self.keys@[i as int]@);
            match order(self.keys[i].as_str(), name) {
                Standing::First => {
                    i = i + 1;
                },
                Standing::Same => {
                    proof {
                        ascending_is_unique(self.names(), i as int);
                        assert(self.names().contains(name@));
                    }
                    return Ok(i);
                },
                Standing::Second => {
                    proof {
                        assert forall|j: int| i <= j < self.names().len() implies before(
                            name@,
                            #[trigger] self.names()[j],
                        ) by {
                            if i < j {
                                assert(before(self.names()[i as int], self.names()[j]));
                                before_goes_on(name@, self.names()[i as int], self.names()[j]);
                            }
                        }
                        self.absent(name@, i as int);
                    }
                    return Err(i);
                },
            }
        }
        proof {
            self.absent(name@, i as int);
        }
        Err(i)
    }

    proof fn absent(&self, name: Seq<char>, i: int)
        requires
            0 <= i <= self.names().len(),
            forall|j: int| 0 <= j < i ==> before(#[trigger] self.names()[j], name),
            forall|j: int| i <= j < self.names().len() ==> before(name, #[trigger] self.names()[j]),
        ensures
            !self.map().contains_key(name),
    {
        if self.names().contains(name) {
            let j = self.names().index_of(name);
            before_is_strict(name);
            assert(self.names()[j] == name);
            if j < i {
                assert(before(self.names()[j], name));
            } else {
                assert(before(name, self.names()[j]));
            }
        }
    }

    /// Put a value under a name, in place of the one there was.
    pub fn put(&mut self, name: String, v: V)
        requires
            old(self).wf(),
        ensures
            final(self).wf(),
            final(self).map() == old(self).map().insert(name@, v),
    {
        match self.find(name.as_str()) {
            Ok(i) => {
                let ghost ks = self.names();
                let ghost vs = self.vals@;
                self.vals.set(i, v);
                proof {
                    assert(self.vals@ =~= vs.update(i as int, v));
                    replaced(ks, vs, i as int, v);
                }
            },
            Err(i) => {
                let ghost ks = self.names();
                let ghost vs = self.vals@;
                let ghost n = name@;
                self.keys.insert(i, name);
                self.vals.insert(i, v);
                proof {
                    assert(self.names() =~= ks.insert(i as int, n));
                    inserted(ks, vs, i as int, n, v);
                }
            },
        }
    }

    /// Take a name out.
    pub fn remove(&mut self, name: &str) -> (r: Option<V>)
        requires
            old(self).wf(),
        ensures
            final(self).wf(),
            final(self).map() == old(self).map().remove(name@),
            match r {
                Some(v) => old(self).map().contains_key(name@) && v == old(self).map()[name@],
                None => !old(self).map().contains_key(name@) && *final(self) == *old(self),
            },
    {
        match self.find(name) {
            Ok(i) => {
                let ghost ks = self.names();
                let ghost vs = self.vals@;
                let _ = self.keys.remove(i);
                let v = self.vals.remove(i);
                proof {
                    assert(self.names() =~= ks.remove(i as int));
                    removed(ks, vs, i as int);
                }
                Some(v)
            },
            Err(_) => {
                assert(self.map() =~= self.map().remove(name@));
                None
            },
        }
    }
}

/// Replacing the value of one name.
pub proof fn replaced<V>(ks: Seq<Seq<char>>, vs: Seq<V>, i: int, v: V)
    requires
        ascending(ks),
        ks.len() == vs.len(),
        0 <= i < ks.len(),
    ensures
        paired(ks, vs.update(i, v)) == paired(ks, vs).insert(ks[i], v),
{
    let a = paired(ks, vs.update(i, v));
    let b = paired(ks, vs).insert(ks[i], v);
    ascending_is_unique(ks, i);
    assert(ks.contains(ks[i]));
    assert forall|k: Seq<char>| a.contains_key(k) implies a[k] == b[k] by {
        let j = ks.index_of(k);
        assert(ks[j] == k);
        ascending_is_unique(ks, j);
    }
    assert(a =~= b);
}

/// Putting a new name in its place.
pub proof fn inserted<V>(ks: Seq<Seq<char>>, vs: Seq<V>, i: int, n: Seq<char>, v: V)
    requires
        ascending(ks),
        ks.len() == vs.len(),
        0 <= i <= ks.len(),
        forall|j: int| 0 <= j < i ==> before(#[trigger] ks[j], n),
        forall|j: int| i <= j < ks.len() ==> before(n, #[trigger] ks[j]),
    ensures
        ascending(ks.insert(i, n)),
        paired(ks.insert(i, n), vs.insert(i, v)) == paired(ks, vs).insert(n, v),
{
    let ks2 = ks.insert(i, n);
    let vs2 = vs.insert(i, v);
    assert forall|x: int, y: int| 0 <= x < y < ks2.len() implies #[trigger] before(
        ks2[x],
        ks2[y],
    ) by {
        let ox = if x < i {
            x
        } else {
            x - 1
        };
        let oy = if y < i {
            y
        } else {
            y - 1
        };
        if x == i {
            assert(ks2[y] == ks[oy]);
        } else if y == i {
            assert(ks2[x] == ks[ox]);
        } else {
            assert(ks2[x] == ks[ox]);
            assert(ks2[y] == ks[oy]);
            assert(before(ks[ox], ks[oy]));
        }
    }
    let a = paired(ks2, vs2);
    let b = paired(ks, vs).insert(n, v);
    assert(ks2[i] == n);
    ascending_is_unique(ks2, i);
    assert(ks2.contains(n));
    assert forall|k: Seq<char>| a.contains_key(k) <==> b.contains_key(k) by {
        if a.contains_key(k) && k != n {
            let j = ks2.index_of(k);
            assert(ks2[j] == k);
            if j < i {
                assert(ks[j] == k);
            } else {
                assert(ks[j - 1] == k);
            }
        }
        if ks.contains(k) {
            let j = ks.index_of(k);
            assert(ks[j] == k);
            if j < i {
                assert(ks2[j] == k);
            } else {
                assert(ks2[j + 1] == k);
            }
        }
    }
    assert forall|k: Seq<char>| a.contains_key(k) implies a[k] == b[k] by {
        let j = ks2.index_of(k);
        assert(ks2[j] == k);
        ascending_is_unique(ks2, j);
        if k != n {
            if j < i {
                assert(ks[j] == k);
                ascending_is_unique(ks, j);
                assert(vs2[j] == vs[j]);
            } else {
                assert(j != i);
                assert(ks[j - 1] == k);
                ascending_is_unique(ks, j - 1);
                assert(vs2[j] == vs[j - 1]);
            }
        }
    }
    assert(a =~= b);
}

/// Taking one name out.
pub proof fn removed<V>(ks: Seq<Seq<char>>, vs: Seq<V>, i: int)
    requires
        ascending(ks),
        ks.len() == vs.len(),
        0 <= i < ks.len(),
    ensures
        ascending(ks.remove(i)),
        paired(ks.remove(i), vs.remove(i)) == paired(ks, vs).remove(ks[i]),
{
    let ks2 = ks.remove(i);
    let vs2 = vs.remove(i);
    assert forall|x: int, y: int| 0 <= x < y < ks2.len() implies #[trigger] before(
        ks2[x],
        ks2[y],
    ) by {
        let ox = if x < i {
            x
        } else {
            x + 1
        };
        let oy = if y < i {
            y
        } else {
            y + 1
        };
        assert(ks2[x] == ks[ox]);
        assert(ks2[y] == ks[oy]);
        assert(before(ks[ox], ks[oy]));
    }
    let a = paired(ks2, vs2);
    let b = paired(ks, vs).remove(ks[i]);
    assert forall|k: Seq<char>| a.contains_key(k) <==> b.contains_key(k) by {
        if a.contains_key(k) {
            let j = ks2.index_of(k);
            assert(ks2[j] == k);
            let o = if j < i {
                j
            } else {
                j + 1
            };
            assert(ks[o] == k);
            ascending_is_unique(ks, o);
            ascending_is_unique(ks, i);
        }
        if b.contains_key(k) {
            let j = ks.index_of(k);
            assert(ks[j] == k);
            if j < i {
                assert(ks2[j] == k);
            } else {
                assert(j != i);
                assert(ks2[j - 1] == k);
            }
        }
    }
    assert forall|k: Seq<char>| a.contains_key(k) implies a[k] == b[k] by {
        let j = ks2.index_of(k);
        assert(ks2[j] == k);
        ascending_is_unique(ks2, j);
        let o = if j < i {
            j
        } else {
            j + 1
        };
        assert(ks[o] == k);
        ascending_is_unique(ks, o);
        assert(vs2[j] == vs[o]);
    }
    assert(a =~= b);
}

/// The values of a map as something else sees them.
pub open spec fn seen_as<V, W>(m: NameMap<V>, f: spec_fn(V) -> W) -> Map<Seq<char>, W> {
    paired(m.names(), m.vals@.map_values(f))
}

/// What stands under a name is seen under that name.
pub proof fn lifted<V, W>(m: NameMap<V>, f: spec_fn(V) -> W)
    requires
        m.wf(),
    ensures
        forall|k: Seq<char>|
            #![trigger m.map().contains_key(k)]
            #![trigger seen_as(m, f).contains_key(k)]
            seen_as(m, f).contains_key(k) <==> m.map().contains_key(k),
        forall|k: Seq<char>|
            #![trigger m.map()[k]]
            #![trigger seen_as(m, f)[k]]
            m.map().contains_key(k) ==> seen_as(m, f)[k] == f(m.map()[k]),
{
    let b = seen_as(m, f);
    assert forall|k: Seq<char>| m.map().contains_key(k) implies #[trigger] b[k] == f(
        m.map()[k],
    ) by {
        let i = m.names().index_of(k);
        assert(m.names().contains(k));
        assert(0 <= i < m.names().len());
        assert(m.vals@.map_values(f)[i] == f(m.vals@[i]));
    }
}

/// A value put under a name is seen there.
pub proof fn lifted_insert<V, W>(
    m: NameMap<V>,
    m2: NameMap<V>,
    n: Seq<char>,
    v: V,
    f: spec_fn(V) -> W,
)
    requires
        m.wf(),
        m2.wf(),
        m2.map() == m.map().insert(n, v),
    ensures
        seen_as(m2, f) == seen_as(m, f).insert(n, f(v)),
{
    lifted(m, f);
    lifted(m2, f);
    let a = seen_as(m2, f);
    let b = seen_as(m, f).insert(n, f(v));
    assert forall|k: Seq<char>| a.contains_key(k) <==> b.contains_key(k) by {
        assert(m2.map().contains_key(k) <==> m.map().insert(n, v).contains_key(k));
    }
    assert forall|k: Seq<char>| a.contains_key(k) implies a[k] == b[k] by {
        assert(m2.map().contains_key(k));
        assert(m2.map()[k] == m.map().insert(n, v)[k]);
    }
    assert(a =~= b);
}

/// A name taken out is seen no more.
pub proof fn lifted_remove<V, W>(m: NameMap<V>, m2: NameMap<V>, n: Seq<char>, f: spec_fn(V) -> W)
    requires
        m.wf(),
        m2.wf(),
        m2.map() == m.map().remove(n),
    ensures
        seen_as(m2, f) == seen_as(m, f).remove(n),
{
    lifted(m, f);
    lifted(m2, f);
    let a = seen_as(m2, f);
    let b = seen_as(m, f).remove(n);
    assert forall|k: Seq<char>| a.contains_key(k) <==> b.contains_key(k) by {
        assert(m2.map().contains_key(k) <==> m.map().remove(n).contains_key(k));
    }
    assert forall|k: Seq<char>| a.contains_key(k) implies a[k] == b[k] by {
        assert(m2.map().contains_key(k));
        assert(m2.map()[k] == m.map().remove(n)[k]);
    }
    assert(a =~= b);
}

/// Names and values, side by side.
pub open spec fn zipped<W>(ks: Seq<Seq<char>>, vs: Seq<W>) -> Seq<(Seq<char>, W)> {
    Seq::new(ks.len(), |i: int| (ks[i], vs[i]))
}

/// The map that entries make, a later one in place of an earlier one of the same name.
pub open spec fn filed<W>(entries: Seq<(Seq<char>, W)>) -> Map<Seq<char>, W>
    decreases entries.len(),
{
    if entries.len() == 0 {
        Map::empty()
    } else {
        filed(entries.drop_last()).insert(entries.last().0, entries.last().1)
    }
}

/// Filing entries in ascending order makes the map that pairs them.
pub proof fn filing_pairs<W>(ks: Seq<Seq<char>>, vs: Seq<W>)
    requires
        ascending(ks),
        ks.len() == vs.len(),
    ensures
        filed(zipped(ks, vs)) == paired(ks, vs),
    decreases ks.len(),
{
    let es = zipped(ks, vs);
    if ks.len() == 0 {
        assert(paired(ks, vs) =~= Map::empty());
    } else {
        let n = ks.len() - 1;
        let k0 = ks.drop_last();
        let v0 = vs.drop_last();
        assert(es.drop_last() =~= zipped(k0, v0));
        assert forall|i: int, j: int| 0 <= i < j < k0.len() implies #[trigger] before(
            k0[i],
            k0[j],
        ) by {
            assert(before(ks[i], ks[j]));
        }
        filing_pairs(k0, v0);
        assert forall|j: int| 0 <= j < n implies before(#[trigger] k0[j], ks[n]) by {
            assert(before(ks[j], ks[n]));
        }
        inserted(k0, v0, n, ks[n], vs[n]);
        assert(k0.insert(n, ks[n]) =~= ks);
        assert(v0.insert(n, vs[n]) =~= vs);
    }
}

} // verus!
