//! Messages written to somebody who was not there, kept until they are.
//!
//! A message leaves the queue only when its recipient says they have it. Queues are kept by
//! address rather than by name, so renaming somebody strands nothing.

use vstd::prelude::*;
use vstd::string::*;
use vstd::utf8::*;

use crate::codec::{
    add_str, add_u64, after, len_back, list_back, list_bytes, read_len, read_list, read_text,
    read_u64, take_len, take_str, take_u64, text_back, text_bytes, u64_back, varint, Garbled,
};
use crate::contacts::{plaintext_of, BookError};
use crate::crypto::wipe;
use crate::identity::Identity;
use crate::message::{Message, MessageView};
use crate::names::{
    ascending, filed, filing_pairs, lifted, lifted_insert, lifted_remove, paired, zipped, NameMap,
};
use crate::proto::{legal_messages_fit, utf8_len, write_fault, MAX_TEXT};
use crate::store::{read_sealed, seal, sealable, unsealed, StoreError};
use crate::text::{decimal, decimal_text, trim, trimmed};

verus! {

/// Key-derivation context for the outbox file.
pub const KEY_CONTEXT: &'static str = "murmure 2026 outbox";

/// How many undelivered messages may pile up for one contact.
pub const MAX_WAITING: usize = 64;

/// One message waiting for its recipient.
#[derive(Clone, Debug, PartialEq, Eq)]
pub struct Waiting {
    /// Ours, and increasing for ever.
    pub id: u64,
    /// When it was written, in seconds since the epoch.
    pub at: u64,
    pub body: String,
}

/// A waiting message by its values.
#[verifier::ext_equal]
pub struct WaitingView {
    pub id: u64,
    pub at: u64,
    pub body: Seq<char>,
}

impl View for Waiting {
    type V = WaitingView;

    open spec fn view(&self) -> WaitingView {
        WaitingView { id: self.id, at: self.at, body: self.body@ }
    }
}

/// A queue by its values.
pub open spec fn queue_view(q: Seq<Waiting>) -> Seq<WaitingView> {
    q.map_values(|w: Waiting| w@)
}

/// What is seen of a queue.
pub open spec fn queue_seen() -> spec_fn(Vec<Waiting>) -> Seq<WaitingView> {
    |q: Vec<Waiting>| queue_view(q@)
}

/// An address and what waits for it.
pub type QueueView = (Seq<char>, Seq<WaitingView>);

/// The bytes of a waiting message.
pub open spec fn waiting_bytes(w: WaitingView) -> Seq<u8> {
    varint(w.id as nat) + (varint(w.at as nat) + text_bytes(w.body))
}

/// How a waiting message is read.
pub open spec fn read_waiting(b: Seq<u8>) -> Result<(WaitingView, Seq<u8>), Garbled> {
    match read_u64(b) {
        Err(e) => Err(e),
        Ok((id, b)) => match read_u64(b) {
            Err(e) => Err(e),
            Ok((at, b)) => match read_text(b) {
                Err(e) => Err(e),
                Ok((body, b)) => Ok(
                    (WaitingView { id: id as u64, at: at as u64, body }, b),
                ),
            },
        },
    }
}

/// The writer of one waiting message.
pub open spec fn waiting_writer() -> spec_fn(WaitingView) -> Seq<u8> {
    |w: WaitingView| waiting_bytes(w)
}

/// The reader of one waiting message.
pub open spec fn waiting_reader() -> spec_fn(Seq<u8>) -> Result<(WaitingView, Seq<u8>), Garbled> {
    |b: Seq<u8>| read_waiting(b)
}

/// The bytes of a queue: the address, then the messages behind their number.
pub open spec fn queue_bytes(q: QueueView) -> Seq<u8> {
    text_bytes(q.0) + (varint(q.1.len()) + list_bytes(q.1, waiting_writer()))
}

/// How a queue is read.
pub open spec fn read_queue(b: Seq<u8>) -> Result<(QueueView, Seq<u8>), Garbled> {
    match read_text(b) {
        Err(e) => Err(e),
        Ok((address, b)) => match read_len(b) {
            Err(e) => Err(e),
            Ok((n, b)) => match read_list(b, n, waiting_reader()) {
                Err(e) => Err(e),
                Ok((q, b)) => Ok(((address, q), b)),
            },
        },
    }
}

/// The writer of one queue.
pub open spec fn queue_writer() -> spec_fn(QueueView) -> Seq<u8> {
    |q: QueueView| queue_bytes(q)
}

/// The reader of one queue.
pub open spec fn queue_reader() -> spec_fn(Seq<u8>) -> Result<(QueueView, Seq<u8>), Garbled> {
    |b: Seq<u8>| read_queue(b)
}

/// The bytes of an outbox: the queues behind their number, then the next id.
pub open spec fn outbox_bytes(queues: Seq<QueueView>, next: u64) -> Seq<u8> {
    varint(queues.len()) + (list_bytes(queues, queue_writer()) + varint(next as nat))
}

/// How an outbox is read. Bytes behind it are not looked at.
pub open spec fn read_outbox(b: Seq<u8>) -> Result<(Seq<QueueView>, u64), Garbled> {
    match read_len(b) {
        Err(e) => Err(e),
        Ok((n, b)) => match read_list(b, n, queue_reader()) {
            Err(e) => Err(e),
            Ok((queues, b)) => match read_u64(b) {
                Err(e) => Err(e),
                Ok((next, _)) => Ok((queues, next as u64)),
            },
        },
    }
}

/// A queue that a program can hold.
pub open spec fn queue_real(q: QueueView) -> bool {
    &&& utf8_len(q.0) <= usize::MAX
    &&& q.1.len() <= usize::MAX
    &&& forall|i: int| 0 <= i < q.1.len() ==> utf8_len((#[trigger] q.1[i]).body) <= usize::MAX
}

proof fn waiting_back(w: WaitingView, rest: Seq<u8>)
    requires
        utf8_len(w.body) <= usize::MAX,
    ensures
        read_waiting(waiting_bytes(w) + rest) == Ok::<_, Garbled>((w, rest)),
{
    let t1 = text_bytes(w.body) + rest;
    let t2 = varint(w.at as nat) + t1;
    assert(waiting_bytes(w) + rest =~= varint(w.id as nat) + t2);
    u64_back(w.id, t2);
    u64_back(w.at, t1);
    text_back(w.body, rest);
}

proof fn queue_back(q: QueueView, rest: Seq<u8>)
    requires
        queue_real(q),
    ensures
        read_queue(queue_bytes(q) + rest) == Ok::<_, Garbled>((q, rest)),
{
    let list = list_bytes(q.1, waiting_writer());
    let t1 = list + rest;
    let t2 = varint(q.1.len()) + t1;
    assert(queue_bytes(q) + rest =~= text_bytes(q.0) + t2);
    text_back(q.0, t2);
    len_back(q.1.len() as usize, t1);
    assert forall|i: int, r: Seq<u8>| 0 <= i < q.1.len() implies #[trigger] waiting_reader()(
        waiting_writer()(q.1[i]) + r,
    ) == Ok::<_, Garbled>((q.1[i], r)) by {
        waiting_back(q.1[i], r);
    }
    list_back(q.1, waiting_writer(), waiting_reader(), rest);
}

/// An outbox comes back from its bytes as it was.
pub proof fn outbox_comes_back(queues: Seq<QueueView>, next: u64)
    requires
        queues.len() <= usize::MAX,
        forall|i: int| 0 <= i < queues.len() ==> queue_real(#[trigger] queues[i]),
    ensures
        read_outbox(outbox_bytes(queues, next)) == Ok::<_, Garbled>((queues, next)),
{
    let list = list_bytes(queues, queue_writer());
    let tail = varint(next as nat);
    len_back(queues.len() as usize, list + tail);
    assert forall|i: int, r: Seq<u8>| 0 <= i < queues.len() implies #[trigger] queue_reader()(
        queue_writer()(queues[i]) + r,
    ) == Ok::<_, Garbled>((queues[i], r)) by {
        queue_back(queues[i], r);
    }
    list_back(queues, queue_writer(), queue_reader(), tail);
    u64_back(next, Seq::empty());
    assert(tail + Seq::<u8>::empty() =~= tail);
}

/// Everything written and not yet delivered.
#[derive(Debug)]
pub struct Outbox {
    pub queued: NameMap<Vec<Waiting>>,
    /// The next id to hand out. Only ever increases.
    pub next: u64,
    /// Whether anything has changed since it was last sealed.
    pub unsaved: bool,
}

/// A message too long to ever travel; its bytes.
#[derive(Clone, Copy, Debug, PartialEq, Eq, Structural)]
pub struct TooLong {
    pub bytes: usize,
}

impl TooLong {
    /// What the operator is told.
    pub open spec fn said(self) -> Seq<char> {
        "that message is "@ + decimal_text(self.bytes as nat)
            + " bytes, over the 32768-byte limit. Shorten it, or send it as a file during a call."@
    }

    /// Say why it was not kept.
    pub fn describe(&self) -> (r: String)
        ensures
            r@ == self.said(),
    {
        let mut s = "that message is ".to_owned();
        s.append(decimal(self.bytes as u128).as_str());
        s.append(
            " bytes, over the 32768-byte limit. Shorten it, or send it as a file during a call.",
        );
        s
    }
}

/// What waits for an address.
pub open spec fn waiting_at(book: Map<Seq<char>, Seq<WaitingView>>, address: Seq<char>) -> Seq<
    WaitingView,
> {
    if book.contains_key(address) {
        book[address]
    } else {
        Seq::empty()
    }
}

/// How many of the oldest messages have to go for one more to fit.
pub open spec fn surplus(q: Seq<WaitingView>) -> nat {
    if q.len() + 1 > MAX_WAITING {
        (q.len() + 1 - MAX_WAITING) as nat
    } else {
        0
    }
}

/// A queue with one message more at its end, and the oldest gone that do not fit.
pub open spec fn queued_behind(q: Seq<WaitingView>, w: WaitingView) -> Seq<WaitingView> {
    q.push(w).skip(surplus(q) as int)
}

/// Where the message of an id stands first in a queue, or the length of the queue.
pub open spec fn place_of_id(q: Seq<WaitingView>, id: u64) -> nat
    decreases q.len(),
{
    if q.len() == 0 || q[0].id == id {
        0
    } else {
        1 + place_of_id(q.drop_first(), id)
    }
}

/// Whether a message of this id waits for an address.
pub open spec fn awaits(
    book: Map<Seq<char>, Seq<WaitingView>>,
    address: Seq<char>,
    id: u64,
) -> bool {
    place_of_id(waiting_at(book, address), id) < waiting_at(book, address).len()
}

/// The queues once a message has been acknowledged.
pub open spec fn after_delivered(
    book: Map<Seq<char>, Seq<WaitingView>>,
    address: Seq<char>,
    id: u64,
) -> Map<Seq<char>, Seq<WaitingView>> {
    if !awaits(book, address, id) {
        book
    } else {
        let q = book[address].remove(place_of_id(book[address], id) as int);
        if q.len() == 0 {
            book.remove(address)
        } else {
            book.insert(address, q)
        }
    }
}

/// How many messages some queues hold together.
pub open spec fn total(queues: Seq<QueueView>) -> nat
    decreases queues.len(),
{
    if queues.len() == 0 {
        0
    } else {
        total(queues.drop_last()) + queues.last().1.len()
    }
}

/// A waiting message as it travels.
pub open spec fn left_frame(w: WaitingView) -> MessageView {
    MessageView::Left { id: w.id, at: w.at, body: w.body }
}

/// The key that the outbox is sealed under.
pub fn outbox_key(identity: &Identity) -> (r: [u8; 32])
    ensures
        r@ == crate::crypto::blake3_derived(KEY_CONTEXT@, identity.seed()),
{
    identity.derive_key(KEY_CONTEXT)
}

fn add_waiting(out: &mut Vec<u8>, w: &Waiting)
    ensures
        final(out)@ == old(out)@ + waiting_bytes(w@),
        utf8_len(w.body@) <= usize::MAX,
{
    let n: usize = w.body.as_str().as_bytes().len();
    assert(n == utf8_len(w.body@));
    add_u64(out, w.id);
    add_u64(out, w.at);
    add_str(out, w.body.as_str());
    assert(out@ =~= old(out)@ + waiting_bytes(w@));
}

fn add_queue(out: &mut Vec<u8>, address: &str, q: &Vec<Waiting>)
    ensures
        final(out)@ == old(out)@ + queue_bytes((address@, queue_view(q@))),
        queue_real((address@, queue_view(q@))),
{
    let n: usize = address.as_bytes().len();
    let ghost es = queue_view(q@);
    add_str(out, address);
    add_u64(out, q.len() as u64);
    let ghost start = out@;
    let mut i: usize = 0;
    assert(es.skip(0) =~= es);
    while i < q.len()
        invariant
            i <= q@.len(),
            es == queue_view(q@),
            forall|j: int| 0 <= j < i ==> utf8_len((#[trigger] es[j]).body) <= usize::MAX,
            out@ + list_bytes(es.skip(i as int), waiting_writer()) == start + list_bytes(
                es,
                waiting_writer(),
            ),
        decreases q@.len() - i,
    {
        let ghost before = out@;
        add_waiting(out, &q[i]);
        proof {
            let t = es.skip(i as int);
            assert(t.drop_first() =~= es.skip(i + 1));
            assert(t[0] == q@[i as int]@);
            assert(out@ + list_bytes(t.drop_first(), waiting_writer()) =~= before + list_bytes(
                t,
                waiting_writer(),
            ));
        }
        i = i + 1;
    }
    proof {
        assert(n == utf8_len(address@));
        assert(list_bytes(es.skip(i as int), waiting_writer()) =~= Seq::empty());
        assert(out@ =~= old(out)@ + queue_bytes((address@, es)));
    }
}

fn take_waiting(b: &[u8]) -> (r: Result<(Waiting, &[u8]), Garbled>)
    ensures
        match r {
            Ok((w, rest)) => read_waiting(b@) == Ok::<_, Garbled>((w@, rest@)),
            Err(e) => read_waiting(b@) is Err && read_waiting(b@)->Err_0 == e,
        },
{
    match take_u64(b) {
        Err(e) => Err(e),
        Ok((id, b)) => match take_u64(b) {
            Err(e) => Err(e),
            Ok((at, b)) => match take_str(b) {
                Err(e) => Err(e),
                Ok((body, b)) => Ok((Waiting { id, at, body }, b)),
            },
        },
    }
}

fn take_queue(b: &[u8]) -> (r: Result<((String, Vec<Waiting>), &[u8]), Garbled>)
    ensures
        match r {
            Ok((q, rest)) => read_queue(b@) == Ok::<_, Garbled>(((q.0@, queue_view(q.1@)), rest@)),
            Err(e) => read_queue(b@) is Err && read_queue(b@)->Err_0 == e,
        },
{
    let (address, b1) = match take_str(b) {
        Ok(x) => x,
        Err(e) => {
            return Err(e);
        },
    };
    let (n, first) = match take_len(b1) {
        Ok(x) => x,
        Err(e) => {
            return Err(e);
        },
    };
    let mut rest = first;
    let mut q: Vec<Waiting> = Vec::new();
    let ghost all = read_list(first@, n as nat, waiting_reader());
    let mut i: usize = 0;
    proof {
        assert(queue_view(q@) =~= Seq::empty());
        assert(after(queue_view(q@), all) =~= all) by {
            if all is Ok {
                assert(queue_view(q@) + (all->Ok_0).0 =~= (all->Ok_0).0);
            }
        }
    }
    while i < n
        invariant
            i <= n,
            read_text(b@) == Ok::<_, Garbled>((address@, b1@)),
            read_len(b1@) == Ok::<_, Garbled>((n as nat, first@)),
            all == read_list(first@, n as nat, waiting_reader()),
            all == after(queue_view(q@), read_list(rest@, (n - i) as nat, waiting_reader())),
        decreases n - i,
    {
        match take_waiting(rest) {
            Err(e) => {
                assert(waiting_reader()(rest@) is Err && waiting_reader()(rest@)->Err_0 == e);
                return Err(e);
            },
            Ok((w, more)) => {
                proof {
                    assert(waiting_reader()(rest@) == Ok::<_, Garbled>((w@, more@)));
                    let tail = read_list(more@, (n - i - 1) as nat, waiting_reader());
                    assert(queue_view(q@.push(w)) =~= queue_view(q@).push(w@));
                    if tail is Ok {
                        assert(queue_view(q@) + (seq![w@] + (tail->Ok_0).0) =~= queue_view(
                            q@.push(w),
                        ) + (tail->Ok_0).0);
                    }
                }
                q.push(w);
                rest = more;
            },
        }
        i = i + 1;
    }
    assert(queue_view(q@) + Seq::<WaitingView>::empty() =~= queue_view(q@));
    Ok(((address, q), rest))
}

fn decode_outbox(b: &[u8]) -> (r: Result<(NameMap<Vec<Waiting>>, u64), Garbled>)
    ensures
        match r {
            Ok((m, next)) => {
                &&& m.wf()
                &&& read_outbox(b@) is Ok
                &&& crate::names::seen_as(m, queue_seen()) == filed((read_outbox(b@)->Ok_0).0)
                &&& next == (read_outbox(b@)->Ok_0).1
            },
            Err(e) => read_outbox(b@) is Err && read_outbox(b@)->Err_0 == e,
        },
{
    let (n, first) = match take_len(b) {
        Ok(x) => x,
        Err(e) => {
            return Err(e);
        },
    };
    let mut rest = first;
    let mut m: NameMap<Vec<Waiting>> = NameMap::new();
    let ghost mut done: Seq<QueueView> = Seq::empty();
    let ghost all = read_list(first@, n as nat, queue_reader());
    let mut i: usize = 0;
    proof {
        assert(crate::names::seen_as(m, queue_seen()) =~= Map::empty());
        assert(after(done, all) =~= all) by {
            if all is Ok {
                assert(done + (all->Ok_0).0 =~= (all->Ok_0).0);
            }
        }
    }
    while i < n
        invariant
            i <= n,
            read_len(b@) == Ok::<_, Garbled>((n as nat, first@)),
            all == read_list(first@, n as nat, queue_reader()),
            all == after(done, read_list(rest@, (n - i) as nat, queue_reader())),
            m.wf(),
            crate::names::seen_as(m, queue_seen()) == filed(done),
        decreases n - i,
    {
        match take_queue(rest) {
            Err(e) => {
                assert(queue_reader()(rest@) is Err && queue_reader()(rest@)->Err_0 == e);
                return Err(e);
            },
            Ok(((address, q), more)) => {
                let ghost e: QueueView = (address@, queue_view(q@));
                proof {
                    assert(queue_reader()(rest@) == Ok::<_, Garbled>((e, more@)));
                    let tail = read_list(more@, (n - i - 1) as nat, queue_reader());
                    if tail is Ok {
                        assert(done + (seq![e] + (tail->Ok_0).0) =~= done.push(e) + (tail->Ok_0).0);
                    }
                    assert(done.push(e).drop_last() =~= done);
                }
                let ghost m0 = m;
                m.put(address, q);
                proof {
                    lifted_insert(m0, m, e.0, q, queue_seen());
                    done = done.push(e);
                }
                rest = more;
            },
        }
        i = i + 1;
    }
    assert(done + Seq::<QueueView>::empty() =~= done);
    match take_u64(rest) {
        Err(e) => Err(e),
        Ok((next, _)) => Ok((m, next)),
    }
}

impl Outbox {
    /// The names in order stand as they should.
    pub open spec fn wf(&self) -> bool {
        self.queued.wf()
    }

    /// What waits, by address.
    pub open spec fn book(&self) -> Map<Seq<char>, Seq<WaitingView>> {
        crate::names::seen_as(self.queued, queue_seen())
    }

    /// What waits, address first, in order.
    pub open spec fn queues(&self) -> Seq<QueueView> {
        zipped(self.queued.names(), self.queued.vals@.map_values(queue_seen()))
    }

    /// Open the outbox that a file held, or start an empty one where there was no file.
    pub fn open(stored: Option<&[u8]>, key: &[u8; 32]) -> (r: Result<Outbox, BookError>)
        ensures
            match stored {
                None => r is Ok && r->Ok_0.book() == Map::<Seq<char>, Seq<WaitingView>>::empty()
                    && r->Ok_0.next == 0,
                Some(s) => match plaintext_of(key@, s@) {
                    Err(e) => r is Err && r->Err_0 == BookError::Sealed(e),
                    Ok(p) => match read_outbox(p) {
                        Err(e) => r is Err && r->Err_0 == BookError::Unreadable(e),
                        Ok((queues, next)) => r is Ok && r->Ok_0.book() == filed(queues)
                            && r->Ok_0.next == next,
                    },
                },
            },
            r is Ok ==> r->Ok_0.wf() && !r->Ok_0.unsaved,
    {
        match read_sealed(stored, key) {
            Err(e) => Err(BookError::Sealed(e)),
            Ok(None) => {
                let out = Outbox { queued: NameMap::new(), next: 0, unsaved: false };
                assert(out.book() =~= Map::<Seq<char>, Seq<WaitingView>>::empty());
                Ok(out)
            },
            Ok(Some(plaintext)) => {
                let mut plaintext = plaintext;
                let m = decode_outbox(plaintext.as_slice());
                wipe(&mut plaintext);
                match m {
                    Err(e) => Err(BookError::Unreadable(e)),
                    Ok((queued, next)) => Ok(Outbox { queued, next, unsaved: false }),
                }
            },
        }
    }

    /// The bytes to write to disk: what is under the seal is the outbox.
    pub fn save(&mut self, key: &[u8; 32]) -> (r: Result<Vec<u8>, StoreError>)
        requires
            old(self).wf(),
        ensures
            final(self).queued == old(self).queued,
            final(self).next == old(self).next,
            final(self).unsaved == (old(self).unsaved && r is Err),
            ({
                let bytes = outbox_bytes(old(self).queues(), old(self).next);
                &&& r is Ok <==> sealable(bytes)
                &&& r is Err ==> r->Err_0 == StoreError::Sealing
                &&& r is Ok ==> unsealed(key@, r->Ok_0@) == Some(bytes)
                &&& read_outbox(bytes) == Ok::<_, Garbled>((old(self).queues(), old(self).next))
            }),
            filed(old(self).queues()) == old(self).book(),
    {
        let mut out: Vec<u8> = Vec::new();
        let n: usize = self.queued.len();
        let ghost es = self.queues();
        add_u64(&mut out, n as u64);
        let ghost start = out@;
        let mut i: usize = 0;
        assert(es.skip(0) =~= es);
        while i < n
            invariant
                i <= n,
                n == es.len(),
                self.wf(),
                es == self.queues(),
                forall|j: int| 0 <= j < i ==> queue_real(#[trigger] es[j]),
                out@ + list_bytes(es.skip(i as int), queue_writer()) == start + list_bytes(
                    es,
                    queue_writer(),
                ),
            decreases n - i,
        {
            let ghost before = out@;
            add_queue(&mut out, self.queued.keys[i].as_str(), &self.queued.vals[i]);
            proof {
                let t = es.skip(i as int);
                assert(t.drop_first() =~= es.skip(i + 1));
                assert(t[0] == es[i as int]);
                assert(es[i as int] == (
                    self.queued.keys@[i as int]@,
                    queue_view(self.queued.vals@[i as int]@),
                ));
                assert(out@ + list_bytes(t.drop_first(), queue_writer()) =~= before + list_bytes(
                    t,
                    queue_writer(),
                ));
            }
            i = i + 1;
        }
        assert(list_bytes(es.skip(i as int), queue_writer()) =~= Seq::empty());
        assert(out@ =~= start + list_bytes(es, queue_writer()));
        add_u64(&mut out, self.next);
        proof {
            assert(out@ =~= outbox_bytes(es, self.next));
            outbox_comes_back(es, self.next);
            filing_pairs(self.queued.names(), self.queued.vals@.map_values(queue_seen()));
        }
        let r = seal(key, out.as_slice());
        wipe(&mut out);
        if r.is_ok() {
            self.unsaved = false;
        }
        r
    }

    /// Put a message by for `address`, written at `at`. Gives the number dropped to make room.
    pub fn queue(&mut self, address: &str, body: String, at: u64) -> (r: Result<usize, TooLong>)
        requires
            old(self).wf(),
            old(self).next < u64::MAX,
        ensures
            final(self).wf(),
            match r {
                Err(e) => {
                    &&& utf8_len(body@) > MAX_TEXT
                    &&& e.bytes == utf8_len(body@)
                    &&& *final(self) == *old(self)
                },
                Ok(dropped) => {
                    let q = waiting_at(old(self).book(), trim(address@));
                    &&& utf8_len(body@) <= MAX_TEXT
                    &&& dropped == surplus(q)
                    &&& final(self).next == old(self).next + 1
                    &&& final(self).book() == old(self).book().insert(
                        trim(address@),
                        queued_behind(q, WaitingView { id: old(self).next, at, body: body@ }),
                    )
                    &&& final(self).unsaved
                },
            },
    {
        let n: usize = body.as_str().as_bytes().len();
        if n > MAX_TEXT {
            return Err(TooLong { bytes: n });
        }
        let address = trimmed(address);
        let id: u64 = self.next;
        let ghost m0 = self.queued;
        let ghost b0 = self.book();
        let ghost w = WaitingView { id, at, body: body@ };
        let ghost a = address@;
        let ghost q0 = waiting_at(b0, a);
        proof {
            lifted(m0, queue_seen());
        }
        let mut q: Vec<Waiting> = match self.queued.remove(address.as_str()) {
            Some(q) => q,
            None => Vec::new(),
        };
        let ghost m1 = self.queued;
        proof {
            lifted_remove(m0, m1, a, queue_seen());
            assert(queue_view(q@) =~= q0);
        }
        let ghost before = q@;
        q.push(Waiting { id, at, body });
        assert(queue_view(q@) =~= q0.push(w));
        let dropped: usize = if q.len() > MAX_WAITING {
            q.len() - MAX_WAITING
        } else {
            0
        };
        let kept = q.split_off(dropped);
        assert(queue_view(kept@) =~= queued_behind(q0, w));
        self.queued.put(address, kept);
        self.next = id + 1;
        self.unsaved = true;
        proof {
            lifted_insert(m1, self.queued, a, kept, queue_seen());
            assert(self.book() =~= b0.insert(a, queued_behind(q0, w)));
        }
        Ok(dropped)
    }

    /// Everything waiting for `address`, oldest first, as it travels.
    pub fn frames_for(&self, address: &str) -> (r: Vec<Message>)
        requires
            self.wf(),
        ensures
            ({
                let q = waiting_at(self.book(), trim(address@));
                &&& r@.len() == q.len()
                &&& forall|i: int| 0 <= i < r@.len() ==> (#[trigger] r@[i])@ == left_frame(q[i])
            }),
    {
        let mut v: Vec<Message> = Vec::new();
        proof {
            lifted(self.queued, queue_seen());
        }
        match self.queued.find(trimmed(address).as_str()) {
            Err(_) => v,
            Ok(k) => {
                let q = &self.queued.vals[k];
                let ghost qv = queue_view(q@);
                let mut i: usize = 0;
                while i < q.len()
                    invariant
                        i <= q@.len(),
                        qv == queue_view(q@),
                        v@.len() == i,
                        forall|j: int| 0 <= j < i ==> (#[trigger] v@[j])@ == left_frame(qv[j]),
                    decreases q@.len() - i,
                {
                    let w = &q[i];
                    v.push(Message::Left { id: w.id, at: w.at, body: w.body.clone() });
                    i = i + 1;
                }
                v
            },
        }
    }

    /// The recipient has it. Drop it, and say whether there was one to drop.
    pub fn delivered(&mut self, address: &str, id: u64) -> (r: bool)
        requires
            old(self).wf(),
        ensures
            final(self).wf(),
            r == awaits(old(self).book(), trim(address@), id),
            final(self).book() == after_delivered(old(self).book(), trim(address@), id),
            final(self).next == old(self).next,
            final(self).unsaved == (old(self).unsaved || r),
    {
        let address = trimmed(address);
        let ghost m0 = self.queued;
        let ghost b0 = self.book();
        proof {
            lifted(m0, queue_seen());
        }
        match self.queued.find(address.as_str()) {
            Err(_) => false,
            Ok(k) => {
                let i = find_id(&self.queued.vals[k], id);
                if i >= self.queued.vals[k].len() {
                    return false;
                }
                match self.queued.remove(address.as_str()) {
                    None => false,
                    Some(q) => {
                        let mut q = q;
                        let ghost m1 = self.queued;
                        let ghost q0 = q@;
                        proof {
                            lifted_remove(m0, m1, address@, queue_seen());
                            assert(queue_view(q0.remove(i as int)) =~= queue_view(q0).remove(
                                i as int,
                            ));
                        }
                        let _ = q.remove(i);
                        self.unsaved = true;
                        if q.len() > 0 {
                            let ghost a = address@;
                            self.queued.put(address, q);
                            proof {
                                lifted_insert(m1, self.queued, a, q, queue_seen());
                                assert(self.book() =~= b0.insert(a, queue_view(q@)));
                            }
                        }
                        true
                    },
                }
            },
        }
    }

    /// Forget everything written to `address`. Gives how much there was.
    pub fn discard(&mut self, address: &str) -> (r: usize)
        requires
            old(self).wf(),
        ensures
            final(self).wf(),
            r == waiting_at(old(self).book(), trim(address@)).len(),
            final(self).book() == old(self).book().remove(trim(address@)),
            final(self).next == old(self).next,
            final(self).unsaved == (old(self).unsaved || r > 0),
    {
        let address = trimmed(address);
        let ghost m0 = self.queued;
        proof {
            lifted(m0, queue_seen());
        }
        let gone = self.queued.remove(address.as_str());
        proof {
            lifted_remove(m0, self.queued, address@, queue_seen());
        }
        match gone {
            None => 0,
            Some(q) => {
                if q.len() > 0 {
                    self.unsaved = true;
                }
                q.len()
            },
        }
    }

    /// How many messages are waiting for one contact.
    pub fn waiting_for(&self, address: &str) -> (r: usize)
        requires
            self.wf(),
        ensures
            r == waiting_at(self.book(), trim(address@)).len(),
    {
        proof {
            lifted(self.queued, queue_seen());
        }
        match self.queued.find(trimmed(address).as_str()) {
            Err(_) => 0,
            Ok(k) => self.queued.vals[k].len(),
        }
    }

    /// How many are waiting in total.
    pub fn len(&self) -> (r: u128)
        requires
            self.wf(),
        ensures
            r == total(self.queues()),
    {
        let ghost es = self.queues();
        let mut sum: u128 = 0;
        let mut i: usize = 0;
        while i < self.queued.len()
            invariant
                i <= es.len(),
                self.wf(),
                es == self.queues(),
                sum == total(es.take(i as int)),
                sum <= i * usize::MAX,
            decreases es.len() - i,
        {
            proof {
                let now = es.take(i + 1);
                assert(now.drop_last() =~= es.take(i as int));
                assert(now.last().1 == queue_view(self.queued.vals@[i as int]@));
                assert(i * usize::MAX + usize::MAX == (i + 1) * usize::MAX) by (nonlinear_arith);
                assert(i * usize::MAX <= 0xffff_ffff_ffff_ffff * 0xffff_ffff_ffff_ffff) by (nonlinear_arith)
                    requires
                        i <= 0xffff_ffff_ffff_ffff,
                        usize::MAX <= 0xffff_ffff_ffff_ffff,
                ;
            }
            sum = sum + self.queued.vals[i].len() as u128;
            i = i + 1;
        }
        assert(es.take(i as int) =~= es);
        sum
    }
}

fn find_id(q: &Vec<Waiting>, id: u64) -> (r: usize)
    ensures
        r == place_of_id(queue_view(q@), id),
        r <= q@.len(),
{
    let ghost es = queue_view(q@);
    let mut i: usize = 0;
    assert(es.skip(0) =~= es);
    while i < q.len()
        invariant
            i <= q@.len(),
            es == queue_view(q@),
            place_of_id(es, id) == i + place_of_id(es.skip(i as int), id),
        decreases q@.len() - i,
    {
        let ghost t = es.skip(i as int);
        proof {
            assert(t[0] == q@[i as int]@);
            assert(t.drop_first() =~= es.skip(i + 1));
        }
        if q[i].id == id {
            return i;
        }
        i = i + 1;
    }
    i
}

/// "3 days ago", roughly, for a message that waited this long.
pub open spec fn age_text(seconds: u64) -> Seq<char> {
    if seconds <= 90 {
        "just now"@
    } else if seconds <= 5400 {
        decimal_text(seconds as nat / 60) + " minutes ago"@
    } else if seconds <= 172800 {
        decimal_text(seconds as nat / 3600) + " hours ago"@
    } else {
        decimal_text(seconds as nat / 86400) + " days ago"@
    }
}

/// How long ago something was, roughly, as of `now`. What is said to be still to come reads
/// as just now.
pub fn how_long_ago(at: u64, now: u64) -> (r: String)
    ensures
        r@ == age_text(
            if now >= at {
                (now - at) as u64
            } else {
                0
            },
        ),
{
    let seconds: u64 = if now >= at {
        now - at
    } else {
        0
    };
    if seconds <= 90 {
        "just now".to_owned()
    } else if seconds <= 5400 {
        let mut s = decimal((seconds / 60) as u128);
        s.append(" minutes ago");
        s
    } else if seconds <= 172800 {
        let mut s = decimal((seconds / 3600) as u128);
        s.append(" hours ago");
        s
    } else {
        let mut s = decimal((seconds / 86400) as u128);
        s.append(" days ago");
        s
    }
}

// --- laws -----------------------------------------------------------------------------

/// Every waiting message has an id that was handed out.
pub open spec fn ids_below(book: Map<Seq<char>, Seq<WaitingView>>, next: u64) -> bool {
    forall|a: Seq<char>, i: int|
        book.contains_key(a) && 0 <= i < book[a].len() ==> (#[trigger] book[a][i]).id < next
}

/// Ids only ever go up: what is queued gets an id above every one that waits, and that stays
/// so for what is queued next.
pub proof fn ids_only_go_up(
    book: Map<Seq<char>, Seq<WaitingView>>,
    next: u64,
    address: Seq<char>,
    at: u64,
    body: Seq<char>,
)
    requires
        ids_below(book, next),
        next < u64::MAX,
    ensures
        ids_below(
            book.insert(
                address,
                queued_behind(waiting_at(book, address), WaitingView { id: next, at, body }),
            ),
            (next + 1) as u64,
        ),
        queued_behind(waiting_at(book, address), WaitingView { id: next, at, body }).last().id
            == next,
{
    let q = waiting_at(book, address);
    let w = WaitingView { id: next, at, body };
    let q2 = queued_behind(q, w);
    let b2 = book.insert(address, q2);
    let k = surplus(q) as int;
    assert forall|a: Seq<char>, i: int| b2.contains_key(a) && 0 <= i < b2[a].len() implies (
    #[trigger] b2[a][i]).id < (next + 1) as u64 by {
        if a == address {
            assert(q2[i] == q.push(w)[i + k]);
            if i + k < q.len() {
                assert(book.contains_key(address));
                assert(book[address][i + k].id < next);
            }
        } else {
            assert(book[a][i].id < next);
        }
    }
}

/// An acknowledgement hands out no id, so it leaves the ids as they were.
pub proof fn acknowledging_keeps_ids(
    book: Map<Seq<char>, Seq<WaitingView>>,
    next: u64,
    address: Seq<char>,
    id: u64,
)
    requires
        ids_below(book, next),
    ensures
        ids_below(after_delivered(book, address, id), next),
{
    let b2 = after_delivered(book, address, id);
    assert forall|a: Seq<char>, i: int| b2.contains_key(a) && 0 <= i < b2[a].len() implies (
    #[trigger] b2[a][i]).id < next by {
        if awaits(book, address, id) && a == address {
            let k = place_of_id(book[address], id) as int;
            if i < k {
                assert(book[a][i].id < next);
            } else {
                assert(book[a][i + 1].id < next);
            }
        } else {
            assert(book[a][i].id < next);
        }
    }
}

/// The messages of a queue have different ids.
pub open spec fn ids_differ(q: Seq<WaitingView>) -> bool {
    forall|i: int, j: int| 0 <= i < j < q.len() ==> (#[trigger] q[i]).id != (#[trigger] q[j]).id
}

proof fn place_is_first(q: Seq<WaitingView>, id: u64)
    ensures
        place_of_id(q, id) <= q.len(),
        place_of_id(q, id) < q.len() ==> q[place_of_id(q, id) as int].id == id,
        forall|i: int| 0 <= i < place_of_id(q, id) ==> (#[trigger] q[i]).id != id,
    decreases q.len(),
{
    if q.len() > 0 && q[0].id != id {
        let t = q.drop_first();
        place_is_first(t, id);
        assert forall|i: int| 0 <= i < place_of_id(q, id) implies (#[trigger] q[i]).id != id by {
            if i > 0 {
                assert(t[i - 1].id != id);
            }
        }
    }
}

/// The ids of an outbox as they should be: all handed out, and no two alike for one address.
pub open spec fn ids_sound(book: Map<Seq<char>, Seq<WaitingView>>, next: u64) -> bool {
    &&& ids_below(book, next)
    &&& forall|a: Seq<char>| #[trigger] book.contains_key(a) ==> ids_differ(book[a])
}

/// Ids stay sound whatever is done: an empty outbox has sound ids, and writing a message,
/// having one acknowledged and forgetting an address keep them so.
pub proof fn ids_stay_sound(
    book: Map<Seq<char>, Seq<WaitingView>>,
    next: u64,
    address: Seq<char>,
    at: u64,
    body: Seq<char>,
    id: u64,
)
    requires
        ids_sound(book, next),
    ensures
        ids_sound(Map::empty(), 0),
        next < u64::MAX ==> ids_sound(
            book.insert(
                address,
                queued_behind(waiting_at(book, address), WaitingView { id: next, at, body }),
            ),
            (next + 1) as u64,
        ),
        ids_sound(after_delivered(book, address, id), next),
        ids_sound(book.remove(address), next),
        ids_differ(waiting_at(book, address)),
{
    let q = waiting_at(book, address);
    let w = WaitingView { id: next, at, body };
    if next < u64::MAX {
        ids_only_go_up(book, next, address, at, body);
        let q2 = queued_behind(q, w);
        let k = surplus(q) as int;
        assert forall|i: int, j: int| 0 <= i < j < q2.len() implies (#[trigger] q2[i]).id != (
        #[trigger] q2[j]).id by {
            assert(q2[i] == q.push(w)[i + k]);
            assert(q2[j] == q.push(w)[j + k]);
            assert(q[i + k].id < next);
            if j + k < q.len() {
                assert(q[i + k].id != q[j + k].id);
            }
        }
    }
    acknowledging_keeps_ids(book, next, address, id);
    if awaits(book, address, id) {
        let k = place_of_id(q, id) as int;
        let r = q.remove(k);
        assert forall|i: int, j: int| 0 <= i < j < r.len() implies (#[trigger] r[i]).id != (
        #[trigger] r[j]).id by {
            let a = if i < k { i } else { i + 1 };
            let b = if j < k { j } else { j + 1 };
            assert(q[a].id != q[b].id);
        }
    }
}

/// Only what is acknowledged leaves: a message with another id still waits afterwards, for
/// this address and for every other.
pub proof fn only_the_acknowledged_leaves(
    book: Map<Seq<char>, Seq<WaitingView>>,
    address: Seq<char>,
    id: u64,
    other: Seq<char>,
    w: WaitingView,
)
    requires
        book.contains_key(other),
        book[other].contains(w),
        other != address || w.id != id,
    ensures
        after_delivered(book, address, id).contains_key(other),
        after_delivered(book, address, id)[other].contains(w),
{
    if other == address && awaits(book, address, id) {
        let q = book[address];
        let k = place_of_id(q, id) as int;
        place_is_first(q, id);
        let i = q.index_of(w);
        assert(q[i] == w);
        assert(i != k);
        let r = q.remove(k);
        if i < k {
            assert(r[i] == w);
        } else {
            assert(r[i - 1] == w);
        }
    }
}

/// Acknowledged twice means the same as once.
pub proof fn acknowledging_twice_is_once(
    book: Map<Seq<char>, Seq<WaitingView>>,
    address: Seq<char>,
    id: u64,
)
    requires
        ids_differ(waiting_at(book, address)),
    ensures
        !awaits(after_delivered(book, address, id), address, id),
        after_delivered(after_delivered(book, address, id), address, id) == after_delivered(
            book,
            address,
            id,
        ),
{
    let q = waiting_at(book, address);
    place_is_first(q, id);
    if awaits(book, address, id) {
        let k = place_of_id(q, id) as int;
        let r = q.remove(k);
        assert forall|i: int| 0 <= i < r.len() implies (#[trigger] r[i]).id != id by {
            if i < k {
                assert(q[i].id != q[k].id);
            } else {
                assert(q[k].id != q[i + 1].id);
            }
        }
        place_is_first(r, id);
    }
}

/// A queue never grows past its ceiling, what was written last is kept, and what goes is the
/// oldest.
pub proof fn the_queue_is_capped(q: Seq<WaitingView>, w: WaitingView)
    ensures
        queued_behind(q, w).len() <= MAX_WAITING,
        queued_behind(q, w).last() == w,
        q.len() < MAX_WAITING ==> surplus(q) == 0 && queued_behind(q, w) == q.push(w),
        q.len() == MAX_WAITING ==> surplus(q) == 1 && queued_behind(q, w) == q.drop_first().push(w),
{
    if q.len() < MAX_WAITING {
        assert(queued_behind(q, w) =~= q.push(w));
    }
    if q.len() == MAX_WAITING {
        assert(queued_behind(q, w) =~= q.drop_first().push(w));
    }
}

/// Whatever is kept can travel: a message that was short enough to be queued is one that the
/// wire accepts.
pub proof fn anything_kept_can_travel(w: WaitingView)
    requires
        utf8_len(w.body) <= MAX_TEXT,
    ensures
        write_fault(left_frame(w)) is None,
{
    legal_messages_fit(left_frame(w));
}

/// What was written survives a restart: under the same key, the bytes that saving an outbox
/// gives open to the same queues, in the same order, and the same next id.
pub proof fn a_saved_outbox_reopens(
    key: Seq<u8>,
    stored: Seq<u8>,
    ks: Seq<Seq<char>>,
    vs: Seq<Seq<WaitingView>>,
    next: u64,
)
    requires
        ascending(ks),
        ks.len() == vs.len() <= usize::MAX,
        forall|i: int| 0 <= i < ks.len() ==> queue_real(#[trigger] zipped(ks, vs)[i]),
        unsealed(key, stored) == Some(outbox_bytes(zipped(ks, vs), next)),
    ensures
        plaintext_of(key, stored) is Ok,
        read_outbox(plaintext_of(key, stored)->Ok_0) == Ok::<_, Garbled>((zipped(ks, vs), next)),
        filed(zipped(ks, vs)) == paired(ks, vs),
{
    outbox_comes_back(zipped(ks, vs), next);
    filing_pairs(ks, vs);
}

} // verus!
