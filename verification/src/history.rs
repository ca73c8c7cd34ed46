//! What was said, kept — if and only if somebody asked for it.

use vstd::prelude::*;
use vstd::string::*;
use vstd::utf8::*;

use crate::codec::{
    add_bool, add_str, add_u64, after, bool_back, bool_bytes, len_back, list_back, list_bytes,
    read_bool, read_len, read_list, read_text, read_u64, take_bool, take_len, take_str, take_u64,
    text_back, text_bytes, u64_back, varint, Garbled,
};
use crate::contacts::{plaintext_of, BookError};
use crate::crypto::wipe;
use crate::identity::Identity;
use crate::proto::utf8_len;
use crate::store::{read_sealed, seal, sealable, unsealed, StoreError};
use crate::text::{same, trim, trimmed};

verus! {

/// Key-derivation context for the history file.
pub const KEY_CONTEXT: &'static str = "murmure 2026 history";

/// Most bytes of message text kept, across all conversations.
pub const MAX_BYTES: usize = 1048576;

/// How many lines `/history` shows when asked with no number.
pub const SHOWN: usize = 20;

/// One line of a conversation, as it was.
#[derive(Clone, Debug, PartialEq, Eq)]
pub struct Line {
    /// Seconds since the epoch.
    pub at: u64,
    /// Whose conversation this belongs to, by `.onion` address.
    pub with: String,
    /// True if we wrote it.
    pub mine: bool,
    pub body: String,
}

/// A line by its values.
#[verifier::ext_equal]
pub struct LineView {
    pub at: u64,
    pub with: Seq<char>,
    pub mine: bool,
    pub body: Seq<char>,
}

impl View for Line {
    type V = LineView;

    open spec fn view(&self) -> LineView {
        LineView { at: self.at, with: self.with@, mine: self.mine, body: self.body@ }
    }
}

/// Lines by their values.
pub open spec fn line_views(s: Seq<Line>) -> Seq<LineView> {
    s.map_values(|l: Line| l@)
}

/// The bytes of a line.
pub open spec fn line_bytes(l: LineView) -> Seq<u8> {
    varint(l.at as nat) + (text_bytes(l.with) + (bool_bytes(l.mine) + text_bytes(l.body)))
}

/// How a line is read.
pub open spec fn read_line(b: Seq<u8>) -> Result<(LineView, Seq<u8>), Garbled> {
    match read_u64(b) {
        Err(e) => Err(e),
        Ok((at, b)) => match read_text(b) {
            Err(e) => Err(e),
            Ok((with, b)) => match read_bool(b) {
                Err(e) => Err(e),
                Ok((mine, b)) => match read_text(b) {
                    Err(e) => Err(e),
                    Ok((body, b)) => Ok((LineView { at: at as u64, with, mine, body }, b)),
                },
            },
        },
    }
}

/// The writer of one line.
pub open spec fn line_writer() -> spec_fn(LineView) -> Seq<u8> {
    |l: LineView| line_bytes(l)
}

/// The reader of one line.
pub open spec fn line_reader() -> spec_fn(Seq<u8>) -> Result<(LineView, Seq<u8>), Garbled> {
    |b: Seq<u8>| read_line(b)
}

/// The bytes of a record: whether it is kept, then the lines behind their number.
pub open spec fn history_bytes(on: bool, lines: Seq<LineView>) -> Seq<u8> {
    bool_bytes(on) + (varint(lines.len()) + list_bytes(lines, line_writer()))
}

/// How a record is read. Bytes behind it are not looked at.
pub open spec fn read_history(b: Seq<u8>) -> Result<(bool, Seq<LineView>), Garbled> {
    match read_bool(b) {
        Err(e) => Err(e),
        Ok((on, b)) => match read_len(b) {
            Err(e) => Err(e),
            Ok((n, b)) => match read_list(b, n, line_reader()) {
                Err(e) => Err(e),
                Ok((lines, _)) => Ok((on, lines)),
            },
        },
    }
}

/// A line that a program can hold.
pub open spec fn line_real(l: LineView) -> bool {
    utf8_len(l.with) <= usize::MAX && utf8_len(l.body) <= usize::MAX
}

proof fn line_back(l: LineView, rest: Seq<u8>)
    requires
        line_real(l),
    ensures
        read_line(line_bytes(l) + rest) == Ok::<_, Garbled>((l, rest)),
{
    let t1 = text_bytes(l.body) + rest;
    let t2 = bool_bytes(l.mine) + t1;
    let t3 = text_bytes(l.with) + t2;
    assert(line_bytes(l) + rest =~= varint(l.at as nat) + t3);
    u64_back(l.at, t3);
    text_back(l.with, t2);
    bool_back(l.mine, t1);
    text_back(l.body, rest);
}

/// A record comes back from its bytes as it was.
pub proof fn history_comes_back(on: bool, lines: Seq<LineView>)
    requires
        lines.len() <= usize::MAX,
        forall|i: int| 0 <= i < lines.len() ==> line_real(#[trigger] lines[i]),
    ensures
        read_history(history_bytes(on, lines)) == Ok::<_, Garbled>((on, lines)),
{
    let list = list_bytes(lines, line_writer());
    bool_back(on, varint(lines.len()) + list);
    len_back(lines.len() as usize, list);
    assert forall|i: int, r: Seq<u8>| 0 <= i < lines.len() implies #[trigger] line_reader()(
        line_writer()(lines[i]) + r,
    ) == Ok::<_, Garbled>((lines[i], r)) by {
        line_back(lines[i], r);
    }
    list_back(lines, line_writer(), line_reader(), Seq::empty());
    assert(list + Seq::<u8>::empty() =~= list);
}

/// The record.
#[derive(Debug)]
pub struct History {
    /// Whether anything is being written down at all.
    pub on: bool,
    /// What was written down, oldest first.
    pub lines: Vec<Line>,
    /// Whether anything has changed since it was last sealed.
    pub unsaved: bool,
}

/// The bytes of text in some lines.
pub open spec fn body_total(lines: Seq<LineView>) -> nat
    decreases lines.len(),
{
    if lines.len() == 0 {
        0
    } else {
        utf8_len(lines[0].body) + body_total(lines.drop_first())
    }
}

/// What is left once the oldest lines have gone that do not fit.
pub open spec fn fitting(lines: Seq<LineView>) -> Seq<LineView>
    decreases lines.len(),
{
    if body_total(lines) > MAX_BYTES && lines.len() > 0 {
        fitting(lines.drop_first())
    } else {
        lines
    }
}

/// A line is of the conversation asked for; with nothing asked for, every line is.
pub open spec fn concerns(l: LineView, with: Option<Seq<char>>) -> bool {
    match with {
        None => true,
        Some(w) => l.with == trim(w),
    }
}

/// The lines of a conversation, in order.
pub open spec fn matching(lines: Seq<LineView>, with: Option<Seq<char>>) -> Seq<LineView>
    decreases lines.len(),
{
    if lines.len() == 0 {
        Seq::empty()
    } else {
        let before = matching(lines.drop_last(), with);
        if concerns(lines.last(), with) {
            before.push(lines.last())
        } else {
            before
        }
    }
}

/// The lines of every other conversation, in order.
pub open spec fn without(lines: Seq<LineView>, with: Seq<char>) -> Seq<LineView>
    decreases lines.len(),
{
    if lines.len() == 0 {
        Seq::empty()
    } else {
        let before = without(lines.drop_last(), with);
        if lines.last().with != trim(with) {
            before.push(lines.last())
        } else {
            before
        }
    }
}

/// The last `count` of some lines.
pub open spec fn last_of(lines: Seq<LineView>, count: nat) -> Seq<LineView> {
    if lines.len() > count {
        lines.skip(lines.len() - count)
    } else {
        lines
    }
}

/// The key that the record is sealed under.
pub fn history_key(identity: &Identity) -> (r: [u8; 32])
    ensures
        r@ == crate::crypto::blake3_derived(KEY_CONTEXT@, identity.seed()),
{
    identity.derive_key(KEY_CONTEXT)
}

fn add_line(out: &mut Vec<u8>, l: &Line)
    ensures
        final(out)@ == old(out)@ + line_bytes(l@),
        line_real(l@),
{
    let n1: usize = l.with.as_str().as_bytes().len();
    let n2: usize = l.body.as_str().as_bytes().len();
    assert(n1 == utf8_len(l.with@) && n2 == utf8_len(l.body@));
    add_u64(out, l.at);
    add_str(out, l.with.as_str());
    add_bool(out, l.mine);
    add_str(out, l.body.as_str());
    assert(out@ =~= old(out)@ + line_bytes(l@));
}

fn take_line(b: &[u8]) -> (r: Result<(Line, &[u8]), Garbled>)
    ensures
        match r {
            Ok((l, rest)) => read_line(b@) == Ok::<_, Garbled>((l@, rest@)),
            Err(e) => read_line(b@) is Err && read_line(b@)->Err_0 == e,
        },
{
    match take_u64(b) {
        Err(e) => Err(e),
        Ok((at, b)) => match take_str(b) {
            Err(e) => Err(e),
            Ok((with, b)) => match take_bool(b) {
                Err(e) => Err(e),
                Ok((mine, b)) => match take_str(b) {
                    Err(e) => Err(e),
                    Ok((body, b)) => Ok((Line { at, with, mine, body }, b)),
                },
            },
        },
    }
}

fn decode_history(b: &[u8]) -> (r: Result<(bool, Vec<Line>), Garbled>)
    ensures
        match r {
            Ok((on, lines)) => read_history(b@) == Ok::<_, Garbled>((on, line_views(lines@))),
            Err(e) => read_history(b@) is Err && read_history(b@)->Err_0 == e,
        },
{
    let (on, b1) = match take_bool(b) {
        Ok(x) => x,
        Err(e) => {
            return Err(e);
        },
    };
    let (n, first) = match take_len(b1) {
        Ok(x) => x,
        Err(e) => {
            return Err(e);
        },
    };
    let mut rest = first;
    let mut lines: Vec<Line> = Vec::new();
    let ghost all = read_list(first@, n as nat, line_reader());
    let mut i: usize = 0;
    proof {
        assert(line_views(lines@) =~= Seq::empty());
        assert(after(line_views(lines@), all) =~= all) by {
            if all is Ok {
                assert(line_views(lines@) + (all->Ok_0).0 =~= (all->Ok_0).0);
            }
        }
    }
    while i < n
        invariant
            i <= n,
            read_bool(b@) == Ok::<_, Garbled>((on, b1@)),
            read_len(b1@) == Ok::<_, Garbled>((n as nat, first@)),
            all == read_list(first@, n as nat, line_reader()),
            all == after(line_views(lines@), read_list(rest@, (n - i) as nat, line_reader())),
        decreases n - i,
    {
        match take_line(rest) {
            Err(e) => {
                assert(line_reader()(rest@) is Err && line_reader()(rest@)->Err_0 == e);
                return Err(e);
            },
            Ok((l, more)) => {
                proof {
                    assert(line_reader()(rest@) == Ok::<_, Garbled>((l@, more@)));
                    let tail = read_list(more@, (n - i - 1) as nat, line_reader());
                    assert(line_views(lines@.push(l)) =~= line_views(lines@).push(l@));
                    if tail is Ok {
                        assert(line_views(lines@) + (seq![l@] + (tail->Ok_0).0) =~= line_views(
                            lines@.push(l),
                        ) + (tail->Ok_0).0);
                    }
                }
                lines.push(l);
                rest = more;
            },
        }
        i = i + 1;
    }
    assert(line_views(lines@) + Seq::<LineView>::empty() =~= line_views(lines@));
    Ok((on, lines))
}

/// The bytes of text in some lines.
fn measure(lines: &Vec<Line>) -> (r: u128)
    ensures
        r == body_total(line_views(lines@)),
{
    let ghost es = line_views(lines@);
    let mut sum: u128 = 0;
    let mut i: usize = lines.len();
    let n: usize = lines.len();
    assert(es.skip(i as int) =~= Seq::empty());
    while i > 0
        invariant
            i <= n == lines@.len(),
            es == line_views(lines@),
            sum == body_total(es.skip(i as int)),
            sum <= (n - i) * usize::MAX,
        decreases i,
    {
        i = i - 1;
        let k: usize = lines[i].body.as_str().as_bytes().len();
        proof {
            let t = es.skip(i as int);
            assert(t[0] == lines@[i as int]@);
            assert(t.drop_first() =~= es.skip(i + 1));
            let d = n - i - 1;
            assert(d * usize::MAX + usize::MAX == (d + 1) * usize::MAX) by (nonlinear_arith);
            assert(d * usize::MAX <= 0xffff_ffff_ffff_ffff * 0xffff_ffff_ffff_ffff) by (nonlinear_arith)
                requires
                    0 <= d <= 0xffff_ffff_ffff_ffff,
                    usize::MAX <= 0xffff_ffff_ffff_ffff,
            ;
        }
        sum = sum + k as u128;
    }
    assert(es.skip(0) =~= es);
    sum
}

impl History {
    /// What was written down, by values.
    pub open spec fn record(&self) -> Seq<LineView> {
        line_views(self.lines@)
    }

    /// Open the record that a file held, or start an empty one, kept by nobody, where there
    /// was no file.
    pub fn open(stored: Option<&[u8]>, key: &[u8; 32]) -> (r: Result<History, BookError>)
        ensures
            match stored {
                None => r is Ok && !r->Ok_0.on && r->Ok_0.record() == Seq::<LineView>::empty(),
                Some(s) => match plaintext_of(key@, s@) {
                    Err(e) => r is Err && r->Err_0 == BookError::Sealed(e),
                    Ok(p) => match read_history(p) {
                        Err(e) => r is Err && r->Err_0 == BookError::Unreadable(e),
                        Ok((on, lines)) => r is Ok && r->Ok_0.on == on && r->Ok_0.record()
                            == lines,
                    },
                },
            },
            r is Ok ==> !r->Ok_0.unsaved,
    {
        match read_sealed(stored, key) {
            Err(e) => Err(BookError::Sealed(e)),
            Ok(None) => {
                let h = History { on: false, lines: Vec::new(), unsaved: false };
                assert(h.record() =~= Seq::<LineView>::empty());
                Ok(h)
            },
            Ok(Some(plaintext)) => {
                let mut plaintext = plaintext;
                let m = decode_history(plaintext.as_slice());
                wipe(&mut plaintext);
                match m {
                    Err(e) => Err(BookError::Unreadable(e)),
                    Ok((on, lines)) => Ok(History { on, lines, unsaved: false }),
                }
            },
        }
    }

    /// The bytes to write to disk: what is under the seal is the record.
    pub fn save(&mut self, key: &[u8; 32]) -> (r: Result<Vec<u8>, StoreError>)
        ensures
            final(self).on == old(self).on,
            final(self).lines == old(self).lines,
            final(self).unsaved == (old(self).unsaved && r is Err),
            ({
                let bytes = history_bytes(old(self).on, old(self).record());
                &&& r is Ok <==> sealable(bytes)
                &&& r is Err ==> r->Err_0 == StoreError::Sealing
                &&& r is Ok ==> unsealed(key@, r->Ok_0@) == Some(bytes)
                &&& read_history(bytes) == Ok::<_, Garbled>((old(self).on, old(self).record()))
            }),
    {
        let mut out: Vec<u8> = Vec::new();
        let n: usize = self.lines.len();
        let ghost es = self.record();
        add_bool(&mut out, self.on);
        add_u64(&mut out, n as u64);
        let ghost start = out@;
        let mut i: usize = 0;
        assert(es.skip(0) =~= es);
        while i < n
            invariant
                i <= n,
                n == es.len(),
                es == line_views(self.lines@),
                forall|j: int| 0 <= j < i ==> line_real(#[trigger] es[j]),
                out@ + list_bytes(es.skip(i as int), line_writer()) == start + list_bytes(
                    es,
                    line_writer(),
                ),
            decreases n - i,
        {
            let ghost before = out@;
            add_line(&mut out, &self.lines[i]);
            proof {
                let t = es.skip(i as int);
                assert(t.drop_first() =~= es.skip(i + 1));
                assert(t[0] == self.lines@[i as int]@);
                assert(out@ + list_bytes(t.drop_first(), line_writer()) =~= before + list_bytes(
                    t,
                    line_writer(),
                ));
            }
            i = i + 1;
        }
        proof {
            assert(list_bytes(es.skip(i as int), line_writer()) =~= Seq::empty());
            assert(out@ =~= history_bytes(self.on, es));
            history_comes_back(self.on, es);
        }
        let r = seal(key, out.as_slice());
        wipe(&mut out);
        if r.is_ok() {
            self.unsaved = false;
        }
        r
    }

    /// Is anything being written down?
    pub fn on(&self) -> (r: bool)
        ensures
            r == self.on,
    {
        self.on
    }

    /// Start or stop keeping a record. Stopping erases what is there, and says how much.
    pub fn set(&mut self, on: bool) -> (r: usize)
        ensures
            final(self).on == on,
            final(self).unsaved,
            on ==> final(self).record() == old(self).record() && r == 0,
            !on ==> final(self).record() == Seq::<LineView>::empty() && r
                == old(self).record().len(),
    {
        self.on = on;
        self.unsaved = true;
        if on {
            0
        } else {
            let n: usize = self.lines.len();
            self.lines = Vec::new();
            assert(self.record() =~= Seq::<LineView>::empty());
            n
        }
    }

    /// Write one line down, said at `at`. Does nothing while history is off.
    pub fn note(&mut self, with: &str, mine: bool, body: &str, at: u64)
        ensures
            !old(self).on ==> *final(self) == *old(self),
            old(self).on ==> {
                &&& final(self).on
                &&& final(self).unsaved
                &&& final(self).record() == fitting(
                    old(self).record().push(LineView { at, with: trim(with@), mine, body: body@ }),
                )
            },
    {
        if !self.on {
            return;
        }
        let l = Line { at, with: trimmed(with), mine, body: body.to_owned() };
        let ghost before = self.lines@;
        let ghost lv = l@;
        self.lines.push(l);
        assert(self.record() =~= line_views(before).push(lv));
        self.trim();
        self.unsaved = true;
    }

    /// Drop the oldest lines until what is kept fits the cap.
    fn trim(&mut self)
        ensures
            final(self).on == old(self).on,
            final(self).unsaved == old(self).unsaved,
            final(self).record() == fitting(old(self).record()),
    {
        let mut sum = measure(&self.lines);
        let mut gone: usize = 0;
        let ghost es = self.record();
        assert(es.skip(0) =~= es);
        while sum > MAX_BYTES as u128 && gone < self.lines.len()
            invariant
                gone <= self.lines@.len(),
                es == line_views(self.lines@),
                *self == *old(self),
                sum == body_total(es.skip(gone as int)),
                fitting(es) == fitting(es.skip(gone as int)),
            decreases self.lines@.len() - gone,
        {
            let k: usize = self.lines[gone].body.as_str().as_bytes().len();
            proof {
                let t = es.skip(gone as int);
                assert(t[0] == self.lines@[gone as int]@);
                assert(t.drop_first() =~= es.skip(gone + 1));
            }
            sum = sum - k as u128;
            gone = gone + 1;
        }
        let kept = self.lines.split_off(gone);
        assert(line_views(kept@) =~= es.skip(gone as int));
        self.lines = kept;
    }

    /// The last `count` lines, oldest first — optionally only with one peer.
    pub fn tail(&self, with: Option<&str>, count: usize) -> (r: Vec<&Line>)
        ensures
            ref_views(r@) == last_of(
                matching(
                    self.record(),
                    match with {
                        Some(w) => Some(w@),
                        None => None,
                    },
                ),
                count as nat,
            ),
    {
        let ghost w = match with {
            Some(w) => Some(w@),
            None => None,
        };
        let ghost es = self.record();
        let mut kept: Vec<&Line> = Vec::new();
        let mut i: usize = 0;
        assert(ref_views(kept@) =~= matching(es.take(0), w));
        while i < self.lines.len()
            invariant
                i <= self.lines@.len(),
                es == line_views(self.lines@),
                w == match with {
                    Some(w) => Some(w@),
                    None => None,
                },
                ref_views(kept@) == matching(es.take(i as int), w),
            decreases self.lines@.len() - i,
        {
            let ghost now = es.take(i + 1);
            let ghost k0 = kept@;
            proof {
                assert(now.drop_last() =~= es.take(i as int));
                assert(now.last() == self.lines@[i as int]@);
            }
            let wanted = match with {
                None => true,
                Some(p) => same(self.lines[i].with.as_str(), trimmed(p).as_str()),
            };
            if wanted {
                kept.push(&self.lines[i]);
                assert(ref_views(kept@) =~= ref_views(k0).push(now.last()));
            }
            i = i + 1;
        }
        assert(es.take(i as int) =~= es);
        if kept.len() > count {
            let from: usize = kept.len() - count;
            let ghost k0 = kept@;
            let r = kept.split_off(from);
            assert(ref_views(r@) =~= ref_views(k0).skip(from as int));
            r
        } else {
            kept
        }
    }

    /// Erase everything kept about one peer. Gives how much there was.
    pub fn forget(&mut self, with: &str) -> (r: usize)
        ensures
            final(self).on == old(self).on,
            final(self).record() == without(old(self).record(), with@),
            r == old(self).record().len() - final(self).record().len(),
            final(self).unsaved == (old(self).unsaved || r > 0),
    {
        let peer = trimmed(with);
        let ghost es = self.record();
        let n: usize = self.lines.len();
        let mut kept: Vec<Line> = Vec::new();
        let mut i: usize = 0;
        assert(line_views(kept@) =~= without(es.take(0), with@));
        while i < n
            invariant
                i <= n == self.lines@.len(),
                *self == *old(self),
                es == line_views(self.lines@),
                peer@ == trim(with@),
                line_views(kept@) == without(es.take(i as int), with@),
                kept@.len() <= i,
            decreases n - i,
        {
            let ghost now = es.take(i + 1);
            let ghost k0 = kept@;
            proof {
                assert(now.drop_last() =~= es.take(i as int));
                assert(now.last() == self.lines@[i as int]@);
            }
            let l = &self.lines[i];
            if !same(l.with.as_str(), peer.as_str()) {
                kept.push(
                    Line { at: l.at, with: l.with.clone(), mine: l.mine, body: l.body.clone() },
                );
                assert(line_views(kept@) =~= line_views(k0).push(now.last()));
            }
            i = i + 1;
        }
        assert(es.take(i as int) =~= es);
        let gone: usize = n - kept.len();
        self.lines = kept;
        if gone > 0 {
            self.unsaved = true;
        }
        gone
    }

    /// How many lines are kept.
    pub fn len(&self) -> (r: usize)
        ensures
            r == self.record().len(),
    {
        self.lines.len()
    }
}

/// Lines by their values.
pub open spec fn ref_views(s: Seq<&Line>) -> Seq<LineView> {
    s.map_values(|l: &Line| l@)
}

// --- laws -----------------------------------------------------------------------------

/// What is kept is bounded by bytes: writing a line down never leaves more than the cap, and
/// what goes is the oldest.
pub proof fn the_record_is_bounded(lines: Seq<LineView>)
    ensures
        body_total(fitting(lines)) <= MAX_BYTES,
        exists|k: int| 0 <= k <= lines.len() && fitting(lines) == #[trigger] lines.skip(k),
    decreases lines.len(),
{
    if body_total(lines) > MAX_BYTES && lines.len() > 0 {
        let t = lines.drop_first();
        the_record_is_bounded(t);
        let k = choose|k: int| 0 <= k <= t.len() && fitting(t) == #[trigger] t.skip(k);
        assert(t.skip(k) =~= lines.skip(k + 1));
    } else {
        assert(lines.skip(0) =~= lines);
    }
}

/// A line that fits by itself is never the one that goes: what was said last is kept.
pub proof fn the_newest_line_is_kept(lines: Seq<LineView>, l: LineView)
    requires
        utf8_len(l.body) <= MAX_BYTES,
    ensures
        fitting(lines.push(l)).len() > 0,
        fitting(lines.push(l)).last() == l,
    decreases lines.len(),
{
    let all = lines.push(l);
    if lines.len() == 0 {
        assert(all.drop_first() =~= Seq::empty());
        assert(body_total(all) == utf8_len(l.body)) by {
            assert(body_total(all.drop_first()) == 0);
        }
    } else if body_total(all) > MAX_BYTES {
        assert(all.drop_first() =~= lines.drop_first().push(l));
        the_newest_line_is_kept(lines.drop_first(), l);
    }
}

/// Forgetting a peer forgets what was said with them, and nobody else's: nothing of theirs is
/// left, and every other line is.
pub proof fn forgetting_forgets_one_peer(lines: Seq<LineView>, with: Seq<char>, l: LineView)
    ensures
        without(lines, with).contains(l) <==> lines.contains(l) && l.with != trim(with),
    decreases lines.len(),
{
    if lines.len() > 0 {
        let init = lines.drop_last();
        let last = lines.last();
        let w = without(init, with);
        forgetting_forgets_one_peer(init, with, l);
        if without(lines, with).contains(l) {
            let i = without(lines, with).index_of(l);
            if i < w.len() {
                assert(w[i] == l);
                assert(w.contains(l));
                let j = init.index_of(l);
                assert(lines[j] == l);
            } else {
                assert(l == last);
                assert(lines[lines.len() - 1] == l);
            }
        }
        if lines.contains(l) && l.with != trim(with) {
            let i = lines.index_of(l);
            if i < init.len() {
                assert(init[i] == l);
                let j = w.index_of(l);
                assert(without(lines, with)[j] == l);
            } else {
                assert(without(lines, with)[w.len() as int] == l);
            }
        }
    }
}

/// What was kept survives a restart: under the same key, the bytes that saving a record gives
/// open to the same record, still on or still off.
pub proof fn a_saved_record_reopens(
    key: Seq<u8>,
    stored: Seq<u8>,
    on: bool,
    lines: Seq<LineView>,
)
    requires
        lines.len() <= usize::MAX,
        forall|i: int| 0 <= i < lines.len() ==> line_real(#[trigger] lines[i]),
        unsealed(key, stored) == Some(history_bytes(on, lines)),
    ensures
        plaintext_of(key, stored) is Ok,
        read_history(plaintext_of(key, stored)->Ok_0) == Ok::<_, Garbled>((on, lines)),
{
    history_comes_back(on, lines);
}

} // verus!
