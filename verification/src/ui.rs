//! The screen and the input line: what is shown where, what is selected, what is typed.
//!
//! A row on screen is a piece of an entry, wrapped at a fixed width. The same rows are drawn,
//! clicked on and scrolled over, so the three never disagree.

use std::collections::VecDeque;

use vstd::prelude::*;
use vstd::string::*;
use vstd::utf8::*;

use crate::text::{chars, piece};

verus! {

/// How many lines of history are kept.
pub const SCROLLBACK: usize = 2000;

/// Rows a page moves before the first frame has been drawn.
pub const PAGE: usize = 10;

/// Rows one notch of the mouse wheel moves.
pub const WHEEL_STEP: usize = 3;

/// How long a header note stays up, in milliseconds.
pub const FLASH_FOR: u64 = 2000;

/// What kind of line this is, which decides how it is coloured.
#[derive(Clone, Copy, Debug, PartialEq, Eq, Structural)]
pub enum Kind {
    /// Program chatter: connection stages, call boundaries, command output.
    System,
    /// Something we said.
    Mine,
    /// Something they said.
    Theirs,
    /// A failure the operator has to see.
    Error,
}

/// One line of history.
#[derive(Clone, Debug, PartialEq, Eq)]
pub struct Entry {
    pub kind: Kind,
    pub text: String,
}

impl Entry {
    /// What this line says.
    pub fn text(&self) -> (r: &str)
        ensures
            r@ == self.text@,
    {
        self.text.as_str()
    }
}

/// What the rest of the program sends to the screen.
#[derive(Debug)]
pub enum Update {
    /// Append a line.
    Line(Entry),
    /// Replace the status shown in the title bar.
    Status(String),
    /// Start or stop accepting typed lines.
    Accepting(bool),
    /// Put this on the system clipboard.
    Clipboard(String),
}

/// One part of a typed message: words, or a file by its path.
#[derive(Clone, Debug, PartialEq, Eq)]
pub enum Part {
    Text(String),
    File(String),
}

/// What Enter hands over during a call.
#[derive(Clone, Debug, PartialEq, Eq)]
pub enum Typed {
    /// A line as typed.
    Line(String),
    /// A message with files in it, where they were put.
    Post { parts: Vec<Part>, direct: bool },
}

/// Some bytes in base64, padded.
pub uninterp spec fn base64_text(bytes: Seq<u8>) -> Seq<char>;

/// `BASE64.encode` of `data-encoding`, up to the length for which it is sure not to panic. The
/// contract claims only that the outcome is a function of the bytes, named `base64_text`.
#[verifier::external_body]
fn base64(bytes: &[u8]) -> (r: String)
    requires
        bytes@.len() <= usize::MAX / 512,
    ensures
        r@ == base64_text(bytes@),
{
    data_encoding::BASE64.encode(bytes)
}

/// What asks a terminal to put a text on the clipboard: an OSC 52 sequence, for the clipboard
/// proper and not the primary selection.
pub fn clipboard_sequence(text: &str) -> (r: String)
    requires
        encode_utf8(text@).len() <= usize::MAX / 512,
    ensures
        r@ == "\x1b]52;c;"@ + base64_text(encode_utf8(text@)) + "\x07"@,
{
    let mut s = "\x1b]52;c;".to_owned();
    s.append(base64(text.as_bytes()).as_str());
    s.append("\x07");
    s
}

/// One on-screen row, wrapped from an entry.
#[derive(Clone, Debug, PartialEq, Eq)]
pub struct Row {
    /// Which entry this row was wrapped from.
    pub entry: usize,
    /// Where in that entry's text this row starts, in characters.
    pub offset: usize,
    pub kind: Kind,
    pub text: String,
}

/// A row by its values.
#[verifier::ext_equal]
pub struct RowView {
    pub entry: int,
    pub offset: int,
    pub kind: Kind,
    pub text: Seq<char>,
}

impl View for Row {
    type V = RowView;

    open spec fn view(&self) -> RowView {
        RowView {
            entry: self.entry as int,
            offset: self.offset as int,
            kind: self.kind,
            text: self.text@,
        }
    }
}

/// Rows by their values.
pub open spec fn row_views(s: Seq<Row>) -> Seq<RowView> {
    s.map_values(|r: Row| r@)
}

/// One end of a selection: which entry, and how far into its text.
#[derive(Clone, Copy, Debug, PartialEq, Eq, Structural)]
pub struct Anchor {
    pub entry: usize,
    pub offset: usize,
}

/// A selection: where it started, and where the mouse is now.
#[derive(Clone, Copy, Debug, PartialEq, Eq, Structural)]
pub struct Selection {
    pub anchor: Anchor,
    pub current: Anchor,
}

/// One anchor stands before another in reading order, or at the same place.
pub open spec fn not_after(a: Anchor, b: Anchor) -> bool {
    a.entry < b.entry || (a.entry == b.entry && a.offset <= b.offset)
}

impl Selection {
    /// The two ends in document order, earliest first.
    pub fn ordered(&self) -> (r: (Anchor, Anchor))
        ensures
            not_after(r.0, r.1),
            r == if not_after(self.anchor, self.current) {
                (self.anchor, self.current)
            } else {
                (self.current, self.anchor)
            },
    {
        if self.anchor.entry < self.current.entry || (self.anchor.entry == self.current.entry
            && self.anchor.offset <= self.current.offset) {
            (self.anchor, self.current)
        } else {
            (self.current, self.anchor)
        }
    }
}

// --- wrapping -------------------------------------------------------------------------

/// Rows are at least one character wide.
pub open spec fn usable(width: nat) -> nat {
    if width == 0 {
        1
    } else {
        width
    }
}

/// The rows of a text from `at` on, each with the place where it starts.
pub open spec fn wrapped_from(s: Seq<char>, at: nat, width: nat) -> Seq<(nat, Seq<char>)>
    decreases
            if at < s.len() {
                s.len() - at
            } else {
                0
            },
    when width > 0
{
    if at >= s.len() {
        Seq::empty()
    } else {
        let end = if at + width < s.len() {
            at + width
        } else {
            s.len()
        };
        seq![(at, s.subrange(at as int, end as int))] + wrapped_from(s, at + width, width)
    }
}

/// The rows of a text. An empty one still takes a row.
pub open spec fn wrapped(s: Seq<char>, width: nat) -> Seq<(nat, Seq<char>)> {
    if s.len() == 0 {
        seq![(0nat, s)]
    } else {
        wrapped_from(s, 0, usable(width))
    }
}

/// Rows by their values.
pub open spec fn piece_views(s: Seq<(usize, String)>) -> Seq<(nat, Seq<char>)> {
    s.map_values(|p: (usize, String)| (p.0 as nat, p.1@))
}

/// Split `text` into rows of at most `width` characters, each with the place where it starts.
pub fn wrap(text: &str, width: usize) -> (r: Vec<(usize, String)>)
    ensures
        piece_views(r@) == wrapped(text@, width as nat),
{
    let w: usize = if width == 0 {
        1
    } else {
        width
    };
    let cs = chars(text);
    let mut rows: Vec<(usize, String)> = Vec::new();
    let n: usize = cs.len();
    if n == 0 {
        rows.push((0, text.to_owned()));
        assert(piece_views(rows@) =~= wrapped(text@, width as nat));
        return rows;
    }
    let mut i: usize = 0;
    let ghost mut at: nat = 0;
    assert(piece_views(rows@) + wrapped_from(text@, 0, w as nat) =~= wrapped(text@, width as nat));
    while i < n
        invariant
            n == cs@.len(),
            i <= n,
            w > 0,
            cs@ == text@,
            i < n ==> at == i,
            i == n ==> at >= n,
            piece_views(rows@) + wrapped_from(text@, at, w as nat) == wrapped(text@, width as nat),
        decreases n - i,
    {
        let end: usize = if n - i > w {
            i + w
        } else {
            n
        };
        let row = piece(cs.as_slice(), i, end);
        let ghost before = rows@;
        rows.push((i, row));
        proof {
            assert(piece_views(rows@) =~= piece_views(before).push((i as nat, row@)));
            assert(piece_views(rows@) + wrapped_from(text@, at + w as nat, w as nat)
                =~= piece_views(before) + wrapped_from(text@, at, w as nat));
            at = at + w as nat;
        }
        i = end;
    }
    assert(piece_views(rows@) + Seq::empty() =~= piece_views(rows@));
    rows
}

/// How many rows one text takes at this width.
pub fn rows_for(text: &str, width: usize) -> (r: usize)
    ensures
        r == wrapped(text@, width as nat).len(),
        r >= 1,
{
    let rows = wrap(text, width);
    assert(piece_views(rows@).len() == rows@.len());
    proof {
        wrapping_counts(text@, width as nat);
    }
    rows.len()
}

/// Every row is full until the last: a text takes as many rows as its length divided by the
/// width, rounded up, and one if it is empty.
pub proof fn wrapping_counts(s: Seq<char>, width: nat)
    ensures
        wrapped(s, width).len() >= 1,
        wrapped(s, width).len() <= s.len() + 1,
        s.len() > 0 ==> wrapped(s, width).len() == (s.len() + usable(width) - 1) / usable(
            width,
        ) as int,
{
    if s.len() > 0 {
        wrapped_len(s, 0, usable(width));
    }
}

proof fn wrapped_len(s: Seq<char>, at: nat, w: nat)
    requires
        w > 0,
        at < s.len(),
    ensures
        wrapped_from(s, at, w).len() == (s.len() - at + w - 1) / w as int,
        1 <= wrapped_from(s, at, w).len() <= s.len() - at,
    decreases s.len() - at,
{
    let d = s.len() - at;
    if at + w < s.len() {
        wrapped_len(s, at + w, w);
        assert((d + w - 1) / w as int == 1 + (d - 1) / w as int) by (nonlinear_arith)
            requires
                w > 0,
                d > 0,
        ;
        assert((d - w + w - 1) / w as int == (d - 1) / w as int);
    } else {
        assert(wrapped_from(s, at + w, w) =~= Seq::empty());
        assert((d + w - 1) / w as int == 1) by (nonlinear_arith)
            requires
                0 < d <= w,
        ;
    }
}

/// The rows of a text, one after the other.
pub open spec fn joined_rows(rows: Seq<(nat, Seq<char>)>) -> Seq<char>
    decreases rows.len(),
{
    if rows.len() == 0 {
        Seq::empty()
    } else {
        rows[0].1 + joined_rows(rows.drop_first())
    }
}

/// Wrapping loses nothing: the rows of a text, put together again, are the text.
pub proof fn wrapping_loses_nothing(s: Seq<char>, width: nat)
    ensures
        joined_rows(wrapped(s, width)) == s,
{
    if s.len() == 0 {
        let rows = wrapped(s, width);
        assert(rows.drop_first() =~= Seq::empty());
        assert(joined_rows(rows.drop_first()) == Seq::<char>::empty());
        assert(joined_rows(rows) =~= s);
    } else {
        rows_join(s, 0, usable(width));
        assert(s.skip(0) =~= s);
    }
}

proof fn rows_join(s: Seq<char>, at: nat, w: nat)
    requires
        w > 0,
        at <= s.len(),
    ensures
        joined_rows(wrapped_from(s, at, w)) == s.skip(at as int),
    decreases s.len() - at,
{
    let rows = wrapped_from(s, at, w);
    if at < s.len() {
        let next = at + w;
        assert(rows.drop_first() =~= wrapped_from(s, next, w));
        if next < s.len() {
            rows_join(s, next, w);
            assert(s.skip(at as int) =~= s.subrange(at as int, next as int) + s.skip(next as int));
        } else {
            assert(wrapped_from(s, next, w) =~= Seq::empty());
            assert(joined_rows(rows.drop_first()) == Seq::<char>::empty());
            assert(s.skip(at as int) =~= s.subrange(at as int, s.len() as int) + Seq::empty());
        }
    } else {
        assert(s.skip(at as int) =~= Seq::empty());
    }
}

/// No row is wider than the width, and every row says where in the text it stands.
pub proof fn rows_fit_and_know_their_place(s: Seq<char>, width: nat, i: int)
    requires
        0 <= i < wrapped(s, width).len(),
    ensures
        ({
            let (at, row) = wrapped(s, width)[i];
            &&& row.len() <= usable(width)
            &&& at + row.len() <= s.len()
            &&& row == s.subrange(at as int, (at + row.len()) as int)
        }),
{
    if s.len() == 0 {
        assert(s =~= s.subrange(0, 0));
    } else {
        row_place(s, 0, usable(width), i);
    }
}

proof fn row_place(s: Seq<char>, at: nat, w: nat, i: int)
    requires
        w > 0,
        0 <= i < wrapped_from(s, at, w).len(),
    ensures
        ({
            let (a, row) = wrapped_from(s, at, w)[i];
            &&& row.len() <= w
            &&& a + row.len() <= s.len()
            &&& row == s.subrange(a as int, (a + row.len()) as int)
        }),
    decreases
            if at < s.len() {
                s.len() - at
            } else {
                0
            },
{
    if at < s.len() && i > 0 {
        row_place(s, at + w, w, i - 1);
        assert(wrapped_from(s, at, w)[i] == wrapped_from(s, at + w, w)[i - 1]);
    }
}

// --- the visible window ---------------------------------------------------------------

/// The rows of one entry.
pub open spec fn entry_rows(index: int, e: Entry, width: nat) -> Seq<RowView> {
    wrapped(e.text@, width).map_values(
        |p: (nat, Seq<char>)| RowView { entry: index, offset: p.0 as int, kind: e.kind, text: p.1 },
    )
}

/// The rows of every entry from `from` on.
pub open spec fn rows_from(h: Seq<Entry>, from: nat, width: nat) -> Seq<RowView>
    decreases h.len() - from,
{
    if from >= h.len() {
        Seq::empty()
    } else {
        entry_rows(from as int, h[from as int], width) + rows_from(h, from + 1, width)
    }
}

/// The `height` rows that end `back` rows above the last; the first ones where there are not
/// so many above.
pub open spec fn window(rows: Seq<RowView>, height: nat, back: nat) -> Seq<RowView> {
    let room = if rows.len() > height {
        (rows.len() - height) as nat
    } else {
        0
    };
    let up = if back < room {
        back
    } else {
        room
    };
    let end = rows.len() - up;
    let start = if end > height {
        end - height
    } else {
        0
    };
    rows.subrange(start, end)
}

/// What a box of this size shows.
pub open spec fn shown_rows(h: Seq<Entry>, width: nat, height: nat, back: nat) -> Seq<RowView> {
    if height == 0 || h.len() == 0 {
        Seq::empty()
    } else {
        window(rows_from(h, 0, width), height, back)
    }
}

/// The rows of one entry, last one first.
fn push_reversed(acc: &mut Vec<Row>, index: usize, e: &Entry, width: usize)
    ensures
        row_views(final(acc)@) == row_views(old(acc)@) + entry_rows(
            index as int,
            *e,
            width as nat,
        ).reverse(),
{
    let pieces = wrap(e.text.as_str(), width);
    let ghost all = entry_rows(index as int, *e, width as nat);
    let n: usize = pieces.len();
    let mut k: usize = n;
    assert(piece_views(pieces@).len() == pieces@.len());
    assert(all.skip(n as int).reverse() =~= Seq::empty());
    assert(row_views(acc@) =~= row_views(old(acc)@) + all.skip(n as int).reverse());
    while k > 0
        invariant
            k <= n,
            n == pieces@.len(),
            piece_views(pieces@) == wrapped(e.text@, width as nat),
            all == entry_rows(index as int, *e, width as nat),
            all.len() == n,
            row_views(acc@) == row_views(old(acc)@) + all.skip(k as int).reverse(),
        decreases k,
    {
        k = k - 1;
        let ghost before = acc@;
        let row = Row {
            entry: index,
            offset: pieces[k].0,
            kind: e.kind,
            text: pieces[k].1.clone(),
        };
        acc.push(row);
        proof {
            assert(piece_views(pieces@)[k as int] == (pieces@[k as int].0 as nat, pieces@[k as int].1@));
            assert(row@ =~= all[k as int]);
            assert(row_views(acc@) =~= row_views(before).push(row@));
            assert(all.skip(k as int).reverse() =~= all.skip(k + 1).reverse().push(all[k as int]));
            assert(row_views(acc@) =~= row_views(old(acc)@) + all.skip(k as int).reverse());
        }
    }
    assert(all.skip(0) =~= all);
}

/// A window needs only the rows at the end that reach as far up as it does.
proof fn window_needs_the_end(before: Seq<RowView>, end: Seq<RowView>, height: nat, back: nat)
    requires
        before.len() == 0 || end.len() >= back + height,
    ensures
        window(before + end, height, back) == window(end, height, back),
{
    if before.len() == 0 {
        assert(before + end =~= end);
    } else {
        assert(window(before + end, height, back) =~= window(end, height, back));
    }
}

proof fn rows_split(h: Seq<Entry>, from: nat, mid: nat, width: nat)
    requires
        from <= mid <= h.len(),
    ensures
        exists|p: Seq<RowView>|
            rows_from(h, from, width) == #[trigger] (p + rows_from(h, mid, width)) && (from == mid
                ==> p.len() == 0),
    decreases mid - from,
{
    if from == mid {
        assert(rows_from(h, from, width) =~= Seq::<RowView>::empty() + rows_from(h, mid, width));
    } else {
        rows_split(h, from + 1, mid, width);
        let p = choose|p: Seq<RowView>|
            rows_from(h, from + 1, width) == #[trigger] (p + rows_from(h, mid, width)) && (from + 1
                == mid ==> p.len() == 0);
        let q = entry_rows(from as int, h[from as int], width) + p;
        assert(rows_from(h, from, width) =~= q + rows_from(h, mid, width));
    }
}

/// Every row a `height`-tall, `width`-wide box shows, `scroll_back` rows above the bottom.
pub fn visible_rows(
    history: &VecDeque<Entry>,
    width: usize,
    height: usize,
    scroll_back: usize,
) -> (r: Vec<Row>)
    ensures
        row_views(r@) == shown_rows(history@, width as nat, height as nat, scroll_back as nat),
{
    let mut out: Vec<Row> = Vec::new();
    if height == 0 || history.len() == 0 {
        assert(row_views(out@) =~= Seq::empty());
        return out;
    }
    let needed: u128 = scroll_back as u128 + height as u128;
    let n: usize = history.len();
    let mut acc: Vec<Row> = Vec::new();
    let mut i: usize = n;
    assert(rows_from(history@, n as nat, width as nat).reverse() =~= Seq::empty());
    assert(row_views(acc@) =~= Seq::empty());
    while i > 0 && (acc.len() as u128) < needed
        invariant
            i <= n == history@.len(),
            row_views(acc@) == rows_from(history@, i as nat, width as nat).reverse(),
        decreases i,
    {
        i = i - 1;
        let ghost tail = rows_from(history@, (i + 1) as nat, width as nat);
        push_reversed(&mut acc, i, &history[i], width);
        proof {
            let e = entry_rows(i as int, history@[i as int], width as nat);
            assert((e + tail).reverse() =~= tail.reverse() + e.reverse());
        }
    }
    let ghost end = rows_from(history@, i as nat, width as nat);
    let total: usize = acc.len();
    assert(row_views(acc@).len() == total);
    let room: usize = if total > height {
        total - height
    } else {
        0
    };
    let up: usize = if scroll_back < room {
        scroll_back
    } else {
        room
    };
    let stop: usize = total - up;
    let start: usize = if stop > height {
        stop - height
    } else {
        0
    };
    let mut k: usize = start;
    assert(row_views(out@) =~= end.subrange(start as int, k as int));
    while k < stop
        invariant
            start <= k <= stop <= total,
            total == acc@.len(),
            total == end.len(),
            row_views(acc@) == end.reverse(),
            row_views(out@) == end.subrange(start as int, k as int),
        decreases stop - k,
    {
        let src = &acc[total - 1 - k];
        let row = Row {
            entry: src.entry,
            offset: src.offset,
            kind: src.kind,
            text: src.text.clone(),
        };
        let ghost before = out@;
        out.push(row);
        proof {
            assert(row_views(acc@)[total - 1 - k] == end[k as int]);
            assert(row@ == end[k as int]);
            assert(row_views(out@) =~= row_views(before).push(row@));
            assert(end.subrange(start as int, k + 1) =~= end.subrange(start as int, k as int).push(
                end[k as int],
            ));
        }
        k = k + 1;
    }
    proof {
        rows_split(history@, 0, i as nat, width as nat);
        let p = choose|p: Seq<RowView>|
            rows_from(history@, 0, width as nat) == #[trigger] (p + end) && (0 == i ==> p.len()
                == 0);
        window_needs_the_end(p, end, height as nat, scroll_back as nat);
    }
    out
}

/// What a box shows is at most a boxful, and exactly one where there is enough to fill it.
pub proof fn a_boxful_is_shown(h: Seq<Entry>, width: nat, height: nat, back: nat)
    ensures
        shown_rows(h, width, height, back).len() <= height,
        height > 0 && rows_from(h, 0, width).len() >= height ==> shown_rows(
            h,
            width,
            height,
            back,
        ).len() == height,
        height > 0 && h.len() > 0 ==> shown_rows(h, width, height, back).len() > 0,
{
    if height > 0 && h.len() > 0 {
        wrapping_counts(h[0].text@, width);
    }
}

/// Following the tail, the newest line is always visible, however long the others are: the
/// last row shown is the last row of the newest entry.
pub proof fn the_newest_row_is_visible(h: Seq<Entry>, width: nat, height: nat)
    requires
        height > 0,
        h.len() > 0,
    ensures
        shown_rows(h, width, height, 0).last() == entry_rows(
            h.len() - 1,
            h[h.len() - 1],
            width,
        ).last(),
{
    a_boxful_is_shown(h, width, height, 0);
    last_row(h, 0, width);
    let all = rows_from(h, 0, width);
    let w = window(all, height, 0);
    assert(w.last() == all.last());
}

proof fn last_row(h: Seq<Entry>, from: nat, width: nat)
    requires
        from < h.len(),
    ensures
        rows_from(h, from, width).len() > 0,
        rows_from(h, from, width).last() == entry_rows(
            h.len() - 1,
            h[h.len() - 1],
            width,
        ).last(),
    decreases h.len() - from,
{
    wrapping_counts(h[from as int].text@, width);
    if from + 1 < h.len() {
        last_row(h, from + 1, width);
    } else {
        assert(rows_from(h, from + 1, width) =~= Seq::empty());
        assert(rows_from(h, from, width) =~= entry_rows(from as int, h[from as int], width));
    }
}

/// One step of scrolling is one row, however long the lines are: each row back moves the
/// window up by exactly one, until the oldest row is at the top.
pub proof fn one_step_is_one_row(rows: Seq<RowView>, height: nat, back: nat, i: int)
    requires
        height > 0,
        back + height < rows.len(),
        0 <= i < height - 1,
    ensures
        window(rows, height, back + 1)[i + 1] == window(rows, height, back)[i],
{
}

} // verus!
