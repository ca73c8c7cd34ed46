//! The interface's state: scrollback, input line, selection, and what each key and mouse event
//! does to them.

use std::collections::VecDeque;

use vstd::prelude::*;
use vstd::string::*;

use crate::chat::{offer_lines, ActView};
use crate::files::{file_name, file_name_of, join, joined, OfferView};
use crate::text::{
    chars, control, count_of, decimal, decimal_back, decimal_text, find, index_of, index_of_first,
    is_control, parse_count, piece, same, starts, starts_with, trim, trimmed,
};
use crate::typed::{after_word, first_word, split_word};
use crate::ui::{
    not_after, row_views, rows_for, shown_rows, visible_rows, wrapped, Anchor, Entry, Kind, Part,
    Row, RowView, Selection, Typed, FLASH_FOR, PAGE, SCROLLBACK, WHEEL_STEP,
};

verus! {

/// One thing on the input line: a character, or a file by its path.
#[derive(Clone, Debug, PartialEq, Eq)]
pub enum Item {
    Char(char),
    File(String),
}

/// How an item reads on screen: a file is its name in brackets.
pub open spec fn item_text(i: Item) -> Seq<char> {
    match i {
        Item::Char(c) => seq![c],
        Item::File(path) => "["@ + match file_name_of(path@) {
            Some(name) => name,
            None => path@,
        } + "]"@,
    }
}

impl Item {
    /// How the item reads on screen.
    pub fn shown(&self) -> (r: String)
        ensures
            r@ == item_text(*self),
    {
        match self {
            Item::Char(c) => {
                let mut s = String::new();
                s.push(*c);
                assert(s@ =~= seq![*c]);
                s
            },
            Item::File(path) => {
                let mut s = "[".to_owned();
                match file_name(path.as_str()) {
                    Some(name) => s.append(name.as_str()),
                    None => s.append(path.as_str()),
                }
                s.append("]");
                s
            },
        }
    }

    /// Columns it takes.
    pub fn width(&self) -> (r: usize)
        ensures
            r == item_text(*self).len(),
    {
        match self {
            Item::Char(_) => 1,
            Item::File(_) => self.shown().as_str().unicode_len(),
        }
    }
}

/// What an input line shows.
pub open spec fn items_text(items: Seq<Item>) -> Seq<char>
    decreases items.len(),
{
    if items.len() == 0 {
        Seq::empty()
    } else {
        items_text(items.drop_last()) + item_text(items.last())
    }
}

/// The characters on an input line, without its files.
pub open spec fn items_chars(items: Seq<Item>) -> Seq<char>
    decreases items.len(),
{
    if items.len() == 0 {
        Seq::empty()
    } else {
        match items.last() {
            Item::Char(c) => items_chars(items.drop_last()).push(c),
            Item::File(_) => items_chars(items.drop_last()),
        }
    }
}

/// The commands that offer the files on an input line.
pub open spec fn items_sends(items: Seq<Item>) -> Seq<Seq<char>>
    decreases items.len(),
{
    if items.len() == 0 {
        Seq::empty()
    } else {
        match items.last() {
            Item::Char(_) => items_sends(items.drop_last()),
            Item::File(path) => items_sends(items.drop_last()).push("/send "@ + path@),
        }
    }
}

/// The lines Enter sends: one `/send` for each file, then the text. A bare `/send` typed
/// before a file was dropped says nothing more.
pub open spec fn submitted(items: Seq<Item>) -> Seq<Seq<char>> {
    let sends = items_sends(items);
    let text = trim(items_chars(items));
    if text.len() == 0 || (sends.len() > 0 && text == "/send"@) {
        sends
    } else {
        sends.push(text)
    }
}

/// Texts by their characters.
pub open spec fn lines_view(s: Seq<String>) -> Seq<Seq<char>> {
    s.map_values(|t: String| t@)
}

/// Everything drawn, and where the view is.
#[derive(Debug)]
pub struct App {
    /// Shown in the title bar, next to the address.
    pub status: String,
    /// Our own address, abbreviated.
    pub title: String,
    /// Scrollback, oldest first.
    pub history: VecDeque<Entry>,
    /// The input line: typed characters and dropped files, where they were put.
    pub items: Vec<Item>,
    /// Where the cursor sits among the items.
    pub cursor: usize,
    /// Screen rows scrolled up from the bottom. Zero means following the tail.
    pub scroll_back: usize,
    /// The history box, as of the last frame: usable width, then height.
    pub viewport: (usize, usize),
    /// Where the inside of the history box starts on screen, as of the last frame.
    pub body_origin: (u16, u16),
    /// The rows drawn last frame, in on-screen order.
    pub rows: Vec<Row>,
    /// The current text selection, if any.
    pub selection: Option<Selection>,
    /// Set while the left button is held down and has moved.
    pub dragging: bool,
    /// A short note in the header, and when it stops being shown, in milliseconds.
    pub flash: Option<(String, u64)>,
    /// Whether typed lines are accepted at all.
    pub accepting: bool,
}

/// The smaller of a number and what a machine word holds.
pub open spec fn word(n: nat) -> nat {
    if n > usize::MAX {
        usize::MAX as nat
    } else {
        n
    }
}

/// How many rows some entries take at this width.
pub open spec fn rows_total(h: Seq<Entry>, width: nat) -> nat
    decreases h.len(),
{
    if h.len() == 0 {
        0
    } else {
        rows_total(h.drop_last(), width) + wrapped(h.last().text@, width).len()
    }
}

/// How many columns some items take.
pub open spec fn columns(items: Seq<Item>) -> nat
    decreases items.len(),
{
    if items.len() == 0 {
        0
    } else {
        columns(items.drop_last()) + item_text(items.last()).len()
    }
}

/// How far up the view can go: until the oldest row is at the top of the box.
pub open spec fn scroll_limit(app: App) -> int {
    let total = word(rows_total(app.history@, app.viewport.0 as nat));
    if total > app.viewport.1 {
        total - app.viewport.1
    } else {
        0
    }
}

/// A number kept between zero and a limit.
pub open spec fn kept_within(n: int, limit: int) -> int {
    if n < 0 {
        0
    } else if n > limit {
        limit
    } else {
        n
    }
}

/// The view after moving: positive goes back into history, negative comes forward.
pub open spec fn scrolled(app: App, rows: int) -> int {
    kept_within(app.scroll_back + rows, scroll_limit(app))
}

/// A screenful, less one row of overlap.
pub open spec fn page_rows(app: App) -> int {
    if app.viewport.1 <= 2 {
        1
    } else {
        app.viewport.1 - 1
    }
}

/// Nothing but the input line has changed.
pub open spec fn only_line(a: App, b: App, items: Seq<Item>, cursor: int) -> bool {
    &&& b.items@ == items
    &&& b.cursor == cursor
    &&& b == (App { items: b.items, cursor: b.cursor, ..a })
}

/// Nothing but the place of the view has changed.
pub open spec fn only_view(a: App, b: App, back: int) -> bool {
    &&& b.scroll_back == back
    &&& b == (App { scroll_back: b.scroll_back, ..a })
}

/// The items with a file put where the cursor is, a space before it unless one is there.
pub open spec fn attached(items: Seq<Item>, cursor: int, path: String) -> (Seq<Item>, int) {
    if cursor > 0 && items[cursor - 1] is Char && items[cursor - 1] != Item::Char(' ') {
        (
            items.insert(cursor, Item::Char(' ')).insert(cursor + 1, Item::File(path)),
            cursor + 2,
        )
    } else {
        (items.insert(cursor, Item::File(path)), cursor + 1)
    }
}

/// What of a pasted text is typed: newlines become spaces, other control characters go.
pub open spec fn pasted(s: Seq<char>) -> Seq<char>
    decreases s.len(),
{
    if s.len() == 0 {
        Seq::empty()
    } else {
        let before = pasted(s.drop_last());
        let c = s.last();
        if c == '\n' || c == '\r' {
            before.push(' ')
        } else if control(c) {
            before
        } else {
            before.push(c)
        }
    }
}

/// A text is typed in at a place on the line: its characters stand there, and what was on
/// the line stands around them.
pub open spec fn typed_in(before: Seq<Item>, k: int, text: Seq<char>, now: Seq<Item>) -> bool {
    &&& now.len() == before.len() + text.len()
    &&& forall|i: int| 0 <= i < k ==> now[i] == before[i]
    &&& forall|i: int| 0 <= i < text.len() ==> now[k + i] == Item::Char(#[trigger] text[i])
    &&& forall|i: int|
        k + text.len() <= i < now.len() ==> now[i] == #[trigger] before[i - text.len()]
}

/// One character more, behind those already typed in.
proof fn typing_on(before: Seq<Item>, k: int, text: Seq<char>, c: char, now: Seq<Item>)
    requires
        0 <= k <= before.len(),
        typed_in(before, k, text, now),
    ensures
        typed_in(before, k, text.push(c), now.insert(k + text.len(), Item::Char(c))),
{
    let t = text.push(c);
    let n = now.insert(k + text.len(), Item::Char(c));
    assert forall|i: int| 0 <= i < t.len() implies n[k + i] == Item::Char(#[trigger] t[i]) by {
        if i < text.len() {
            assert(now[k + i] == Item::Char(text[i]));
        }
    }
    assert forall|i: int| k + t.len() <= i < n.len() implies n[i] == #[trigger] before[i
        - t.len()] by {
        assert(n[i] == now[i - 1]);
        assert(now[i - 1] == before[(i - 1) - text.len()]);
    }
}

/// What happens to the scrollback and the view when a line is added: the oldest lines go,
/// and the view loses the rows that went.
pub open spec fn after_push(h: Seq<Entry>, back: int, width: nat) -> (Seq<Entry>, int)
    decreases h.len(),
{
    if h.len() > SCROLLBACK {
        let gone = wrapped(h[0].text@, width).len();
        after_push(
            h.drop_first(),
            if back > gone {
                back - gone
            } else {
                0
            },
            width,
        )
    } else {
        (h, back)
    }
}

impl App {
    /// The cursor is on the input line.
    pub open spec fn wf(&self) -> bool {
        self.cursor <= self.items@.len()
    }

    /// An empty screen.
    pub fn new(title: String) -> (r: App)
        ensures
            r.wf(),
            r.title == title,
            r.status@ == "starting"@,
            r.history@ == Seq::<Entry>::empty(),
            r.items@ == Seq::<Item>::empty(),
            r.cursor == 0,
            r.scroll_back == 0,
            r.viewport == (80usize, PAGE),
            r.body_origin == (0u16, 0u16),
            r.rows@ == Seq::<Row>::empty(),
            r.selection is None,
            !r.dragging,
            r.flash is None,
            !r.accepting,
    {
        App {
            status: "starting".to_owned(),
            title,
            history: VecDeque::new(),
            items: Vec::new(),
            cursor: 0,
            scroll_back: 0,
            viewport: (80, PAGE),
            body_origin: (0, 0),
            rows: Vec::new(),
            selection: None,
            dragging: false,
            flash: None,
            accepting: false,
        }
    }

    /// Show a note in the header for a while, from `now` on.
    pub fn flash(&mut self, text: String, now: u64)
        ensures
            *final(self) == (App {
                flash: Some((text, flash_end(now))),
                ..*old(self)
            }),
    {
        let until: u64 = if now > u64::MAX - FLASH_FOR {
            u64::MAX
        } else {
            now + FLASH_FOR
        };
        self.flash = Some((text, until));
    }

    /// Every row the history takes at the current width.
    pub fn total_rows(&self) -> (r: usize)
        ensures
            r == word(rows_total(self.history@, self.viewport.0 as nat)),
    {
        let ghost h = self.history@;
        let ghost w = self.viewport.0 as nat;
        let mut sum: usize = 0;
        let mut i: usize = 0;
        while i < self.history.len()
            invariant
                i <= h.len(),
                h == self.history@,
                w == self.viewport.0 as nat,
                sum == word(rows_total(h.take(i as int), w)),
            decreases h.len() - i,
        {
            let n: usize = rows_for(self.history[i].text.as_str(), self.viewport.0);
            proof {
                let now = h.take(i + 1);
                assert(now.drop_last() =~= h.take(i as int));
                assert(now.last() == h[i as int]);
            }
            sum = if n > usize::MAX - sum {
                usize::MAX
            } else {
                sum + n
            };
            i = i + 1;
        }
        assert(h.take(i as int) =~= h);
        sum
    }

    /// How far a page key moves.
    pub fn page(&self) -> (r: usize)
        ensures
            r == page_rows(*self),
    {
        if self.viewport.1 <= 2 {
            1
        } else {
            self.viewport.1 - 1
        }
    }

    /// Move the view, no further than either end.
    pub fn scroll(&mut self, rows: i128)
        requires
            -0x1_0000_0000_0000_0000 <= rows <= 0x1_0000_0000_0000_0000,
        ensures
            only_view(*old(self), *final(self), scrolled(*old(self), rows as int)),
    {
        let total: usize = self.total_rows();
        let limit: usize = if total > self.viewport.1 {
            total - self.viewport.1
        } else {
            0
        };
        let moved: i128 = self.scroll_back as i128 + rows;
        self.scroll_back = if moved < 0 {
            0
        } else if moved > limit as i128 {
            limit
        } else {
            moved as usize
        };
    }

    /// Type one character where the cursor is.
    pub fn insert(&mut self, c: char)
        requires
            old(self).wf(),
        ensures
            final(self).wf(),
            only_line(
                *old(self),
                *final(self),
                old(self).items@.insert(old(self).cursor as int, Item::Char(c)),
                old(self).cursor + 1,
            ),
    {
        self.items.insert(self.cursor, Item::Char(c));
        assert(self.items.len() == self.items@.len());
        self.cursor = self.cursor + 1;
    }

    /// Put a dropped file where the cursor is.
    pub fn attach(&mut self, path: String)
        requires
            old(self).wf(),
        ensures
            final(self).wf(),
            ({
                let (items, cursor) = attached(old(self).items@, old(self).cursor as int, path);
                only_line(*old(self), *final(self), items, cursor)
            }),
    {
        let spaced = if self.cursor == 0 {
            false
        } else {
            match &self.items[self.cursor - 1] {
                Item::Char(c) => *c != ' ',
                Item::File(_) => false,
            }
        };
        if spaced {
            self.insert(' ');
        }
        self.items.insert(self.cursor, Item::File(path));
        assert(self.items.len() == self.items@.len());
        self.cursor = self.cursor + 1;
    }

    /// Take a paste. `dropped` is the file it turned out to be, where there is one; anything
    /// else is text.
    pub fn paste(&mut self, text: &str, dropped: Option<String>)
        requires
            old(self).wf(),
        ensures
            final(self).wf(),
            match dropped {
                Some(path) => {
                    let (items, cursor) = attached(old(self).items@, old(self).cursor as int, path);
                    only_line(*old(self), *final(self), items, cursor)
                },
                None => {
                    let k = old(self).cursor as int;
                    &&& typed_in(old(self).items@, k, pasted(text@), final(self).items@)
                    &&& only_line(
                        *old(self),
                        *final(self),
                        final(self).items@,
                        k + pasted(text@).len(),
                    )
                },
            },
    {
        match dropped {
            Some(path) => self.attach(path),
            None => {
                let cs = chars(text);
                let ghost items = self.items@;
                let ghost k = self.cursor as int;
                let mut i: usize = 0;
                while i < cs.len()
                    invariant
                        i <= cs@.len(),
                        cs@ == text@,
                        items == old(self).items@,
                        k == old(self).cursor,
                        0 <= k <= items.len(),
                        self.wf(),
                        pasted(text@.take(i as int)).len() <= i,
                        typed_in(items, k, pasted(text@.take(i as int)), self.items@),
                        only_line(
                            *old(self),
                            *self,
                            self.items@,
                            k + pasted(text@.take(i as int)).len(),
                        ),
                    decreases cs@.len() - i,
                {
                    let c = cs[i];
                    let ghost now = text@.take(i + 1);
                    let ghost done = pasted(text@.take(i as int));
                    proof {
                        assert(now.drop_last() =~= text@.take(i as int));
                        assert(now.last() == c);
                    }
                    let ghost was = self.items@;
                    if c == '\n' || c == '\r' {
                        self.insert(' ');
                        proof {
                            typing_on(items, k, done, ' ', was);
                        }
                    } else if is_control(c) {
                    } else {
                        self.insert(c);
                        proof {
                            typing_on(items, k, done, c, was);
                        }
                    }
                    i = i + 1;
                }
                assert(text@.take(i as int) =~= text@);
            },
        }
    }

    /// Delete whatever is before the cursor. `false` when there was nothing.
    pub fn backspace(&mut self) -> (r: bool)
        requires
            old(self).wf(),
        ensures
            final(self).wf(),
            r == (old(self).cursor > 0),
            r ==> only_line(
                *old(self),
                *final(self),
                old(self).items@.remove(old(self).cursor - 1),
                old(self).cursor - 1,
            ),
            !r ==> *final(self) == *old(self),
    {
        if self.cursor == 0 {
            return false;
        }
        self.cursor = self.cursor - 1;
        let _ = self.items.remove(self.cursor);
        true
    }

    /// Move the cursor one item left or right, stopping at either end.
    pub fn move_cursor(&mut self, right: bool)
        requires
            old(self).wf(),
        ensures
            final(self).wf(),
            only_line(
                *old(self),
                *final(self),
                old(self).items@,
                kept_within(
                    old(self).cursor + if right {
                        1int
                    } else {
                        -1
                    },
                    old(self).items@.len() as int,
                ),
            ),
    {
        if right {
            if self.cursor < self.items.len() {
                self.cursor = self.cursor + 1;
            }
        } else if self.cursor > 0 {
            self.cursor = self.cursor - 1;
        }
    }

    /// What the input box shows.
    pub fn input_display(&self) -> (r: String)
        ensures
            r@ == items_text(self.items@),
    {
        let mut s = String::new();
        let ghost items = self.items@;
        let mut i: usize = 0;
        while i < self.items.len()
            invariant
                i <= items.len(),
                items == self.items@,
                s@ == items_text(items.take(i as int)),
            decreases items.len() - i,
        {
            proof {
                assert(items.take(i + 1).drop_last() =~= items.take(i as int));
                assert(items.take(i + 1).last() == items[i as int]);
            }
            s.append(self.items[i].shown().as_str());
            i = i + 1;
        }
        assert(items.take(i as int) =~= items);
        s
    }

    /// Which column the cursor is drawn in.
    pub fn cursor_column(&self) -> (r: usize)
        requires
            self.wf(),
        ensures
            r == word(columns(self.items@.take(self.cursor as int))),
    {
        let ghost items = self.items@;
        let mut sum: usize = 0;
        let mut i: usize = 0;
        while i < self.cursor
            invariant
                i <= self.cursor <= items.len(),
                items == self.items@,
                sum == word(columns(items.take(i as int))),
            decreases self.cursor - i,
        {
            proof {
                assert(items.take(i + 1).drop_last() =~= items.take(i as int));
                assert(items.take(i + 1).last() == items[i as int]);
            }
            let n: usize = self.items[i].width();
            sum = if n > usize::MAX - sum {
                usize::MAX
            } else {
                sum + n
            };
            i = i + 1;
        }
        sum
    }

    /// The lines Enter sends. The input line is then empty.
    pub fn submit(&mut self) -> (r: Vec<String>)
        ensures
            final(self).wf(),
            lines_view(r@) == submitted(old(self).items@),
            only_line(*old(self), *final(self), Seq::empty(), 0),
    {
        let mut lines: Vec<String> = Vec::new();
        let mut text = String::new();
        let ghost items = self.items@;
        let mut i: usize = 0;
        assert(lines_view(lines@) =~= items_sends(items.take(0)));
        while i < self.items.len()
            invariant
                i <= items.len(),
                items == self.items@,
                *self == *old(self),
                lines_view(lines@) == items_sends(items.take(i as int)),
                text@ == items_chars(items.take(i as int)),
            decreases items.len() - i,
        {
            let ghost before = lines@;
            proof {
                assert(items.take(i + 1).drop_last() =~= items.take(i as int));
                assert(items.take(i + 1).last() == items[i as int]);
            }
            match &self.items[i] {
                Item::Char(c) => text.push(*c),
                Item::File(path) => {
                    let mut s = "/send ".to_owned();
                    s.append(path.as_str());
                    lines.push(s);
                    assert(lines_view(lines@) =~= lines_view(before).push(s@));
                },
            }
            i = i + 1;
        }
        assert(items.take(i as int) =~= items);
        self.items = Vec::new();
        self.cursor = 0;
        let said = trimmed(text.as_str());
        let redundant = lines.len() > 0 && same(said.as_str(), "/send");
        if said.as_str().unicode_len() > 0 && !redundant {
            let ghost before = lines@;
            lines.push(said);
            assert(lines_view(lines@) =~= lines_view(before).push(said@));
        }
        lines
    }

    /// Add a line to the scrollback.
    pub fn push(&mut self, entry: Entry)
        ensures
            ({
                let (h, back) = after_push(
                    old(self).history@.push(entry),
                    old(self).scroll_back as int,
                    old(self).viewport.0 as nat,
                );
                &&& final(self).history@ == h
                &&& final(self).scroll_back == back
                &&& *final(self) == (App {
                    history: final(self).history,
                    scroll_back: final(self).scroll_back,
                    ..*old(self)
                })
            }),
    {
        self.history.push_back(entry);
        let ghost end = after_push(
            self.history@,
            self.scroll_back as int,
            self.viewport.0 as nat,
        );
        while self.history.len() > SCROLLBACK
            invariant
                end == after_push(
                    self.history@,
                    self.scroll_back as int,
                    self.viewport.0 as nat,
                ),
                *self == (App {
                    history: self.history,
                    scroll_back: self.scroll_back,
                    ..*old(self)
                }),
            decreases self.history@.len(),
        {
            let ghost before = self.history@;
            match self.history.pop_front() {
                Some(dropped) => {
                    let gone: usize = rows_for(dropped.text.as_str(), self.viewport.0);
                    proof {
                        assert(before.drop_first() =~= self.history@);
                        assert(dropped == before[0]);
                    }
                    self.scroll_back = if self.scroll_back > gone {
                        self.scroll_back - gone
                    } else {
                        0
                    };
                },
                None => {},
            }
        }
    }
}

// --- selecting ------------------------------------------------------------------------

/// The smaller of two numbers.
pub open spec fn least(a: int, b: int) -> int {
    if a < b {
        a
    } else {
        b
    }
}

/// A difference, or nothing where it would be negative.
pub open spec fn beyond(a: int, b: int) -> int {
    if a > b {
        a - b
    } else {
        0
    }
}

/// The place in the text that a place on the screen stands for: the nearest row, and the
/// nearest character of it.
pub open spec fn anchor_of(rows: Seq<RowView>, origin: (u16, u16), column: u16, row: u16) -> Option<
    Anchor,
> {
    if rows.len() == 0 {
        None
    } else {
        let line = rows[least(beyond(row as int, origin.1 as int), rows.len() - 1)];
        let local = least(beyond(column as int, origin.0 as int), line.text.len() as int);
        Some(
            Anchor {
                entry: line.entry as usize,
                offset: word((line.offset + local) as nat) as usize,
            },
        )
    }
}

/// Resolve a place on the screen to a place in the text.
pub fn anchor_at(rows: &Vec<Row>, origin: (u16, u16), column: u16, row: u16) -> (r: Option<Anchor>)
    ensures
        r == anchor_of(row_views(rows@), origin, column, row),
{
    if rows.len() == 0 {
        return None;
    }
    let below: usize = if row > origin.1 {
        (row - origin.1) as usize
    } else {
        0
    };
    let right: usize = if column > origin.0 {
        (column - origin.0) as usize
    } else {
        0
    };
    let r: usize = if below < rows.len() - 1 {
        below
    } else {
        rows.len() - 1
    };
    let line = &rows[r];
    let len: usize = line.text.as_str().unicode_len();
    let local: usize = if right < len {
        right
    } else {
        len
    };
    let offset: usize = if local > usize::MAX - line.offset {
        usize::MAX
    } else {
        line.offset + local
    };
    proof {
        assert(row_views(rows@)[r as int] == line@);
    }
    Some(Anchor { entry: line.entry, offset })
}

/// What of one entry lies between two anchors.
pub open spec fn selected_piece(h: Seq<Entry>, i: int, from: Anchor, to: Anchor) -> Seq<char> {
    let s = h[i].text@;
    let start = if i == from.entry {
        least(from.offset as int, s.len() as int)
    } else {
        0
    };
    let end = if i == to.entry {
        least(to.offset as int, s.len() as int)
    } else {
        s.len() as int
    };
    if end > start {
        s.subrange(start, end)
    } else {
        Seq::empty()
    }
}

/// What lies between two anchors in the entries before `upto`, a line for each.
pub open spec fn selected_before(h: Seq<Entry>, from: Anchor, to: Anchor, upto: nat) -> Seq<char>
    decreases upto,
{
    if upto <= from.entry {
        Seq::empty()
    } else {
        let i = (upto - 1) as nat;
        let before = selected_before(h, from, to, i);
        (if i == from.entry {
            before
        } else {
            before.push('\n')
        }) + selected_piece(h, i as int, from, to)
    }
}

/// The text a selection covers; nothing where it covers none.
pub open spec fn selection_text(h: Seq<Entry>, sel: Selection) -> Option<Seq<char>> {
    let (from, to) = if not_after(sel.anchor, sel.current) {
        (sel.anchor, sel.current)
    } else {
        (sel.current, sel.anchor)
    };
    if from.entry >= h.len() {
        None
    } else {
        let text = selected_before(
            h,
            from,
            to,
            (least(to.entry as int, h.len() - 1) + 1) as nat,
        );
        if text.len() == 0 {
            None
        } else {
            Some(text)
        }
    }
}

/// The text a finished selection covers, read from the entries themselves.
pub fn selected_text(history: &VecDeque<Entry>, sel: Selection) -> (r: Option<String>)
    ensures
        match r {
            Some(t) => selection_text(history@, sel) == Some(t@),
            None => selection_text(history@, sel) is None,
        },
{
    let (from, to) = sel.ordered();
    let n: usize = history.len();
    if from.entry >= n {
        return None;
    }
    let last: usize = if to.entry < n - 1 {
        to.entry
    } else {
        n - 1
    };
    let mut out = String::new();
    let mut i: usize = from.entry;
    while i <= last
        invariant
            n == history@.len(),
            from.entry <= i <= last + 1,
            last < n,
            out@ == selected_before(history@, from, to, i as nat),
        decreases last + 1 - i,
    {
        let cs = chars(history[i].text.as_str());
        let start: usize = if i == from.entry {
            if from.offset < cs.len() {
                from.offset
            } else {
                cs.len()
            }
        } else {
            0
        };
        let end: usize = if i == to.entry {
            if to.offset < cs.len() {
                to.offset
            } else {
                cs.len()
            }
        } else {
            cs.len()
        };
        let ghost before = out@;
        if i != from.entry {
            out.push('\n');
        }
        if end > start {
            let t = piece(cs.as_slice(), start, end);
            out.append(t.as_str());
        } else {
            assert(out@ + Seq::<char>::empty() =~= out@);
        }
        i = i + 1;
    }
    if out.as_str().unicode_len() == 0 {
        None
    } else {
        Some(out)
    }
}

/// Which part of a row is drawn as selected, counted from where the row starts.
pub open spec fn highlighted(row: RowView, sel: Option<Selection>) -> Option<(int, int)> {
    match sel {
        None => None,
        Some(sel) => {
            let (from, to) = if not_after(sel.anchor, sel.current) {
                (sel.anchor, sel.current)
            } else {
                (sel.current, sel.anchor)
            };
            let end = row.offset + row.text.len();
            let a = if row.entry == from.entry {
                from.offset as int
            } else {
                0
            };
            let b = if row.entry == to.entry {
                to.offset as int
            } else {
                end
            };
            let start = kept_within(a - row.offset, row.text.len() as int);
            let stop = kept_within(b - row.offset, row.text.len() as int);
            if row.entry < from.entry || row.entry > to.entry || start >= stop {
                None
            } else {
                Some((start, stop))
            }
        },
    }
}

fn place_within(n: usize, offset: usize, len: usize) -> (r: usize)
    ensures
        r == kept_within(n - offset, len as int),
{
    if n <= offset {
        0
    } else if n - offset > len {
        len
    } else {
        n - offset
    }
}

/// Which part of a row is drawn as selected.
pub fn highlight(row: &Row, sel: &Option<Selection>) -> (r: Option<(usize, usize)>)
    ensures
        match r {
            Some((a, b)) => highlighted(row@, *sel) == Some((a as int, b as int)) && a < b <= row.text@.len(),
            None => highlighted(row@, *sel) is None,
        },
{
    match sel {
        None => None,
        Some(sel) => {
            let (from, to) = sel.ordered();
            if row.entry < from.entry || row.entry > to.entry {
                return None;
            }
            let len: usize = row.text.as_str().unicode_len();
            let start = place_within(
                if row.entry == from.entry {
                    from.offset
                } else {
                    0
                },
                row.offset,
                len,
            );
            let stop = if row.entry == to.entry {
                place_within(to.offset, row.offset, len)
            } else {
                len
            };
            if start >= stop {
                None
            } else {
                Some((start, stop))
            }
        },
    }
}

/// What the mouse did over the history box, with its left button or its wheel.
#[derive(Clone, Copy, Debug, PartialEq, Eq, Structural)]
pub enum Mouse {
    Down,
    Drag,
    Up,
    ScrollUp,
    ScrollDown,
    Other,
}

/// What is said of a copy.
pub open spec fn copied_note(n: nat) -> Seq<char> {
    "copied "@ + decimal_text(n) + if n == 1 {
        " char"@
    } else {
        " chars"@
    }
}

/// A selection that was only a click.
pub open spec fn only_a_click(app: App) -> bool {
    !app.dragging || app.selection->0.anchor == app.selection->0.current
}

/// What comes of a mouse event.
#[derive(Debug, PartialEq, Eq)]
pub enum Gesture {
    Nothing,
    /// Put this on the clipboard.
    Copy(String),
    /// The same as typing this line.
    Type(String),
}

/// The number under which a line of the screen offers a file, if that is what it does.
pub open spec fn offer_number(e: Entry) -> Option<usize> {
    let rest = e.text@.skip(4);
    let n = index_of(rest, ']');
    if e.kind == Kind::System && starts(e.text@, "   ["@) && n < rest.len() {
        count_of(rest.take(n as int))
    } else {
        None
    }
}

/// The number under which a line offers a file.
pub fn number_of(e: &Entry) -> (r: Option<usize>)
    ensures
        r == offer_number(*e),
{
    proof {
        reveal_strlit("   [");
    }
    let cs = chars(e.text.as_str());
    if e.kind != Kind::System || !starts_with(cs.as_slice(), "   [") {
        return None;
    }
    let rest = vstd::slice::slice_subrange(cs.as_slice(), 4, cs.len());
    assert(rest@ =~= e.text@.skip(4));
    let n: usize = find(rest, ']');
    if n >= rest.len() {
        return None;
    }
    let digits = piece(rest, 0, n);
    assert(digits@ =~= rest@.take(n as int));
    parse_count(digits.as_str())
}

/// The number of the file that was pressed on, while lines are accepted.
pub open spec fn pressed_on(app: App) -> Option<usize> {
    match app.selection {
        Some(sel) => if app.accepting && sel.anchor.entry < app.history@.len() {
            offer_number(app.history@[sel.anchor.entry as int])
        } else {
            None
        },
        None => None,
    }
}

/// When a note that goes up now comes down.
pub open spec fn flash_end(now: u64) -> u64 {
    if now + FLASH_FOR > u64::MAX {
        u64::MAX
    } else {
        (now + FLASH_FOR) as u64
    }
}

impl App {
    /// Whether a row is part of a line that a click takes a file by.
    pub fn underlined(&self, row: &Row) -> (r: bool)
        ensures
            r == (row.entry < self.history@.len() && offer_number(
                self.history@[row.entry as int],
            ) is Some),
    {
        row.entry < self.history.len() && number_of(&self.history[row.entry]).is_some()
    }

    fn note_copy(&mut self, n: usize, now: u64)
        ensures
            final(self).flash is Some,
            (final(self).flash->0).0@ == copied_note(n as nat),
            (final(self).flash->0).1 == flash_end(now),
            *final(self) == (App { flash: final(self).flash, ..*old(self) }),
    {
        let mut s = "copied ".to_owned();
        s.append(decimal(n as u128).as_str());
        if n == 1 {
            s.append(" char");
        } else {
            s.append(" chars");
        }
        self.flash(s, now);
    }

    fn pressed(&self) -> (r: Option<usize>)
        ensures
            r == pressed_on(*self),
    {
        match self.selection {
            Some(sel) => if self.accepting && sel.anchor.entry < self.history.len() {
                number_of(&self.history[sel.anchor.entry])
            } else {
                None
            },
            None => None,
        }
    }

    /// React to one mouse event over the history box, at `now`. A drag selects, and releasing
    /// it copies; a click on an offered file takes it.
    pub fn handle_mouse(&mut self, m: Mouse, column: u16, row: u16, now: u64) -> (r: Gesture)
        requires
            old(self).wf(),
        ensures
            final(self).wf(),
            match m {
                Mouse::Down => {
                    let a = anchor_of(row_views(old(self).rows@), old(self).body_origin, column, row);
                    &&& r is Nothing
                    &&& *final(self) == (App {
                        dragging: false,
                        selection: match a {
                            Some(a) => Some(Selection { anchor: a, current: a }),
                            None => None,
                        },
                        ..*old(self)
                    })
                },
                Mouse::Drag => {
                    let a = anchor_of(row_views(old(self).rows@), old(self).body_origin, column, row);
                    &&& r is Nothing
                    &&& match a {
                        None => *final(self) == *old(self),
                        Some(a) => *final(self) == (App {
                            dragging: true,
                            selection: Some(
                                Selection {
                                    anchor: match old(self).selection {
                                        Some(s) => s.anchor,
                                        None => a,
                                    },
                                    current: a,
                                },
                            ),
                            ..*old(self)
                        }),
                    }
                },
                Mouse::Up => match old(self).selection {
                    None => r is Nothing && *final(self) == (App { dragging: false, ..*old(self) }),
                    Some(sel) => if only_a_click(*old(self)) {
                        &&& *final(self) == (App {
                            dragging: false,
                            selection: None,
                            ..*old(self)
                        })
                        &&& match pressed_on(*old(self)) {
                            Some(n) => r is Type && r->Type_0@ == "/accept "@ + decimal_text(
                                n as nat,
                            ),
                            None => r is Nothing,
                        }
                    } else {
                        match selection_text(old(self).history@, sel) {
                            None => r is Nothing && *final(self) == (App {
                                dragging: false,
                                ..*old(self)
                            }),
                            Some(text) => {
                                &&& r is Copy
                                &&& r->Copy_0@ == text
                                &&& final(self).flash is Some
                                &&& (final(self).flash->0).0@ == copied_note(text.len())
                                &&& (final(self).flash->0).1 == flash_end(now)
                                &&& *final(self) == (App {
                                    dragging: false,
                                    flash: final(self).flash,
                                    ..*old(self)
                                })
                            },
                        }
                    },
                },
                Mouse::ScrollUp => r is Nothing && only_view(
                    *old(self),
                    *final(self),
                    scrolled(*old(self), WHEEL_STEP as int),
                ),
                Mouse::ScrollDown => r is Nothing && only_view(
                    *old(self),
                    *final(self),
                    scrolled(*old(self), -(WHEEL_STEP as int)),
                ),
                Mouse::Other => r is Nothing && *final(self) == *old(self),
            },
    {
        match m {
            Mouse::Down => {
                self.dragging = false;
                self.selection = match anchor_at(&self.rows, self.body_origin, column, row) {
                    Some(a) => Some(Selection { anchor: a, current: a }),
                    None => None,
                };
                Gesture::Nothing
            },
            Mouse::Drag => {
                match anchor_at(&self.rows, self.body_origin, column, row) {
                    None => {},
                    Some(a) => {
                        self.selection = match self.selection {
                            Some(s) => Some(Selection { anchor: s.anchor, current: a }),
                            None => Some(Selection { anchor: a, current: a }),
                        };
                        self.dragging = true;
                    },
                }
                Gesture::Nothing
            },
            Mouse::Up => {
                let was = self.dragging;
                self.dragging = false;
                match self.selection {
                    None => Gesture::Nothing,
                    Some(sel) => {
                        if !was || sel.anchor == sel.current {
                            let number = self.pressed();
                            self.selection = None;
                            return match number {
                                Some(n) => {
                                    let mut line = "/accept ".to_owned();
                                    line.append(decimal(n as u128).as_str());
                                    Gesture::Type(line)
                                },
                                None => Gesture::Nothing,
                            };
                        }
                        match selected_text(&self.history, sel) {
                            None => Gesture::Nothing,
                            Some(text) => {
                                self.note_copy(text.as_str().unicode_len(), now);
                                Gesture::Copy(text)
                            },
                        }
                    },
                }
            },
            Mouse::ScrollUp => {
                self.scroll(3);
                Gesture::Nothing
            },
            Mouse::ScrollDown => {
                self.scroll(-3);
                Gesture::Nothing
            },
            Mouse::Other => Gesture::Nothing,
        }
    }
}

// --- keys -----------------------------------------------------------------------------

/// A key, as far as the interface tells keys apart.
#[derive(Clone, Copy, Debug, PartialEq, Eq, Structural)]
pub enum Key {
    Char(char),
    Up,
    Down,
    PageUp,
    PageDown,
    Left,
    Right,
    Home,
    End,
    Backspace,
    Delete,
    Enter,
    Other,
}

/// What follows from a key.
#[derive(Debug, PartialEq, Eq)]
pub enum Pressed {
    Nothing,
    /// The operator wants out.
    Quit,
    /// Read the clipboard, and paste what it holds.
    Clipboard,
    /// Enter: this was typed.
    Typed(Typed),
}

/// The keys that scroll, which are harmless before anything reads the keyboard.
pub open spec fn scrolls(key: Key) -> bool {
    key == Key::Up || key == Key::Down || key == Key::PageUp || key == Key::PageDown
}

impl App {
    /// Handle one key that was pressed.
    pub fn handle_key(&mut self, key: Key, ctrl: bool) -> (r: Pressed)
        requires
            old(self).wf(),
        ensures
            final(self).wf(),
            if key == Key::Char('c') && ctrl {
                r == Pressed::Quit && *final(self) == *old(self)
            } else if !old(self).accepting && !scrolls(key) {
                r == Pressed::Nothing && *final(self) == *old(self)
            } else {
                match key {
                    Key::Char('u') if ctrl => r == Pressed::Nothing && only_line(
                        *old(self),
                        *final(self),
                        Seq::empty(),
                        0,
                    ),
                    Key::Char('v') if ctrl => r == Pressed::Clipboard && *final(self)
                        == *old(self),
                    Key::Char('b') if ctrl => r == Pressed::Nothing && only_view(
                        *old(self),
                        *final(self),
                        scrolled(*old(self), page_rows(*old(self))),
                    ),
                    Key::Char('f') if ctrl => r == Pressed::Nothing && only_view(
                        *old(self),
                        *final(self),
                        scrolled(*old(self), -page_rows(*old(self))),
                    ),
                    Key::Char('e') if ctrl => r == Pressed::Nothing && only_view(
                        *old(self),
                        *final(self),
                        0,
                    ),
                    Key::Char(c) => r == Pressed::Nothing && only_line(
                        *old(self),
                        *final(self),
                        old(self).items@.insert(old(self).cursor as int, Item::Char(c)),
                        old(self).cursor + 1,
                    ),
                    Key::Up => r == Pressed::Nothing && only_view(
                        *old(self),
                        *final(self),
                        scrolled(*old(self), 1),
                    ),
                    Key::Down => r == Pressed::Nothing && only_view(
                        *old(self),
                        *final(self),
                        scrolled(*old(self), -1),
                    ),
                    Key::PageUp => r == Pressed::Nothing && only_view(
                        *old(self),
                        *final(self),
                        scrolled(*old(self), page_rows(*old(self))),
                    ),
                    Key::PageDown => r == Pressed::Nothing && only_view(
                        *old(self),
                        *final(self),
                        scrolled(*old(self), -page_rows(*old(self))),
                    ),
                    Key::Left => r == Pressed::Nothing && only_line(
                        *old(self),
                        *final(self),
                        old(self).items@,
                        kept_within(old(self).cursor - 1, old(self).items@.len() as int),
                    ),
                    Key::Right => r == Pressed::Nothing && only_line(
                        *old(self),
                        *final(self),
                        old(self).items@,
                        kept_within(old(self).cursor + 1, old(self).items@.len() as int),
                    ),
                    Key::Home => r == Pressed::Nothing && only_line(
                        *old(self),
                        *final(self),
                        old(self).items@,
                        0,
                    ),
                    Key::End => r == Pressed::Nothing && only_line(
                        *old(self),
                        *final(self),
                        old(self).items@,
                        old(self).items@.len() as int,
                    ),
                    Key::Backspace => r == Pressed::Nothing && if old(self).cursor > 0 {
                        only_line(
                            *old(self),
                            *final(self),
                            old(self).items@.remove(old(self).cursor - 1),
                            old(self).cursor - 1,
                        )
                    } else {
                        *final(self) == *old(self)
                    },
                    Key::Delete => r == Pressed::Nothing && if old(self).cursor
                        < old(self).items@.len() {
                        only_line(
                            *old(self),
                            *final(self),
                            old(self).items@.remove(old(self).cursor as int),
                            old(self).cursor as int,
                        )
                    } else {
                        *final(self) == *old(self)
                    },
                    Key::Enter => {
                        &&& match r {
                            Pressed::Typed(t) => composed(old(self).items@, Some(t))
                                && final(self).scroll_back == 0,
                            Pressed::Nothing => composed(old(self).items@, None)
                                && final(self).scroll_back == old(self).scroll_back,
                            _ => false,
                        }
                        &&& final(self).items@.len() == 0
                        &&& final(self).cursor == 0
                        &&& *final(self) == (App {
                            items: final(self).items,
                            cursor: final(self).cursor,
                            scroll_back: final(self).scroll_back,
                            ..*old(self)
                        })
                    },
                    Key::Other => r == Pressed::Nothing && *final(self) == *old(self),
                }
            },
    {
        if ctrl {
            match key {
                Key::Char('c') => {
                    return Pressed::Quit;
                },
                _ => {},
            }
        }
        let scrolling = match key {
            Key::Up | Key::Down | Key::PageUp | Key::PageDown => true,
            _ => false,
        };
        if !self.accepting && !scrolling {
            return Pressed::Nothing;
        }
        match key {
            Key::Char(c) => {
                if ctrl && c == 'u' {
                    self.items = Vec::new();
                    self.cursor = 0;
                } else if ctrl && c == 'v' {
                    return Pressed::Clipboard;
                } else if ctrl && c == 'b' {
                    let n: usize = self.page();
                    self.scroll(n as i128);
                } else if ctrl && c == 'f' {
                    let n: usize = self.page();
                    self.scroll(-(n as i128));
                } else if ctrl && c == 'e' {
                    self.scroll_back = 0;
                } else {
                    self.insert(c);
                }
            },
            Key::Up => self.scroll(1),
            Key::Down => self.scroll(-1),
            Key::PageUp => {
                let n: usize = self.page();
                self.scroll(n as i128);
            },
            Key::PageDown => {
                let n: usize = self.page();
                self.scroll(-(n as i128));
            },
            Key::Left => self.move_cursor(false),
            Key::Right => self.move_cursor(true),
            Key::Home => {
                self.cursor = 0;
            },
            Key::End => {
                self.cursor = self.items.len();
            },
            Key::Backspace => {
                let _ = self.backspace();
            },
            Key::Delete => {
                if self.cursor < self.items.len() {
                    let _ = self.items.remove(self.cursor);
                }
            },
            Key::Enter => {
                if let Some(t) = self.compose() {
                    // What was sent is to be seen, and what answers it.
                    self.scroll_back = 0;
                    return Pressed::Typed(t);
                }
            },
            Key::Other => {},
        }
        Pressed::Nothing
    }
}

// --- drawing --------------------------------------------------------------------------

/// The inside of a box with a border: at least one column, and the rows that are left.
pub open spec fn inside(width: u16, height: u16) -> (usize, usize) {
    (
        if width <= 3 {
            1
        } else {
            (width - 2) as usize
        },
        if height <= 2 {
            0
        } else {
            (height - 2) as usize
        },
    )
}

/// A note that is still to be shown.
pub open spec fn fresh_flash(flash: Option<(String, u64)>, now: u64) -> Option<(String, u64)> {
    match flash {
        Some((text, until)) => if now >= until {
            None
        } else {
            flash
        },
        None => None,
    }
}

fn next_cell(n: u16) -> (r: u16)
    ensures
        r == if n == u16::MAX {
            n
        } else {
            (n + 1) as u16
        },
{
    if n == u16::MAX {
        n
    } else {
        n + 1
    }
}

impl App {
    /// Lay out a frame whose history box stands at `x`, `y`: remember its size for the next
    /// key, keep the view inside the history, and find the rows to draw.
    pub fn frame(&mut self, x: u16, y: u16, width: u16, height: u16, now: u64)
        requires
            old(self).wf(),
        ensures
            final(self).wf(),
            final(self).viewport == inside(width, height),
            final(self).scroll_back == scrolled(
                App { viewport: inside(width, height), ..*old(self) },
                0,
            ),
            row_views(final(self).rows@) == shown_rows(
                old(self).history@,
                inside(width, height).0 as nat,
                inside(width, height).1 as nat,
                final(self).scroll_back as nat,
            ),
            final(self).flash == fresh_flash(old(self).flash, now),
            final(self).body_origin == (
                if x == u16::MAX {
                    x
                } else {
                    (x + 1) as u16
                },
                if y == u16::MAX {
                    y
                } else {
                    (y + 1) as u16
                },
            ),
            *final(self) == (App {
                viewport: final(self).viewport,
                body_origin: final(self).body_origin,
                scroll_back: final(self).scroll_back,
                rows: final(self).rows,
                flash: final(self).flash,
                ..*old(self)
            }),
    {
        let expired = match &self.flash {
            Some((_, until)) => now >= *until,
            None => false,
        };
        if expired {
            self.flash = None;
        }
        let w: usize = if width <= 3 {
            1
        } else {
            (width - 2) as usize
        };
        let h: usize = if height <= 2 {
            0
        } else {
            (height - 2) as usize
        };
        self.viewport = (w, h);
        self.body_origin = (next_cell(x), next_cell(y));
        self.scroll(0);
        self.rows = visible_rows(&self.history, w, h, self.scroll_back);
    }

    /// The two texts of the header that are always there, and the note.
    pub fn header(&self) -> (r: (String, String, Option<String>))
        ensures
            r.0@ == " murmure  "@ + self.title@ + " "@,
            r.1@ == "  "@ + self.status@ + if self.scroll_back == 0 {
                ""@
            } else {
                "  [scrolled]"@
            },
            match self.flash {
                Some((note, _)) => r.2 is Some && r.2->0@ == "  "@ + note@,
                None => r.2 is None,
            },
    {
        let mut a = " murmure  ".to_owned();
        a.append(self.title.as_str());
        a.append(" ");
        let mut b = "  ".to_owned();
        b.append(self.status.as_str());
        b.append(
            if self.scroll_back == 0 {
                ""
            } else {
                "  [scrolled]"
            },
        );
        let c = match &self.flash {
            Some((note, _)) => {
                let mut s = "  ".to_owned();
                s.append(note.as_str());
                Some(s)
            },
            None => None,
        };
        (a, b, c)
    }

    /// What the input box is titled: visibly dead until lines are accepted.
    pub fn input_title(&self) -> (r: String)
        ensures
            r@ == if self.accepting {
                " type, Enter to send "@
            } else {
                " "@ + self.status@ + " — please wait "@
            },
    {
        if self.accepting {
            " type, Enter to send ".to_owned()
        } else {
            let mut s = " ".to_owned();
            s.append(self.status.as_str());
            s.append(" — please wait ");
            s
        }
    }

    /// In which column of the screen the cursor is drawn, in an input box from `x` up to
    /// `right`; nowhere while input is refused.
    pub fn cursor_x(&self, x: u16, right: u16) -> (r: Option<u16>)
        requires
            self.wf(),
        ensures
            match r {
                None => !self.accepting,
                Some(c) => self.accepting && c == least(
                    x + 1 + word(columns(self.items@.take(self.cursor as int))),
                    beyond(right as int, 2),
                ),
            },
    {
        if !self.accepting {
            return None;
        }
        let at: u128 = x as u128 + 1 + self.cursor_column() as u128;
        let edge: u16 = if right > 2 {
            right - 2
        } else {
            0
        };
        if at < edge as u128 {
            Some(at as u16)
        } else {
            Some(edge)
        }
    }

    /// Take in what the rest of the program sends, at `now`. What comes back is to be put on
    /// the clipboard.
    pub fn apply(&mut self, u: crate::ui::Update, now: u64) -> (r: Option<String>)
        requires
            old(self).wf(),
        ensures
            final(self).wf(),
            match u {
                crate::ui::Update::Line(entry) => {
                    let (h, back) = after_push(
                        old(self).history@.push(entry),
                        old(self).scroll_back as int,
                        old(self).viewport.0 as nat,
                    );
                    &&& r is None
                    &&& final(self).history@ == h
                    &&& final(self).scroll_back == back
                    &&& *final(self) == (App {
                        history: final(self).history,
                        scroll_back: final(self).scroll_back,
                        ..*old(self)
                    })
                },
                crate::ui::Update::Status(status) => r is None && *final(self) == (App {
                    status,
                    ..*old(self)
                }),
                crate::ui::Update::Accepting(yes) => r is None && *final(self) == (App {
                    accepting: yes,
                    ..*old(self)
                }),
                crate::ui::Update::Clipboard(text) => {
                    &&& r == Some(text)
                    &&& final(self).flash is Some
                    &&& (final(self).flash->0).0@ == "copied "@ + decimal_text(text@.len())
                        + " chars"@
                    &&& (final(self).flash->0).1 == flash_end(now)
                    &&& *final(self) == (App { flash: final(self).flash, ..*old(self) })
                },
            },
    {
        match u {
            crate::ui::Update::Line(entry) => {
                self.push(entry);
                None
            },
            crate::ui::Update::Status(status) => {
                self.status = status;
                None
            },
            crate::ui::Update::Accepting(yes) => {
                self.accepting = yes;
                None
            },
            crate::ui::Update::Clipboard(text) => {
                let mut s = "copied ".to_owned();
                s.append(decimal(text.as_str().unicode_len() as u128).as_str());
                s.append(" chars");
                self.flash(s, now);
                Some(text)
            },
        }
    }
}

// --- dropped files --------------------------------------------------------------------

/// A text without the quotes around it, where it is quoted whole.
pub open spec fn unquoted(s: Seq<char>) -> Seq<char> {
    if s.len() > 1 && ((s[0] == '\'' && s.last() == '\'') || (s[0] == '"' && s.last() == '"')) {
        s.subrange(1, s.len() - 1)
    } else {
        s
    }
}

/// A path out of a `file://` URL of this machine, or the text as it is.
pub open spec fn local_path(s: Seq<char>) -> Seq<char> {
    if starts(s, "file://localhost"@) {
        s.skip(16)
    } else if starts(s, "file://"@) {
        s.skip(7)
    } else {
        s
    }
}

/// A text without its backslash escapes: each stands for the character behind it, and a last
/// one for itself.
pub open spec fn unescaped(s: Seq<char>) -> Seq<char>
    decreases s.len(),
{
    if s.len() == 0 {
        Seq::empty()
    } else if s[0] == '\\' {
        if s.len() == 1 {
            s
        } else {
            seq![s[1]] + unescaped(s.skip(2))
        }
    } else {
        seq![s[0]] + unescaped(s.skip(1))
    }
}

/// The path that a paste would be, if it is a file dropped on the window.
pub open spec fn dropped(text: Seq<char>, home: Option<Seq<char>>) -> Option<Seq<char>> {
    let raw = trim(text);
    let path = unescaped(local_path(unquoted(raw)));
    if raw.len() == 0 || raw.contains('\n') {
        None
    } else if starts(path, "~/"@) {
        match home {
            Some(h) => Some(joined(h, path.skip(2))),
            None => None,
        }
    } else {
        Some(path)
    }
}

fn unquote(s: &str) -> (r: String)
    ensures
        r@ == unquoted(s@),
{
    let cs = chars(s);
    let n: usize = cs.len();
    if n > 1 && ((cs[0] == '\'' && cs[n - 1] == '\'') || (cs[0] == '"' && cs[n - 1] == '"')) {
        piece(cs.as_slice(), 1, n - 1)
    } else {
        s.to_owned()
    }
}

fn strip_url(s: &str) -> (r: String)
    ensures
        r@ == local_path(s@),
{
    let cs = chars(s);
    proof {
        reveal_strlit("file://localhost");
        reveal_strlit("file://");
    }
    if starts_with(cs.as_slice(), "file://localhost") {
        let t = piece(cs.as_slice(), 16, cs.len());
        assert(t@ =~= s@.skip(16));
        t
    } else if starts_with(cs.as_slice(), "file://") {
        let t = piece(cs.as_slice(), 7, cs.len());
        assert(t@ =~= s@.skip(7));
        t
    } else {
        s.to_owned()
    }
}

fn unescape(s: &str) -> (r: String)
    ensures
        r@ == unescaped(s@),
{
    let cs = chars(s);
    let mut out = String::new();
    let mut i: usize = 0;
    assert(cs@.skip(0) =~= cs@);
    while i < cs.len()
        invariant
            i <= cs@.len(),
            cs@ == s@,
            out@ + unescaped(cs@.skip(i as int)) == unescaped(s@),
        decreases cs@.len() - i,
    {
        let ghost t = cs@.skip(i as int);
        let ghost before = out@;
        if cs[i] == '\\' {
            if i + 1 == cs.len() {
                out.push('\\');
                proof {
                    assert(t =~= seq!['\\']);
                    assert(out@ =~= before + t);
                    assert(unescaped(cs@.skip(i + 1)) =~= Seq::empty());
                    assert(out@ + unescaped(cs@.skip(i + 1)) =~= out@);
                }
                i = i + 1;
            } else {
                out.push(cs[i + 1]);
                proof {
                    assert(t.skip(2) =~= cs@.skip(i + 2));
                    assert(out@ + unescaped(cs@.skip(i + 2)) =~= before + unescaped(t));
                }
                i = i + 2;
            }
        } else {
            out.push(cs[i]);
            proof {
                assert(t.skip(1) =~= cs@.skip(i + 1));
                assert(out@ + unescaped(cs@.skip(i + 1)) =~= before + unescaped(t));
            }
            i = i + 1;
        }
    }
    assert(unescaped(cs@.skip(i as int)) =~= Seq::empty());
    assert(out@ + Seq::<char>::empty() =~= out@);
    out
}

/// The path a paste would be, if it is a file dropped on the window: terminals quote it,
/// escape it or make a URL of it. Whether a file is there, the disk decides.
pub fn as_dropped_file(text: &str, home: Option<&str>) -> (r: Option<String>)
    ensures
        ({
            let d = dropped(
                text@,
                match home {
                    Some(h) => Some(h@),
                    None => None,
                },
            );
            match r {
                Some(p) => d == Some(p@),
                None => d is None,
            }
        }),
{
    let raw = trimmed(text);
    let cs = chars(raw.as_str());
    if cs.len() == 0 {
        return None;
    }
    let at = crate::text::find(cs.as_slice(), '\n');
    if at < cs.len() {
        assert(raw@[at as int] == '\n');
        return None;
    }
    assert(!raw@.contains('\n'));
    let path = unescape(strip_url(unquote(raw.as_str()).as_str()).as_str());
    let ps = chars(path.as_str());
    proof {
        reveal_strlit("~/");
    }
    if starts_with(ps.as_slice(), "~/") {
        match home {
            Some(h) => {
                let rest = piece(ps.as_slice(), 2, ps.len());
                assert(rest@ =~= path@.skip(2));
                Some(join(h, rest.as_str()))
            },
            None => None,
        }
    } else {
        Some(path)
    }
}

// --- messages with files in them ------------------------------------------------------

/// A part of a message by its values.
#[verifier::ext_equal]
pub enum PartView {
    Text(Seq<char>),
    File(Seq<char>),
}

impl View for Part {
    type V = PartView;

    open spec fn view(&self) -> PartView {
        match *self {
            Part::Text(t) => PartView::Text(t@),
            Part::File(p) => PartView::File(p@),
        }
    }
}

/// Parts by their values.
pub open spec fn part_views(s: Seq<Part>) -> Seq<PartView> {
    s.map_values(|p: Part| p@)
}

/// Parts with the words typed since the last file behind them, if there are any.
pub open spec fn with_words(parts: Seq<PartView>, words: Seq<char>) -> Seq<PartView> {
    if trim(words).len() == 0 {
        parts
    } else {
        parts.push(PartView::Text(trim(words)))
    }
}

/// The parts of an input line up to its last file, and the words behind that.
pub open spec fn cut_at_files(items: Seq<Item>) -> (Seq<PartView>, Seq<char>)
    decreases items.len(),
{
    if items.len() == 0 {
        (Seq::empty(), Seq::empty())
    } else {
        let (parts, words) = cut_at_files(items.drop_last());
        match items.last() {
            Item::Char(c) => (parts, words.push(c)),
            Item::File(p) => (with_words(parts, words).push(PartView::File(p@)), Seq::empty()),
        }
    }
}

/// The parts of an input line: words and files, in the order they stand there.
pub open spec fn parts_of(items: Seq<Item>) -> Seq<PartView> {
    let (parts, words) = cut_at_files(items);
    with_words(parts, words)
}

/// A line asks for its files to go outside Tor: its first word says so.
pub open spec fn asks_direct(parts: Seq<PartView>) -> bool {
    parts.len() > 0 && parts[0] is Text && first_word(parts[0]->Text_0) == "/direct"@
}

/// The parts without that word.
pub open spec fn without_flag(parts: Seq<PartView>) -> Seq<PartView> {
    if !asks_direct(parts) {
        parts
    } else if after_word(parts[0]->Text_0).len() == 0 {
        parts.drop_first()
    } else {
        parts.update(0, PartView::Text(after_word(parts[0]->Text_0)))
    }
}

/// Some item on a line is a file.
pub open spec fn has_file(items: Seq<Item>) -> bool {
    exists|i: int| 0 <= i < items.len() && (#[trigger] items[i]) is File
}

fn add_words(parts: &mut Vec<Part>, words: &str)
    ensures
        part_views(final(parts)@) == with_words(part_views(old(parts)@), words@),
{
    let t = trimmed(words);
    if t.as_str().unicode_len() > 0 {
        let ghost before = parts@;
        parts.push(Part::Text(t));
        assert(part_views(parts@) =~= part_views(before).push(PartView::Text(t@)));
    }
}

/// What Enter makes of a line: nothing of a blank one, a line of text where it carries no file,
/// else a message with its files where they stand.
pub open spec fn composed(items: Seq<Item>, typed: Option<Typed>) -> bool {
    match typed {
        None => !has_file(items) && trim(items_chars(items)).len() == 0,
        Some(Typed::Line(s)) => {
            &&& !has_file(items)
            &&& s@ == trim(items_chars(items))
            &&& s@.len() > 0
        },
        Some(Typed::Post { parts, direct }) => {
            &&& has_file(items)
            &&& direct == asks_direct(parts_of(items))
            &&& part_views(parts@) == without_flag(parts_of(items))
        },
    }
}

impl App {
    /// What Enter hands over during a call: a plain line as it is; a line with files in it as
    /// one message, the files where they were put. The input line is then empty.
    pub fn compose(&mut self) -> (r: Option<Typed>)
        ensures
            final(self).wf(),
            only_line(*old(self), *final(self), Seq::empty(), 0),
            composed(old(self).items@, r),
    {
        let mut parts: Vec<Part> = Vec::new();
        let mut words = String::new();
        let mut text = String::new();
        let mut files = false;
        let ghost items = self.items@;
        let mut i: usize = 0;
        assert(part_views(parts@) =~= cut_at_files(items.take(0)).0);
        while i < self.items.len()
            invariant
                i <= items.len(),
                items == self.items@,
                *self == *old(self),
                (part_views(parts@), words@) == cut_at_files(items.take(i as int)),
                text@ == items_chars(items.take(i as int)),
                files == has_file(items.take(i as int)),
            decreases items.len() - i,
        {
            let ghost now = items.take(i + 1);
            proof {
                assert(now.drop_last() =~= items.take(i as int));
                assert(now.last() == items[i as int]);
                if files {
                    let j = choose|j: int|
                        0 <= j < items.take(i as int).len() && (#[trigger] items.take(
                            i as int,
                        )[j]) is File;
                    assert(now[j] is File);
                }
            }
            match &self.items[i] {
                Item::Char(c) => {
                    words.push(*c);
                    text.push(*c);
                    proof {
                        if has_file(now) {
                            let j = choose|j: int|
                                0 <= j < now.len() && (#[trigger] now[j]) is File;
                            assert(items.take(i as int)[j] is File);
                        }
                    }
                },
                Item::File(path) => {
                    add_words(&mut parts, words.as_str());
                    let ghost before = parts@;
                    parts.push(Part::File(path.clone()));
                    words = String::new();
                    files = true;
                    proof {
                        assert(part_views(parts@) =~= part_views(before).push(
                            PartView::File(path@),
                        ));
                        assert(now[i as int] is File);
                    }
                },
            }
            i = i + 1;
        }
        assert(items.take(i as int) =~= items);
        self.items = Vec::new();
        self.cursor = 0;
        if !files {
            let said = trimmed(text.as_str());
            if said.as_str().unicode_len() == 0 {
                return None;
            }
            return Some(Typed::Line(said));
        }
        add_words(&mut parts, words.as_str());
        let ghost all = part_views(parts@);
        let mut direct = false;
        let mut rest = String::new();
        if parts.len() > 0 {
            assert(all[0] == parts@[0]@);
            match &parts[0] {
                Part::Text(t) => {
                    let (verb, behind) = split_word(t.as_str());
                    if same(verb.as_str(), "/direct") {
                        direct = true;
                        rest = behind;
                    }
                },
                Part::File(_) => {},
            }
        }
        if direct {
            let ghost before = parts@;
            if rest.as_str().unicode_len() == 0 {
                let _ = parts.remove(0);
                assert(part_views(parts@) =~= all.drop_first());
            } else {
                let t = Part::Text(rest);
                parts.set(0, t);
                assert(part_views(parts@) =~= all.update(0, t@));
            }
        }
        Some(Typed::Post { parts, direct })
    }
}

// --- laws -----------------------------------------------------------------------------

/// A selection inside one entry is that stretch of it, however it was wrapped on screen.
pub proof fn a_selection_comes_back_whole(h: Seq<Entry>, i: usize, a: usize, b: usize)
    requires
        i < h.len(),
        a < b <= h[i as int].text@.len(),
    ensures
        selection_text(
            h,
            Selection {
                anchor: Anchor { entry: i, offset: a },
                current: Anchor { entry: i, offset: b },
            },
        ) == Some(h[i as int].text@.subrange(a as int, b as int)),
        selection_text(
            h,
            Selection {
                anchor: Anchor { entry: i, offset: b },
                current: Anchor { entry: i, offset: a },
            },
        ) == Some(h[i as int].text@.subrange(a as int, b as int)),
{
    let from = Anchor { entry: i, offset: a };
    let to = Anchor { entry: i, offset: b };
    let t = h[i as int].text@.subrange(a as int, b as int);
    assert(selected_before(h, from, to, i as nat) =~= Seq::empty());
    assert(selected_before(h, from, to, (i + 1) as nat) =~= t);
}

/// The scrollback is bounded, what was said last stays, and what goes is the oldest.
pub proof fn the_scrollback_is_bounded(h: Seq<Entry>, back: int, width: nat)
    requires
        back >= 0,
    ensures
        after_push(h, back, width).0.len() <= SCROLLBACK,
        after_push(h, back, width).0.len() == least(h.len() as int, SCROLLBACK as int),
        after_push(h, back, width).0 == h.skip(beyond(h.len() as int, SCROLLBACK as int)),
        0 <= after_push(h, back, width).1 <= back,
    decreases h.len(),
{
    if h.len() > SCROLLBACK {
        let gone = wrapped(h[0].text@, width).len();
        let next = if back > gone {
            back - gone
        } else {
            0
        };
        the_scrollback_is_bounded(h.drop_first(), next, width);
        let k = beyond(h.len() as int, SCROLLBACK as int);
        assert(h.drop_first().skip(k - 1) =~= h.skip(k));
    } else {
        assert(h.skip(0) =~= h);
    }
}

/// Scrolling never runs past either end, and a history that fits does not move.
pub proof fn scrolling_stays_inside(app: App, rows: int)
    ensures
        0 <= scrolled(app, rows) <= scroll_limit(app),
        rows_total(app.history@, app.viewport.0 as nat) <= app.viewport.1 ==> scrolled(app, rows)
            == 0,
{
}

/// Every file a peer offers can be taken by a click: its line on screen carries its number.
pub proof fn an_offer_can_be_clicked(n: usize, o: OfferView, direct: bool, partial: Option<u64>, e: Entry)
    requires
        offer_lines(n as nat, o, direct, partial)[0] == ActView::Say(e.kind, e.text@),
    ensures
        offer_number(e) == Some(n),
{
    reveal_strlit("   [");
    reveal_strlit("] ");
    let d = decimal_text(n as nat);
    let rest = e.text@.skip(4);
    decimal_back(n as nat);
    assert(e.text@.take(4) =~= "   ["@);
    assert(rest.take(d.len() as int) =~= d);
    assert(rest[d.len() as int] == ']');
    assert forall|j: int| 0 <= j < d.len() implies rest[j] != ']' by {
        assert(rest[j] == d[j]);
    }
    index_of_first(rest, ']', d.len() as int);
}

/// Backspace undoes typing: whatever stands on the line, a character or a file put where the
/// cursor is and then taken back leaves the items, the cursor and everything else as they were.
pub proof fn backspace_undoes_typing(before: App, item: Item, typed: App, after: App)
    requires
        before.wf(),
        only_line(
            before,
            typed,
            before.items@.insert(before.cursor as int, item),
            before.cursor + 1,
        ),
        only_line(typed, after, typed.items@.remove(typed.cursor - 1), typed.cursor - 1),
    ensures
        only_line(before, after, before.items@, before.cursor as int),
{
    assert(before.items@.insert(before.cursor as int, item).remove(before.cursor as int)
        =~= before.items@);
}

/// A paste never submits anything: what is typed of it holds no newline and no other control
/// character.
pub proof fn a_paste_stays_one_line(s: Seq<char>)
    ensures
        forall|i: int| 0 <= i < pasted(s).len() ==> !control(#[trigger] pasted(s)[i]),
    decreases s.len(),
{
    if s.len() > 0 {
        let before = pasted(s.drop_last());
        a_paste_stays_one_line(s.drop_last());
        assert forall|i: int| 0 <= i < pasted(s).len() implies !control(#[trigger] pasted(s)[i]) by {
            if i < before.len() {
                assert(!control(before[i]));
            }
        }
    }
}

} // verus!
