//! The history on screen: where everything is, what a selection covers, what was dropped.

use vstd::prelude::*;
use vstd::string::*;

use crate::files::joined;
use crate::screen::{
    anchor_of, dropped, flash_end, fresh_flash, highlighted, inside, local_path, page_rows,
    rows_total, scrolled, selected_before, selected_piece, selection_text, unescaped, unquoted,
    App,
};
use crate::text::{starts, trim};
use crate::ui::{
    entry_rows, rows_fit_and_know_their_place, rows_from, shown_rows, window, wrapped,
    wrapped_from, Anchor, Entry, RowView, Selection,
};

verus! {

/// A row shows a piece of the entry it belongs to: these characters, from this place on.
pub open spec fn shows(h: Seq<Entry>, row: RowView) -> bool {
    &&& 0 <= row.entry < h.len()
    &&& 0 <= row.offset
    &&& row.offset + row.text.len() <= h[row.entry].text@.len()
    &&& row.text == h[row.entry].text@.subrange(row.offset, row.offset + row.text.len())
    &&& row.kind == h[row.entry].kind
}

/// Every row on screen shows what stands at its place in the history.
pub proof fn every_row_is_in_its_place(h: Seq<Entry>, width: nat, height: nat, back: nat, i: int)
    requires
        0 <= i < shown_rows(h, width, height, back).len(),
    ensures
        shows(h, shown_rows(h, width, height, back)[i]),
{
    let all = rows_from(h, 0, width);
    assert forall|j: int| 0 <= j < all.len() implies shows(h, #[trigger] all[j]) by {
        row_is_in_place(h, 0, width, j);
    }
    let w = window(all, height, back);
    let k = choose|k: int| 0 <= k < all.len() && #[trigger] all[k] == w[i];
    assert(exists|k: int| 0 <= k < all.len() && #[trigger] all[k] == w[i]) by {
        let room = if all.len() > height {
            (all.len() - height) as nat
        } else {
            0
        };
        let up = if back < room {
            back
        } else {
            room
        };
        let end = all.len() - up;
        let start = if end > height {
            end - height
        } else {
            0
        };
        assert(w[i] == all[start + i]);
    }
}

proof fn row_is_in_place(h: Seq<Entry>, from: nat, width: nat, j: int)
    requires
        0 <= j < rows_from(h, from, width).len(),
    ensures
        shows(h, rows_from(h, from, width)[j]),
    decreases h.len() - from,
{
    if from < h.len() {
        let own = entry_rows(from as int, h[from as int], width);
        if j < own.len() {
            let s = h[from as int].text@;
            rows_fit_and_know_their_place(s, width, j);
            assert(own[j].text == wrapped(s, width)[j].1);
        } else {
            row_is_in_place(h, from + 1, width, j - own.len());
        }
    }
}

/// Every row of a line but its last is as long as the box is wide, and each begins where the one
/// before it ends.
pub proof fn rows_are_full(s: Seq<char>, width: nat, i: int)
    requires
        0 <= i < wrapped(s, width).len(),
    ensures
        ({
            let w = if width == 0 {
                1
            } else {
                width
            };
            &&& wrapped(s, width)[i].0 == i * w
            &&& i < wrapped(s, width).len() - 1 ==> wrapped(s, width)[i].1.len() == w
            &&& i == wrapped(s, width).len() - 1 ==> wrapped(s, width)[i].1.len() == s.len() - i * w
        }),
{
    let w = if width == 0 {
        1
    } else {
        width
    };
    if s.len() > 0 {
        full_from(s, 0, w, i);
    } else {
        assert(i * w == 0) by (nonlinear_arith)
            requires
                i == 0,
        ;
    }
}

proof fn full_from(s: Seq<char>, at: nat, w: nat, i: int)
    requires
        w > 0,
        0 <= i < wrapped_from(s, at, w).len(),
    ensures
        ({
            let rows = wrapped_from(s, at, w);
            &&& rows[i].0 == at + i * w
            &&& i < rows.len() - 1 ==> rows[i].1.len() == w
            &&& i == rows.len() - 1 ==> rows[i].1.len() == s.len() - at - i * w
        }),
    decreases
            if at < s.len() {
                s.len() - at
            } else {
                0
            },
{
    if at < s.len() {
        let rest = wrapped_from(s, at + w, w);
        if i == 0 {
            assert(i * w == 0) by (nonlinear_arith)
                requires
                    i == 0,
            ;
            if rest.len() > 0 {
                assert(at + w < s.len());
            } else {
                assert(at + w >= s.len());
            }
        } else {
            full_from(s, at + w, w, i - 1);
            assert(wrapped_from(s, at, w)[i] == rest[i - 1]);
            assert((i - 1) * w + w == i * w) by (nonlinear_arith);
        }
    }
}

/// The mouse points at the character under it: a place inside the box stands for the very
/// character of the history that is drawn there.
pub proof fn the_mouse_points_at_what_is_under_it(
    h: Seq<Entry>,
    rows: Seq<RowView>,
    origin: (u16, u16),
    i: u16,
    k: u16,
)
    requires
        i < rows.len(),
        shows(h, rows[i as int]),
        k < rows[i as int].text.len(),
        origin.0 + k <= u16::MAX,
        origin.1 + i <= u16::MAX,
        rows[i as int].entry <= usize::MAX,
        rows[i as int].offset + k <= usize::MAX,
    ensures
        ({
            let a = anchor_of(rows, origin, (origin.0 + k) as u16, (origin.1 + i) as u16);
            &&& a is Some
            &&& a->0.entry == rows[i as int].entry
            &&& a->0.offset == rows[i as int].offset + k
            &&& h[a->0.entry as int].text@[a->0.offset as int] == rows[i as int].text[k as int]
        }),
{
}

/// A drag past an edge of the box stays with the row and the character nearest to it.
pub proof fn a_drag_past_an_edge_stays_inside(
    rows: Seq<RowView>,
    origin: (u16, u16),
    column: u16,
    row: u16,
)
    requires
        rows.len() > 0,
        forall|i: int|
            0 <= i < rows.len() ==> 0 <= (#[trigger] rows[i]).entry <= usize::MAX && 0
                <= rows[i].offset && rows[i].offset + rows[i].text.len() <= usize::MAX,
    ensures
        ({
            let a = anchor_of(rows, origin, column, row);
            &&& a is Some
            &&& row <= origin.1 ==> a->0.entry == rows[0].entry
            &&& row - origin.1 >= rows.len() - 1 ==> a->0.entry == rows.last().entry
            &&& row <= origin.1 && column <= origin.0 ==> a->0.offset == rows[0].offset
            &&& row - origin.1 >= rows.len() - 1 && column - origin.0 >= rows.last().text.len()
                && row >= origin.1 ==> a->0.offset == rows.last().offset + rows.last().text.len()
        }),
        anchor_of(Seq::empty(), origin, column, row) is None,
{
}

/// What is between two places, in reading order.
pub open spec fn between(entry: int, offset: int, from: Anchor, to: Anchor) -> bool {
    &&& from.entry < entry || (from.entry == entry && from.offset <= offset)
    &&& entry < to.entry || (entry == to.entry && offset < to.offset)
}

/// A character is drawn as selected exactly if it lies between the two ends of the selection,
/// whichever way the mouse went.
pub proof fn what_is_selected_is_drawn_so(row: RowView, a: Anchor, b: Anchor, k: int)
    requires
        0 <= k < row.text.len(),
        0 <= row.offset,
    ensures
        ({
            let one = highlighted(row, Some(Selection { anchor: a, current: b }));
            let other = highlighted(row, Some(Selection { anchor: b, current: a }));
            let drawn = one is Some && (one->0).0 <= k < (one->0).1;
            &&& one == other || a == b
            &&& drawn <==> between(row.entry, row.offset + k, a, b) || between(
                row.entry,
                row.offset + k,
                b,
                a,
            )
        }),
        highlighted(row, None) is None,
{
}

/// A selection over several lines is each line's part of it, a newline between them: from the
/// first end to the end of its line, whole lines, and the beginning of the last up to the other
/// end. It is the same whichever way the mouse went.
pub proof fn a_selection_over_lines_is_joined(
    h: Seq<Entry>,
    from: Anchor,
    to: Anchor,
)
    requires
        from.entry < to.entry < h.len(),
        from.offset <= h[from.entry as int].text@.len(),
        to.offset <= h[to.entry as int].text@.len(),
    ensures
        selection_text(h, Selection { anchor: from, current: to }) == selection_text(
            h,
            Selection { anchor: to, current: from },
        ),
        selection_text(h, Selection { anchor: from, current: to }) == Some(
            lines_from(h, from.entry as int, from.offset as int, to.entry as int).push('\n')
                + h[to.entry as int].text@.take(to.offset as int),
        ),
{
    let text = selected_before(h, from, to, (to.entry + 1) as nat);
    lines_are_joined(h, from, to, to.entry as nat);
    let last = selected_piece(h, to.entry as int, from, to);
    assert(last =~= h[to.entry as int].text@.take(to.offset as int));
    assert(text =~= lines_from(h, from.entry as int, from.offset as int, to.entry as int).push('\n')
        + h[to.entry as int].text@.take(to.offset as int));
}

/// The lines from a place in one entry up to another entry, a newline between them.
pub open spec fn lines_from(h: Seq<Entry>, entry: int, offset: int, upto: int) -> Seq<char>
    decreases upto - entry,
{
    if upto <= entry + 1 {
        h[entry].text@.skip(offset)
    } else {
        lines_from(h, entry, offset, upto - 1).push('\n') + h[upto - 1].text@
    }
}

proof fn lines_are_joined(h: Seq<Entry>, from: Anchor, to: Anchor, upto: nat)
    requires
        from.entry < upto <= to.entry < h.len(),
        from.offset <= h[from.entry as int].text@.len(),
    ensures
        selected_before(h, from, to, upto) == lines_from(
            h,
            from.entry as int,
            from.offset as int,
            upto as int,
        ),
    decreases upto,
{
    let i = (upto - 1) as nat;
    let piece = selected_piece(h, i as int, from, to);
    let s = h[i as int].text@;
    if i == from.entry {
        assert(selected_before(h, from, to, i) =~= Seq::empty());
        assert(piece =~= s.skip(from.offset as int));
        assert(Seq::<char>::empty() + piece =~= piece);
    } else {
        lines_are_joined(h, from, to, i);
        assert(piece =~= s);
    }
}

/// The view moves by as many rows as it was asked to, and stops where the history does: at the
/// newest row, and where the oldest one is at the top of the box.
pub proof fn the_view_moves_as_asked(app: App, rows: int)
    requires
        rows_total(app.history@, app.viewport.0 as nat) <= usize::MAX,
    ensures
        ({
            let total = rows_total(app.history@, app.viewport.0 as nat) as int;
            let top = if total > app.viewport.1 {
                total - app.viewport.1
            } else {
                0
            };
            let to = app.scroll_back + rows;
            &&& 0 <= to <= top ==> scrolled(app, rows) == to
            &&& to < 0 ==> scrolled(app, rows) == 0
            &&& to > top ==> scrolled(app, rows) == top
        }),
        page_rows(app) == if app.viewport.1 >= 2 {
            app.viewport.1 - 1
        } else {
            1int
        },
{
}

/// The rows of a history are those of its entries.
pub proof fn rows_add_up(h: Seq<Entry>, e: Entry, width: nat)
    ensures
        rows_total(Seq::empty(), width) == 0,
        rows_total(h.push(e), width) == rows_total(h, width) + wrapped(e.text@, width).len(),
{
    assert(h.push(e).drop_last() =~= h);
}

/// A note is up for two seconds, and no longer.
pub proof fn a_note_is_up_for_two_seconds(text: String, now: u64, later: u64)
    requires
        now <= 1_000_000_000_000,
    ensures
        flash_end(now) == now + 2000,
        later < now + 2000 ==> fresh_flash(Some((text, flash_end(now))), later) == Some(
            (text, flash_end(now)),
        ),
        later >= now + 2000 ==> fresh_flash(Some((text, flash_end(now))), later) is None,
        fresh_flash(None, later) is None,
{
}

/// The inside of the history box is what its border leaves, one column at least.
pub proof fn the_border_takes_two(width: u16, height: u16)
    ensures
        width >= 3 ==> inside(width, height).0 == width - 2,
        width < 3 ==> inside(width, height).0 == 1,
        height >= 2 ==> inside(width, height).1 == height - 2,
        height < 2 ==> inside(width, height).1 == 0,
{
}

// --- dropped files --------------------------------------------------------------------

/// A text with every character behind a backslash.
pub open spec fn escaped(s: Seq<char>) -> Seq<char>
    decreases s.len(),
{
    if s.len() == 0 {
        Seq::empty()
    } else {
        seq!['\\', s[0]] + escaped(s.skip(1))
    }
}

/// However a terminal escapes a path, the path comes out: backslashes before its characters,
/// quotes of either kind around it, or the form of a URL of this machine.
pub proof fn a_path_comes_out_of_its_escapes(s: Seq<char>)
    ensures
        unescaped(escaped(s)) == s,
        (forall|i: int| 0 <= i < s.len() ==> s[i] != '\\') ==> unescaped(s) == s && unescaped(
            s.push('\\'),
        ) == s.push('\\'),
        s.len() > 0 ==> unquoted(seq!['\''] + s + seq!['\'']) == s && unquoted(seq!['"'] + s + seq!['"']) == s,
        local_path("file://localhost"@ + s) == s,
        !starts("file://"@ + s, "file://localhost"@) ==> local_path("file://"@ + s) == s,
        !starts(s, "file://"@) ==> local_path(s) == s,
    decreases s.len(),
{
    reveal_strlit("file://localhost");
    reveal_strlit("file://");
    if s.len() > 0 {
        let t = s.skip(1);
        a_path_comes_out_of_its_escapes(t);
        let e = escaped(s);
        assert(e.skip(2) =~= escaped(t));
        assert(seq![s[0]] + t =~= s);
        if forall|i: int| 0 <= i < s.len() ==> s[i] != '\\' {
            assert forall|i: int| 0 <= i < t.len() implies t[i] != '\\' by {
                assert(t[i] == s[i + 1]);
            }
            assert(s[0] != '\\');
            assert(s.push('\\').skip(1) =~= t.push('\\'));
            assert(seq![s[0]] + t.push('\\') =~= s.push('\\'));
        }
        let q = seq!['\''] + s + seq!['\''];
        let d = seq!['"'] + s + seq!['"'];
        assert(q.subrange(1, q.len() - 1) =~= s);
        assert(d.subrange(1, d.len() - 1) =~= s);
    } else {
        assert(unescaped(s) =~= s);
        assert(s.push('\\') =~= seq!['\\']);
    }
    assert(("file://localhost"@ + s).take(16) =~= "file://localhost"@);
    assert(("file://localhost"@ + s).skip(16) =~= s);
    assert(("file://"@ + s).take(7) =~= "file://"@);
    assert(("file://"@ + s).skip(7) =~= s);
    if starts(s, "file://localhost"@) {
        assert(s.take(7) =~= s.take(16).take(7));
        assert("file://localhost"@.take(7) =~= "file://"@);
    }
}

/// A plain path is taken as it is, a leading `~/` for the home directory, and several lines or
/// nothing for no path at all.
pub proof fn a_plain_path_is_itself(s: Seq<char>, home: Option<Seq<char>>)
    requires
        trim(s) == s,
        forall|i: int| 0 <= i < s.len() ==> s[i] != '\\' && s[i] != '\'' && s[i] != '"',
        !starts(s, "file://"@),
    ensures
        s.len() == 0 || s.contains('\n') ==> dropped(s, home) is None,
        s.len() > 0 && !s.contains('\n') && !starts(s, "~/"@) ==> dropped(s, home) == Some(s),
        s.len() > 0 && !s.contains('\n') && starts(s, "~/"@) ==> dropped(s, home) == match home {
            Some(h) => Some(joined(h, s.skip(2))),
            None => None,
        },
{
    a_path_comes_out_of_its_escapes(s);
    if s.len() > 0 {
        assert(s[0] != '\'' && s[0] != '"');
    }
}

} // verus!
