//! What the keyboard and the mouse do, one event after the other.

use vstd::prelude::*;
use vstd::string::*;

use crate::chat::{offer_lines, ActView};
use crate::files::OfferView;
use crate::laws::line::{marks_in, marks_of, marks_on, Mark};
use crate::laws::view::{between, shows};
use crate::screen::{
    anchor_of, inside, rows_total, selection_text, App, Gesture, Item, Key, Mouse, Pressed,
};
use crate::text::decimal_text;
use crate::ui::{row_views, wrapped, Entry, Kind, Selection, Typed, Update};

verus! {

// --- keys -----------------------------------------------------------------------------

/// What is typed and taken back leaves the line as it was; what is stepped over in one direction
/// and back leaves the cursor where it was.
pub proof fn a_step_and_its_undoing(
    a: &mut App,
    b: &mut App,
    c: &mut App,
    d: &mut App,
    ch: char,
    typed: Pressed,
    taken: Pressed,
    left: Pressed,
    right: Pressed,
)
    requires
        old(a).wf(),
        old(a).accepting,
        call_ensures(App::handle_key, (a, Key::Char(ch), false), typed),
        *old(b) == *final(a),
        call_ensures(App::handle_key, (b, Key::Backspace, false), taken),
        *old(c) == *final(a),
        call_ensures(App::handle_key, (c, Key::Left, false), left),
        *old(d) == *final(c),
        call_ensures(App::handle_key, (d, Key::Right, false), right),
    ensures
        final(a).items@ == old(a).items@.insert(old(a).cursor as int, Item::Char(ch)),
        final(a).cursor == old(a).cursor + 1,
        final(b).items@ == old(a).items@,
        final(b).cursor == old(a).cursor,
        final(c).items@ == final(a).items@,
        final(c).cursor == old(a).cursor,
        final(d).items@ == final(a).items@,
        final(d).cursor == final(a).cursor,
        typed == Pressed::Nothing,
        taken == Pressed::Nothing,
{
    assert(old(a).items@.insert(old(a).cursor as int, Item::Char(ch)).remove(
        old(a).cursor as int,
    ) =~= old(a).items@);
}

/// Delete takes what stands behind the cursor, and Backspace what stands before it: to step to
/// the left and delete is to take back.
pub proof fn delete_takes_what_is_behind(
    a: &mut App,
    b: &mut App,
    c: &mut App,
    left: Pressed,
    deleted: Pressed,
    taken: Pressed,
)
    requires
        old(a).wf(),
        old(a).accepting,
        old(a).cursor > 0,
        call_ensures(App::handle_key, (a, Key::Left, false), left),
        *old(b) == *final(a),
        call_ensures(App::handle_key, (b, Key::Delete, false), deleted),
        *old(c) == *old(a),
        call_ensures(App::handle_key, (c, Key::Backspace, false), taken),
    ensures
        final(b).items@ == final(c).items@,
        final(b).cursor == final(c).cursor,
        final(c).items@.len() == old(a).items@.len() - 1,
{
}

/// Nothing is lost past either end of the line.
pub proof fn the_ends_of_the_line_hold(
    a: &mut App,
    b: &mut App,
    home: Pressed,
    taken: Pressed,
    c: &mut App,
    d: &mut App,
    end: Pressed,
    deleted: Pressed,
)
    requires
        old(a).wf(),
        old(a).accepting,
        call_ensures(App::handle_key, (a, Key::Home, false), home),
        *old(b) == *final(a),
        call_ensures(App::handle_key, (b, Key::Backspace, false), taken),
        *old(c) == *old(a),
        call_ensures(App::handle_key, (c, Key::End, false), end),
        *old(d) == *final(c),
        call_ensures(App::handle_key, (d, Key::Delete, false), deleted),
    ensures
        final(a).cursor == 0,
        final(c).cursor == old(a).items@.len(),
        final(b).items@ == old(a).items@,
        final(d).items@ == old(a).items@,
{
}

/// While nothing reads the keyboard no key changes the line; the one that leaves always does.
pub proof fn an_idle_keyboard_changes_nothing(a: &mut App, key: Key, ctrl: bool, r: Pressed)
    requires
        old(a).wf(),
        !old(a).accepting,
        call_ensures(App::handle_key, (a, key, ctrl), r),
    ensures
        final(a).items@ == old(a).items@,
        final(a).cursor == old(a).cursor,
        final(a).history@ == old(a).history@,
        key == Key::Char('c') && ctrl <==> r == Pressed::Quit,
        !(key == Key::Char('c') && ctrl) ==> r == Pressed::Nothing,
{
}

/// Only the one key leaves, only Enter hands anything over, and no key but those that edit
/// changes what is on the line.
pub proof fn a_key_does_its_own(a: &mut App, key: Key, ctrl: bool, r: Pressed)
    requires
        old(a).wf(),
        call_ensures(App::handle_key, (a, key, ctrl), r),
    ensures
        r == Pressed::Quit <==> key == Key::Char('c') && ctrl,
        r is Typed ==> key == Key::Enter && old(a).accepting,
        r == Pressed::Clipboard ==> key == Key::Char('v') && ctrl,
        key == Key::Up || key == Key::Down || key == Key::PageUp || key == Key::PageDown || key
            == Key::Left || key == Key::Right || key == Key::Home || key == Key::End || key
            == Key::Other ==> final(a).items@ == old(a).items@,
        final(a).history@ == old(a).history@,
        final(a).accepting == old(a).accepting,
        key == Key::Char('u') && ctrl && old(a).accepting ==> final(a).items@.len() == 0,
        key == Key::Char('e') && ctrl && old(a).accepting ==> final(a).scroll_back == 0,
{
}

/// A row up and a row down again is where it was, and a page and a page back too, unless the
/// history ends before.
pub proof fn up_and_down_again(a: &mut App, b: &mut App, up: Pressed, down: Pressed, page: bool)
    requires
        old(a).wf(),
        rows_total(old(a).history@, old(a).viewport.0 as nat) <= usize::MAX,
        old(a).scroll_back + 2 * (if page && old(a).viewport.1 > 2 {
            (old(a).viewport.1 - 1) as int
        } else {
            1
        }) + old(a).viewport.1 <= rows_total(old(a).history@, old(a).viewport.0 as nat),
        call_ensures(
            App::handle_key,
            (
                a,
                if page {
                    Key::PageUp
                } else {
                    Key::Up
                },
                false,
            ),
            up,
        ),
        *old(b) == *final(a),
        call_ensures(
            App::handle_key,
            (
                b,
                if page {
                    Key::PageDown
                } else {
                    Key::Down
                },
                false,
            ),
            down,
        ),
    ensures
        final(a).scroll_back > old(a).scroll_back,
        !page ==> final(a).scroll_back == old(a).scroll_back + 1,
        page && old(a).viewport.1 > 2 ==> final(a).scroll_back == old(a).scroll_back
            + old(a).viewport.1 - 1,
        final(b).scroll_back == old(a).scroll_back,
        final(b).items@ == old(a).items@,
{
}

/// Enter hands over everything on the line, empties it, and shows the newest row.
pub proof fn enter_sends_the_line(a: &mut App, r: Pressed)
    requires
        old(a).wf(),
        old(a).accepting,
        call_ensures(App::handle_key, (a, Key::Enter, false), r),
    ensures
        final(a).items@.len() == 0,
        final(a).cursor == 0,
        r is Typed ==> final(a).scroll_back == 0,
        r is Typed || r is Nothing,
        r is Nothing ==> marks_on(old(a).items@) == Seq::<Mark>::empty(),
        r is Typed ==> match r->Typed_0 {
            Typed::Line(s) => marks_on(old(a).items@) == marks_of(s@),
            Typed::Post { parts, direct } => marks_on(old(a).items@) == (if direct {
                marks_of("/direct"@)
            } else {
                Seq::empty()
            }) + marks_in(crate::screen::part_views(parts@)),
        },
{
    match r {
        Pressed::Typed(t) => crate::laws::line::composing_loses_nothing(old(a).items@, Some(t)),
        _ => crate::laws::line::composing_loses_nothing(old(a).items@, None),
    }
}

// --- the mouse ------------------------------------------------------------------------

/// What is dragged over is copied when the button is let go: the text between the place where it
/// was pressed and the place where the drag ended, and the operator sees how much it was.
pub proof fn a_drag_copies_what_it_covers(
    a: &mut App,
    b: &mut App,
    c: &mut App,
    from: (u16, u16),
    to: (u16, u16),
    now: u64,
    pressed: Gesture,
    dragged: Gesture,
    let_go: Gesture,
)
    requires
        old(a).wf(),
        old(a).rows@.len() > 0,
        call_ensures(App::handle_mouse, (a, Mouse::Down, from.0, from.1, now), pressed),
        *old(b) == *final(a),
        call_ensures(App::handle_mouse, (b, Mouse::Drag, to.0, to.1, now), dragged),
        *old(c) == *final(b),
        call_ensures(App::handle_mouse, (c, Mouse::Up, to.0, to.1, now), let_go),
    ensures
        ({
            let rows = row_views(old(a).rows@);
            let anchor = anchor_of(rows, old(a).body_origin, from.0, from.1)->0;
            let current = anchor_of(rows, old(a).body_origin, to.0, to.1)->0;
            let text = selection_text(old(a).history@, Selection { anchor, current });
            &&& final(b).selection == Some(Selection { anchor, current })
            &&& pressed is Nothing && dragged is Nothing
            &&& anchor != current && text is Some ==> {
                &&& let_go is Copy && let_go->Copy_0@ == text->0
                &&& final(c).flash is Some
            }
            &&& anchor != current && text is None ==> let_go is Nothing
            &&& anchor == current ==> !(let_go is Copy) && final(c).selection is None
            &&& !final(c).dragging
            &&& final(c).items@ == old(a).items@
        }),
{
    assert(row_views(old(a).rows@).len() == old(a).rows@.len());
}

/// A click on the line that offers a file types the command that takes it, and a click anywhere
/// else types nothing; no click copies anything or leaves a selection.
pub proof fn a_click_on_an_offer_takes_it(
    a: &mut App,
    b: &mut App,
    at: (u16, u16),
    now: u64,
    pressed: Gesture,
    let_go: Gesture,
    n: usize,
    o: OfferView,
    direct: bool,
    partial: Option<u64>,
)
    requires
        old(a).wf(),
        old(a).accepting,
        old(a).rows@.len() > 0,
        call_ensures(App::handle_mouse, (a, Mouse::Down, at.0, at.1, now), pressed),
        *old(b) == *final(a),
        call_ensures(App::handle_mouse, (b, Mouse::Up, at.0, at.1, now), let_go),
    ensures
        ({
            let p = anchor_of(row_views(old(a).rows@), old(a).body_origin, at.0, at.1)->0;
            let e = old(a).history@[p.entry as int];
            &&& p.entry < old(a).history@.len() && offer_lines(n as nat, o, direct, partial)[0]
                == ActView::Say(e.kind, e.text@) ==> let_go is Type && let_go->Type_0@
                == "/accept "@ + decimal_text(n as nat)
            &&& p.entry < old(a).history@.len() && e.kind != Kind::System ==> let_go is Nothing
            &&& !(let_go is Copy)
            &&& final(b).selection is None
            &&& final(b).items@ == old(a).items@
            &&& final(b).scroll_back == old(a).scroll_back
        }),
{
    assert(row_views(old(a).rows@).len() == old(a).rows@.len());
    let p = anchor_of(row_views(old(a).rows@), old(a).body_origin, at.0, at.1)->0;
    let e = old(a).history@[p.entry as int];
    if offer_lines(n as nat, o, direct, partial)[0] == ActView::Say(e.kind, e.text@) {
        crate::screen::an_offer_can_be_clicked(n, o, direct, partial, e);
    }
}

/// While no line is accepted a click types nothing.
pub proof fn a_click_types_only_where_lines_are_read(
    a: &mut App,
    at: (u16, u16),
    now: u64,
    let_go: Gesture,
)
    requires
        old(a).wf(),
        !old(a).accepting,
        call_ensures(App::handle_mouse, (a, Mouse::Up, at.0, at.1, now), let_go),
    ensures
        !(let_go is Type),
{
}

/// The wheel moves the view by three rows, and back by as many.
pub proof fn the_wheel_moves_three_rows(
    a: &mut App,
    b: &mut App,
    at: (u16, u16),
    now: u64,
    up: Gesture,
    down: Gesture,
)
    requires
        old(a).wf(),
        rows_total(old(a).history@, old(a).viewport.0 as nat) <= usize::MAX,
        old(a).scroll_back + 3 + old(a).viewport.1 <= rows_total(
            old(a).history@,
            old(a).viewport.0 as nat,
        ),
        call_ensures(App::handle_mouse, (a, Mouse::ScrollUp, at.0, at.1, now), up),
        *old(b) == *final(a),
        call_ensures(App::handle_mouse, (b, Mouse::ScrollDown, at.0, at.1, now), down),
    ensures
        final(a).scroll_back == old(a).scroll_back + 3,
        final(b).scroll_back == old(a).scroll_back,
        up is Nothing && down is Nothing,
        final(b).selection == old(a).selection,
{
}

// --- what the rest of the program says ------------------------------------------------

/// A line that is said is the last of the history; the oldest goes where there are more than two
/// thousand, and nothing else is changed.
pub proof fn what_is_said_is_shown_last(a: &mut App, entry: Entry, now: u64, r: Option<String>)
    requires
        old(a).wf(),
        old(a).history@.len() <= 2000,
        call_ensures(App::apply, (a, Update::Line(entry), now), r),
    ensures
        r is None,
        old(a).history@.len() < 2000 ==> final(a).history@ == old(a).history@.push(entry),
        old(a).history@.len() == 2000 ==> final(a).history@ == old(a).history@.drop_first().push(
            entry,
        ),
        old(a).history@.len() < 2000 ==> final(a).scroll_back == old(a).scroll_back,
        old(a).history@.len() == 2000 ==> ({
            let gone = wrapped(old(a).history@[0].text@, old(a).viewport.0 as nat).len();
            final(a).scroll_back == if old(a).scroll_back < gone {
                0
            } else {
                old(a).scroll_back - gone
            }
        }),
        final(a).items@ == old(a).items@,
        final(a).cursor == old(a).cursor,
{
    let h = old(a).history@.push(entry);
    let w = old(a).viewport.0 as nat;
    crate::screen::the_scrollback_is_bounded(h, old(a).scroll_back as int, w);
    if old(a).history@.len() == 2000 {
        assert(h.skip(1) =~= old(a).history@.drop_first().push(entry));
        assert(h[0] == old(a).history@[0]);
        reveal_with_fuel(crate::screen::after_push, 3);
    } else {
        assert(h.skip(0) =~= h);
    }
}

/// What is to be copied is handed out whole, and the operator is told.
pub proof fn what_is_copied_is_handed_out(a: &mut App, text: String, now: u64, r: Option<String>)
    requires
        old(a).wf(),
        call_ensures(App::apply, (a, Update::Clipboard(text), now), r),
    ensures
        r == Some(text),
        final(a).flash is Some,
        final(a).history@ == old(a).history@,
        final(a).items@ == old(a).items@,
{
}

/// Every row that is drawn shows the piece of the history that it says it shows, and the box is
/// as large as the border leaves it.
pub proof fn a_frame_draws_the_history(
    a: &mut App,
    x: u16,
    y: u16,
    width: u16,
    height: u16,
    now: u64,
    i: int,
)
    requires
        old(a).wf(),
        x < u16::MAX,
        y < u16::MAX,
        call_ensures(App::frame, (a, x, y, width, height, now), ()),
        0 <= i < final(a).rows@.len(),
    ensures
        shows(old(a).history@, final(a).rows@[i]@),
        final(a).body_origin == ((x + 1) as u16, (y + 1) as u16),
        width >= 3 && height >= 2 ==> final(a).viewport == ((width - 2) as usize, (height
            - 2) as usize),
        final(a).history@ == old(a).history@,
        final(a).items@ == old(a).items@,
{
    crate::laws::view::every_row_is_in_its_place(
        old(a).history@,
        inside(width, height).0 as nat,
        inside(width, height).1 as nat,
        final(a).scroll_back as nat,
        i,
    );
    assert(row_views(final(a).rows@)[i] == final(a).rows@[i]@);
}

} // verus!
