//! The input line, the scrollback and the selection.

use std::collections::VecDeque;

use murmure::screen::{as_dropped_file, highlight, App, Gesture, Item, Key, Mouse, Pressed};
use murmure::ui::{
    clipboard_sequence, rows_for, visible_rows, wrap, Anchor, Entry, Kind, Part, Row, Selection, Typed, Update,
    SCROLLBACK,
};

fn entry(text: &str) -> Entry {
    Entry { kind: Kind::System, text: text.to_owned() }
}

#[test]
fn the_newest_line_is_always_visible_however_long_the_others_are() {
    let width = 20;
    let height = 5;
    let mut history = VecDeque::new();
    for _ in 0..3 {
        history.push_back(entry(&"x".repeat(width * 3)));
    }
    history.push_back(entry("the newest line"));

    let rows = visible_rows(&history, width, height, 0);
    assert_eq!(rows.len(), height);
    let last = rows.last().unwrap();
    assert_eq!(last.entry, history.len() - 1, "the newest entry must be included");
    assert_eq!(last.text, "the newest line");
}

#[test]
fn a_dropped_file_is_told_apart_from_pasted_text() {
    let files = ["/tmp/d/image.png", "/tmp/d/mon rapport.pdf"];
    // The disk is the judge, not the shape of the text.
    let drop = |text: &str| {
        as_dropped_file(text, Some("/home/a")).filter(|p| files.contains(&p.as_str()))
    };
    for form in [
        "/tmp/d/image.png",
        "  /tmp/d/image.png  ",
        "'/tmp/d/image.png'",
        "\"/tmp/d/image.png\"",
        "file:///tmp/d/image.png",
        "file://localhost/tmp/d/image.png",
    ] {
        assert_eq!(drop(form).as_deref(), Some("/tmp/d/image.png"), "{form}");
    }
    assert_eq!(drop("/tmp/d/mon\\ rapport.pdf").as_deref(), Some("/tmp/d/mon rapport.pdf"));
    assert_eq!(drop("'/tmp/d/mon rapport.pdf'").as_deref(), Some("/tmp/d/mon rapport.pdf"));

    assert_eq!(drop("/etc/passwd/nope"), None);
    assert_eq!(drop("bonjour tout le monde"), None);
    assert_eq!(drop(""), None);
    assert_eq!(drop("/tmp/d"), None);
    assert_eq!(drop("/tmp/d/image.png\nsecond line"), None);
}

#[test]
fn a_paste_is_unescaped_as_terminals_escape() {
    let home = Some("/home/a");
    assert_eq!(as_dropped_file("~/x\\'y", home).as_deref(), Some("/home/a/x'y"));
    assert_eq!(as_dropped_file("~/x", None), None);
    assert_eq!(as_dropped_file("a\\\\b\\", home).as_deref(), Some("a\\b\\"));
    assert_eq!(as_dropped_file("'", home).as_deref(), Some("'"), "one quote quotes nothing");
    assert_eq!(as_dropped_file("'a\"", home).as_deref(), Some("'a\""));
    assert_eq!(as_dropped_file("   ", home), None);
}

/// Type a text into a fresh app, left to right.
fn typed(s: &str) -> App {
    let mut app = App::new("t".into());
    for c in s.chars() {
        app.insert(c);
    }
    app
}

#[test]
fn the_cursor_moves_and_edits_in_the_middle() {
    let mut app = typed("bonjur");
    app.move_cursor(false);
    app.move_cursor(false);
    app.insert('o');
    assert_eq!(app.input_display(), "bonjour");
    assert_eq!(app.cursor, 5, "the cursor follows what was just typed");

    assert!(app.backspace());
    assert_eq!(app.input_display(), "bonjur");

    app.cursor = 0;
    app.move_cursor(false);
    assert_eq!(app.cursor, 0);
    assert!(!app.backspace(), "nothing before the start");
    app.cursor = app.items.len();
    app.move_cursor(true);
    assert_eq!(app.cursor, app.items.len());
}

#[test]
fn the_cursor_steps_over_whole_characters() {
    let mut app = typed("éàü");
    assert_eq!(app.cursor, 3, "three characters, not six bytes");
    app.move_cursor(false);
    assert_eq!(app.cursor, 2);
    app.insert('x');
    assert_eq!(app.input_display(), "éàxü");
    assert!(app.backspace());
    assert_eq!(app.input_display(), "éàü");
    app.cursor = 2;
    assert_eq!(app.cursor_column(), 2);
}

#[test]
fn an_attachment_shows_as_a_name_and_submits_as_a_command() {
    let mut app = typed("tiens");
    app.attach("/tmp/mes docs/image.png".into());

    assert_eq!(app.input_display(), "tiens [image.png]");
    assert_eq!(
        app.submit(),
        vec!["/send /tmp/mes docs/image.png".to_owned(), "tiens".to_owned()]
    );
    assert!(app.items.is_empty());
    assert_eq!(app.cursor, 0);
    assert!(app.submit().is_empty(), "nothing to send is nothing sent");
}

#[test]
fn a_file_is_one_item_the_cursor_can_cross_and_delete() {
    let mut app = typed("voici merci");
    for _ in 0..6 {
        app.move_cursor(false);
    }
    app.attach("/tmp/a.pdf".into());
    assert_eq!(app.input_display(), "voici [a.pdf] merci");

    let before = app.cursor;
    app.move_cursor(false);
    assert_eq!(app.cursor, before - 1, "a file is one step, not seven");
    assert_eq!(app.cursor_column(), "voici ".len());

    app.cursor = app.items.len();
    for c in " !".chars() {
        app.insert(c);
    }
    assert_eq!(app.input_display(), "voici [a.pdf] merci !");

    app.cursor = 7;
    assert!(app.backspace());
    assert_eq!(app.input_display(), "voici  merci !");
    assert!(
        app.submit().iter().all(|l| !l.starts_with("/send")),
        "the file is gone, so nothing may be offered"
    );
}

#[test]
fn a_dropped_file_absorbs_a_typed_send() {
    let mut app = typed("/send");
    app.attach("/tmp/image.JPG".into());
    assert_eq!(app.input_display(), "/send [image.JPG]");
    assert_eq!(app.submit(), vec!["/send /tmp/image.JPG".to_owned()]);
}

#[test]
fn a_multi_line_paste_stays_one_line() {
    let mut app = App::new("t".into());
    app.paste("deux\nlignes\r\ncollees", None);
    assert_eq!(app.input_display(), "deux lignes  collees");
    assert!(
        app.items.iter().all(|i| matches!(i, Item::Char(_))),
        "a paste is text, never an attachment"
    );
}

#[test]
fn a_paste_lands_at_the_cursor() {
    let mut app = typed("ab");
    app.move_cursor(false);
    app.paste("x\u{7}y", None);
    assert_eq!(app.input_display(), "axyb");
    assert_eq!(app.cursor, 3);
    app.paste("ignored", Some("/tmp/f".into()));
    assert_eq!(app.input_display(), "axy [f]b");
    app.paste("ignored", Some("/".into()));
    assert_eq!(app.input_display(), "axy [f][/]b", "no space between two chips");
}

#[test]
fn wrapped_height_counts_every_row() {
    assert_eq!(rows_for("", 10), 1, "an empty line still takes a row");
    assert_eq!(rows_for("short", 10), 1);
    assert_eq!(rows_for(&"x".repeat(10), 10), 1);
    assert_eq!(rows_for(&"x".repeat(11), 10), 2);
    assert_eq!(rows_for(&"x".repeat(30), 10), 3);
}

#[test]
fn wrapping_cuts_between_characters() {
    assert_eq!(
        wrap("éàüxy", 2),
        vec![(0, "éà".to_owned()), (2, "üx".to_owned()), (4, "y".to_owned())]
    );
    assert_eq!(wrap("ab", 0), vec![(0, "a".to_owned()), (1, "b".to_owned())]);
    assert_eq!(wrap("", 3), vec![(0, String::new())]);
}

#[test]
fn an_empty_or_zero_sized_window_does_not_panic() {
    let empty = VecDeque::new();
    assert!(visible_rows(&empty, 20, 5, 0).is_empty());

    let mut one = VecDeque::new();
    one.push_back(entry("hello"));
    assert!(visible_rows(&one, 20, 0, 0).is_empty(), "no rows fit in no height");

    let rows = visible_rows(&one, 20, 5, 99);
    assert_eq!(rows.len(), 1);
    assert_eq!(rows[0].text, "hello");
    assert_eq!(rows[0].offset, 0);

    assert_eq!(visible_rows(&one, 0, 5, 0).len(), "hello".len());
}

fn press(app: &mut App, c: u16, r: u16) {
    assert_eq!(app.handle_mouse(Mouse::Down, c, r, 0), Gesture::Nothing);
}
fn drag(app: &mut App, c: u16, r: u16) {
    assert_eq!(app.handle_mouse(Mouse::Drag, c, r, 0), Gesture::Nothing);
}
fn release(app: &mut App, c: u16, r: u16) -> Option<String> {
    match app.handle_mouse(Mouse::Up, c, r, 1000) {
        Gesture::Copy(text) => Some(text),
        Gesture::Nothing => None,
        Gesture::Type(line) => panic!("nothing to take here: {line}"),
    }
}

/// A file on offer is taken by clicking it; anything else is only a click.
#[test]
fn a_click_on_an_offer_takes_the_file() {
    let mut app = with_line("   [12] \"a.pdf\" (1.2 kB)");
    app.push(Entry { kind: Kind::Theirs, text: "   [3] \"not an offer\"".into() });
    app.push(entry("   [x] neither"));
    app.push(entry("   [4 nor this"));
    app.frame(0, 0, 42, 10, 0);
    let (x, y) = app.body_origin;
    press(&mut app, x + 2, y);
    assert_eq!(app.handle_mouse(Mouse::Up, x + 2, y, 0), Gesture::Nothing, "nothing is taken yet");
    app.accepting = true;
    press(&mut app, x + 2, y);
    assert_eq!(app.handle_mouse(Mouse::Up, x + 2, y, 0), Gesture::Type("/accept 12".into()));
    assert!(app.selection.is_none());
    for row in 1..4 {
        press(&mut app, x, y + row);
        assert_eq!(app.handle_mouse(Mouse::Up, x, y + row, 0), Gesture::Nothing);
    }
    let marked: Vec<bool> = app.rows.iter().map(|r| app.underlined(r)).collect();
    assert_eq!(marked, [true, false, false, false]);
    // A drag over it copies it, and takes nothing.
    press(&mut app, x + 3, y);
    drag(&mut app, x + 7, y);
    assert_eq!(release(&mut app, x + 7, y).as_deref(), Some("[12]"));
}

fn with_line(text: &str) -> App {
    let mut app = App::new("t".into());
    app.viewport = (40, 4);
    app.push(entry(text));
    app.rows = visible_rows(&app.history, 40, 4, 0);
    app
}

#[test]
fn copying_a_selection_says_how_much_went_out() {
    let mut app = with_line("hello");
    press(&mut app, 0, 0);
    drag(&mut app, 5, 0);
    assert_eq!(release(&mut app, 5, 0).as_deref(), Some("hello"));

    let (note, until) = app.flash.as_ref().expect("a copy must say so");
    assert_eq!(note, "copied 5 chars");
    assert!(*until > 1000, "the note must not arrive expired");

    app.flash = None;
    press(&mut app, 2, 0);
    assert!(release(&mut app, 2, 0).is_none());
    assert!(app.flash.is_none(), "a click is not a copy");
    assert!(app.selection.is_none());
}

#[test]
fn the_note_counts_in_characters_not_bytes() {
    let mut app = with_line("éàê");
    press(&mut app, 0, 0);
    drag(&mut app, 3, 0);
    release(&mut app, 3, 0);
    assert_eq!(app.flash.as_ref().unwrap().0, "copied 3 chars");

    app.flash = None;
    press(&mut app, 0, 0);
    drag(&mut app, 1, 0);
    release(&mut app, 1, 0);
    assert_eq!(app.flash.as_ref().unwrap().0, "copied 1 char");
}

/// An address that wrapped over several rows comes back as one unbroken text, and lines are
/// joined with newlines.
#[test]
fn a_selection_over_wrapped_rows_is_whole() {
    let mut app = App::new("t".into());
    app.push(entry("first"));
    app.push(entry(&"0123456789".repeat(3)));
    app.push(entry("last"));
    app.frame(0, 0, 12, 12, 0);
    assert_eq!(app.viewport, (10, 10));
    assert_eq!(app.rows.len(), 5);
    assert_eq!(app.body_origin, (1, 1));
    // Backwards, from the last row up into the first.
    press(&mut app, 3, 5);
    drag(&mut app, 3, 1);
    assert_eq!(
        release(&mut app, 3, 1).as_deref(),
        Some("rst\n012345678901234567890123456789\nla")
    );
    // Past every edge, the nearest character is meant.
    press(&mut app, 99, 99);
    drag(&mut app, 0, 0);
    assert_eq!(
        release(&mut app, 0, 0).as_deref(),
        Some("first\n012345678901234567890123456789\nlast")
    );
    // What is drawn as selected is the part of each row inside it.
    let sel = Some(Selection {
        anchor: Anchor { entry: 1, offset: 5 },
        current: Anchor { entry: 1, offset: 12 },
    });
    let shown: Vec<_> = app.rows.iter().map(|r| highlight(r, &sel)).collect();
    assert_eq!(shown, vec![None, Some((5, 10)), Some((0, 2)), None, None]);
}

#[test]
fn a_stray_drag_starts_a_selection() {
    let mut app = with_line("hello");
    drag(&mut app, 1, 0);
    assert_eq!(
        app.selection,
        Some(Selection {
            anchor: Anchor { entry: 0, offset: 1 },
            current: Anchor { entry: 0, offset: 1 }
        })
    );
    assert!(app.dragging);
    let mut none = App::new("t".into());
    drag(&mut none, 1, 0);
    assert!(none.selection.is_none() && !none.dragging);
}

#[test]
fn scrollback_is_bounded_and_drops_the_oldest() {
    let mut app = App::new("t".into());
    for i in 0..SCROLLBACK + 10 {
        app.push(entry(&i.to_string()));
    }
    assert_eq!(app.history.len(), SCROLLBACK);
    assert_eq!(app.history.front().unwrap().text, "10");
}

#[test]
fn the_view_stays_anchored_while_old_lines_fall_off() {
    let mut app = App::new("t".into());
    for i in 0..SCROLLBACK {
        app.push(entry(&i.to_string()));
    }
    app.scroll_back = 50;
    app.push(entry("new"));
    assert_eq!(app.scroll_back, 49);
}

#[test]
fn scrolling_never_runs_past_the_history() {
    let mut app = App::new("t".into());
    app.viewport = (80, 3);
    for i in 0..5 {
        app.push(entry(&i.to_string()));
    }
    let page = app.page() as i128;
    app.scroll(page);
    assert_eq!(app.scroll_back, 2, "cannot scroll past the oldest row");
    app.scroll(page);
    assert_eq!(app.scroll_back, 2);

    app.scroll(-page);
    assert_eq!(app.scroll_back, 0, "cannot scroll past the newest row");
    app.scroll(-1);
    assert_eq!(app.scroll_back, 0);
}

#[test]
fn a_short_history_does_not_move() {
    let mut app = App::new("t".into());
    app.viewport = (80, 10);
    app.push(entry("only line"));
    app.scroll(5);
    assert_eq!(app.scroll_back, 0);
}

#[test]
fn one_press_moves_exactly_one_row_however_long_the_lines_are() {
    let mut app = App::new("t".into());
    app.viewport = (10, 2);
    app.push(entry(&"x".repeat(40)));
    app.push(entry("short"));

    app.scroll(1);
    assert_eq!(app.scroll_back, 1);
    app.scroll(1);
    assert_eq!(app.scroll_back, 2, "a wrapped entry is not one step");

    for (back, expect) in [
        (0, [(0, 30), (1, 0)]),
        (1, [(0, 20), (0, 30)]),
        (2, [(0, 10), (0, 20)]),
        (3, [(0, 0), (0, 10)]),
    ] {
        let got: Vec<(usize, usize)> = visible_rows(&app.history, 10, 2, back)
            .iter()
            .map(|r: &Row| (r.entry, r.offset))
            .collect();
        assert_eq!(got, expect, "scroll_back {back}");
    }
}

/// Every key, on a line and a history that show what it does.
#[test]
fn a_copy_is_a_request_to_the_terminal() {
    assert_eq!(clipboard_sequence("Hello world"), "\x1b]52;c;SGVsbG8gd29ybGQ=\x07");
    assert_eq!(clipboard_sequence("é"), "\x1b]52;c;w6k=\x07");
    assert_eq!(clipboard_sequence(""), "\x1b]52;c;\x07");
}

#[test]
fn every_key_does_its_part() {
    let mut app = typed("abc");
    app.accepting = true;
    app.viewport = (10, 3);
    for i in 0..9 {
        app.push(entry(&i.to_string()));
    }
    assert_eq!(app.handle_key(Key::Char('c'), true), Pressed::Quit);
    assert_eq!(app.handle_key(Key::Left, false), Pressed::Nothing);
    assert_eq!(app.handle_key(Key::Delete, false), Pressed::Nothing);
    assert_eq!(app.input_display(), "ab");
    app.handle_key(Key::Delete, false);
    assert_eq!(app.input_display(), "ab", "nothing behind the end");
    app.handle_key(Key::Home, false);
    app.handle_key(Key::Char('x'), false);
    app.handle_key(Key::Right, false);
    app.handle_key(Key::Backspace, false);
    assert_eq!(app.input_display(), "xb");
    app.handle_key(Key::End, false);
    assert_eq!(app.cursor, 2);
    for (key, ctrl, back) in [
        (Key::Up, false, 1),
        (Key::Char('b'), true, 3),
        (Key::PageUp, false, 5),
        (Key::PageUp, false, 6),
        (Key::Down, false, 5),
        (Key::Char('f'), true, 3),
        (Key::PageDown, false, 1),
        (Key::Up, false, 2),
        (Key::Char('e'), true, 0),
    ] {
        assert_eq!(app.handle_key(key, ctrl), Pressed::Nothing);
        assert_eq!(app.scroll_back, back, "{key:?}");
    }
    assert_eq!(app.handle_key(Key::Char('v'), true), Pressed::Clipboard);
    assert_eq!(app.handle_key(Key::Char('z'), true), Pressed::Nothing);
    assert_eq!(app.input_display(), "xbz");
    app.scroll_back = 4;
    assert_eq!(app.handle_key(Key::Enter, false), Pressed::Typed(Typed::Line("xbz".into())));
    assert_eq!(app.scroll_back, 0, "you sent something, you want to see the answer");
    app.scroll_back = 4;
    assert_eq!(app.handle_key(Key::Enter, false), Pressed::Nothing);
    assert_eq!(app.scroll_back, 4);
    // A message and its files go as one.
    app.insert('a');
    app.attach("/tmp/x.png".into());
    assert_eq!(
        app.handle_key(Key::Enter, false),
        Pressed::Typed(Typed::Post {
            parts: vec![Part::Text("a".into()), Part::File("/tmp/x.png".into())],
            direct: false,
        })
    );
    assert_eq!(app.scroll_back, 0);
    assert_eq!(app.cursor, 0);
    app.insert('q');
    app.handle_key(Key::Char('u'), true);
    assert!(app.items.is_empty());
    assert_eq!(app.handle_key(Key::Other, false), Pressed::Nothing);
}

#[test]
fn nothing_is_typed_before_anything_reads_it() {
    let mut app = App::new("t".into());
    app.viewport = (10, 1);
    app.push(entry("a"));
    app.push(entry("b"));
    assert_eq!(app.handle_key(Key::Char('x'), false), Pressed::Nothing);
    assert_eq!(app.handle_key(Key::Enter, false), Pressed::Nothing);
    assert!(app.items.is_empty());
    app.handle_key(Key::Up, false);
    assert_eq!(app.scroll_back, 1, "scrolling is harmless");
    assert_eq!(app.handle_key(Key::Char('c'), true), Pressed::Quit);
    assert_eq!(app.cursor_x(0, 80), None, "no cursor while input is refused");
    assert_eq!(app.input_title(), " starting — please wait ");
}

#[test]
fn a_frame_says_what_stands_in_it() {
    let mut app = typed("héllo");
    app.accepting = true;
    app.status = "listening".into();
    app.flash("note".into(), 500);
    app.frame(2, 1, 40, 10, 600);
    assert_eq!(
        app.header(),
        (" murmure  t ".into(), "  listening".into(), Some("  note".into()))
    );
    assert_eq!(app.input_title(), " type, Enter to send ");
    assert_eq!(app.cursor_x(2, 80), Some(8));
    assert_eq!(app.cursor_x(2, 9), Some(7), "never outside the box");
    app.frame(2, 1, 40, 10, 2500);
    assert!(app.flash.is_none(), "two seconds are over");
    app.frame(0, 0, 0, 0, 0);
    assert_eq!(app.viewport, (1, 0));
    app.scroll_back = 1;
    assert_eq!(app.header().1, "  listening  [scrolled]");
}

#[test]
fn updates_reach_the_screen() {
    let mut app = App::new("t".into());
    assert!(app.apply(Update::Line(entry("x")), 0).is_none());
    assert_eq!(app.history.len(), 1);
    assert_eq!(app.history[0].text(), "x");
    app.apply(Update::Status("up".into()), 0);
    assert_eq!(app.status, "up");
    app.apply(Update::Accepting(true), 0);
    assert!(app.accepting);
    assert_eq!(app.apply(Update::Clipboard("éé".into()), 7).as_deref(), Some("éé"));
    assert_eq!(app.flash, Some(("copied 2 chars".to_owned(), 2007)));
}

/// Wheel steps, and the clamp after a resize.
#[test]
fn the_wheel_moves_three_rows() {
    let mut app = App::new("t".into());
    for i in 0..10 {
        app.push(entry(&i.to_string()));
    }
    app.frame(0, 0, 12, 4, 0);
    app.handle_mouse(Mouse::ScrollUp, 0, 0, 0);
    assert_eq!(app.scroll_back, 3);
    app.handle_mouse(Mouse::ScrollDown, 0, 0, 0);
    assert_eq!(app.scroll_back, 0);
    app.scroll(100);
    assert_eq!(app.scroll_back, 8);
    app.frame(0, 0, 12, 9, 0);
    assert_eq!(app.scroll_back, 3, "a taller box has less to scroll");
}

/// A message with files in it keeps them where they were put.
#[test]
fn a_composed_message_keeps_its_files_in_place() {
    let mut app = typed("voici");
    app.attach("/tmp/photo1.png".into());
    for c in " et ".chars() {
        app.insert(c);
    }
    app.attach("/tmp/photo2.png".into());
    assert_eq!(
        app.compose(),
        Some(Typed::Post {
            parts: vec![
                Part::Text("voici".into()),
                Part::File("/tmp/photo1.png".into()),
                Part::Text("et".into()),
                Part::File("/tmp/photo2.png".into()),
            ],
            direct: false,
        })
    );
    assert!(app.items.is_empty());
    assert_eq!(app.compose(), None);
    assert_eq!(typed("  bonjour ").compose(), Some(Typed::Line("bonjour".into())));
    let mut app = typed("/direct here they are:");
    app.attach("/a.jpg".into());
    assert_eq!(
        app.compose(),
        Some(Typed::Post {
            parts: vec![Part::Text("here they are:".into()), Part::File("/a.jpg".into())],
            direct: true,
        })
    );
    let mut app = typed("/direct ");
    app.attach("/a.jpg".into());
    assert_eq!(
        app.compose(),
        Some(Typed::Post { parts: vec![Part::File("/a.jpg".into())], direct: true })
    );
    assert_eq!(
        typed("/direct hello").compose(),
        Some(Typed::Line("/direct hello".into())),
        "without a file it is a command, and is held back"
    );
}
