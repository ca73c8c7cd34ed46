//! The input line: what is typed and dropped on it is what is sent.

use vstd::prelude::*;
use vstd::string::*;

use crate::files::file_name_of;
use crate::screen::{
    attached, columns, composed, cut_at_files, has_file, item_text, items_chars, items_sends,
    items_text, part_views, parts_of, pasted, submitted, with_words, Item, PartView,
};
use crate::text::{control, trim, trim_end, trim_start, white};
use crate::typed::{after_word, first_word, word_len};
use crate::ui::Typed;

verus! {

/// Something on a line that is not white space: a character by its code point, or a file by its
/// path.
#[verifier::ext_equal]
pub enum Mark {
    Char(u32),
    File(Seq<char>),
}

/// The marks of a text: its characters that are not white space, in order.
pub open spec fn marks_of(t: Seq<char>) -> Seq<Mark>
    decreases t.len(),
{
    if t.len() == 0 {
        Seq::empty()
    } else if white(t.last()) {
        marks_of(t.drop_last())
    } else {
        marks_of(t.drop_last()).push(Mark::Char(t.last() as u32))
    }
}

/// The marks on an input line.
pub open spec fn marks_on(items: Seq<Item>) -> Seq<Mark>
    decreases items.len(),
{
    if items.len() == 0 {
        Seq::empty()
    } else {
        let before = marks_on(items.drop_last());
        match items.last() {
            Item::Char(c) => if white(c) {
                before
            } else {
                before.push(Mark::Char(c as u32))
            },
            Item::File(path) => before.push(Mark::File(path@)),
        }
    }
}

/// The marks in a message.
pub open spec fn marks_in(parts: Seq<PartView>) -> Seq<Mark>
    decreases parts.len(),
{
    if parts.len() == 0 {
        Seq::empty()
    } else {
        marks_in(parts.drop_last()) + match parts.last() {
            PartView::Text(t) => marks_of(t),
            PartView::File(path) => seq![Mark::File(path)],
        }
    }
}

/// Composing loses no words and no files: what is sent holds, in order, exactly the characters
/// and the files that were on the line, white space aside. Only the word that asks for a direct
/// link is taken off its front, and the message then says so; a line of which nothing is sent
/// was blank.
pub proof fn composing_loses_nothing(items: Seq<Item>, typed: Option<Typed>)
    requires
        composed(items, typed),
    ensures
        match typed {
            None => marks_on(items) == Seq::<Mark>::empty(),
            Some(Typed::Line(s)) => marks_on(items) == marks_of(s@),
            Some(Typed::Post { parts, direct }) => marks_on(items) == (if direct {
                marks_of("/direct"@)
            } else {
                Seq::empty()
            }) + marks_in(part_views(parts@)),
        },
{
    match typed {
        None => {
            marks_without_files(items);
            marks_trimmed(items_chars(items));
        },
        Some(Typed::Line(s)) => {
            marks_without_files(items);
            marks_trimmed(items_chars(items));
        },
        Some(Typed::Post { parts, direct }) => {
            parts_hold_marks(items);
            let all = parts_of(items);
            if direct {
                let t = all[0]->Text_0;
                let w = first_word(t);
                let rest = t.skip(word_len(t) as int);
                word_fits(t);
                assert(w + rest =~= t);
                marks_join(w, rest);
                marks_trimmed(rest);
                assert(all =~= seq![all[0]] + all.drop_first());
                marks_in_join(seq![all[0]], all.drop_first());
                marks_in_one(all[0]);
                if after_word(t).len() == 0 {
                    assert(marks_of(after_word(t)) =~= Seq::empty());
                    assert(marks_of(t) =~= marks_of("/direct"@));
                } else {
                    let sent = all.update(0, PartView::Text(after_word(t)));
                    assert(sent =~= seq![PartView::Text(after_word(t))] + all.drop_first());
                    marks_in_join(seq![PartView::Text(after_word(t))], all.drop_first());
                    marks_in_one(PartView::Text(after_word(t)));
                    assert(marks_of("/direct"@) + (marks_of(after_word(t)) + marks_in(
                        all.drop_first(),
                    )) =~= (marks_of("/direct"@) + marks_of(after_word(t))) + marks_in(
                        all.drop_first(),
                    ));
                }
            } else {
                assert(Seq::<Mark>::empty() + marks_in(all) =~= marks_in(all));
            }
        },
    }
}

/// A message is cut at its files and nowhere else: what stands before a file, the file, and what
/// stands behind it follow one another as they do on the line; and words without a file between
/// them stay together, spacing and all, without the white space around them.
pub proof fn a_message_is_cut_at_its_files(a: Seq<Item>, path: String, b: Seq<Item>, words: Seq<Item>)
    requires
        !has_file(words),
    ensures
        parts_of(a + seq![Item::File(path)] + b) == parts_of(a) + seq![PartView::File(path@)]
            + parts_of(b),
        trim(items_chars(words)).len() == 0 ==> parts_of(words) == Seq::<PartView>::empty(),
        trim(items_chars(words)).len() > 0 ==> parts_of(words) == seq![
            PartView::Text(trim(items_chars(words))),
        ],
{
    cut_behind(a, path, b);
    let whole = cut_at_files(a + seq![Item::File(path)] + b);
    let tail = cut_at_files(b);
    let front = parts_of(a).push(PartView::File(path@));
    assert(front =~= parts_of(a) + seq![PartView::File(path@)]);
    assert(with_words(front + tail.0, tail.1) =~= front + with_words(tail.0, tail.1));
    no_cut(words);
    assert(with_words(Seq::empty(), items_chars(words)) =~= if trim(items_chars(words)).len() == 0 {
        Seq::<PartView>::empty()
    } else {
        seq![PartView::Text(trim(items_chars(words)))]
    });
}

/// A line without a file is sent as its text; one with a file is sent as a message, and asks for
/// a direct link exactly if its first word does.
pub proof fn files_make_it_a_message(items: Seq<Item>, typed: Option<Typed>)
    requires
        composed(items, typed),
    ensures
        has_file(items) <==> typed is Some && typed->0 is Post,
        typed is Some && typed->0 is Line ==> (typed->0)->Line_0@ == trim(items_chars(items)),
        typed is Some && typed->0 is Post ==> ((typed->0)->direct <==> {
            let parts = parts_of(items);
            parts.len() > 0 && parts[0] is Text && {
                let t = parts[0]->Text_0;
                &&& t.len() >= 7
                &&& t.take(7) == "/direct"@
                &&& t.len() == 7 || white(t[7])
            }
        }),
{
    reveal_strlit("/direct");
    let parts = parts_of(items);
    if parts.len() > 0 && parts[0] is Text {
        let t = parts[0]->Text_0;
        word_fits(t);
        if t.len() >= 7 && t.take(7) == "/direct"@ && (t.len() == 7 || white(t[7])) {
            word_is(t, 7);
            assert(first_word(t) =~= "/direct"@);
        }
        if first_word(t) == "/direct"@ {
            assert(first_word(t).len() == 7);
            assert(t.take(7) =~= "/direct"@);
        }
    }
}

// --- the commands a line stands for ---------------------------------------------------

/// Each file becomes one command that sends it, in order, and what was typed around them is said
/// behind those, once; a bare `/send` that was typed for a file says nothing more.
pub proof fn every_file_is_sent_on_its_own(items: Seq<Item>, path: String, c: char)
    ensures
        items_sends(Seq::empty()) == Seq::<Seq<char>>::empty(),
        items_sends(items.push(Item::File(path))) == items_sends(items).push("/send "@ + path@),
        items_sends(items.push(Item::Char(c))) == items_sends(items),
        items_chars(items.push(Item::Char(c))) == items_chars(items).push(c),
        items_chars(items.push(Item::File(path))) == items_chars(items),
        ({
            let text = trim(items_chars(items));
            let n = items_sends(items).len() as int;
            let lines = submitted(items);
            &&& lines.len() >= n && lines.take(n) == items_sends(items)
            &&& lines.len() == n <==> text.len() == 0 || (n > 0 && text == "/send"@)
            &&& lines.len() > n ==> lines.len() == n + 1 && lines[n] == text
        }),
{
    assert(items.push(Item::File(path)).drop_last() =~= items);
    assert(items.push(Item::Char(c)).drop_last() =~= items);
    let n = items_sends(items).len() as int;
    assert(submitted(items).take(n) =~= items_sends(items));
}

// --- what the line shows --------------------------------------------------------------

/// The line shows each character as itself and each file by its name in brackets, one behind the
/// other; the cursor stands behind what stands before it.
pub proof fn the_line_shows_what_is_on_it(items: Seq<Item>, item: Item)
    ensures
        items_text(Seq::empty()) == Seq::<char>::empty(),
        items_text(items.push(item)) == items_text(items) + item_text(item),
        match item {
            Item::Char(c) => item_text(item) == seq![c],
            Item::File(path) => item_text(item) == "["@ + (match file_name_of(path@) {
                Some(name) => name,
                None => path@,
            }) + "]"@,
        },
        columns(items) == items_text(items).len(),
    decreases items.len(),
{
    assert(items.push(item).drop_last() =~= items);
    if items.len() > 0 {
        the_line_shows_what_is_on_it(items.drop_last(), item);
    }
}

/// A file dropped stands where the cursor was, with the cursor behind it; a space is put before
/// it exactly if a character other than a space was there, and nothing else on the line moves.
pub proof fn a_file_stands_where_it_was_dropped(items: Seq<Item>, cursor: int, path: String)
    requires
        0 <= cursor <= items.len(),
    ensures
        ({
            let (now, at) = attached(items, cursor, path);
            let spaced = cursor > 0 && items[cursor - 1] is Char && items[cursor - 1] != Item::Char(
                ' ',
            );
            let k: int = if spaced {
                1
            } else {
                0
            };
            &&& at == cursor + k + 1
            &&& now.len() == items.len() + k + 1
            &&& now[at - 1] == Item::File(path)
            &&& spaced ==> now[cursor] == Item::Char(' ')
            &&& now.take(cursor) == items.take(cursor)
            &&& now.skip(at) == items.skip(cursor)
        }),
{
    let (now, at) = attached(items, cursor, path);
    assert(now.take(cursor) =~= items.take(cursor));
    assert(now.skip(at) =~= items.skip(cursor));
}

/// A paste is typed as it stands, a newline as a space, and other control characters left out.
pub proof fn a_paste_is_typed(s: Seq<char>, c: char)
    ensures
        pasted(Seq::empty()) == Seq::<char>::empty(),
        c == '\n' || c == '\r' ==> pasted(s.push(c)) == pasted(s).push(' '),
        control(c) && c != '\n' && c != '\r' ==> pasted(s.push(c)) == pasted(s),
        !control(c) ==> pasted(s.push(c)) == pasted(s).push(c),
{
    assert(s.push(c).drop_last() =~= s);
    assert('\n' as u32 == 10 && '\r' as u32 == 13);
    assert(control('\n') && control('\r'));
}

// --- lemmas ---------------------------------------------------------------------------

proof fn marks_join(a: Seq<char>, b: Seq<char>)
    ensures
        marks_of(a + b) == marks_of(a) + marks_of(b),
    decreases b.len(),
{
    if b.len() == 0 {
        assert(a + b =~= a);
        assert(marks_of(a) + marks_of(b) =~= marks_of(a));
    } else {
        assert((a + b).drop_last() =~= a + b.drop_last());
        assert((a + b).last() == b.last());
        marks_join(a, b.drop_last());
        let ab = a + b;
        let c = b.last();
        assert(ab.len() > 0 && ab.last() == c);
        if white(c) {
            assert(marks_of(ab) == marks_of(ab.drop_last()));
            assert(marks_of(b) == marks_of(b.drop_last()));
        } else {
            assert(marks_of(ab) == marks_of(ab.drop_last()).push(Mark::Char(c as u32)));
            assert(marks_of(b) == marks_of(b.drop_last()).push(Mark::Char(c as u32)));
            assert((marks_of(a) + marks_of(b.drop_last())).push(Mark::Char(c as u32)) =~= marks_of(a)
                + marks_of(b.drop_last()).push(Mark::Char(c as u32)));
        }
    }
}

proof fn marks_trimmed(t: Seq<char>)
    ensures
        marks_of(trim(t)) == marks_of(t),
{
    marks_trimmed_start(t);
    marks_trimmed_end(trim_start(t));
}

proof fn marks_trimmed_start(t: Seq<char>)
    ensures
        marks_of(trim_start(t)) == marks_of(t),
    decreases t.len(),
{
    if t.len() > 0 && white(t[0]) {
        marks_trimmed_start(t.drop_first());
        assert(t =~= seq![t[0]] + t.drop_first());
        marks_join(seq![t[0]], t.drop_first());
        let one = seq![t[0]];
        assert(one.last() == t[0]);
        assert(one.drop_last() =~= Seq::empty());
        assert(marks_of(one) == marks_of(one.drop_last()));
        assert(marks_of(one) =~= Seq::empty());
        assert(Seq::<Mark>::empty() + marks_of(t.drop_first()) =~= marks_of(t.drop_first()));
    }
}

proof fn marks_trimmed_end(t: Seq<char>)
    ensures
        marks_of(trim_end(t)) == marks_of(t),
    decreases t.len(),
{
    if t.len() > 0 && white(t.last()) {
        marks_trimmed_end(t.drop_last());
    }
}

proof fn marks_without_files(items: Seq<Item>)
    requires
        !has_file(items),
    ensures
        marks_on(items) == marks_of(items_chars(items)),
    decreases items.len(),
{
    if items.len() > 0 {
        let init = items.drop_last();
        assert(!has_file(init)) by {
            if has_file(init) {
                let i = choose|i: int| 0 <= i < init.len() && (#[trigger] init[i]) is File;
                assert(items[i] is File);
            }
        }
        marks_without_files(init);
        assert(!(items[items.len() - 1] is File));
        let c = items.last()->Char_0;
        assert(items_chars(items).drop_last() =~= items_chars(init));
    }
}

proof fn parts_hold_marks(items: Seq<Item>)
    ensures
        marks_on(items) == marks_in(parts_of(items)),
{
    cut_holds_marks(items);
    let (parts, words) = cut_at_files(items);
    words_hold_marks(parts, words);
}

proof fn words_hold_marks(parts: Seq<PartView>, words: Seq<char>)
    ensures
        marks_in(with_words(parts, words)) == marks_in(parts) + marks_of(words),
{
    marks_trimmed(words);
    if trim(words).len() == 0 {
        assert(marks_of(words) =~= Seq::empty());
        assert(marks_in(parts) + marks_of(words) =~= marks_in(parts));
    } else {
        assert(parts.push(PartView::Text(trim(words))).drop_last() =~= parts);
    }
}

proof fn cut_holds_marks(items: Seq<Item>)
    ensures
        marks_on(items) == marks_in(cut_at_files(items).0) + marks_of(cut_at_files(items).1),
    decreases items.len(),
{
    if items.len() == 0 {
        assert(marks_in(cut_at_files(items).0) + marks_of(cut_at_files(items).1)
            =~= Seq::<Mark>::empty());
    } else {
        let init = items.drop_last();
        cut_holds_marks(init);
        let (parts, words) = cut_at_files(init);
        match items.last() {
            Item::Char(c) => {
                assert(words.push(c).drop_last() =~= words);
                assert(marks_on(items) =~= marks_in(parts) + marks_of(words.push(c)));
            },
            Item::File(path) => {
                let front = with_words(parts, words);
                words_hold_marks(parts, words);
                assert(front.push(PartView::File(path@)).drop_last() =~= front);
                assert(marks_of(Seq::empty()) =~= Seq::empty());
                assert(marks_on(items) =~= marks_in(front.push(PartView::File(path@)))
                    + marks_of(Seq::empty()));
            },
        }
    }
}

proof fn marks_in_one(p: PartView)
    ensures
        marks_in(seq![p]) == match p {
            PartView::Text(t) => marks_of(t),
            PartView::File(path) => seq![Mark::File(path)],
        },
{
    assert(seq![p].drop_last() =~= Seq::empty());
    assert(marks_in(Seq::empty()) =~= Seq::empty());
    assert(marks_in(seq![p]) =~= match p {
        PartView::Text(t) => marks_of(t),
        PartView::File(path) => seq![Mark::File(path)],
    });
}

proof fn marks_in_join(a: Seq<PartView>, b: Seq<PartView>)
    ensures
        marks_in(a + b) == marks_in(a) + marks_in(b),
    decreases b.len(),
{
    if b.len() == 0 {
        assert(a + b =~= a);
        assert(marks_in(a) + marks_in(b) =~= marks_in(a));
    } else {
        assert((a + b).drop_last() =~= a + b.drop_last());
        assert((a + b).last() == b.last());
        marks_in_join(a, b.drop_last());
        assert(marks_in(a + b) =~= marks_in(a) + marks_in(b));
    }
}

proof fn cut_behind(a: Seq<Item>, path: String, b: Seq<Item>)
    ensures
        cut_at_files(a + seq![Item::File(path)] + b) == (
            parts_of(a).push(PartView::File(path@)) + cut_at_files(b).0,
            cut_at_files(b).1,
        ),
    decreases b.len(),
{
    let whole = a + seq![Item::File(path)] + b;
    let front = parts_of(a).push(PartView::File(path@));
    if b.len() == 0 {
        assert(whole.drop_last() =~= a);
        assert(whole.last() == Item::File(path));
        assert(front + cut_at_files(b).0 =~= front);
    } else {
        let init = b.drop_last();
        assert(whole.drop_last() =~= a + seq![Item::File(path)] + init);
        assert(whole.last() == b.last());
        cut_behind(a, path, init);
        let (parts, words) = cut_at_files(init);
        match b.last() {
            Item::Char(c) => {},
            Item::File(p) => {
                assert(with_words(front + parts, words).push(PartView::File(p@)) =~= front
                    + with_words(parts, words).push(PartView::File(p@)));
            },
        }
    }
}

proof fn no_cut(words: Seq<Item>)
    requires
        !has_file(words),
    ensures
        cut_at_files(words) == (Seq::<PartView>::empty(), items_chars(words)),
    decreases words.len(),
{
    if words.len() > 0 {
        let init = words.drop_last();
        assert(!has_file(init)) by {
            if has_file(init) {
                let i = choose|i: int| 0 <= i < init.len() && (#[trigger] init[i]) is File;
                assert(words[i] is File);
            }
        }
        no_cut(init);
        assert(!(words[words.len() - 1] is File));
    }
}

proof fn word_fits(t: Seq<char>)
    ensures
        word_len(t) <= t.len(),
        word_len(t) < t.len() ==> white(t[word_len(t) as int]),
        forall|i: int| 0 <= i < word_len(t) ==> !white(#[trigger] t[i]),
    decreases t.len(),
{
    if t.len() > 0 && !white(t[0]) {
        let u = t.drop_first();
        word_fits(u);
        assert forall|i: int| 0 <= i < word_len(t) implies !white(#[trigger] t[i]) by {
            if i > 0 {
                assert(!white(u[i - 1]));
            }
        }
    }
}

proof fn word_is(t: Seq<char>, n: int)
    requires
        0 <= n <= t.len(),
        n < t.len() ==> white(t[n]),
        forall|i: int| 0 <= i < n ==> !white(#[trigger] t.take(n)[i]),
    ensures
        word_len(t) == n,
{
    word_fits(t);
    let w = word_len(t) as int;
    if w < n {
        assert(!white(t.take(n)[w]));
    } else if n < w {
        assert(!white(t[n]));
    }
}

} // verus!
