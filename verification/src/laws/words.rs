//! What is typed: words, commands with their arguments, and what is said.

use vstd::prelude::*;
use vstd::string::*;

use crate::command::{parsed, CommandView};
use crate::files::joined;
use crate::presence::Said;
use crate::text::{count_of, decimal_back, decimal_text, starts, trim, trim_end, white};
use crate::typed::{after_word, classified, first_word, word_len, Ended, Route, TypedView};

verus! {

/// One word: something, and no white space in it.
pub open spec fn word(w: Seq<char>) -> bool {
    &&& w.len() > 0
    &&& forall|i: int| 0 <= i < w.len() ==> !white(#[trigger] w[i])
}

/// Something with no white space at either end.
pub open spec fn phrase(p: Seq<char>) -> bool {
    &&& p.len() > 0
    &&& !white(p[0])
    &&& !white(p.last())
}

/// White space only.
pub open spec fn blank(s: Seq<char>) -> bool {
    forall|i: int| 0 <= i < s.len() ==> white(#[trigger] s[i])
}

/// Trimming takes the white space off both ends and nothing else.
pub proof fn trimming_takes_only_the_ends(a: Seq<char>, p: Seq<char>, b: Seq<char>)
    requires
        blank(a),
        blank(b),
        phrase(p),
    ensures
        trim(a + p + b) == p,
        trim(a) == Seq::<char>::empty(),
    decreases a.len() + b.len(),
{
    if a.len() > 0 {
        let s = a + p + b;
        assert(s[0] == a[0]);
        assert(a.drop_first() + p + b =~= s.drop_first());
        assert forall|i: int| 0 <= i < a.drop_first().len() implies white(
            #[trigger] a.drop_first()[i],
        ) by {
            assert(a.drop_first()[i] == a[i + 1]);
        }
        trimming_takes_only_the_ends(a.drop_first(), p, b);
        assert(white(a[0]));
    } else {
        assert(a + p + b =~= p + b);
        assert((p + b)[0] == p[0]);
        the_end_is_taken(p, b);
        assert(trim(a) =~= Seq::<char>::empty());
    }
}

proof fn the_end_is_taken(p: Seq<char>, b: Seq<char>)
    requires
        blank(b),
        phrase(p),
    ensures
        trim_end(p + b) == p,
    decreases b.len(),
{
    let s = p + b;
    if b.len() > 0 {
        assert(s.last() == b.last());
        assert(white(b[b.len() - 1]));
        assert(s.drop_last() =~= p + b.drop_last());
        assert forall|i: int| 0 <= i < b.drop_last().len() implies white(
            #[trigger] b.drop_last()[i],
        ) by {
            assert(b.drop_last()[i] == b[i]);
        }
        the_end_is_taken(p, b.drop_last());
    } else {
        assert(s =~= p);
    }
}

/// A line is cut at the white space behind its first word, however much of it there is.
pub proof fn a_line_is_cut_behind_its_first_word(w: Seq<char>, gap: Seq<char>, p: Seq<char>)
    requires
        word(w),
        blank(gap),
        gap.len() > 0,
        phrase(p),
    ensures
        first_word(w + gap + p) == w,
        after_word(w + gap + p) == p,
        first_word(w) == w,
        after_word(w) == Seq::<char>::empty(),
        phrase(w + gap + p),
{
    let s = w + gap + p;
    assert(w + (gap + p) =~= s);
    assert((gap + p)[0] == gap[0]);
    word_stops(w, gap + p);
    word_stops(w, Seq::empty());
    assert(w + Seq::<char>::empty() =~= w);
    assert(s.take(w.len() as int) =~= w);
    assert(w.take(w.len() as int) =~= w);
    assert(s.skip(w.len() as int) =~= gap + p + Seq::<char>::empty());
    trimming_takes_only_the_ends(gap, p, Seq::empty());
    assert(w.skip(w.len() as int) =~= Seq::<char>::empty());
    trimming_takes_only_the_ends(Seq::empty(), p, Seq::empty());
    assert(s[0] == w[0] && s.last() == p.last());
}

proof fn word_stops(w: Seq<char>, rest: Seq<char>)
    requires
        forall|i: int| 0 <= i < w.len() ==> !white(#[trigger] w[i]),
        rest.len() == 0 || white(rest[0]),
    ensures
        word_len(w + rest) == w.len(),
    decreases w.len(),
{
    let s = w + rest;
    if w.len() > 0 {
        assert(s[0] == w[0]);
        assert(s.drop_first() =~= w.drop_first() + rest);
        assert forall|i: int| 0 <= i < w.drop_first().len() implies !white(
            #[trigger] w.drop_first()[i],
        ) by {
            assert(w.drop_first()[i] == w[i + 1]);
        }
        word_stops(w.drop_first(), rest);
    } else {
        assert(s =~= rest);
    }
}

/// The words of a line stand one space apart here.
pub open spec fn then_word(w: Seq<char>, p: Seq<char>) -> Seq<char> {
    w + seq![' '] + p
}

proof fn spaced(w: Seq<char>, p: Seq<char>)
    requires
        word(w),
        phrase(p),
    ensures
        first_word(then_word(w, p)) == w,
        after_word(then_word(w, p)) == p,
        phrase(then_word(w, p)),
        trim(then_word(w, p)) == then_word(w, p),
{
    let gap = seq![' '];
    assert(blank(gap)) by {
        assert forall|i: int| 0 <= i < gap.len() implies white(#[trigger] gap[i]) by {
            assert(gap[0] as u32 == 0x20);
        }
    }
    a_line_is_cut_behind_its_first_word(w, gap, p);
    is_trimmed(then_word(w, p));
}

proof fn is_trimmed(p: Seq<char>)
    requires
        phrase(p),
    ensures
        trim(p) == p,
{
    trimming_takes_only_the_ends(Seq::empty(), p, Seq::empty());
    assert(Seq::<char>::empty() + p + Seq::<char>::empty() =~= p);
}

proof fn alone(w: Seq<char>)
    requires
        word(w),
    ensures
        first_word(w) == w,
        after_word(w) == Seq::<char>::empty(),
        trim(w) == w,
        phrase(w),
{
    let gap = seq![' '];
    assert(white(gap[0])) by {
        assert(gap[0] as u32 == 0x20);
    }
    a_line_is_cut_behind_its_first_word(w, gap, w);
    is_trimmed(w);
}

proof fn nothing_left()
    ensures
        first_word(Seq::empty()) == Seq::<char>::empty(),
        after_word(Seq::empty()) == Seq::<char>::empty(),
{
    let e = Seq::<char>::empty();
    assert(word_len(e) == 0);
    assert(e.take(0) =~= e);
    assert(e.skip(0) =~= e);
}

/// White space around a command is no part of it.
pub proof fn white_space_around_a_command_is_nothing(a: Seq<char>, line: Seq<char>, b: Seq<char>)
    requires
        blank(a),
        blank(b),
        phrase(line),
    ensures
        parsed(a + line + b) == parsed(line),
        parsed(a) == CommandView::Nothing,
{
    trimming_takes_only_the_ends(a, line, b);
    is_trimmed(line);
}

/// A message is everything behind the name it is for, whatever words are in it.
pub proof fn a_message_is_all_behind_the_name(name: Seq<char>, body: Seq<char>)
    requires
        word(name),
        phrase(body),
    ensures
        parsed(then_word("/tell"@, then_word(name, body))) == CommandView::Tell(name, body),
{
    reveal_strlit("/tell");
    reveal_strlit("/add");
    reveal_strlit("/forget");
    reveal_strlit("/contacts");
    spaced(name, body);
    assert("/tell"@.len() == 5 && "/add"@.len() == 4 && "/forget"@.len() == 7 && "/contacts"@.len()
        == 9);
    spaced("/tell"@, then_word(name, body));
}

/// A friend is filed under the name, the address and the key that were typed, in that order.
pub proof fn a_friend_is_filed_as_typed(
    name: Seq<char>,
    address: Seq<char>,
    key: Seq<char>,
)
    requires
        word(name),
        word(address),
        word(key),
    ensures
        parsed(then_word("/add"@, then_word(name, then_word(address, key)))) == CommandView::Add(
            name,
            address,
            key,
        ),
        parsed(then_word("/add"@, then_word(name, address))) is Bad,
        parsed(then_word("/add"@, name)) is Bad,
        parsed("/add"@) is Bad,
{
    reveal_strlit("/add");
    nothing_left();
    alone("/add"@);
    alone(name);
    alone(address);
    alone(key);
    spaced(address, key);
    spaced(name, then_word(address, key));
    spaced(name, address);
    spaced("/add"@, then_word(name, then_word(address, key)));
    spaced("/add"@, then_word(name, address));
    spaced("/add"@, name);
}

/// The commands about one contact name whom they are about, and say so where nobody is named.
pub proof fn a_command_is_about_whom_it_names(name: Seq<char>)
    requires
        word(name),
    ensures
        parsed(then_word("/call"@, name)) == CommandView::Call(name),
        parsed(then_word("/forget"@, name)) == CommandView::Forget(name),
        parsed(then_word("/presence"@, name)) == CommandView::Presence(name, Said::WeAsk),
        parsed(then_word("/presence"@, then_word(name, "off"@))) == CommandView::Presence(
            name,
            Said::WeStop,
        ),
        parsed(then_word("/presence"@, then_word(name, "no"@))) == CommandView::Presence(
            name,
            Said::WeStop,
        ),
        parsed(then_word("/tell"@, name)) is Bad,
        parsed("/call"@) is Bad,
        parsed("/forget"@) is Bad,
        parsed("/presence"@) is Bad,
        parsed("/tell"@) is Bad,
{
    the_verbs();
    reveal_strlit("off");
    reveal_strlit("no");
    assert("off"@.len() == 3 && "no"@.len() == 2);
    nothing_left();
    alone(name);
    alone("off"@);
    alone("no"@);
    spaced(name, "no"@);
    spaced("/presence"@, then_word(name, "no"@));
    alone("/call"@);
    alone("/forget"@);
    alone("/presence"@);
    alone("/tell"@);
    spaced("/call"@, name);
    spaced("/forget"@, name);
    spaced("/presence"@, name);
    spaced("/tell"@, name);
    spaced(name, "off"@);
    spaced("/presence"@, then_word(name, "off"@));
}

/// Any word behind the name that is not an end of it is not taken for one.
pub proof fn presence_takes_no_other_word(name: Seq<char>, extra: Seq<char>)
    requires
        word(name),
        word(extra),
        extra != "off"@,
        extra != "no"@,
    ensures
        parsed(then_word("/presence"@, then_word(name, extra))) is Bad,
{
    the_verbs();
    alone(extra);
    spaced(name, extra);
    spaced("/presence"@, then_word(name, extra));
}

/// The commands that stand alone.
pub proof fn a_bare_command_is_itself()
    ensures
        parsed("/contacts"@) == CommandView::Contacts,
        parsed("/answer"@) == CommandView::Answer,
        parsed("/decline"@) == CommandView::Decline,
        parsed("/copy"@) == CommandView::Copy,
        parsed("/help"@) == CommandView::Help,
        parsed("/quit"@) == CommandView::Quit,
{
    the_verbs();
    alone("/contacts"@);
    alone("/answer"@);
    alone("/decline"@);
    alone("/copy"@);
    alone("/help"@);
    alone("/quit"@);
}

/// Nothing else is run: a line that begins with none of the commands is only said to be unknown.
pub proof fn nothing_else_is_run(line: Seq<char>)
    requires
        trim(line).len() > 0,
        first_word(trim(line)) != "/add"@,
        first_word(trim(line)) != "/forget"@,
        first_word(trim(line)) != "/contacts"@,
        first_word(trim(line)) != "/tell"@,
        first_word(trim(line)) != "/answer"@,
        first_word(trim(line)) != "/decline"@,
        first_word(trim(line)) != "/presence"@,
        first_word(trim(line)) != "/call"@,
        first_word(trim(line)) != "/copy"@,
        first_word(trim(line)) != "/help"@,
        first_word(trim(line)) != "/quit"@,
    ensures
        parsed(line) is Bad,
{
}

proof fn the_verbs()
    ensures
        word("/call"@),
        word("/forget"@),
        word("/presence"@),
        word("/tell"@),
        word("/contacts"@),
        word("/answer"@),
        word("/decline"@),
        word("/copy"@),
        word("/help"@),
        word("/quit"@),
        "/call"@.len() == 5 && "/call"@[1] as u32 == 99,
        "/tell"@.len() == 5 && "/tell"@[1] as u32 == 116,
        "/copy"@.len() == 5 && "/copy"@[1] as u32 == 99 && "/copy"@[2] as u32 == 111,
        "/call"@[2] as u32 == 97,
        "/help"@.len() == 5 && "/help"@[1] as u32 == 104,
        "/quit"@.len() == 5 && "/quit"@[1] as u32 == 113,
        "/forget"@.len() == 7 && "/forget"@[1] as u32 == 102,
        "/answer"@.len() == 7 && "/answer"@[1] as u32 == 97,
        "/decline"@.len() == 8,
        "/presence"@.len() == 9 && "/presence"@[1] as u32 == 112,
        "/contacts"@.len() == 9 && "/contacts"@[1] as u32 == 99,
        "/add"@.len() == 4,
{
    reveal_strlit("/call");
    reveal_strlit("/forget");
    reveal_strlit("/presence");
    reveal_strlit("/tell");
    reveal_strlit("/contacts");
    reveal_strlit("/answer");
    reveal_strlit("/decline");
    reveal_strlit("/copy");
    reveal_strlit("/help");
    reveal_strlit("/quit");
    reveal_strlit("/add");
}

// --- during a call --------------------------------------------------------------------

/// A file is sent from the path that was typed, spaces and all: through Tor, unless `--direct`
/// stands before the path.
pub proof fn a_file_is_sent_from_the_path_typed(path: Seq<char>, home: Option<Seq<char>>)
    requires
        phrase(path),
        !starts(path, "~/"@),
    ensures
        !starts(path, "--direct"@) ==> classified(then_word("/send"@, path), home)
            == TypedView::Send(path, Route::Tor),
        classified(then_word("/send"@, then_word("--direct"@, path)), home) == TypedView::Send(
            path,
            Route::Direct,
        ),
{
    in_a_call();
    let flag = "--direct"@;
    reveal_strlit("--direct");
    reveal_strlit("//");
    spaced("/send"@, path);
    spaced(flag, path);
    spaced("/send"@, then_word(flag, path));
    let rest = then_word(flag, path);
    assert(rest.take(8) =~= flag);
    assert(rest[8] as u32 == 0x20);
    assert(rest.skip(8) =~= seq![' '] + path);
    let gap = seq![' '];
    assert(white(gap[0])) by {
        assert(gap[0] as u32 == 0x20);
    }
    trimming_takes_only_the_ends(gap, path, Seq::empty());
    assert(gap + path + Seq::<char>::empty() =~= gap + path);
    let one = then_word("/send"@, path);
    let two = then_word("/send"@, rest);
    assert(one[0] == '/' && two[0] == '/');
    assert(one[1] as u32 == 115 && two[1] as u32 == 115);
    assert(one.take(2)[1] == one[1] && two.take(2)[1] == two[1]);
}

/// A path that only begins like the flag is a path: the flag is a word of its own.
pub proof fn the_flag_is_a_word_of_its_own(path: Seq<char>, home: Option<Seq<char>>)
    requires
        phrase(path),
        starts(path, "--direct"@),
        path.len() > 8 ==> !white(path[8]),
    ensures
        classified(then_word("/send"@, path), home) == TypedView::Send(path, Route::Tor),
{
    in_a_call();
    reveal_strlit("--direct");
    reveal_strlit("~/");
    reveal_strlit("//");
    spaced("/send"@, path);
    let one = then_word("/send"@, path);
    assert(one[0] == '/');
    assert(one[1] as u32 == 115);
    assert(one.take(2)[1] == one[1]);
    assert(path[0] == path.take(8)[0]);
    assert(path[0] as u32 == 45);
    if starts(path, "~/"@) {
        assert(path.take(2)[0] == path[0]);
        assert("~/"@[0] as u32 == 126);
    }
}

/// A path under the home directory is found there.
pub proof fn a_path_at_home_is_found_there(tail: Seq<char>, home: Seq<char>)
    requires
        phrase(tail),
    ensures
        classified(then_word("/send"@, "~/"@ + tail), Some(home)) == TypedView::Send(
            joined(home, tail),
            Route::Tor,
        ),
        classified(then_word("/send"@, "~/"@ + tail), None) == TypedView::Send(
            "~/"@ + tail,
            Route::Tor,
        ),
{
    in_a_call();
    reveal_strlit("~/");
    reveal_strlit("--direct");
    reveal_strlit("//");
    let path = "~/"@ + tail;
    assert(path[0] as u32 == 126 && path.last() == tail.last());
    assert(phrase(path));
    assert(path.take(2) =~= "~/"@);
    assert(path.skip(2) =~= tail);
    assert(!starts(path, "--direct"@)) by {
        if starts(path, "--direct"@) {
            assert(path.take(8)[0] == path[0]);
            assert("--direct"@[0] as u32 == 45);
        }
    }
    spaced("/send"@, path);
    let one = then_word("/send"@, path);
    assert(one[0] == '/');
    assert(one[1] as u32 == 115);
    assert(one.take(2)[1] == one[1]);
}

/// An offer is taken or refused by its number, the oldest where no number is given, and all of
/// them where that is what was said.
pub proof fn an_answer_names_its_offer(n: usize, home: Option<Seq<char>>)
    ensures
        classified(then_word("/accept"@, decimal_text(n as nat)), home) == TypedView::Accept(
            Some(n),
        ),
        classified(then_word("/refuse"@, decimal_text(n as nat)), home) == TypedView::Refuse(
            Some(n),
        ),
        classified("/accept"@, home) == TypedView::Accept(None),
        classified("/refuse"@, home) == TypedView::Refuse(None),
        classified(then_word("/accept"@, "all"@), home) == TypedView::AcceptAll,
{
    in_a_call();
    reveal_strlit("//");
    reveal_strlit("all");
    let d = decimal_text(n as nat);
    decimal_back(n as nat);
    assert(word(d));
    assert("all"@[0] as u32 == 97);
    assert(word("all"@));
    alone(d);
    alone("all"@);
    alone("/accept"@);
    alone("/refuse"@);
    spaced("/accept"@, d);
    spaced("/refuse"@, d);
    spaced("/accept"@, "all"@);
    assert(then_word("/accept"@, d).take(2)[1] as u32 == 97);
    assert(then_word("/refuse"@, d).take(2)[1] as u32 == 114);
    assert(then_word("/accept"@, "all"@).take(2)[1] as u32 == 97);
    assert("/accept"@.take(2)[1] as u32 == 97);
    assert("/refuse"@.take(2)[1] as u32 == 114);
    assert(d[0] as u32 != 97);
    assert(count_of(Seq::empty()) is None);
}

/// The two ways to end a call, and what is held back: any other word behind a slash.
pub proof fn ending_a_call_is_said(verb: Seq<char>, home: Option<Seq<char>>)
    requires
        word(verb),
        verb[0] == '/',
        !starts(verb, "//"@),
        verb != "/accept"@,
        verb != "/refuse"@,
    ensures
        classified("/bye"@, home) == TypedView::HangUp(Ended::WeHungUp),
        classified("/quit"@, home) == TypedView::HangUp(Ended::Quit),
        verb != "/bye"@ && verb != "/quit"@ ==> classified(verb, home)
            == TypedView::UnknownCommand(verb),
{
    in_a_call();
    reveal_strlit("//");
    alone(verb);
    alone("/bye"@);
    alone("/quit"@);
    assert("/bye"@.take(2)[1] as u32 == 98);
    assert("/quit"@.take(2)[1] as u32 == 113);
}

/// A blank line is nothing.
pub proof fn a_blank_line_is_nothing(s: Seq<char>, home: Option<Seq<char>>)
    requires
        blank(s),
    ensures
        classified(s, home) == TypedView::Nothing,
{
    let p = seq!['x'];
    assert(p[0] as u32 == 120);
    assert(phrase(p));
    trimming_takes_only_the_ends(s, p, Seq::empty());
}

proof fn in_a_call()
    ensures
        word("/send"@),
        word("/accept"@),
        word("/refuse"@),
        word("/bye"@),
        word("/quit"@),
        word("--direct"@),
        "/send"@.len() == 5 && "/send"@[0] == '/' && "/send"@[1] as u32 == 115,
        "/accept"@.len() == 7 && "/accept"@[0] == '/' && "/accept"@[1] as u32 == 97,
        "/refuse"@.len() == 7 && "/refuse"@[0] == '/' && "/refuse"@[1] as u32 == 114,
        "/bye"@.len() == 4 && "/bye"@[0] == '/' && "/bye"@[1] as u32 == 98,
        "/quit"@.len() == 5 && "/quit"@[0] == '/' && "/quit"@[1] as u32 == 113,
{
    reveal_strlit("/send");
    reveal_strlit("/accept");
    reveal_strlit("/refuse");
    reveal_strlit("/bye");
    reveal_strlit("/quit");
    reveal_strlit("--direct");
}

} // verus!
