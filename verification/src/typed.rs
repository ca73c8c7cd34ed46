//! What a line typed during a call means.
//!
//! A leading `/` means "command", and the set is closed. Nothing that begins with `/` is ever
//! sent by accident; `//` at the start escapes it.

use vstd::prelude::*;
use vstd::string::*;

use crate::files::{join, joined};
use crate::text::{
    chars, count_of, decimal_back, decimal_text, is_white, parse_count, piece, same, starts,
    starts_with, trim, trim_start, trimmed, white,
};

verus! {

/// How a conversation ended.
#[derive(Clone, Copy, Debug, PartialEq, Eq, Structural)]
pub enum Ended {
    /// The peer closed the stream.
    PeerHungUp,
    /// We did, with `/bye`.
    WeHungUp,
    /// We did, with `/quit`: hang up *and* leave the program.
    Quit,
    /// The keyboard is gone.
    InputClosed,
    /// They are not taking the call. The connection it was made over stays open.
    Declined,
}

impl Ended {
    /// What the operator is told, using the name they know the peer by.
    pub open spec fn said(self, peer: Seq<char>) -> Seq<char> {
        match self {
            Ended::PeerHungUp => peer + " hung up"@,
            Ended::WeHungUp | Ended::Quit => "you hung up"@,
            Ended::InputClosed => "input closed"@,
            Ended::Declined => peer + " is not taking the call"@,
        }
    }

    /// What to tell the operator.
    pub fn describe(self, peer: &str) -> (r: String)
        ensures
            r@ == self.said(peer@),
    {
        match self {
            Ended::PeerHungUp => {
                let mut s = peer.to_owned();
                s.append(" hung up");
                s
            },
            Ended::WeHungUp | Ended::Quit => "you hung up".to_owned(),
            Ended::InputClosed => "input closed".to_owned(),
            Ended::Declined => {
                let mut s = peer.to_owned();
                s.append(" is not taking the call");
                s
            },
        }
    }

    /// Should the program stop, rather than go back to listening?
    pub fn leaves(self) -> (r: bool)
        ensures
            r == (self == Ended::Quit || self == Ended::InputClosed),
    {
        match self {
            Ended::Quit | Ended::InputClosed => true,
            _ => false,
        }
    }
}

/// Which way a file should travel.
#[derive(Clone, Copy, Debug, PartialEq, Eq, Structural)]
pub enum Route {
    /// Through the conversation's onion circuit, like everything else.
    Tor,
    /// Straight to the peer, outside Tor. Only ever reached by asking for it by name.
    Direct,
}

/// What a line typed during a call turns out to be.
#[derive(Clone, Debug, PartialEq, Eq)]
pub enum Typed {
    /// Blank; ignore it.
    Nothing,
    /// `/bye` or `/quit`, carrying which one it was.
    HangUp(Ended),
    /// `/send <path>`, or `/send --direct <path>`.
    Send(String, Route),
    /// `/accept`, optionally naming which file of the message.
    Accept(Option<usize>),
    /// `/accept all`: this one and every one after it.
    AcceptAll,
    /// `/refuse`, optionally naming which file of the message.
    Refuse(Option<usize>),
    /// Any other `/word`. Held back rather than sent.
    UnknownCommand(String),
    /// Something to say, with any `//` escape already unwrapped.
    Message(String),
}

/// The same by its values.
#[verifier::ext_equal]
pub enum TypedView {
    Nothing,
    HangUp(Ended),
    Send(Seq<char>, Route),
    Accept(Option<usize>),
    AcceptAll,
    Refuse(Option<usize>),
    UnknownCommand(Seq<char>),
    Message(Seq<char>),
}

impl View for Typed {
    type V = TypedView;

    open spec fn view(&self) -> TypedView {
        match *self {
            Typed::Nothing => TypedView::Nothing,
            Typed::HangUp(how) => TypedView::HangUp(how),
            Typed::Send(path, route) => TypedView::Send(path@, route),
            Typed::Accept(which) => TypedView::Accept(which),
            Typed::AcceptAll => TypedView::AcceptAll,
            Typed::Refuse(which) => TypedView::Refuse(which),
            Typed::UnknownCommand(verb) => TypedView::UnknownCommand(verb@),
            Typed::Message(text) => TypedView::Message(text@),
        }
    }
}

/// How long the first word of a text is.
pub open spec fn word_len(s: Seq<char>) -> nat
    decreases s.len(),
{
    if s.len() == 0 || white(s[0]) {
        0
    } else {
        1 + word_len(s.drop_first())
    }
}

/// The first word.
pub open spec fn first_word(s: Seq<char>) -> Seq<char> {
    s.take(word_len(s) as int)
}

/// What follows the first word, without white space around it.
pub open spec fn after_word(s: Seq<char>) -> Seq<char> {
    trim(s.skip(word_len(s) as int))
}

/// A leading `~/` stands for the home directory, where there is one.
pub open spec fn expanded(path: Seq<char>, home: Option<Seq<char>>) -> Seq<char> {
    if starts(path, "~/"@) && home is Some {
        joined(home->0, path.skip(2))
    } else {
        path
    }
}

/// What the remainder of `/send` asks for: the whole remainder is a path, and `--direct` is
/// a flag only as a word of its own in front of one.
pub open spec fn send_request(rest: Seq<char>, home: Option<Seq<char>>) -> TypedView {
    if starts(rest, "--direct"@) && rest.len() > 8 && white(rest[8]) {
        TypedView::Send(expanded(trim(rest.skip(8)), home), Route::Direct)
    } else {
        TypedView::Send(expanded(rest, home), Route::Tor)
    }
}

/// What a typed line is.
pub open spec fn classified(line: Seq<char>, home: Option<Seq<char>>) -> TypedView {
    let t = trim(line);
    let verb = first_word(t);
    let rest = after_word(t);
    if t.len() == 0 {
        TypedView::Nothing
    } else if starts(t, "//"@) {
        TypedView::Message("/"@ + t.skip(2))
    } else if t[0] != '/' {
        TypedView::Message(line)
    } else if verb == "/bye"@ {
        TypedView::HangUp(Ended::WeHungUp)
    } else if verb == "/quit"@ {
        TypedView::HangUp(Ended::Quit)
    } else if verb == "/accept"@ {
        if rest == "all"@ {
            TypedView::AcceptAll
        } else {
            TypedView::Accept(count_of(rest))
        }
    } else if verb == "/refuse"@ {
        TypedView::Refuse(count_of(rest))
    } else if verb == "/send"@ && rest.len() > 0 {
        send_request(rest, home)
    } else {
        TypedView::UnknownCommand(verb)
    }
}

/// How long the first word is.
pub fn measure_word(cs: &[char]) -> (r: usize)
    ensures
        r == word_len(cs@),
        r <= cs@.len(),
{
    let mut i: usize = 0;
    assert(cs@.skip(0) =~= cs@);
    while i < cs.len() && !is_white(cs[i])
        invariant
            i <= cs@.len(),
            word_len(cs@) == i + word_len(cs@.skip(i as int)),
        decreases cs@.len() - i,
    {
        assert(cs@.skip(i as int).drop_first() =~= cs@.skip(i + 1));
        i = i + 1;
    }
    i
}

/// Cut a text into its first word and the rest.
pub fn split_word(s: &str) -> (r: (String, String))
    ensures
        r.0@ == first_word(s@),
        r.1@ == after_word(s@),
{
    let cs = chars(s);
    let n = measure_word(cs.as_slice());
    let verb = piece(cs.as_slice(), 0, n);
    assert(verb@ =~= first_word(s@));
    let tail = piece(cs.as_slice(), n, cs.len());
    assert(tail@ =~= s@.skip(n as int));
    (verb, trimmed(tail.as_str()))
}

/// Expand a leading `~/`.
pub fn expand_home(path: &str, home: Option<&str>) -> (r: String)
    ensures
        r@ == expanded(
            path@,
            match home {
                Some(h) => Some(h@),
                None => None,
            },
        ),
{
    let cs = chars(path);
    proof {
        reveal_strlit("~/");
    }
    if starts_with(cs.as_slice(), "~/") {
        match home {
            Some(h) => {
                let rest = piece(cs.as_slice(), 2, cs.len());
                assert(rest@ =~= path@.skip(2));
                join(h, rest.as_str())
            },
            None => path.to_owned(),
        }
    } else {
        path.to_owned()
    }
}

fn read_send(rest: &str, home: Option<&str>) -> (r: Typed)
    ensures
        r@ == send_request(
            rest@,
            match home {
                Some(h) => Some(h@),
                None => None,
            },
        ),
{
    let cs = chars(rest);
    if starts_with(cs.as_slice(), "--direct") && cs.len() > 8 && is_white(cs[8]) {
        let tail = piece(cs.as_slice(), 8, cs.len());
        assert(tail@ =~= rest@.skip(8));
        Typed::Send(expand_home(trimmed(tail.as_str()).as_str(), home), Route::Direct)
    } else {
        Typed::Send(expand_home(rest, home), Route::Tor)
    }
}

/// Decide what a typed line is. `home` is the home directory, where there is one.
pub fn classify(line: &str, home: Option<&str>) -> (r: Typed)
    ensures
        r@ == classified(
            line@,
            match home {
                Some(h) => Some(h@),
                None => None,
            },
        ),
{
    let t = trimmed(line);
    let cs = chars(t.as_str());
    if cs.len() == 0 {
        return Typed::Nothing;
    }
    proof {
        reveal_strlit("//");
    }
    if starts_with(cs.as_slice(), "//") {
        let mut s = "/".to_owned();
        let rest = piece(cs.as_slice(), 2, cs.len());
        assert(rest@ =~= t@.skip(2));
        s.append(rest.as_str());
        return Typed::Message(s);
    }
    if cs[0] != '/' {
        return Typed::Message(line.to_owned());
    }
    let (verb, rest) = split_word(t.as_str());
    if same(verb.as_str(), "/bye") {
        Typed::HangUp(Ended::WeHungUp)
    } else if same(verb.as_str(), "/quit") {
        Typed::HangUp(Ended::Quit)
    } else if same(verb.as_str(), "/accept") {
        if same(rest.as_str(), "all") {
            Typed::AcceptAll
        } else {
            Typed::Accept(parse_count(rest.as_str()))
        }
    } else if same(verb.as_str(), "/refuse") {
        Typed::Refuse(parse_count(rest.as_str()))
    } else if same(verb.as_str(), "/send") && rest.as_str().unicode_len() > 0 {
        read_send(rest.as_str(), home)
    } else {
        Typed::UnknownCommand(verb)
    }
}

/// Nothing that begins with a slash is ever sent by accident: a line whose first character,
/// white space aside, is `/` goes out only where a second one follows it, and then as
/// everything behind the first.
pub proof fn commands_are_never_sent(line: Seq<char>, home: Option<Seq<char>>)
    requires
        trim(line).len() > 0,
        trim(line)[0] == '/',
    ensures
        classified(line, home) is Message ==> starts(trim(line), "//"@) && classified(line, home)
            == TypedView::Message(trim(line).skip(1)),
{
    reveal_strlit("//");
    reveal_strlit("/");
    let t = trim(line);
    if starts(t, "//"@) {
        assert(t.take(2)[1] == '/');
        assert("/"@ + t.skip(2) =~= t.skip(1));
    }
}

/// Leaving Tor takes a word: a line asks for a direct link only if it is `/send` with
/// `--direct` in front of the path.
pub proof fn only_the_flag_leaves_tor(line: Seq<char>, home: Option<Seq<char>>, path: Seq<char>)
    requires
        classified(line, home) == TypedView::Send(path, Route::Direct),
    ensures
        first_word(trim(line)) == "/send"@,
        starts(after_word(trim(line)), "--direct"@),
{
}

/// Answering an offer by its number takes the file of that number.
pub proof fn a_number_names_its_file(n: usize, home: Option<Seq<char>>)
    ensures
        classified("/accept "@ + decimal_text(n as nat), home) == TypedView::Accept(Some(n)),
{
    reveal_strlit("/accept ");
    reveal_strlit("/accept");
    reveal_strlit("/bye");
    reveal_strlit("/quit");
    reveal_strlit("//");
    reveal_strlit("all");
    let d = decimal_text(n as nat);
    let s = "/accept "@ + d;
    decimal_back(n as nat);
    assert(!white(d[0]) && !white(d.last()));
    assert(s[0] == '/' && s.last() == d.last());
    assert(trim(s) =~= s);
    let w = "/accept"@;
    word_before_space(w, seq![' '] + d);
    assert(w + (seq![' '] + d) =~= s);
    assert(first_word(s) =~= w);
    assert(s.skip(7) =~= seq![' '] + d);
    assert((seq![' '] + d).drop_first() =~= d);
    assert(trim_start(d) == d);
    assert(trim_start(seq![' '] + d) == trim_start(d));
    assert(after_word(s) =~= d);
    assert(s.take(2)[1] == 'a');
    assert("all"@[0] as u32 == 97);
    assert(w.len() == 7);
}

/// A word with white space behind it is the first word.
proof fn word_before_space(w: Seq<char>, rest: Seq<char>)
    requires
        forall|i: int| 0 <= i < w.len() ==> !white(#[trigger] w[i]),
        rest.len() > 0,
        white(rest[0]),
    ensures
        word_len(w + rest) == w.len(),
    decreases w.len(),
{
    let s = w + rest;
    if w.len() > 0 {
        assert(s[0] == w[0]);
        assert(s.drop_first() =~= w.drop_first() + rest);
        word_before_space(w.drop_first(), rest);
    } else {
        assert(s =~= rest);
    }
}

/// A line that is no command is said as it was typed.
pub proof fn ordinary_lines_are_untouched(line: Seq<char>, home: Option<Seq<char>>)
    requires
        trim(line).len() > 0,
        trim(line)[0] != '/',
    ensures
        classified(line, home) == TypedView::Message(line),
{
    reveal_strlit("//");
    if starts(trim(line), "//"@) {
        assert(trim(line).take(2)[0] == '/');
    }
}

} // verus!
