//! What a line typed outside a call means.

use vstd::prelude::*;
use vstd::string::*;

use crate::presence::Said;
use crate::text::{same, trim, trimmed};
use crate::typed::{after_word, first_word, split_word};

verus! {

/// A command.
#[derive(Clone, Debug, PartialEq, Eq)]
pub enum Command {
    /// A blank line.
    Nothing,
    /// File a friend: name, address, discovery key.
    Add(String, String, String),
    /// Drop a contact.
    Forget(String),
    /// List the book.
    Contacts,
    /// Leave a message for a contact.
    Tell(String, String),
    /// Take the call somebody is making.
    Answer,
    /// Turn it down.
    Decline,
    /// Ask for presence, or end it.
    Presence(String, Said),
    /// Call a contact.
    Call(String),
    /// Our address and key, to the clipboard.
    Copy,
    Help,
    Quit,
    /// Not a command that can be run; what to say of it.
    Bad(String),
}

/// A command by its values.
#[verifier::ext_equal]
pub enum CommandView {
    Nothing,
    Add(Seq<char>, Seq<char>, Seq<char>),
    Forget(Seq<char>),
    Contacts,
    Tell(Seq<char>, Seq<char>),
    Answer,
    Decline,
    Presence(Seq<char>, Said),
    Call(Seq<char>),
    Copy,
    Help,
    Quit,
    Bad(Seq<char>),
}

impl View for Command {
    type V = CommandView;

    open spec fn view(&self) -> CommandView {
        match *self {
            Command::Nothing => CommandView::Nothing,
            Command::Add(a, b, c) => CommandView::Add(a@, b@, c@),
            Command::Forget(n) => CommandView::Forget(n@),
            Command::Contacts => CommandView::Contacts,
            Command::Tell(n, b) => CommandView::Tell(n@, b@),
            Command::Answer => CommandView::Answer,
            Command::Decline => CommandView::Decline,
            Command::Presence(n, s) => CommandView::Presence(n@, s),
            Command::Call(n) => CommandView::Call(n@),
            Command::Copy => CommandView::Copy,
            Command::Help => CommandView::Help,
            Command::Quit => CommandView::Quit,
            Command::Bad(t) => CommandView::Bad(t@),
        }
    }
}

/// What `/presence` asks for.
pub open spec fn presence_command(name: Seq<char>, extra: Seq<char>) -> CommandView {
    if name.len() == 0 {
        CommandView::Bad("usage: /presence <name>   — or /presence <name> off"@)
    } else if extra == "off"@ || extra == "no"@ {
        CommandView::Presence(name, Said::WeStop)
    } else if extra.len() == 0 {
        CommandView::Presence(name, Said::WeAsk)
    } else {
        CommandView::Bad(
            "/presence "@ + name + " "@ + extra + "? the only extra word is 'off'"@,
        )
    }
}

/// What `/tell` asks for: the message is everything behind the name.
pub open spec fn tell_command(name: Seq<char>, body: Seq<char>) -> CommandView {
    if name.len() == 0 {
        CommandView::Bad("usage: /tell <name> <message>"@)
    } else if body.len() == 0 {
        CommandView::Bad("usage: /tell "@ + name + " <message>"@)
    } else {
        CommandView::Tell(name, body)
    }
}

/// What a typed line asks for.
pub open spec fn parsed(line: Seq<char>) -> CommandView {
    let t = trim(line);
    let verb = first_word(t);
    let rest = after_word(t);
    let one = first_word(rest);
    let rest1 = after_word(rest);
    let two = first_word(rest1);
    let three = first_word(after_word(rest1));
    if t.len() == 0 {
        CommandView::Nothing
    } else if verb == "/add"@ {
        if three.len() == 0 {
            CommandView::Bad("usage: /add <name> <address>.onion descriptor:x25519:<key>"@)
        } else {
            CommandView::Add(one, two, three)
        }
    } else if verb == "/forget"@ {
        if one.len() == 0 {
            CommandView::Bad("usage: /forget <name>"@)
        } else {
            CommandView::Forget(one)
        }
    } else if verb == "/contacts"@ {
        CommandView::Contacts
    } else if verb == "/tell"@ {
        tell_command(one, rest1)
    } else if verb == "/answer"@ {
        CommandView::Answer
    } else if verb == "/decline"@ {
        CommandView::Decline
    } else if verb == "/presence"@ {
        presence_command(one, two)
    } else if verb == "/call"@ {
        if one.len() == 0 {
            CommandView::Bad("usage: /call <name>"@)
        } else {
            CommandView::Call(one)
        }
    } else if verb == "/copy"@ {
        CommandView::Copy
    } else if verb == "/help"@ {
        CommandView::Help
    } else if verb == "/quit"@ {
        CommandView::Quit
    } else if verb == "/send"@ || verb == "/accept"@ || verb == "/refuse"@ {
        CommandView::Bad(verb + " only works during a call — /call someone first"@)
    } else {
        CommandView::Bad("unknown command "@ + verb + " — /help"@)
    }
}

fn bad(text: &str) -> (r: Command)
    ensures
        r@ == CommandView::Bad(text@),
{
    Command::Bad(text.to_owned())
}

fn is_empty(s: &String) -> (r: bool)
    ensures
        r == (s@.len() == 0),
{
    s.as_str().unicode_len() == 0
}

fn read_presence(name: String, extra: String) -> (r: Command)
    ensures
        r@ == presence_command(name@, extra@),
{
    if is_empty(&name) {
        return bad("usage: /presence <name>   — or /presence <name> off");
    }
    if same(extra.as_str(), "off") || same(extra.as_str(), "no") {
        return Command::Presence(name, Said::WeStop);
    }
    if is_empty(&extra) {
        return Command::Presence(name, Said::WeAsk);
    }
    let mut s = "/presence ".to_owned();
    s.append(name.as_str());
    s.append(" ");
    s.append(extra.as_str());
    s.append("? the only extra word is 'off'");
    Command::Bad(s)
}

fn read_tell(name: String, body: String) -> (r: Command)
    ensures
        r@ == tell_command(name@, body@),
{
    if is_empty(&name) {
        return bad("usage: /tell <name> <message>");
    }
    if is_empty(&body) {
        let mut s = "usage: /tell ".to_owned();
        s.append(name.as_str());
        s.append(" <message>");
        return Command::Bad(s);
    }
    Command::Tell(name, body)
}

/// Decide what a typed line asks for.
pub fn parse(line: &str) -> (r: Command)
    ensures
        r@ == parsed(line@),
{
    let t = trimmed(line);
    if is_empty(&t) {
        return Command::Nothing;
    }
    let (verb, rest) = split_word(t.as_str());
    let (one, rest1) = split_word(rest.as_str());
    let (two, rest2) = split_word(rest1.as_str());
    let (three, _) = split_word(rest2.as_str());
    let v = verb.as_str();
    if same(v, "/add") {
        if is_empty(&three) {
            bad("usage: /add <name> <address>.onion descriptor:x25519:<key>")
        } else {
            Command::Add(one, two, three)
        }
    } else if same(v, "/forget") {
        if is_empty(&one) {
            bad("usage: /forget <name>")
        } else {
            Command::Forget(one)
        }
    } else if same(v, "/contacts") {
        Command::Contacts
    } else if same(v, "/tell") {
        read_tell(one, rest1)
    } else if same(v, "/answer") {
        Command::Answer
    } else if same(v, "/decline") {
        Command::Decline
    } else if same(v, "/presence") {
        read_presence(one, two)
    } else if same(v, "/call") {
        if is_empty(&one) {
            bad("usage: /call <name>")
        } else {
            Command::Call(one)
        }
    } else if same(v, "/copy") {
        Command::Copy
    } else if same(v, "/help") {
        Command::Help
    } else if same(v, "/quit") {
        Command::Quit
    } else if same(v, "/send") || same(v, "/accept") || same(v, "/refuse") {
        let mut s = verb.clone();
        s.append(" only works during a call — /call someone first");
        Command::Bad(s)
    } else {
        let mut s = "unknown command ".to_owned();
        s.append(v);
        s.append(" — /help");
        Command::Bad(s)
    }
}

} // verus!
