//! Words during a call, and how a call ends.

use vstd::prelude::*;
use vstd::string::*;

use crate::chat::{
    after_frame, after_keyboard_closed, after_post, after_reader, after_typed, parts_line,
    parts_pieces, pieces_line, settled_end, ActView, ConvView, PostPartView,
};
use crate::files::{kept_name, shown_text};
use crate::laws::transfers::{only_says, sends_nothing, sends_only};
use crate::message::{MessageView, PieceView};
use crate::proto::utf8_len;
use crate::typed::{Ended, Route, TypedView};
use crate::ui::Kind;

verus! {

/// Something holds the call open: a file on its way in either direction, anything outside Tor,
/// or an offer that somebody can still answer.
pub open spec fn held_open(c: ConvView) -> bool {
    ||| c.sending is Some
    ||| c.receiving is Some
    ||| c.pushing is Some
    ||| c.pulling is Some
    ||| c.offered.len() > 0 && !c.peer_gone
}

/// What is said reaches the other side as it was said, and is shown there under the speaker's
/// name; nothing else is sent, and neither side changes. A line too long to travel is not sent.
pub proof fn what_is_said_arrives(
    speaker: ConvView,
    listener: ConvView,
    text: Seq<char>,
    name: Seq<char>,
    partials: Seq<Option<u64>>,
)
    ensures
        ({
            let (d, acts, end) = after_typed(speaker, TypedView::Message(text));
            &&& end is None
            &&& d == speaker
            &&& utf8_len(text) <= 32768 ==> sends_only(acts, MessageView::Text(text))
                && acts.contains(ActView::Say(Kind::Mine, "you> "@ + text))
            &&& utf8_len(text) > 32768 ==> only_says(acts) && acts.len() == 1 && acts[0]->Say_0
                == Kind::Error
        }),
        ({
            let (d, acts, end) = after_frame(listener, MessageView::Text(text), name, partials);
            &&& end is None
            &&& d == listener
            &&& acts == seq![ActView::Say(Kind::Theirs, name + "> "@ + shown_text(text))]
        }),
{
    let acts = after_typed(speaker, TypedView::Message(text)).1;
    if utf8_len(text) <= 32768 {
        assert(acts[0] == ActView::Say(Kind::Mine, "you> "@ + text));
        assert(acts[1] == ActView::Send(MessageView::Text(text)));
    }
}

/// What both sides see of a message with files is the same line, where its words are fit to be
/// shown and its files keep their names.
pub proof fn both_sides_see_the_same_line(parts: Seq<PostPartView>)
    requires
        forall|i: int| 0 <= i < parts.len() ==> match #[trigger] parts[i] {
            PostPartView::Text(t) => shown_text(t) == t,
            PostPartView::File(_, o) => kept_name(o.name) == o.name,
        },
    ensures
        parts_line(parts) == pieces_line(parts_pieces(parts)),
    decreases parts.len(),
{
    if parts.len() > 0 {
        let init = parts.drop_last();
        assert forall|i: int| 0 <= i < init.len() implies match #[trigger] init[i] {
            PostPartView::Text(t) => shown_text(t) == t,
            PostPartView::File(_, o) => kept_name(o.name) == o.name,
        } by {
            assert(init[i] == parts[i]);
        }
        both_sides_see_the_same_line(init);
        assert(parts_pieces(parts).drop_last() =~= parts_pieces(init));
        assert(parts[parts.len() - 1] == parts.last());
    }
}

/// What the speaker sees of a message they sent is what the other side sees of it, each under
/// the name they know the speaker by; and that files were offered is said exactly where some were.
pub proof fn a_message_reads_the_same_on_both_sides(
    speaker: ConvView,
    listener: ConvView,
    parts: Seq<PostPartView>,
    direct: bool,
    name: Seq<char>,
    partials: Seq<Option<u64>>,
)
    requires
        parts.len() > 0,
        forall|i: int| 0 <= i < parts.len() ==> match #[trigger] parts[i] {
            PostPartView::Text(t) => shown_text(t) == t,
            PostPartView::File(_, o) => kept_name(o.name) == o.name,
        },
        after_frame(
            listener,
            MessageView::Post { pieces: parts_pieces(parts), direct },
            name,
            partials,
        ).2 is None,
    ensures
        ({
            let mine = after_post(speaker, parts, direct).1;
            let theirs = after_frame(
                listener,
                MessageView::Post { pieces: parts_pieces(parts), direct },
                name,
                partials,
            ).1;
            &&& exists|t: Seq<char>|
                mine[0] == ActView::Say(Kind::Mine, "you> "@ + t) && theirs[0] == ActView::Say(
                    Kind::Theirs,
                    #[trigger] (name + "> "@ + t),
                )
            &&& mine.len() == 3 || mine.len() == 2
            &&& mine.len() == 3 <==> after_post(speaker, parts, direct).0.offered.len()
                > speaker.offered.len()
        }),
{
    both_sides_see_the_same_line(parts);
    let t = crate::text::trim(parts_line(parts));
    let mine = after_post(speaker, parts, direct).1;
    assert(mine[0] == ActView::Say(Kind::Mine, "you> "@ + t));
    a_message_with_files_is_shown(listener, parts_pieces(parts), direct, name, partials);
    let theirs = after_frame(
        listener,
        MessageView::Post { pieces: parts_pieces(parts), direct },
        name,
        partials,
    ).1;
    assert(theirs[0] == ActView::Say(Kind::Theirs, name + "> "@ + t));
}

/// A message's line holds all its words, in order, and each file by its name in brackets, set
/// off by one space from a word before it.
pub proof fn a_line_holds_words_and_files(pieces: Seq<PieceView>, p: PieceView)
    ensures
        pieces_line(Seq::empty()) == Seq::<char>::empty(),
        match p {
            PieceView::Text(t) => pieces_line(pieces.push(p)) == pieces_line(pieces) + shown_text(t),
            PieceView::File(f) => {
                let before = pieces_line(pieces);
                let chip = "["@ + kept_name(f.name) + "]"@;
                if before.len() > 0 && before.last() != ' ' {
                    pieces_line(pieces.push(p)) == before + " "@ + chip
                } else {
                    pieces_line(pieces.push(p)) == before + chip
                }
            },
        },
{
    assert(pieces.push(p).drop_last() =~= pieces);
    match p {
        PieceView::Text(t) => {},
        PieceView::File(f) => {
            let before = pieces_line(pieces);
            let name = kept_name(f.name);
            assert(before + "["@ + name + "]"@ =~= before + ("["@ + name + "]"@));
            assert(before + " "@ + "["@ + name + "]"@ =~= before + " "@ + ("["@ + name + "]"@));
        },
    }
}

/// A message with files is shown as theirs, under their name, with the words and files in it.
pub proof fn a_message_with_files_is_shown(
    c: ConvView,
    pieces: Seq<PieceView>,
    direct: bool,
    peer: Seq<char>,
    partials: Seq<Option<u64>>,
)
    requires
        after_frame(c, MessageView::Post { pieces, direct }, peer, partials).2 is None,
    ensures
        after_frame(c, MessageView::Post { pieces, direct }, peer, partials).1[0] == ActView::Say(
            Kind::Theirs,
            peer + "> "@ + crate::text::trim(pieces_line(pieces)),
        ),
{
}

/// Any other command during a call stays here: nothing is sent, nothing changes and the call
/// goes on. A blank line is nothing at all, and `/send` only has the file looked at.
pub proof fn commands_stay_here(c: ConvView, verb: Seq<char>, path: Seq<char>, route: Route)
    ensures
        ({
            let (d, acts, end) = after_typed(c, TypedView::UnknownCommand(verb));
            d == c && only_says(acts) && acts.len() == 1 && end is None
        }),
        after_typed(c, TypedView::Nothing) == (c, Seq::<ActView>::empty(), None::<Ended>),
        after_typed(c, TypedView::Send(path, route)) == (
            c,
            seq![ActView::Describe(path, route)],
            None::<Ended>,
        ),
{
}

/// Hanging up is immediate where nothing holds the call open. Otherwise it waits, without
/// touching anything, until nothing does, and then ends the way that was asked for; asked a
/// second time it does not wait.
pub proof fn hanging_up_waits_for_files(c: ConvView, how: Ended, later: ConvView)
    ensures
        !held_open(c) ==> after_typed(c, TypedView::HangUp(how)).2 == Some(how),
        c.leaving is Some ==> after_typed(c, TypedView::HangUp(how)).2 == Some(how),
        held_open(c) && c.leaving is None ==> {
            let (d, acts, end) = after_typed(c, TypedView::HangUp(how));
            &&& end is None
            &&& only_says(acts)
            &&& d == (ConvView { leaving: Some(how), ..c })
        },
        held_open(later) ==> settled_end(later) is None,
        !held_open(later) ==> settled_end(later) == later.leaving,
        sends_nothing(after_typed(c, TypedView::HangUp(how)).1),
{
}

/// A keyboard that is gone ends the call like a goodbye: at once where nothing holds it open,
/// and once nothing does otherwise. It is not listened to again.
pub proof fn a_lost_keyboard_ends_the_call(c: ConvView)
    ensures
        ({
            let (d, end) = after_keyboard_closed(c);
            &&& !d.keyboard_open
            &&& !held_open(c) ==> end == Some(Ended::InputClosed)
            &&& held_open(c) ==> end is None && d == (ConvView {
                keyboard_open: false,
                leaving: Some(Ended::InputClosed),
                ..c
            })
        }),
{
}

/// A peer who is gone ends the call, unless something still runs outside Tor: that is waited
/// for, and then the call ends, the way that had been asked for where one had.
pub proof fn a_peer_who_is_gone_ends_the_call(c: ConvView)
    ensures
        ({
            let (d, end) = after_reader(c);
            let outside = c.pushing is Some || c.pulling is Some;
            &&& !outside ==> end == Some(Ended::PeerHungUp)
            &&& outside ==> {
                &&& end is None
                &&& d.peer_gone
                &&& d.leaving == Some(
                    match c.leaving {
                        Some(how) => how,
                        None => Ended::PeerHungUp,
                    },
                )
                &&& d == (ConvView { peer_gone: true, leaving: d.leaving, ..c })
            }
        }),
{
}

} // verus!
