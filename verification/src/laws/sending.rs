//! Files of ours: offered, answered, and sent over Tor or outside it.

use vstd::prelude::*;
use vstd::string::*;

use crate::chat::{
    after_all_sent, after_dial, after_frame, after_offer, after_post, after_push, after_read,
    parts_files, parts_pieces, place_of, pump_want, sound, ActView, ConvView, OutgoingView,
    PostPartView, Pump, SendingView,
};
use crate::files::OfferView;
use crate::laws::transfers::{only_says, sends_nothing, sends_only};
use crate::message::{DirectView, FileView, MessageView, PieceView};
use crate::typed::{Ended, Route};
use crate::ui::Kind;

verus! {

/// A part of a message as it travels.
pub open spec fn travels_as(part: PostPartView, piece: PieceView) -> bool {
    match part {
        PostPartView::Text(t) => piece == PieceView::Text(t),
        PostPartView::File(_, o) => piece == PieceView::File(
            FileView { name: o.name, size: o.size, hash: o.hash },
        ),
    }
}

/// A part of a message as it is remembered until it is answered: a file, by where it is, under
/// the route that was asked for.
pub open spec fn remembered_as(part: PostPartView, out: OutgoingView, direct: bool) -> bool {
    match part {
        PostPartView::Text(_) => false,
        PostPartView::File(path, o) => {
            &&& out.path == path
            &&& out.name == o.name
            &&& out.size == o.size
            &&& out.hash == o.hash
            &&& out.route == Route::Direct <==> direct
        },
    }
}

/// The parts of a message that are files, in order.
pub open spec fn file_parts(parts: Seq<PostPartView>) -> Seq<PostPartView> {
    parts.filter(|p: PostPartView| p is File)
}

/// A message goes out as it was put together: one frame, each part in its place, saying whether
/// its files are to travel outside Tor; and every file in it is remembered, in order, behind
/// those that were, under that very route. A message of nothing is no message.
pub proof fn a_message_goes_out_as_it_was_composed(
    c: ConvView,
    parts: Seq<PostPartView>,
    direct: bool,
)
    ensures
        parts.len() == 0 ==> after_post(c, parts, direct) == (c, Seq::<ActView>::empty()),
        parts.len() > 0 ==> {
            let (d, acts) = after_post(c, parts, direct);
            let files = file_parts(parts);
            let n = c.offered.len() as int;
            &&& exists|pieces: Seq<PieceView>|
                {
                    &&& #[trigger] sends_only(acts, MessageView::Post { pieces, direct })
                    &&& pieces.len() == parts.len()
                    &&& forall|i: int| 0 <= i < parts.len() ==> travels_as(#[trigger] parts[i], pieces[i])
                }
            &&& acts[0] is Say && acts[0]->Say_0 == Kind::Mine
            &&& d == (ConvView { offered: d.offered, ..c })
            &&& d.offered.len() == n + files.len()
            &&& d.offered.take(n) == c.offered
            &&& forall|i: int|
                0 <= i < files.len() ==> remembered_as(#[trigger] files[i], d.offered[n + i], direct)
        },
{
    if parts.len() > 0 {
        let (d, acts) = after_post(c, parts, direct);
        let route = if direct {
            Route::Direct
        } else {
            Route::Tor
        };
        let n = c.offered.len() as int;
        files_are_remembered(parts, route);
        let m = MessageView::Post { pieces: parts_pieces(parts), direct };
        if parts_files(parts, route).len() > 0 {
            assert(acts[2] == ActView::Send(m));
        } else {
            assert(acts[1] == ActView::Send(m));
        }
        assert(sends_only(acts, m));
        assert(d.offered.take(n) =~= c.offered);
        assert forall|i: int| 0 <= i < file_parts(parts).len() implies remembered_as(
            #[trigger] file_parts(parts)[i],
            d.offered[n + i],
            direct,
        ) by {
            assert(d.offered[n + i] == parts_files(parts, route)[i]);
        }
    }
}

proof fn files_are_remembered(parts: Seq<PostPartView>, route: Route)
    ensures
        parts_files(parts, route).len() == file_parts(parts).len(),
        forall|i: int|
            0 <= i < file_parts(parts).len() ==> remembered_as(
                #[trigger] file_parts(parts)[i],
                parts_files(parts, route)[i],
                route == Route::Direct,
            ) && parts_files(parts, route)[i].route == route,
        forall|i: int|
            0 <= i < parts_files(parts, route).len() ==> file_parts(parts).contains(
                PostPartView::File(
                    (#[trigger] parts_files(parts, route)[i]).path,
                    OfferView {
                        name: parts_files(parts, route)[i].name,
                        size: parts_files(parts, route)[i].size,
                        hash: parts_files(parts, route)[i].hash,
                    },
                ),
            ),
    decreases parts.len(),
{
    reveal(Seq::filter);
    if parts.len() > 0 {
        let init = parts.drop_last();
        files_are_remembered(init, route);
        let before = parts_files(init, route);
        let now = parts_files(parts, route);
        let p = parts.last();
        if p is File {
            assert(file_parts(parts) =~= file_parts(init).push(p));
        } else {
            assert(file_parts(parts) =~= file_parts(init));
        }
        assert forall|i: int| 0 <= i < now.len() implies file_parts(parts).contains(
            PostPartView::File(
                (#[trigger] now[i]).path,
                OfferView { name: now[i].name, size: now[i].size, hash: now[i].hash },
            ),
        ) by {
            if i < before.len() {
                assert(now[i] == before[i]);
                let f = PostPartView::File(
                    before[i].path,
                    OfferView { name: before[i].name, size: before[i].size, hash: before[i].hash },
                );
                let k = file_parts(init).index_of(f);
                assert(file_parts(parts)[k] == f);
            } else {
                assert(file_parts(parts)[file_parts(init).len() as int] == p);
            }
        }
    }
}

/// A file offered on its own is offered to the peer once, by its name, size and digest and with
/// the route that was asked for, and is remembered by where it is, under that route; one that is
/// already offered is not offered again.
pub proof fn a_file_is_offered_under_its_route(
    c: ConvView,
    path: Seq<char>,
    route: Route,
    o: OfferView,
)
    ensures
        ({
            let (d, acts) = after_offer(c, path, route, o);
            let known = exists|i: int| 0 <= i < c.offered.len() && (#[trigger] c.offered[i]).hash == o.hash;
            &&& known ==> d == c && only_says(acts) && acts.len() > 0
            &&& !known ==> {
                &&& d == (ConvView { offered: d.offered, ..c })
                &&& d.offered.len() == c.offered.len() + 1
                &&& d.offered.drop_last() == c.offered
                &&& d.offered.last() == (OutgoingView {
                    hash: o.hash,
                    path,
                    name: o.name,
                    size: o.size,
                    route,
                })
                &&& sends_only(
                    acts,
                    MessageView::FileOffer {
                        name: o.name,
                        size: o.size,
                        hash: o.hash,
                        direct: route == Route::Direct,
                    },
                )
            }
        }),
{
    let (d, acts) = after_offer(c, path, route, o);
    place_is_first(c.offered, o.hash);
    if place_of(c.offered, o.hash) >= c.offered.len() {
        assert(d.offered.drop_last() =~= c.offered);
        let m = MessageView::FileOffer {
            name: o.name,
            size: o.size,
            hash: o.hash,
            direct: route == Route::Direct,
        };
        if route == Route::Direct {
            assert(acts[2] == ActView::Send(m));
        } else {
            assert(acts[1] == ActView::Send(m));
        }
    } else {
        assert(c.offered[place_of(c.offered, o.hash) as int].hash == o.hash);
    }
}

proof fn place_is_first(s: Seq<OutgoingView>, hash: Seq<u8>)
    ensures
        place_of(s, hash) <= s.len(),
        place_of(s, hash) < s.len() ==> s[place_of(s, hash) as int].hash == hash,
        forall|i: int| 0 <= i < place_of(s, hash) ==> (#[trigger] s[i]).hash != hash,
    decreases s.len(),
{
    if s.len() > 0 && s[0].hash != hash {
        let t = s.drop_first();
        place_is_first(t, hash);
        assert forall|i: int| 0 <= i < place_of(s, hash) implies (#[trigger] s[i]).hash != hash by {
            if i > 0 {
                assert(t[i - 1].hash != hash);
            }
        }
    }
}

/// This is the first file of ours with this digest.
pub open spec fn first_with(offered: Seq<OutgoingView>, hash: Seq<u8>, k: int) -> bool {
    &&& 0 <= k < offered.len()
    &&& offered[k].hash == hash
    &&& forall|i: int| 0 <= i < k ==> (#[trigger] offered[i]).hash != hash
}

proof fn first_is_place(s: Seq<OutgoingView>, hash: Seq<u8>, k: int)
    requires
        first_with(s, hash, k),
    ensures
        place_of(s, hash) == k,
{
    place_is_first(s, hash);
    let p = place_of(s, hash) as int;
    if p < k {
        assert(s[p].hash != hash);
    } else if k < p {
        assert(s[k].hash != hash);
    }
}

/// An answer is about the file it names: that file is opened at the byte the peer asks for and
/// goes out from there, over Tor where no link came with the answer, and over the link where one
/// did and one was asked for. It no longer waits for an answer, and no other file is touched.
pub proof fn an_answer_sends_the_file_it_names(
    c: ConvView,
    k: int,
    hash: Seq<u8>,
    offset: u64,
    direct: Option<DirectView>,
    peer: Seq<char>,
    partials: Seq<Option<u64>>,
)
    requires
        c.sending is None,
        first_with(c.offered, hash, k),
        offset <= c.offered[k].size,
        direct is Some ==> c.offered[k].route == Route::Direct,
    ensures
        ({
            let m = MessageView::FileAccept { hash, offset, direct };
            let (d, acts, end) = after_frame(c, m, peer, partials);
            &&& end is None
            &&& sends_nothing(acts)
            &&& acts.contains(ActView::OpenSource(c.offered[k].path, offset))
            &&& d == (ConvView { offered: c.offered.remove(k), sending: d.sending, ..c })
            &&& d.sending is Some
            &&& d.sending->0.name == c.offered[k].name
            &&& d.sending->0.path == c.offered[k].path
            &&& d.sending->0.size == c.offered[k].size
            &&& d.sending->0.start == offset
            &&& d.sending->0.route == c.offered[k].route
            &&& d.sending->0.accepted == (direct is None)
            &&& direct is None ==> d.sending->0.sent == offset
            &&& forall|i: int| 0 <= i < acts.len() && (#[trigger] acts[i]) is Dial ==> direct == Some(acts[i]->Dial_0)
            &&& direct is Some ==> acts.contains(ActView::Dial(direct->0))
        }),
{
    first_is_place(c.offered, hash, k);
    let acts = after_frame(c, MessageView::FileAccept { hash, offset, direct }, peer, partials).1;
    assert(acts[0] == ActView::OpenSource(c.offered[k].path, offset));
    if direct is Some {
        assert(acts[2] == ActView::Dial(direct->0));
    }
}

/// What an answer may not do ends the conversation: naming a file that was not offered, a second
/// one while one is going out, a byte past the end, or a link that was not asked for.
pub proof fn a_wrong_answer_ends_the_conversation(
    c: ConvView,
    hash: Seq<u8>,
    offset: u64,
    direct: Option<DirectView>,
    peer: Seq<char>,
    partials: Seq<Option<u64>>,
)
    requires
        c.sending is Some || !exists|k: int|
            #[trigger] first_with(c.offered, hash, k) && offset <= c.offered[k].size && (direct is None
                || c.offered[k].route == Route::Direct),
    ensures
        ({
            let m = MessageView::FileAccept { hash, offset, direct };
            let (d, acts, end) = after_frame(c, m, peer, partials);
            &&& end == Some(Ended::PeerHungUp)
            &&& only_says(acts)
            &&& d.sending == c.sending
        }),
{
    place_is_first(c.offered, hash);
    let k = place_of(c.offered, hash) as int;
    if k < c.offered.len() {
        assert(first_with(c.offered, hash, k));
    }
}

proof fn filter_holds(parts: Seq<PostPartView>, k: int)
    requires
        0 <= k < parts.len(),
        parts[k] is File,
    ensures
        file_parts(parts).contains(parts[k]),
    decreases parts.len(),
{
    reveal(Seq::filter);
    let init = parts.drop_last();
    if k < init.len() {
        filter_holds(init, k);
        let j = file_parts(init).index_of(parts[k]);
        assert(file_parts(parts)[j] == parts[k]);
    } else {
        assert(file_parts(parts)[file_parts(init).len() as int] == parts[k]);
    }
}

proof fn filter_is_part(parts: Seq<PostPartView>, j: int)
    requires
        0 <= j < file_parts(parts).len(),
    ensures
        exists|i: int| 0 <= i < parts.len() && #[trigger] parts[i] == file_parts(parts)[j],
    decreases parts.len(),
{
    reveal(Seq::filter);
    if parts.len() > 0 {
        let init = parts.drop_last();
        if j < file_parts(init).len() {
            filter_is_part(init, j);
            let i = choose|i: int| 0 <= i < init.len() && #[trigger] init[i] == file_parts(init)[j];
            assert(parts[i] == file_parts(parts)[j]);
        } else {
            assert(parts[parts.len() - 1] == file_parts(parts)[j]);
        }
    }
}

/// A message that asked to go outside Tor may be answered so: where a message of ours said it,
/// the answer that comes with a link for one of its files leads to that link, and not to the end
/// of the conversation.
pub proof fn a_direct_message_may_be_answered_directly(
    c: ConvView,
    parts: Seq<PostPartView>,
    k: int,
    offset: u64,
    link: DirectView,
    peer: Seq<char>,
    partials: Seq<Option<u64>>,
)
    requires
        c.sending is None,
        0 <= k < parts.len(),
        parts[k] is File,
        forall|i: int| 0 <= i < c.offered.len() ==> (#[trigger] c.offered[i]).hash != parts[k]->File_1.hash,
        forall|i: int|
            0 <= i < parts.len() && (#[trigger] parts[i]) is File && parts[i]->File_1.hash
                == parts[k]->File_1.hash ==> offset <= parts[i]->File_1.size,
    ensures
        ({
            let d = after_post(c, parts, true).0;
            let m = MessageView::FileAccept {
                hash: parts[k]->File_1.hash,
                offset,
                direct: Some(link),
            };
            let (e, acts, end) = after_frame(d, m, peer, partials);
            &&& end is None
            &&& acts.contains(ActView::Dial(link))
            &&& e.sending is Some
        }),
{
    let hash = parts[k]->File_1.hash;
    let d = after_post(c, parts, true).0;
    let n = c.offered.len() as int;
    a_message_goes_out_as_it_was_composed(c, parts, true);
    files_are_remembered(parts, Route::Direct);
    let files = file_parts(parts);
    assert(files.contains(parts[k])) by {
        filter_holds(parts, k);
    }
    let j = files.index_of(parts[k]);
    assert(remembered_as(files[j], d.offered[n + j], true));
    place_is_first(d.offered, hash);
    let at = place_of(d.offered, hash) as int;
    if at < n {
        assert(d.offered.take(n)[at] == d.offered[at]);
        assert(c.offered[at].hash != hash);
    }
    if at > n + j {
        assert(d.offered[n + j].hash != hash);
    }
    assert(first_with(d.offered, hash, at));
    let f = files[at - n];
    assert(remembered_as(f, d.offered[at], true));
    filter_is_part(parts, at - n);
    let i = choose|i: int| 0 <= i < parts.len() && parts[i] == f;
    assert(offset <= parts[i]->File_1.size);
    an_answer_sends_the_file_it_names(d, at, hash, offset, Some(link), peer, partials);
}

/// A link that was reached carries the file from the byte that was asked for, and nothing of it
/// goes over Tor as well; a link that was not reached costs nothing: the peer is told, and the
/// same file goes over Tor from that byte.
pub proof fn a_link_carries_the_file_or_tor_does(c: ConvView, failed: Option<Seq<char>>)
    requires
        c.sending is Some,
    ensures
        ({
            let (d, acts) = after_dial(c, failed);
            let s = c.sending->0;
            &&& failed is None ==> {
                &&& acts == seq![ActView::Push(s.path, s.start)]
                &&& d == (ConvView { sending: None, pushing: Some(s.name), ..c })
            }
            &&& failed is Some ==> {
                &&& sends_only(acts, MessageView::DirectFailed)
                &&& d == (ConvView { sending: d.sending, ..c })
                &&& d.sending is Some
                &&& d.sending->0 == (SendingView {
                    accepted: true,
                    sent: s.start,
                    next_report: d.sending->0.next_report,
                    ..s
                })
                &&& forall|i: int| 0 <= i < acts.len() ==> !((#[trigger] acts[i]) is Push)
            }
        }),
{
    let acts = after_dial(c, failed).1;
    if failed is Some {
        assert(acts[1] == ActView::Send(MessageView::DirectFailed));
    }
}

/// A direct transfer that has ended is over, whichever way: it no longer holds the call, nothing
/// else of the conversation changes but what `/accept all` asks for, and it is said whether the
/// file went out.
pub proof fn a_direct_transfer_ends(c: ConvView, failed: Option<Seq<char>>)
    requires
        c.pushing is Some,
    ensures
        ({
            let (d, acts) = after_push(c, failed);
            &&& d.pushing is None
            &&& d == (ConvView { pushing: None, pending: d.pending, taking_all: d.taking_all, ..c })
            &&& sends_nothing(acts)
            &&& acts.len() > 0 && acts[0] is Say
            &&& failed is None <==> acts[0]->Say_0 == Kind::System
            &&& failed is Some <==> acts[0]->Say_0 == Kind::Error
        }),
{
}

/// The pump asks for what is left of the file, a chunk at most, and for nothing before the peer
/// has said yes; it is done exactly when every byte has gone.
pub proof fn the_pump_asks_for_what_is_left(c: ConvView)
    requires
        sound(c),
    ensures
        match c.sending {
            None => pump_want(c) == Pump::Nothing,
            Some(s) => {
                &&& !s.accepted ==> pump_want(c) == Pump::Nothing
                &&& s.accepted && s.sent == s.size ==> pump_want(c) == Pump::Done
                &&& s.accepted && s.sent < s.size ==> {
                    &&& pump_want(c) is Read
                    &&& 0 < pump_want(c)->Read_0 <= s.size - s.sent
                    &&& pump_want(c)->Read_0 <= 32768
                    &&& pump_want(c)->Read_0 == s.size - s.sent || pump_want(c)->Read_0 == 32768
                }
            },
        },
{
}

/// What is read is what is sent: one chunk of exactly these bytes, and as many more counted. A
/// file that gives nothing more is given up, and nothing is sent. Once every byte has gone the
/// peer is told that there are no more, and the transfer is over.
pub proof fn what_is_read_is_sent(c: ConvView, data: Seq<u8>)
    requires
        sound(c),
        c.sending is Some,
        data.len() <= c.sending->0.size - c.sending->0.sent,
    ensures
        data.len() > 0 ==> {
            let (d, acts) = after_read(c, data);
            &&& sends_only(acts, MessageView::FileChunk(data))
            &&& d.sending is Some
            &&& d.sending->0.sent == c.sending->0.sent + data.len()
            &&& d == (ConvView { sending: d.sending, ..c })
            &&& d.sending->0 == (SendingView {
                sent: d.sending->0.sent,
                next_report: d.sending->0.next_report,
                ..c.sending->0
            })
        },
        data.len() == 0 ==> {
            let (d, acts) = after_read(c, data);
            &&& only_says(acts) && acts.len() > 0
            &&& d == (ConvView { sending: None, ..c })
        },
        ({
            let (d, acts) = after_all_sent(c);
            &&& sends_only(acts, MessageView::FileDone)
            &&& d == (ConvView { sending: None, ..c })
        }),
{
    let (d, acts) = after_read(c, data);
    if data.len() > 0 {
        if (c.sending->0.sent + data.len()) as u64 >= c.sending->0.next_report {
            assert(acts[1] == ActView::Send(MessageView::FileChunk(data)));
        } else {
            assert(acts[0] == ActView::Send(MessageView::FileChunk(data)));
        }
    }
    assert(after_all_sent(c).1[1] == ActView::Send(MessageView::FileDone));
}

/// A file that is not wanted stops waiting, and only that one; where it was already going out,
/// it stops going out. Nothing is sent.
pub proof fn a_file_that_is_not_wanted_stops(
    c: ConvView,
    hash: Seq<u8>,
    k: int,
    peer: Seq<char>,
    partials: Seq<Option<u64>>,
)
    ensures
        ({
            let (d, acts, end) = after_frame(c, MessageView::FileReject { hash }, peer, partials);
            let known = exists|i: int| 0 <= i < c.offered.len() && (#[trigger] c.offered[i]).hash == hash;
            &&& end is None
            &&& only_says(acts) && acts.len() > 0
            &&& first_with(c.offered, hash, k) ==> d == (ConvView {
                offered: c.offered.remove(k),
                ..c
            })
            &&& !known ==> d == (ConvView { sending: None, ..c })
        }),
{
    place_is_first(c.offered, hash);
    if first_with(c.offered, hash, k) {
        first_is_place(c.offered, hash, k);
    }
}

} // verus!
