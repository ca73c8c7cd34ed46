//! Files and words during a call.

use vstd::prelude::*;
use vstd::string::*;

use crate::chat::{
    after_accept, after_chunk, after_frame, after_landing, after_no_place, after_pull,
    after_push, after_typed, pieces_files, pieces_fault, took_offers, ActView, ConvView,
    OfferedView,
};
use crate::files::{a_kept_name_is_kept, kept_name, name_fault, OfferView, MAX_FILE};
use crate::message::{DirectView, FileView, MessageView, PieceView};
use crate::typed::{Ended, TypedView};

verus! {

/// Nothing goes to the peer.
pub open spec fn sends_nothing(acts: Seq<ActView>) -> bool {
    forall|i: int| 0 <= i < acts.len() ==> !((#[trigger] acts[i]) is Send)
}

/// This goes to the peer, and nothing else.
pub open spec fn sends_only(acts: Seq<ActView>, m: MessageView) -> bool {
    exists|i: int|
        0 <= i < acts.len() && #[trigger] acts[i] == ActView::Send(m) && forall|j: int|
            0 <= j < acts.len() && j != i ==> !((#[trigger] acts[j]) is Send)
}

/// Nothing but lines on screen comes of it.
pub open spec fn only_says(acts: Seq<ActView>) -> bool {
    forall|i: int| 0 <= i < acts.len() ==> (#[trigger] acts[i]) is Say
}

/// A file is coming in, or something runs outside Tor.
pub open spec fn line_taken(c: ConvView) -> bool {
    c.receiving is Some || c.pushing is Some || c.pulling is Some
}

// --- answering offers -----------------------------------------------------------------

/// While a file is coming in, or something runs outside Tor, asking for another one changes
/// nothing, whichever is asked for: every offer goes on waiting where it was, nothing is taken
/// and nothing is sent. Asking for all of them only records the wish.
pub proof fn a_busy_line_keeps_every_offer(c: ConvView, which: Option<usize>)
    requires
        line_taken(c),
    ensures
        ({
            let (d, acts, end) = after_typed(c, TypedView::Accept(which));
            &&& d == c
            &&& only_says(acts)
            &&& acts.len() == 1
            &&& end is None
        }),
        ({
            let (d, acts, end) = after_typed(c, TypedView::AcceptAll);
            &&& d == (ConvView { taking_all: d.taking_all, ..c })
            &&& c.pending.len() > 0 ==> d.taking_all
            &&& only_says(acts)
            &&& end is None
        }),
{
}

/// With the line free, `/accept` takes the oldest offer and `/accept n` the n-th, counted from
/// one: exactly that one is taken, and it no longer waits. A number that is not there takes
/// nothing.
pub proof fn an_offer_is_taken_by_its_number(c: ConvView, which: Option<usize>)
    requires
        !line_taken(c),
    ensures
        ({
            let (d, acts, end) = after_typed(c, TypedView::Accept(which));
            let k: int = match which {
                None => 1,
                Some(n) => n as int,
            };
            &&& end is None
            &&& 1 <= k <= c.pending.len() ==> {
                &&& acts == seq![ActView::Take(c.pending[k - 1])]
                &&& d == (ConvView { pending: c.pending.remove(k - 1), ..c })
            }
            &&& !(1 <= k <= c.pending.len()) ==> d == c && only_says(acts) && acts.len() == 1
        }),
{
}

/// `/accept all` starts with the oldest, and goes on with the oldest that still waits each time
/// the line is free again: after a file has landed, well or badly, after a direct transfer, and
/// where there was no place for one. With none left the wish is over.
pub proof fn all_are_taken_oldest_first(
    c: ConvView,
    landed: Result<Seq<char>, Seq<char>>,
    failed: Option<Seq<char>>,
    why: Seq<char>,
)
    ensures
        !line_taken(c) && c.pending.len() > 0 ==> {
            let (d, acts, end) = after_typed(c, TypedView::AcceptAll);
            &&& acts == seq![ActView::Take(c.pending[0])]
            &&& d == (ConvView { pending: c.pending.remove(0), taking_all: true, ..c })
        },
        c.pending.len() == 0 ==> after_typed(c, TypedView::AcceptAll).0 == c,
        goes_on(c, after_landing(c, landed).0, after_landing(c, landed).1),
        goes_on(
            ConvView { receiving: None, ..c },
            after_no_place(c, why).0,
            after_no_place(c, why).1,
        ),
        c.pushing is Some ==> goes_on(
            ConvView { pushing: None, ..c },
            after_push(c, failed).0,
            after_push(c, failed).1,
        ),
        c.pulling is Some && failed is Some ==> goes_on(
            ConvView { pulling: None, ..c },
            after_pull(c, failed).0,
            after_pull(c, failed).1,
        ),
{
}

/// Where all are to be taken and the line is free, the oldest that waits is taken; otherwise
/// nothing is. In either case something is said first.
pub open spec fn goes_on(c: ConvView, d: ConvView, acts: Seq<ActView>) -> bool {
    &&& acts.len() > 0 && acts[0] is Say
    &&& sends_nothing(acts)
    &&& c.taking_all && !line_taken(c) && c.pending.len() > 0 ==> {
        &&& acts.last() == ActView::Take(c.pending[0])
        &&& only_says(acts.drop_last())
        &&& d == (ConvView { pending: c.pending.remove(0), ..c })
    }
    &&& c.taking_all && !line_taken(c) && c.pending.len() == 0 ==> {
        &&& only_says(acts)
        &&& d == (ConvView { taking_all: false, ..c })
    }
    &&& !c.taking_all || line_taken(c) ==> only_says(acts) && d == c
}

/// `/refuse` tells the peer which file is not wanted, the oldest or the one of that number, and
/// that one no longer waits; nothing else does.
pub proof fn a_refusal_is_told(c: ConvView, which: Option<usize>)
    ensures
        ({
            let (d, acts, end) = after_typed(c, TypedView::Refuse(which));
            let k: int = match which {
                None => 1,
                Some(n) => n as int,
            };
            &&& end is None
            &&& 1 <= k <= c.pending.len() ==> {
                &&& sends_only(acts, MessageView::FileReject { hash: c.pending[k - 1].offer.hash })
                &&& d == (ConvView { pending: c.pending.remove(k - 1), ..c })
                &&& forall|i: int| 0 <= i < acts.len() ==> !((#[trigger] acts[i]) is Take)
            }
            &&& !(1 <= k <= c.pending.len()) ==> d == c && only_says(acts) && acts.len() == 1
        }),
{
    let acts = after_typed(c, TypedView::Refuse(which)).1;
    let k: int = match which {
        None => 1,
        Some(n) => n as int,
    };
    if 1 <= k <= c.pending.len() {
        assert(acts[1] == ActView::Send(
            MessageView::FileReject { hash: c.pending[k - 1].offer.hash },
        ));
    }
}

/// Offers are accounted for: what waited before still waits, in the same order and perhaps with
/// more behind it, and nothing was taken or refused; or else one of them is gone, and that very
/// one was taken, or its digest refused.
pub open spec fn offers_kept(c: ConvView, d: ConvView, acts: Seq<ActView>) -> bool {
    ||| {
        &&& c.pending.len() <= d.pending.len()
        &&& d.pending.take(c.pending.len() as int) == c.pending
        &&& forall|i: int| 0 <= i < acts.len() ==> !((#[trigger] acts[i]) is Take)
        &&& forall|i: int|
            0 <= i < acts.len() ==> !((#[trigger] acts[i]) is Send && acts[i]->Send_0 is FileReject)
    }
    ||| exists|k: int|
        0 <= k < c.pending.len() && d.pending == #[trigger] c.pending.remove(k) && (acts.contains(
            ActView::Take(c.pending[k]),
        ) || acts.contains(
            ActView::Send(MessageView::FileReject { hash: c.pending[k].offer.hash }),
        ))
}

/// An offer leaves the queue only by being answered: whatever is typed, each one that waited
/// still waits, or was taken or refused.
pub proof fn an_offer_leaves_only_when_answered(c: ConvView, t: TypedView)
    ensures
        offers_kept(c, after_typed(c, t).0, after_typed(c, t).1),
{
    let (d, acts, end) = after_typed(c, t);
    assert(c.pending.take(c.pending.len() as int) =~= c.pending);
    match t {
        TypedView::Accept(which) => {
            if line_taken(c) {
                a_busy_line_keeps_every_offer(c, which);
            } else {
                an_offer_is_taken_by_its_number(c, which);
                let k: int = match which {
                    None => 1,
                    Some(n) => n as int,
                };
                if 1 <= k <= c.pending.len() {
                    assert(acts[0] == ActView::Take(c.pending[k - 1]));
                    assert(d.pending == c.pending.remove(k - 1));
                }
            }
        },
        TypedView::AcceptAll => {
            if line_taken(c) {
                a_busy_line_keeps_every_offer(c, None);
            } else if c.pending.len() > 0 {
                assert(acts[0] == ActView::Take(c.pending[0]));
                assert(d.pending == c.pending.remove(0));
            }
        },
        TypedView::Refuse(which) => {
            a_refusal_is_told(c, which);
            let k: int = match which {
                None => 1,
                Some(n) => n as int,
            };
            if 1 <= k <= c.pending.len() {
                assert(d.pending == c.pending.remove(k - 1));
                assert(acts[1] == ActView::Send(
                    MessageView::FileReject { hash: c.pending[k - 1].offer.hash },
                ));
            }
        },
        _ => {},
    }
}

/// What waited still waits, in the same order, and nothing is taken on anybody's behalf.
pub open spec fn waits_on(c: ConvView, d: ConvView, acts: Seq<ActView>) -> bool {
    &&& c.pending.len() <= d.pending.len()
    &&& d.pending.take(c.pending.len() as int) == c.pending
    &&& forall|i: int| 0 <= i < acts.len() ==> !((#[trigger] acts[i]) is Take)
}

/// No frame takes an offer out of the queue: what waited still waits, in the same order, and
/// nothing is taken on anybody's behalf.
pub proof fn no_frame_answers_an_offer(
    c: ConvView,
    m: MessageView,
    peer: Seq<char>,
    partials: Seq<Option<u64>>,
)
    ensures
        ({
            let (d, acts, end) = after_frame(c, m, peer, partials);
            &&& waits_on(c, d, acts)
            &&& !(m is Post) && !(m is FileOffer) ==> d.pending == c.pending
        }),
{
    assert(c.pending.take(c.pending.len() as int) =~= c.pending);
    match m {
        MessageView::Post { pieces, direct } => {
            a_post_takes_nothing(c, pieces, direct, peer, partials);
        },
        MessageView::FileOffer { name, size, hash, direct } => {
            an_offer_takes_nothing(c, name, size, hash, direct, peer, partials);
        },
        MessageView::FileAccept { hash, offset, direct } => {
            an_answer_takes_nothing(c, hash, offset, direct, peer);
        },
        MessageView::FileChunk(data) => {
            a_chunk_takes_nothing(c, data, peer);
        },
        _ => {},
    }
}

proof fn a_post_takes_nothing(
    c: ConvView,
    pieces: Seq<PieceView>,
    direct: bool,
    peer: Seq<char>,
    partials: Seq<Option<u64>>,
)
    ensures
        ({
            let (d, acts, end) = after_frame(
                c,
                MessageView::Post { pieces, direct },
                peer,
                partials,
            );
            waits_on(c, d, acts)
        }),
{
    assert(c.pending.take(c.pending.len() as int) =~= c.pending);
    if pieces_fault(pieces) is None {
        queued_in_order(c, pieces_files(pieces), direct, peer, partials);
    }
}

proof fn an_offer_takes_nothing(
    c: ConvView,
    name: Seq<char>,
    size: u64,
    hash: Seq<u8>,
    direct: bool,
    peer: Seq<char>,
    partials: Seq<Option<u64>>,
)
    ensures
        ({
            let (d, acts, end) = after_frame(
                c,
                MessageView::FileOffer { name, size, hash, direct },
                peer,
                partials,
            );
            waits_on(c, d, acts)
        }),
{
    let d = after_frame(c, MessageView::FileOffer { name, size, hash, direct }, peer, partials).0;
    assert(c.pending.take(c.pending.len() as int) =~= c.pending);
    assert(d.pending.take(c.pending.len() as int) =~= c.pending);
}

proof fn an_answer_takes_nothing(
    c: ConvView,
    hash: Seq<u8>,
    offset: u64,
    direct: Option<DirectView>,
    peer: Seq<char>,
)
    ensures
        ({
            let (d, acts, end) = after_accept(c, hash, offset, direct, peer);
            &&& d.pending == c.pending
            &&& forall|i: int| 0 <= i < acts.len() ==> !((#[trigger] acts[i]) is Take)
        }),
{
}

proof fn a_chunk_takes_nothing(c: ConvView, data: Seq<u8>, peer: Seq<char>)
    ensures
        ({
            let (d, acts, end) = after_chunk(c, data, peer);
            &&& d.pending == c.pending
            &&& forall|i: int| 0 <= i < acts.len() ==> !((#[trigger] acts[i]) is Take)
        }),
{
}

// --- being offered files --------------------------------------------------------------

/// A size that is taken, and a name that can be kept.
pub open spec fn acceptable(f: FileView) -> bool {
    0 < f.size <= MAX_FILE && name_fault(kept_name(f.name)) is None
}

/// A file as it waits for an answer: under the name it may keep, with its size and digest, and
/// the way it was asked to travel.
pub open spec fn waits_as(o: OfferedView, f: FileView, direct: bool) -> bool {
    &&& o.offer.name == kept_name(f.name)
    &&& o.offer.size == f.size
    &&& o.offer.hash == f.hash
    &&& o.direct == direct
}

/// The files of a message, in order.
pub open spec fn files_in(pieces: Seq<PieceView>) -> Seq<FileView> {
    pieces.filter(|p: PieceView| p is File).map_values(|p: PieceView| p->File_0)
}

proof fn queued_in_order(
    c: ConvView,
    files: Seq<FileView>,
    direct: bool,
    peer: Seq<char>,
    partials: Seq<Option<u64>>,
)
    ensures
        ({
            let (d, acts, end) = took_offers(c, files, direct, peer, partials);
            let n = c.pending.len() as int;
            &&& d == (ConvView { pending: d.pending, ..c })
            &&& n <= d.pending.len() <= n + files.len()
            &&& d.pending.take(n) == c.pending
            &&& only_says(acts)
            &&& end is Some ==> end == Some(Ended::PeerHungUp)
            &&& end is None ==> d.pending.len() == n + files.len()
            &&& end is None ==> forall|i: int|
                0 <= i < files.len() ==> d.pending[n + i] == (OfferedView {
                    offer: OfferView {
                        name: kept_name((#[trigger] files[i]).name),
                        size: files[i].size,
                        hash: files[i].hash,
                    },
                    direct,
                })
            &&& end is None <==> forall|i: int| 0 <= i < files.len() ==> acceptable(#[trigger] files[i])
        }),
    decreases files.len(),
{
    let n = c.pending.len() as int;
    if files.len() == 0 {
        assert(c.pending.take(n) =~= c.pending);
    } else {
        let init = files.drop_last();
        queued_in_order(c, init, direct, peer, partials);
        let (d0, a0, e0) = took_offers(c, init, direct, peer, partials);
        let (d, a, e) = took_offers(c, files, direct, peer, partials);
        if e0 is None {
            assert(d.pending.take(n) =~= c.pending);
            assert forall|i: int| 0 <= i < files.len() && e is None implies d.pending[n + i] == (
            OfferedView {
                offer: OfferView {
                    name: kept_name((#[trigger] files[i]).name),
                    size: files[i].size,
                    hash: files[i].hash,
                },
                direct,
            }) by {
                if i < init.len() {
                    assert(init[i] == files[i]);
                    assert(d.pending[n + i] == d0.pending[n + i]);
                }
            }
            assert(e is None ==> forall|i: int| 0 <= i < files.len() ==> acceptable(#[trigger] files[i])) by {
                assert forall|i: int| 0 <= i < files.len() && e is None implies acceptable(
                    #[trigger] files[i],
                ) by {
                    if i < init.len() {
                        assert(acceptable(init[i]));
                    }
                }
            }
            assert((forall|i: int| 0 <= i < files.len() ==> acceptable(#[trigger] files[i])) ==> e is None) by {
                if forall|i: int| 0 <= i < files.len() ==> acceptable(#[trigger] files[i]) {
                    assert(acceptable(files[files.len() - 1]));
                }
            }
        } else {
            let i = choose|i: int| 0 <= i < init.len() && !acceptable(#[trigger] init[i]);
            assert(!acceptable(files[i]));
        }
    }
}

/// A file offered on its own waits behind what waited before, and is neither taken nor
/// answered; one that cannot be kept ends the conversation.
pub proof fn a_file_offered_waits(
    c: ConvView,
    f: FileView,
    direct: bool,
    peer: Seq<char>,
    partials: Seq<Option<u64>>,
)
    ensures
        ({
            let m = MessageView::FileOffer { name: f.name, size: f.size, hash: f.hash, direct };
            let (d, acts, end) = after_frame(c, m, peer, partials);
            &&& only_says(acts)
            &&& acceptable(f) ==> {
                &&& end is None
                &&& d == (ConvView { pending: d.pending, ..c })
                &&& d.pending.len() == c.pending.len() + 1
                &&& d.pending.drop_last() == c.pending
                &&& waits_as(d.pending.last(), f, direct)
            }
            &&& !acceptable(f) ==> end == Some(Ended::PeerHungUp) && d == c
        }),
{
    let m = MessageView::FileOffer { name: f.name, size: f.size, hash: f.hash, direct };
    let d = after_frame(c, m, peer, partials).0;
    if acceptable(f) {
        assert(d.pending.drop_last() =~= c.pending);
    }
}

/// Every file in a message waits, in the order in which they stand in it, behind what waited
/// before; where one of them cannot be kept, the conversation ends.
pub proof fn every_file_in_a_message_waits(
    c: ConvView,
    pieces: Seq<PieceView>,
    direct: bool,
    peer: Seq<char>,
    partials: Seq<Option<u64>>,
)
    ensures
        ({
            let (d, acts, end) = after_frame(c, MessageView::Post { pieces, direct }, peer, partials);
            let files = files_in(pieces);
            let n = c.pending.len() as int;
            let fine = forall|i: int| 0 <= i < files.len() ==> acceptable(#[trigger] files[i]);
            &&& only_says(acts)
            &&& d == (ConvView { pending: d.pending, ..c })
            &&& end is None <==> fine
            &&& end is Some ==> end == Some(Ended::PeerHungUp)
            &&& fine ==> {
                &&& d.pending.len() == n + files.len()
                &&& d.pending.take(n) == c.pending
                &&& forall|i: int|
                    0 <= i < files.len() ==> waits_as(d.pending[n + i], #[trigger] files[i], direct)
            }
        }),
{
    let files = files_in(pieces);
    let named = pieces_files(pieces);
    let (d, acts, end) = after_frame(c, MessageView::Post { pieces, direct }, peer, partials);
    let n = c.pending.len() as int;
    files_are_found(pieces);
    queued_in_order(c, named, direct, peer, partials);
    assert forall|i: int| 0 <= i < files.len() && name_fault(kept_name(files[i].name)) is None
        implies kept_name(#[trigger] named[i].name) == kept_name(files[i].name) by {
        a_kept_name_is_kept(files[i].name);
    }
    let (t, a, e) = took_offers(c, named, direct, peer, partials);
    if pieces_fault(pieces) is None {
        assert(end == e);
        assert(d == t);
        if e is None {
            assert forall|i: int| 0 <= i < files.len() implies acceptable(#[trigger] files[i]) by {
                assert(acceptable(named[i]));
            }
            assert forall|i: int| 0 <= i < files.len() implies waits_as(
                d.pending[n + i],
                #[trigger] files[i],
                direct,
            ) by {
                assert(named[i].size == files[i].size);
            }
        } else {
            let i = choose|i: int| 0 <= i < named.len() && !acceptable(#[trigger] named[i]);
            assert(!acceptable(files[i]));
        }
    } else {
        let i = choose|i: int|
            0 <= i < files.len() && name_fault(kept_name((#[trigger] files[i]).name)) is Some;
        assert(!acceptable(files[i]));
        assert(d.pending == c.pending);
    }
}

/// The files of a message are found where they stand, each under the name it may keep.
pub proof fn files_are_found(pieces: Seq<PieceView>)
    ensures
        pieces_files(pieces).len() == files_in(pieces).len(),
        forall|i: int|
            0 <= i < files_in(pieces).len() ==> #[trigger] pieces_files(pieces)[i] == (FileView {
                name: kept_name(files_in(pieces)[i].name),
                size: files_in(pieces)[i].size,
                hash: files_in(pieces)[i].hash,
            }),
        pieces_fault(pieces) is None <==> forall|i: int|
            0 <= i < files_in(pieces).len() ==> name_fault(
                kept_name((#[trigger] files_in(pieces)[i]).name),
            ) is None,
    decreases pieces.len(),
{
    reveal(Seq::filter);
    if pieces.len() > 0 {
        let init = pieces.drop_last();
        files_are_found(init);
        let p = pieces.last();
        let before = files_in(init);
        let now = files_in(pieces);
        if p is File {
            assert(now =~= before.push(p->File_0));
            assert(forall|i: int| 0 <= i < before.len() ==> now[i] == before[i]);
            assert(now[before.len() as int] == p->File_0);
            if pieces_fault(init) is Some {
                let i = choose|i: int|
                    0 <= i < before.len() && name_fault(kept_name((#[trigger] before[i]).name))
                        is Some;
                assert(name_fault(kept_name(now[i].name)) is Some);
            } else if name_fault(kept_name(p->File_0.name)) is None {
                assert forall|i: int| 0 <= i < now.len() implies name_fault(
                    kept_name((#[trigger] now[i]).name),
                ) is None by {
                    if i < before.len() {
                        assert(name_fault(kept_name(before[i].name)) is None);
                    }
                }
            }
        } else {
            assert(now =~= before);
        }
    }
}

} // verus!
