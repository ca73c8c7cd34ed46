//! Files of theirs: taken, received over Tor or outside it, and kept.

use vstd::prelude::*;
use vstd::string::*;

use crate::chat::{
    after_frame, after_landing, after_pull, after_taken, interrupted, sound, ActView, ConvView,
    ListeningView, OfferedView, ReceivingView,
};
use crate::files::resumable;
use crate::laws::transfers::{only_says, sends_nothing, sends_only};
use crate::message::MessageView;
use crate::typed::Ended;
use crate::ui::Kind;

verus! {

/// Where a file goes on: behind what is there, if that is less than the whole, else at its
/// first byte.
pub open spec fn goes_on_at(partial: Option<u64>, size: u64, offset: u64) -> bool {
    match partial {
        Some(have) => if have < size {
            offset == have
        } else {
            offset == 0
        },
        None => offset == 0,
    }
}

/// A transfer over Tor was begun: the partial is opened holding exactly what is kept of it, the
/// peer is asked for the rest from there on, and bytes are expected from there on.
pub open spec fn begun_over_tor(
    c: ConvView,
    o: OfferedView,
    offset: u64,
    d: ConvView,
    acts: Seq<ActView>,
) -> bool {
    let r = ReceivingView {
        offer: o.offer,
        written: offset,
        next_report: d.receiving->0.next_report,
    };
    &&& d == (ConvView { receiving: Some(r), ..c })
    &&& acts.contains(ActView::OpenPartial(o.offer.hash, offset))
    &&& sends_only(
        acts,
        MessageView::FileAccept { hash: o.offer.hash, offset, direct: None },
    )
    &&& forall|i: int| 0 <= i < acts.len() ==> !((#[trigger] acts[i]) is Pull)
}

/// Taking a file answers it, once. It comes over a direct link exactly where that was asked for,
/// nothing of it is on disk, and we could listen: the answer then says where. Otherwise it comes
/// over Tor, from the first byte that is missing, and no address is named.
pub proof fn taking_a_file_answers_it(
    c: ConvView,
    o: OfferedView,
    partial: Option<u64>,
    listening: ListeningView,
    offset: u64,
)
    requires
        goes_on_at(partial, o.offer.size, offset),
        0 < o.offer.size <= 2147483648,
    ensures
        ({
            let (d, acts) = after_taken(c, o, partial, listening);
            if o.direct && offset == 0 && listening is Open {
                &&& d == (ConvView { pulling: Some(o.offer), ..c })
                &&& acts.contains(ActView::Pull(o.offer))
                &&& sends_only(
                    acts,
                    MessageView::FileAccept {
                        hash: o.offer.hash,
                        offset: 0,
                        direct: Some(listening->Open_0),
                    },
                )
            } else {
                begun_over_tor(c, o, offset, d, acts)
            }
        }),
{
    let (d, acts) = after_taken(c, o, partial, listening);
    assert(offset == resumable(partial, o.offer.size));
    if o.direct && offset == 0 && listening is Open {
        assert(acts[1] == ActView::Pull(o.offer));
        assert(acts[2] == ActView::Send(
            MessageView::FileAccept {
                hash: o.offer.hash,
                offset: 0,
                direct: Some(listening->Open_0),
            },
        ));
    } else {
        let m = MessageView::FileAccept { hash: o.offer.hash, offset, direct: None };
        let n = acts.len() - 3;
        assert(acts[n] == ActView::OpenPartial(o.offer.hash, offset));
        assert(acts[n + 2] == ActView::Send(m));
    }
}

/// File data goes to the partial of the file that is coming in, whole and once, and is counted;
/// more of it than the file has, or any that was not asked for, ends the conversation and is
/// not written.
pub proof fn data_goes_to_the_partial(
    c: ConvView,
    data: Seq<u8>,
    peer: Seq<char>,
    partials: Seq<Option<u64>>,
)
    requires
        sound(c),
    ensures
        ({
            let (d, acts, end) = after_frame(c, MessageView::FileChunk(data), peer, partials);
            let fits = c.receiving is Some && c.receiving->0.written + data.len()
                <= c.receiving->0.offer.size;
            &&& sends_nothing(acts)
            &&& fits ==> {
                &&& end is None
                &&& acts[0] == ActView::WritePartial(data)
                &&& only_says(acts.skip(1))
                &&& d == (ConvView { receiving: d.receiving, ..c })
                &&& d.receiving is Some
                &&& d.receiving->0.offer == c.receiving->0.offer
                &&& d.receiving->0.written == c.receiving->0.written + data.len()
            }
            &&& !fits ==> end == Some(Ended::PeerHungUp) && only_says(acts) && d == c
        }),
{
}

/// Progress is told at least once for every megabyte and a chunk: where a transfer has come a
/// megabyte past the last report, it reports.
pub proof fn progress_is_told(
    c: ConvView,
    data: Seq<u8>,
    peer: Seq<char>,
    partials: Seq<Option<u64>>,
)
    requires
        sound(c),
        c.receiving is Some,
        c.receiving->0.written + data.len() <= c.receiving->0.offer.size,
    ensures
        ({
            let (d, acts, end) = after_frame(c, MessageView::FileChunk(data), peer, partials);
            let w = c.receiving->0.written + data.len();
            &&& w >= c.receiving->0.next_report ==> acts.len() == 2 && acts[1] is Say
                && d.receiving->0.next_report == w + 1048576
            &&& w < c.receiving->0.next_report ==> acts.len() == 1 && d.receiving->0.next_report
                == c.receiving->0.next_report
        }),
{
}

/// The end of a file's data has it verified, and only then does it get a name: the transfer is
/// over, and what is finished is the file that was accepted. Nothing to end ends the
/// conversation.
pub proof fn the_end_has_the_file_verified(
    c: ConvView,
    peer: Seq<char>,
    partials: Seq<Option<u64>>,
)
    ensures
        ({
            let (d, acts, end) = after_frame(c, MessageView::FileDone, peer, partials);
            &&& c.receiving is Some ==> {
                &&& end is None
                &&& acts == seq![ActView::Finish(c.receiving->0.offer)]
                &&& d == (ConvView { receiving: None, ..c })
            }
            &&& c.receiving is None ==> end == Some(Ended::PeerHungUp) && only_says(acts) && d == c
        }),
{
}

/// A file that came over a direct link is verified like any other; one that did not is not.
pub proof fn a_pulled_file_is_verified(c: ConvView, failed: Option<Seq<char>>)
    requires
        c.pulling is Some,
    ensures
        ({
            let (d, acts) = after_pull(c, failed);
            &&& failed is None ==> acts == seq![ActView::Finish(c.pulling->0)] && d == (ConvView {
                pulling: None,
                ..c
            })
            &&& failed is Some ==> {
                &&& d.pulling is None
                &&& acts.len() > 0 && acts[0] is Say && acts[0]->Say_0 == Kind::Error
                &&& forall|i: int| 0 <= i < acts.len() ==> !((#[trigger] acts[i]) is Finish)
            }
        }),
{
}

/// Where the peer could not reach us, what was to come outside Tor is expected over Tor from its
/// first byte, nobody listens any more, and nothing else changes; where nothing was to come,
/// nothing is expected.
pub proof fn an_unreached_link_is_replaced(
    c: ConvView,
    peer: Seq<char>,
    partials: Seq<Option<u64>>,
)
    ensures
        ({
            let (d, acts, end) = after_frame(c, MessageView::DirectFailed, peer, partials);
            &&& end is None
            &&& sends_nothing(acts)
            &&& c.pulling is Some ==> {
                &&& acts.contains(ActView::StopDirect)
                &&& acts.contains(ActView::OpenPartial(c.pulling->0.hash, 0))
                &&& d == (ConvView { pulling: None, receiving: d.receiving, ..c })
                &&& d.receiving is Some
                &&& d.receiving->0.offer == c.pulling->0
                &&& d.receiving->0.written == 0
            }
            &&& c.pulling is None ==> d.receiving == c.receiving && d.pushing is None
        }),
{
    let acts = after_frame(c, MessageView::DirectFailed, peer, partials).1;
    if c.pulling is Some {
        assert(acts[0] == ActView::StopDirect);
        assert(acts[1] == ActView::OpenPartial(c.pulling->0.hash, 0));
    }
}

/// What became of a verified file is said: where it is, or that it is not to be trusted.
pub proof fn where_a_file_landed_is_said(c: ConvView, landed: Result<Seq<char>, Seq<char>>)
    ensures
        ({
            let acts = after_landing(c, landed).1;
            &&& acts.len() > 0
            &&& match landed {
                Ok(path) => acts[0] == ActView::Say(
                    Kind::System,
                    "-- received "@ + path + " --"@,
                ),
                Err(why) => acts[0] == ActView::Say(Kind::Error, why),
            }
        }),
{
}

/// A file that was still coming in when the conversation ended is named as interrupted, and
/// only then is anything.
pub proof fn an_interruption_is_told(c: ConvView)
    ensures
        interrupted(c) is Some <==> c.receiving is Some,
{
}

} // verus!
