//! What the operator is told of files: which number takes which, what they were asked, how far
//! it is.

use vstd::prelude::*;
use vstd::string::*;

use crate::chat::{
    after_accept, after_frame, after_offer, after_read, after_taken, after_typed, listens,
    offer_lines, pieces_fault, pieces_files, took_offers, ActView, ConvView, ListeningView,
    OfferedView,
};
use crate::files::{a_kept_name_is_kept, human_text, kept_name, OfferView};
use crate::laws::transfers::{acceptable, files_are_found, files_in, line_taken};
use crate::message::{DirectView, FileView, MessageView, PieceView};
use crate::text::{decimal_text, quoted_text};
use crate::typed::{Ended, Route, TypedView};
use crate::ui::Kind;

verus! {

/// The line that offers a file: its number, its name, its size, and how much of it is here
/// already where it can go on from there.
pub open spec fn numbered_line(n: nat, o: OfferView, partial: Option<u64>) -> ActView {
    let plain = "   ["@ + decimal_text(n) + "] "@ + quoted_text(o.name) + " ("@ + human_text(o.size)
        + ")"@;
    let here = if partial is Some && 0 < partial->0 < o.size {
        plain + (" — "@ + human_text(partial->0) + " already here, /accept resumes"@)
    } else {
        plain
    };
    ActView::Say(Kind::System, here)
}

/// What is here of the `i`-th file.
pub open spec fn here_of(partials: Seq<Option<u64>>, i: int) -> Option<u64> {
    if 0 <= i < partials.len() {
        partials[i]
    } else {
        None
    }
}

proof fn lines_of_an_offer(n: nat, o: OfferView, direct: bool, partial: Option<u64>)
    ensures
        offer_lines(n, o, direct, partial)[0] == numbered_line(n, o, partial),
        offer_lines(n, o, direct, partial).len() == if direct {
            2int
        } else {
            1
        },
        direct ==> offer_lines(n, o, direct, partial)[1] is Say,
{
    let plain = "   ["@ + decimal_text(n) + "] "@ + quoted_text(o.name) + " ("@ + human_text(o.size)
        + ")"@;
    assert(plain + Seq::<char>::empty() =~= plain);
}

/// The number under which an offered file is shown is the number that takes it, and refuses it;
/// what is shown with it is its name, its size and what is here of it. That it asks to go outside
/// Tor is said, exactly where it does.
pub proof fn the_number_shown_takes_the_file(
    c: ConvView,
    f: FileView,
    direct: bool,
    peer: Seq<char>,
    partials: Seq<Option<u64>>,
)
    requires
        acceptable(f),
        !line_taken(c),
        c.pending.len() < usize::MAX,
    ensures
        ({
            let m = MessageView::FileOffer { name: f.name, size: f.size, hash: f.hash, direct };
            let (d, acts, end) = after_frame(c, m, peer, partials);
            let n = (c.pending.len() + 1) as nat;
            let o = OfferView { name: kept_name(f.name), size: f.size, hash: f.hash };
            &&& acts[1] == numbered_line(n, o, here_of(partials, 0))
            &&& acts.len() == if direct {
                3int
            } else {
                2
            }
            &&& after_typed(d, TypedView::Accept(Some(n as usize))).1 == seq![
                ActView::Take(OfferedView { offer: o, direct }),
            ]
            &&& after_typed(d, TypedView::Refuse(Some(n as usize))).1.contains(
                ActView::Send(MessageView::FileReject { hash: f.hash }),
            )
        }),
{
    let m = MessageView::FileOffer { name: f.name, size: f.size, hash: f.hash, direct };
    let (d, acts, end) = after_frame(c, m, peer, partials);
    let n = (c.pending.len() + 1) as nat;
    let o = OfferView { name: kept_name(f.name), size: f.size, hash: f.hash };
    lines_of_an_offer(n, o, direct, here_of(partials, 0));
    assert(after_typed(d, TypedView::Refuse(Some(n as usize))).1[1] == ActView::Send(
        MessageView::FileReject { hash: f.hash },
    ));
}

proof fn each_has_its_line(
    c: ConvView,
    files: Seq<FileView>,
    direct: bool,
    peer: Seq<char>,
    partials: Seq<Option<u64>>,
)
    requires
        took_offers(c, files, direct, peer, partials).2 is None,
        forall|i: int| 0 <= i < files.len() ==> kept_name((#[trigger] files[i]).name) == files[i].name,
    ensures
        ({
            let (d, acts, end) = took_offers(c, files, direct, peer, partials);
            let per = if direct {
                2int
            } else {
                1
            };
            &&& acts.len() == per * files.len()
            &&& d.pending.len() == c.pending.len() + files.len()
            &&& forall|i: int|
                0 <= i < files.len() ==> acts[per * i] == numbered_line(
                    (c.pending.len() + 1 + i) as nat,
                    OfferView {
                        name: (#[trigger] files[i]).name,
                        size: files[i].size,
                        hash: files[i].hash,
                    },
                    here_of(partials, i),
                )
        }),
    decreases files.len(),
{
    let per = if direct {
        2int
    } else {
        1
    };
    if files.len() > 0 {
        let init = files.drop_last();
        let (d0, a0, e0) = took_offers(c, init, direct, peer, partials);
        assert(e0 is None);
        assert forall|i: int| 0 <= i < init.len() implies kept_name((#[trigger] init[i]).name)
            == init[i].name by {
            assert(init[i] == files[i]);
        }
        each_has_its_line(c, init, direct, peer, partials);
        let f = files.last();
        assert(files[files.len() - 1] == f);
        let o = OfferView { name: f.name, size: f.size, hash: f.hash };
        lines_of_an_offer(d0.pending.len() + 1, o, direct, here_of(partials, init.len() as int));
        let (d, acts, end) = took_offers(c, files, direct, peer, partials);
        assert(per * files.len() == per * init.len() + per) by (nonlinear_arith)
            requires
                files.len() == init.len() + 1,
        ;
        assert forall|i: int| 0 <= i < files.len() implies acts[per * i] == numbered_line(
            (c.pending.len() + 1 + i) as nat,
            OfferView {
                name: (#[trigger] files[i]).name,
                size: files[i].size,
                hash: files[i].hash,
            },
            here_of(partials, i),
        ) by {
            if i < init.len() {
                assert(init[i] == files[i]);
                assert(0 <= per * i < per * init.len()) by (nonlinear_arith)
                    requires
                        0 <= i < init.len(),
                        per > 0,
                ;
                assert(acts[per * i] == a0[per * i]);
            }
        }
    } else {
        assert(per * files.len() == 0) by (nonlinear_arith)
            requires
                files.len() == 0,
        ;
    }
}

/// Each file of a message is shown, in order, under the number that takes it, with what is here
/// of that very file; then it is said how to answer.
pub proof fn each_file_of_a_message_has_its_number(
    c: ConvView,
    pieces: Seq<PieceView>,
    direct: bool,
    peer: Seq<char>,
    partials: Seq<Option<u64>>,
    i: int,
)
    requires
        forall|k: int| 0 <= k < files_in(pieces).len() ==> acceptable(#[trigger] files_in(pieces)[k]),
        pieces_fault(pieces) is None,
        after_frame(c, MessageView::Post { pieces, direct }, peer, partials).2 is None,
        0 <= i < files_in(pieces).len(),
    ensures
        ({
            let (d, acts, end) = after_frame(c, MessageView::Post { pieces, direct }, peer, partials);
            let f = files_in(pieces)[i];
            let per = if direct {
                2int
            } else {
                1
            };
            &&& acts[1 + per * i] == numbered_line(
                (c.pending.len() + 1 + i) as nat,
                OfferView { name: kept_name(f.name), size: f.size, hash: f.hash },
                here_of(partials, i),
            )
            &&& acts.len() == 2 + per * files_in(pieces).len()
            &&& acts.last() is Say
            &&& d.pending[c.pending.len() + i].offer.hash == f.hash
        }),
{
    let files = pieces_files(pieces);
    files_are_found(pieces);
    let (d, a, e) = took_offers(c, files, direct, peer, partials);
    assert(e is None);
    assert forall|k: int| 0 <= k < files.len() implies kept_name((#[trigger] files[k]).name)
        == files[k].name by {
        a_kept_name_is_kept(files_in(pieces)[k].name);
    }
    each_has_its_line(c, files, direct, peer, partials);
    crate::laws::transfers::every_file_in_a_message_waits(c, pieces, direct, peer, partials);
    let per = if direct {
        2int
    } else {
        1
    };
    assert(files[i].hash == files_in(pieces)[i].hash);
    assert(0 <= per * i < per * files.len()) by (nonlinear_arith)
        requires
            0 <= i < files.len(),
            per > 0,
    ;
}

/// That a file is to go outside Tor is said before it is sent: one line more than for one that
/// is not.
pub proof fn leaving_tor_is_said(c: ConvView, path: Seq<char>, o: OfferView)
    requires
        forall|i: int| 0 <= i < c.offered.len() ==> (#[trigger] c.offered[i]).hash != o.hash,
    ensures
        ({
            let direct = after_offer(c, path, Route::Direct, o).1;
            let tor = after_offer(c, path, Route::Tor, o).1;
            &&& direct.len() == tor.len() + 1
            &&& direct[0] is Say && direct[1] is Say && direct[1]->Say_1 != direct[0]->Say_1
            &&& direct[2] is Send
            &&& tor[0] is Say && tor[1] is Send
        }),
{
    not_offered(c.offered, o.hash);
    reveal_strlit("   asked for a direct link — they decide, and it shows them your IP");
    reveal_strlit("-- offered ");
    let direct = after_offer(c, path, Route::Direct, o).1;
    assert(direct[1]->Say_1[0] as u32 == 32);
    assert(direct[0]->Say_1[0] as u32 == 45);
}

proof fn not_offered(s: Seq<crate::chat::OutgoingView>, hash: Seq<u8>)
    requires
        forall|i: int| 0 <= i < s.len() ==> (#[trigger] s[i]).hash != hash,
    ensures
        crate::chat::place_of(s, hash) == s.len(),
    decreases s.len(),
{
    if s.len() > 0 {
        assert(s[0].hash != hash);
        assert forall|i: int| 0 <= i < s.drop_first().len() implies (#[trigger] s.drop_first()[i]).hash
            != hash by {
            assert(s.drop_first()[i] == s[i + 1]);
        }
        not_offered(s.drop_first(), hash);
    }
}

/// The first report of a transfer comes one mebibyte behind where it begins, on either side, and
/// each further one a mebibyte behind the last.
pub proof fn a_report_comes_with_every_mebibyte(
    c: ConvView,
    o: OfferedView,
    partial: Option<u64>,
    hash: Seq<u8>,
    offset: u64,
    peer: Seq<char>,
    data: Seq<u8>,
)
    requires
        o.offer.size <= 2147483648,
        offset <= 2147483648,
        !o.direct,
        data.len() <= 32768,
    ensures
        ({
            let r = after_taken(c, o, partial, ListeningView::NotTried).0.receiving;
            r is Some && r->0.next_report == r->0.written + 1048576
        }),
        ({
            let (d, acts, end) = after_accept(c, hash, offset, None, peer);
            end is None ==> d.sending is Some && d.sending->0.next_report == d.sending->0.sent
                + 1048576
        }),
        c.sending is Some && data.len() > 0 && c.sending->0.sent <= 2147483648 ==> {
            let (d, acts) = after_read(c, data);
            let sent = c.sending->0.sent + data.len();
            &&& sent >= c.sending->0.next_report ==> acts.len() == 2 && acts[0] is Say
                && d.sending->0.next_report == sent + 1048576
            &&& sent < c.sending->0.next_report ==> acts.len() == 1 && d.sending->0.next_report
                == c.sending->0.next_report
        },
{
}

/// Listening for a direct link is called for exactly where it would be used: where the answer
/// would name the place, were there one.
pub proof fn listening_is_for_what_is_used(
    c: ConvView,
    o: OfferedView,
    partial: Option<u64>,
    link: DirectView,
)
    requires
        c.pulling is None,
        0 < o.offer.size,
    ensures
        listens(o, partial) <==> after_taken(c, o, partial, ListeningView::Open(link)).0.pulling is Some,
        listens(o, partial) <==> o.direct && !(partial is Some && 0 < partial->0 < o.offer.size),
        !listens(o, partial) ==> after_taken(c, o, partial, ListeningView::Open(link)).0
            == after_taken(c, o, partial, ListeningView::NotTried).0,
{
}

/// A call that is not taken ends, and what is told aside during a call is passed on as it came;
/// neither changes anything of the conversation.
pub proof fn what_is_not_about_the_call_is_passed_on(
    c: ConvView,
    m: MessageView,
    peer: Seq<char>,
    partials: Seq<Option<u64>>,
)
    ensures
        m is CallDecline ==> after_frame(c, m, peer, partials).2 == Some(Ended::Declined),
        m is PresenceAsk || m is PresenceYes || m is PresenceNo || m is Left || m is Got
            ==> after_frame(c, m, peer, partials).1 == seq![ActView::Aside(m)],
        m is CallDecline || m is Ping || m is PresenceAsk || m is PresenceYes || m is PresenceNo
            || m is Left || m is Got ==> after_frame(c, m, peer, partials).0 == c,
        m is Ping ==> after_frame(c, m, peer, partials).1.len() == 0,
        !(m is CallDecline) && after_frame(c, m, peer, partials).2 is Some ==> after_frame(
            c,
            m,
            peer,
            partials,
        ).2 == Some(Ended::PeerHungUp) || m is Post,
{
}

/// Where a link could not be reached, whatever runs outside Tor is stopped, whichever way it
/// was going.
pub proof fn an_unreached_link_is_stopped(
    c: ConvView,
    peer: Seq<char>,
    partials: Seq<Option<u64>>,
)
    requires
        c.pushing is Some || c.pulling is Some,
    ensures
        ({
            let (d, acts, end) = after_frame(c, MessageView::DirectFailed, peer, partials);
            &&& acts.contains(ActView::StopDirect)
            &&& c.pulling is None ==> d == (ConvView { pushing: None, ..c })
            &&& end is None
        }),
{
    let acts = after_frame(c, MessageView::DirectFailed, peer, partials).1;
    assert(acts[0] == ActView::StopDirect);
}

} // verus!
