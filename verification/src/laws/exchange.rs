//! Two conversations that talk to each other: what one side does, the other side gets.

use vstd::prelude::*;
use vstd::string::*;

use crate::chat::{acts, pump_want, sound, takeable, Act, ActView, Conversation, Listening, Offered};
use crate::files::{kept_name, name_fault, shown_text, Offer};
use crate::laws::receiving::goes_on_at;
use crate::laws::transfers::{line_taken, sends_only};
use crate::message::{Message, MessageView};
use crate::proto::utf8_len;
use crate::text::trim;
use crate::typed::{Ended, Route};
use crate::ui::Kind;

verus! {

/// What one side types the other side reads, under the name it knows the first one by, as it was
/// typed but for what would steer the terminal; and nothing else goes out.
pub proof fn what_is_typed_is_read(
    a: &mut Conversation,
    b: &mut Conversation,
    line: &str,
    home: Option<&str>,
    said: (Vec<Act>, Option<Ended>),
    m: Message,
    name: &str,
    partials: &[Option<u64>],
    read: (Vec<Act>, Option<Ended>),
)
    requires
        sound(old(a)@),
        sound(old(b)@),
        trim(line@).len() > 0,
        trim(line@)[0] != '/',
        utf8_len(line@) <= 32768,
        call_ensures(Conversation::typed, (a, line, home), said),
        m@ == MessageView::Text(line@),
        call_ensures(Conversation::handle, (b, m, name, partials), read),
    ensures
        sends_only(acts(said.0@), m@),
        said.1 is None,
        acts(read.0@) == seq![ActView::Say(Kind::Theirs, name@ + "> "@ + shown_text(line@))],
        read.1 is None,
        final(a)@ == old(a)@,
        final(b)@ == old(b)@,
{
    let h = match home {
        Some(h) => Some(h@),
        None => None,
    };
    crate::typed::ordinary_lines_are_untouched(line@, h);
    crate::laws::talking::what_is_said_arrives(old(a)@, old(b)@, line@, name@, partials@);
}

/// A file that one side offers waits on the other side: under the name it may keep, with its
/// size, its digest, and the way it was asked to travel, behind those that waited already.
pub proof fn what_is_offered_waits(
    a: &mut Conversation,
    b: &mut Conversation,
    path: String,
    route: Route,
    o: Offer,
    offered: Vec<Act>,
    m: Message,
    name: &str,
    partials: &[Option<u64>],
    read: (Vec<Act>, Option<Ended>),
)
    requires
        sound(old(a)@),
        sound(old(b)@),
        0 < o.size <= 2147483648,
        forall|i: int| 0 <= i < old(a)@.offered.len() ==> (#[trigger] old(a)@.offered[i]).hash != o.hash@,
        name_fault(kept_name(o.name@)) is None,
        call_ensures(Conversation::offer, (a, path, route, o), offered),
        sends_only(acts(offered@), m@),
        call_ensures(Conversation::handle, (b, m, name, partials), read),
    ensures
        read.1 is None,
        final(b)@.pending.len() == old(b)@.pending.len() + 1,
        final(b)@.pending.drop_last() == old(b)@.pending,
        final(b)@.pending.last().offer.name == kept_name(o.name@),
        final(b)@.pending.last().offer.size == o.size,
        final(b)@.pending.last().offer.hash == o.hash@,
        final(b)@.pending.last().direct <==> route == Route::Direct,
        final(a)@.offered.last().path == path@,
        final(a)@.offered.last().hash == o.hash@,
        final(a)@.offered.last().route == route,
{
    crate::laws::sending::a_file_is_offered_under_its_route(old(a)@, path@, route, o@);
    let sent = MessageView::FileOffer {
        name: o.name@,
        size: o.size,
        hash: o.hash@,
        direct: route == Route::Direct,
    };
    assert(sends_only(acts(offered@), sent));
    assert(m@ == sent);
    crate::files::a_kept_name_is_kept(o.name@);
    assert(final(b)@.pending.drop_last() =~= old(b)@.pending);
}

/// A file that is taken over Tor is asked for from the first byte that is missing, and sent from
/// there: both sides stand at that byte, and what is opened is the file that was offered.
pub proof fn both_sides_begin_at_the_same_byte(
    a: &mut Conversation,
    b: &mut Conversation,
    o: Offered,
    partial: Option<u64>,
    offset: u64,
    listening: Listening,
    taken: Vec<Act>,
    m: Message,
    name: &str,
    partials: &[Option<u64>],
    k: int,
    read: (Vec<Act>, Option<Ended>),
)
    requires
        sound(old(a)@),
        sound(old(b)@),
        !line_taken(old(b)@),
        takeable(o.offer.size),
        0 < o.offer.size <= 2147483648,
        !o.direct,
        goes_on_at(partial, o.offer.size, offset),
        call_ensures(Conversation::taken, (b, o, partial, listening), taken),
        sends_only(acts(taken@), m@),
        old(a)@.sending is None,
        0 <= k < old(a)@.offered.len(),
        old(a)@.offered[k].hash == o.offer.hash@,
        old(a)@.offered[k].size == o.offer.size,
        forall|i: int| 0 <= i < k ==> (#[trigger] old(a)@.offered[i]).hash != o.offer.hash@,
        call_ensures(Conversation::handle, (a, m, name, partials), read),
    ensures
        acts(taken@).contains(ActView::OpenPartial(o.offer.hash@, offset)),
        acts(read.0@).contains(ActView::OpenSource(old(a)@.offered[k].path, offset)),
        read.1 is None,
        final(b)@.receiving is Some,
        final(b)@.receiving->0.written == offset,
        final(b)@.receiving->0.offer == o.offer@,
        final(a)@.sending is Some,
        final(a)@.sending->0.sent == offset,
        final(a)@.sending->0.size == o.offer.size,
        final(a)@.sending->0.accepted,
        final(a)@.offered == old(a)@.offered.remove(k),
{
    crate::laws::receiving::taking_a_file_answers_it(
        old(b)@,
        o@,
        partial,
        listening@,
        offset,
    );
    let answer = MessageView::FileAccept { hash: o.offer.hash@, offset, direct: None };
    assert(sends_only(acts(taken@), answer));
    assert(m@ == answer);
    crate::laws::sending::an_answer_sends_the_file_it_names(
        old(a)@,
        k,
        o.offer.hash@,
        offset,
        None,
        name@,
        partials@,
    );
}

/// Every byte that is read on one side is written on the other, once and in order, and both
/// sides count it.
pub proof fn every_byte_read_is_written(
    a: &mut Conversation,
    b: &mut Conversation,
    data: Vec<u8>,
    sent: Vec<Act>,
    m: Message,
    name: &str,
    partials: &[Option<u64>],
    read: (Vec<Act>, Option<Ended>),
)
    requires
        sound(old(a)@),
        sound(old(b)@),
        pump_want(old(a)@) is Read,
        0 < data@.len() <= pump_want(old(a)@)->Read_0,
        old(b)@.receiving is Some,
        old(b)@.receiving->0.written == old(a)@.sending->0.sent,
        old(b)@.receiving->0.offer.size == old(a)@.sending->0.size,
        call_ensures(Conversation::pumped, (a, data), sent),
        sends_only(acts(sent@), m@),
        call_ensures(Conversation::handle, (b, m, name, partials), read),
    ensures
        acts(read.0@)[0] == ActView::WritePartial(data@),
        forall|i: int| 1 <= i < read.0@.len() ==> (#[trigger] acts(read.0@)[i]) is Say,
        read.1 is None,
        final(b)@.receiving is Some,
        final(a)@.sending is Some,
        final(b)@.receiving->0.written == final(a)@.sending->0.sent,
        final(a)@.sending->0.sent == old(a)@.sending->0.sent + data@.len(),
{
    crate::laws::sending::the_pump_asks_for_what_is_left(old(a)@);
    crate::laws::sending::what_is_read_is_sent(old(a)@, data@);
    assert(sends_only(acts(sent@), MessageView::FileChunk(data@)));
    assert(m@ == MessageView::FileChunk(data@));
    crate::laws::receiving::data_goes_to_the_partial(old(b)@, data@, name@, partials@);
    let tail = acts(read.0@).skip(1);
    assert forall|i: int| 1 <= i < read.0@.len() implies (#[trigger] acts(read.0@)[i]) is Say by {
        assert(tail[i - 1] == acts(read.0@)[i]);
    }
}

/// When one side has sent everything the other has the file verified, the one that it accepted,
/// and neither is busy with it any more.
pub proof fn the_end_is_the_end_on_both_sides(
    a: &mut Conversation,
    b: &mut Conversation,
    sent: Vec<Act>,
    m: Message,
    name: &str,
    partials: &[Option<u64>],
    read: (Vec<Act>, Option<Ended>),
)
    requires
        sound(old(a)@),
        sound(old(b)@),
        old(a)@.sending is Some,
        old(b)@.receiving is Some,
        call_ensures(Conversation::sent_all, (a,), sent),
        sends_only(acts(sent@), m@),
        call_ensures(Conversation::handle, (b, m, name, partials), read),
    ensures
        acts(read.0@) == seq![ActView::Finish(old(b)@.receiving->0.offer)],
        read.1 is None,
        final(a)@.sending is None,
        final(b)@.receiving is None,
{
    crate::laws::sending::what_is_read_is_sent(old(a)@, Seq::empty());
    assert(sends_only(acts(sent@), MessageView::FileDone));
    assert(m@ == MessageView::FileDone);
    crate::laws::receiving::the_end_has_the_file_verified(old(b)@, name@, partials@);
}

} // verus!
