//! What passes between two programs, or from one run to the next, comes out as it went in.

use vstd::prelude::*;
use vstd::string::*;

use crate::command::{Command, CommandView};
use crate::crypto::discovery_key_ok;
use crate::files::{kept_name, partial_name, Landing, Offer};
use crate::handshake::{outcome, HandshakeError, Stage};
use crate::identity::{Identity, PeerId, SeedError};
use crate::laws::words::{then_word, word};
use crate::message::Message;
use crate::proto::{FrameError, FrameReader};
use crate::session::{dos, Do, Session};
use crate::store::StoreError;

verus! {

// --- frames ---------------------------------------------------------------------------

/// What one side writes the other side reads, and what stands behind it is left for the next
/// read; what cannot be written leaves no byte.
pub proof fn what_is_written_is_read(
    out: &mut Vec<u8>,
    msg: &Message,
    written: Result<(), FrameError>,
    wire: &[u8],
    rest: Seq<u8>,
    read: Result<Option<(Message, &[u8])>, FrameError>,
)
    requires
        old(out)@.len() == 0,
        call_ensures(crate::proto::write_frame, (out, msg), written),
        wire@ == final(out)@ + rest,
        call_ensures(crate::proto::read_frame, (wire,), read),
    ensures
        written is Err ==> final(out)@.len() == 0,
        written is Ok ==> {
            &&& read is Ok
            &&& read->Ok_0 is Some
            &&& (read->Ok_0->0).0@ == msg@
            &&& (read->Ok_0->0).1@ == rest
        },
{
    if written is Ok {
        let f = crate::proto::frame_bytes(msg@);
        assert(old(out)@ + f =~= f);
        crate::proto::frame_comes_back(msg@, rest);
        assert(wire@ == f + rest);
    }
}

/// A frame that comes in two pieces is read when its last byte is in, and not before.
pub proof fn a_frame_may_come_in_pieces(
    out: &mut Vec<u8>,
    msg: &Message,
    written: Result<(), FrameError>,
    a: &mut FrameReader,
    b: &mut FrameReader,
    one: &[u8],
    two: &[u8],
    first: Result<Option<Message>, FrameError>,
    second: Result<Option<Message>, FrameError>,
)
    requires
        old(out)@.len() == 0,
        call_ensures(crate::proto::write_frame, (out, msg), written),
        written is Ok,
        old(a).wf(),
        old(a).got@.len() == 0,
        one@.len() == 4,
        two@.len() > 0,
        one@ + two@ == final(out)@,
        one@.len() <= old(a).missing(),
        call_ensures(FrameReader::feed, (a, one), first),
        *old(b) == *final(a),
        two@.len() <= old(b).missing(),
        call_ensures(FrameReader::feed, (b, two), second),
    ensures
        first is Ok && first->Ok_0 is None,
        second is Ok && second->Ok_0 is Some,
        (second->Ok_0->0)@ == msg@,
        final(b).got@.len() == 0,
{
    let f = crate::proto::frame_bytes(msg@);
    assert(old(out)@ + f =~= f);
    crate::proto::frame_comes_back(msg@, Seq::empty());
    assert(f + Seq::<u8>::empty() =~= f);
    assert(old(a).got@ + one@ =~= one@);
    let n = crate::message::message_bytes(msg@).len();
    crate::proto::le32_back(n);
    assert(one@.take(4) =~= f.take(4));
    assert(f.take(4) =~= crate::proto::le32(n));
    assert(one@ + two@ == f);
}

// --- openings -------------------------------------------------------------------------

/// Two programs that open a connection to each other come away with each other's key.
pub proof fn each_side_learns_the_other_s_key(
    a: &Identity,
    b: &Identity,
    a_nonce: &[u8; 32],
    b_nonce: &[u8; 32],
    a_heard: &[u8],
    b_heard: &[u8],
    a_sent: &mut Vec<u8>,
    b_sent: &mut Vec<u8>,
    ra: Result<PeerId, HandshakeError>,
    rb: Result<PeerId, HandshakeError>,
)
    requires
        a.public().len() == 32,
        b.public().len() == 32,
        old(a_sent)@.len() == 0,
        old(b_sent)@.len() == 0,
        call_ensures(crate::handshake::handshake_with, (a_heard, a_sent, a, a_nonce), ra),
        call_ensures(crate::handshake::handshake_with, (b_heard, b_sent, b, b_nonce), rb),
        a_heard@ == final(b_sent)@,
        b_heard@ == final(a_sent)@,
    ensures
        ra is Ok && ra->Ok_0@ == b.public(),
        rb is Ok && rb->Ok_0@ == a.public(),
{
    assert(final(a_sent)@.skip(0) =~= final(a_sent)@);
    assert(final(b_sent)@.skip(0) =~= final(b_sent)@);
    crate::handshake::both_sides_know_each_other(
        a.public(),
        b.public(),
        a_nonce@,
        b_nonce@,
        final(a_sent)@,
        final(b_sent)@,
    );
}

/// Whoever speaks another version is refused by the number of it, and whoever opens with anything
/// but our word is not one of us.
pub proof fn another_version_is_refused_by_number(
    said: Seq<u8>,
    me: Seq<u8>,
    nonce: Seq<u8>,
)
    requires
        said.len() >= 9,
    ensures
        ({
            let murmure: Seq<u8> = seq![109, 117, 114, 109, 117, 114, 101];
            let theirs = said[7] + 256 * said[8];
            &&& said.take(7) != murmure ==> outcome(me, nonce, said) == Err::<
                Seq<u8>,
                HandshakeError,
            >(HandshakeError::NotMurmure)
            &&& said.take(7) == murmure && theirs != 4 ==> outcome(me, nonce, said) == Err::<
                Seq<u8>,
                HandshakeError,
            >(HandshakeError::Version(theirs as u16))
            &&& said.take(7) == murmure && theirs == 4 && said.len() < 73 ==> outcome(
                me,
                nonce,
                said,
            ) == Err::<Seq<u8>, HandshakeError>(HandshakeError::Broken(Stage::Claim))
        }),
{
    let head = said.take(9);
    assert(head.take(7) =~= said.take(7));
    assert(head[7] == said[7] && head[8] == said[8]);
}

// --- files on disk --------------------------------------------------------------------

/// What is sealed opens under its key to what it was, and is longer by the forty bytes that
/// seal it.
pub proof fn what_is_sealed_opens(
    key: &[u8; 32],
    plaintext: &[u8],
    sealed: Result<Vec<u8>, StoreError>,
    stored: &[u8],
    opened: Result<Vec<u8>, StoreError>,
)
    requires
        call_ensures(crate::store::seal, (key, plaintext), sealed),
        sealed is Ok,
        stored@ == sealed->Ok_0@,
        call_ensures(crate::store::open, (key, stored), opened),
    ensures
        opened is Ok && opened->Ok_0@ == plaintext@,
        stored@.len() == plaintext@.len() + 40,
{
}

/// An identity that was written down is the same when it is read: its address and its discovery
/// key do not change, and can be filed by others.
pub proof fn an_identity_stays_the_same(
    id: &Identity,
    bytes: Vec<u8>,
    stored: &[u8],
    again: Result<Identity, SeedError>,
    address: String,
    address_again: String,
    key: String,
    key_again: String,
)
    requires
        call_ensures(Identity::stored, (id,), bytes),
        stored@ == bytes@,
        call_ensures(Identity::load, (stored,), again),
        call_ensures(Identity::onion_address, (id,), address),
        call_ensures(Identity::discovery_key, (id,), key),
        again is Ok ==> call_ensures(Identity::onion_address, (&again->Ok_0,), address_again),
        again is Ok ==> call_ensures(Identity::discovery_key, (&again->Ok_0,), key_again),
    ensures
        again is Ok,
        address_again@ == address@,
        key_again@ == key@,
        crate::onion::address_fault(address@) is None,
        discovery_key_ok(key@),
{
    crate::onion::derived_addresses_pass(address@);
}

/// A file is given its name only if what arrived is what was offered; otherwise it is put aside,
/// under a name that nothing else has. Either way it is the partial file that is moved.
pub proof fn only_what_was_offered_gets_its_name(
    dir: &str,
    offer: &Offer,
    got: &[u8; 32],
    taken: &[bool],
    r: Landing,
)
    requires
        call_ensures(crate::files::finish, (dir, offer, got, taken), r),
        dir@.len() > 0,
        dir@.last() != '/',
    ensures
        r is Keep ==> got@ == offer.hash@,
        got@ != offer.hash@ ==> r is Quarantine,
        r is Keep && taken@.len() == 0 ==> r->Keep_to@ == dir@ + seq!['/'] + kept_name(offer.name@),
        r is Keep ==> r->Keep_from@ == crate::files::joined(dir@, partial_name(offer.hash@)),
        r is Quarantine ==> r->Quarantine_from@ == crate::files::joined(
            dir@,
            partial_name(offer.hash@),
        ),
        r is Quarantine ==> r->Quarantine_to@ != r->Quarantine_from@,
{
    if r is Keep && taken@.len() == 0 {
        let name = kept_name(offer.name@);
        crate::files::a_kept_name_is_no_path(offer.name@);
        crate::laws::paths::the_first_free_place_is_taken(taken@, 0);
        assert(crate::files::numbered(name, 1) == name);
        crate::laws::paths::a_path_is_directory_and_name(dir@, name);
    }
    if r is Quarantine {
        crate::laws::paths::partials_are_kept_apart(offer.hash@, offer.hash@);
        reveal_strlit(".part");
        reveal_strlit(".corrupt");
        let p = partial_name(offer.hash@);
        let c = crate::files::corrupt_name(offer.hash@);
        assert(p.len() != c.len());
        crate::laws::paths::bytes_are_written_in_order(offer.hash@.take(16), 0);
        assert(p[0] == crate::files::hex_text(offer.hash@.take(16))[0]);
        assert(c[0] == p[0]);
        assert('/' as u32 == 47);
        assert(p[0] != '/');
        crate::laws::paths::a_path_is_directory_and_name(dir@, p);
        crate::laws::paths::a_path_is_directory_and_name(dir@, c);
        assert((dir@ + seq!['/'] + p).len() != (dir@ + seq!['/'] + c).len());
    }
}

// --- telling a friend -----------------------------------------------------------------

/// What `/copy` puts on the clipboard is what a friend types behind `/add` and a name: it files
/// exactly this address and this key.
pub proof fn what_is_copied_can_be_filed(
    s: &mut Session,
    address: &str,
    key: &str,
    now: u64,
    r: Vec<Do>,
    name: Seq<char>,
    line: &str,
    typed: Command,
)
    requires
        old(s).wf(),
        word(address@),
        word(key@),
        word(name),
        call_ensures(Session::command, (s, Command::Copy, address, key, now), r),
        r@.len() > 0,
        line@ == then_word("/add"@, then_word(name, dos(r@)[0]->Copy_0)),
        call_ensures(crate::command::parse, (line,), typed),
    ensures
        dos(r@)[0] is Copy,
        typed@ == CommandView::Add(name, address@, key@),
        final(s)@ == old(s)@,
{
    reveal_strlit(" ");
    let copied = dos(r@)[0]->Copy_0;
    assert(dos(r@)[0] is Copy);
    assert(copied =~= then_word(address@, key@));
    crate::laws::words::a_friend_is_filed_as_typed(name, address@, key@);
}

} // verus!
