//! What may travel, and in which bytes.

use vstd::prelude::*;
use vstd::string::*;
use vstd::utf8::*;

use crate::codec::{counted, list_bytes, varint};
use crate::message::{
    addr_bytes, message_bytes, piece_bytes, piece_writer, AddrView, FileView, MessageView,
    PieceView,
};
use crate::proto::{
    file_count, frame_bytes, length_fault, long_name, message_fault, next_frame, text_total,
    Fault,
};

verus! {

// --- what may travel ------------------------------------------------------------------

/// The files of a message are counted, whatever stands between them.
pub proof fn files_are_counted(pieces: Seq<PieceView>)
    ensures
        file_count(pieces) == pieces.filter(|p: PieceView| p is File).len(),
    decreases pieces.len(),
{
    reveal(Seq::filter);
    if pieces.len() > 0 {
        files_are_counted(pieces.drop_last());
    }
}

/// The text of a message is that of its pieces together: a file adds none, words add their
/// bytes, and where they stand makes no difference.
pub proof fn text_adds_up(pieces: Seq<PieceView>, t: Seq<char>, f: FileView, i: int)
    requires
        0 <= i <= pieces.len(),
    ensures
        text_total(Seq::empty()) == 0,
        text_total(pieces.insert(i, PieceView::Text(t))) == text_total(pieces) + encode_utf8(
            t,
        ).len(),
        text_total(pieces.insert(i, PieceView::File(f))) == text_total(pieces),
    decreases pieces.len(),
{
    let a = pieces.insert(i, PieceView::Text(t));
    let b = pieces.insert(i, PieceView::File(f));
    if i == pieces.len() {
        assert(a.drop_last() =~= pieces);
        assert(b.drop_last() =~= pieces);
    } else {
        text_adds_up(pieces.drop_last(), t, f, i);
        assert(a.drop_last() =~= pieces.drop_last().insert(i, PieceView::Text(t)));
        assert(b.drop_last() =~= pieces.drop_last().insert(i, PieceView::File(f)));
    }
}

/// A name is too long for a message as soon as any file in it has one.
pub open spec fn name_too_long(pieces: Seq<PieceView>, i: int) -> bool {
    0 <= i < pieces.len() && pieces[i] is File && encode_utf8((pieces[i]->File_0).name).len() > 255
}

proof fn long_names_are_found(pieces: Seq<PieceView>)
    ensures
        long_name(pieces) is Some <==> exists|i: int| name_too_long(pieces, i),
    decreases pieces.len(),
{
    if pieces.len() > 0 {
        let init = pieces.drop_last();
        long_names_are_found(init);
        if long_name(init) is Some {
            let i = choose|i: int| name_too_long(init, i);
            assert(name_too_long(pieces, i));
        } else if name_too_long(pieces, pieces.len() - 1) {
            assert(long_name(pieces) is Some);
        } else if exists|i: int| name_too_long(pieces, i) {
            let i = choose|i: int| name_too_long(pieces, i);
            assert(name_too_long(init, i));
        }
    }
}

/// Which messages may travel: a post with something in it, with at most 32768 bytes of text,
/// sixteen files and names of 255 bytes; words of at most 32768 bytes; a chunk of one byte up to
/// 32768; a direct link with one address up to eight. What says no more than its kind always may.
pub proof fn what_may_travel(m: MessageView)
    ensures
        message_fault(m) is None <==> match m {
            MessageView::Text(t) => encode_utf8(t).len() <= 32768,
            MessageView::Left { id: _, at: _, body } => encode_utf8(body).len() <= 32768,
            MessageView::FileOffer { name, size: _, hash: _, direct: _ } => encode_utf8(name).len()
                <= 255,
            MessageView::FileChunk(data) => 1 <= data.len() <= 32768,
            MessageView::Post { pieces, direct: _ } => {
                &&& pieces.len() > 0
                &&& text_total(pieces) <= 32768
                &&& pieces.filter(|p: PieceView| p is File).len() <= 16
                &&& !exists|i: int| name_too_long(pieces, i)
            },
            MessageView::FileAccept { hash: _, offset: _, direct: Some(d) } => 1
                <= d.candidates.len() <= 8,
            _ => true,
        },
{
    if let MessageView::Post { pieces, direct: _ } = m {
        files_are_counted(pieces);
        long_names_are_found(pieces);
    }
}

/// What is said to be wrong with a message is what is wrong with it.
pub proof fn a_fault_says_what_is_wrong(m: MessageView)
    requires
        message_fault(m) is Some,
    ensures
        match message_fault(m)->0 {
            Fault::TextTooLong(n) => {
                let len = if m is Text {
                    encode_utf8(m->Text_0).len()
                } else {
                    encode_utf8(m->body).len()
                };
                &&& m is Text || m is Left
                &&& len > 32768
                &&& len <= usize::MAX ==> n == len
            },
            Fault::NameTooLong(n) => {
                ||| m is FileOffer && encode_utf8(m->name).len() > 255 && (encode_utf8(
                    m->name,
                ).len() <= usize::MAX ==> n == encode_utf8(m->name).len())
                ||| m is Post && exists|i: int| name_too_long(m->pieces, i)
            },
            Fault::ChunkTooLong(n) => m is FileChunk && m->FileChunk_0.len() > 32768 && (
            m->FileChunk_0.len() <= usize::MAX ==> n == m->FileChunk_0.len()),
            Fault::ChunkEmpty => m is FileChunk && m->FileChunk_0.len() == 0,
            Fault::PostTextTooLong(n) => m is Post && text_total(m->pieces) > 32768,
            Fault::TooManyFiles(n) => m is Post && file_count(m->pieces) > 16,
            Fault::PostEmpty => m is Post && m->pieces.len() == 0,
            Fault::NoAddress => m is FileAccept && m->FileAccept_direct is Some
                && m->FileAccept_direct->0.candidates.len() == 0,
            Fault::TooManyAddresses(n) => m is FileAccept && m->FileAccept_direct is Some
                && m->FileAccept_direct->0.candidates.len() > 8,
        },
{
    if let MessageView::Post { pieces, direct: _ } = m {
        long_names_are_found(pieces);
    }
}

// --- in which bytes -------------------------------------------------------------------

/// A number is written seven bits at a time, the lowest first, and every byte but the last says
/// that more follow.
pub proof fn a_number_in_bytes(n: nat)
    ensures
        varint(n).len() > 0,
        varint(n)[0] % 128 == n % 128,
        n < 128 <==> varint(n).len() == 1,
        n < 128 ==> varint(n)[0] == n,
        n >= 128 ==> varint(n)[0] >= 128 && varint(n).skip(1) == varint(n / 128),
        forall|i: int| 0 <= i < varint(n).len() - 1 ==> #[trigger] varint(n)[i] >= 128,
        varint(n).last() < 128,
    decreases n,
{
    if n >= 128 {
        a_number_in_bytes(n / 128);
        let v = varint(n);
        let t = varint(n / 128);
        assert(v.skip(1) =~= t);
        assert forall|i: int| 0 <= i < v.len() - 1 implies #[trigger] v[i] >= 128 by {
            if i > 0 {
                assert(v[i] == t[i - 1]);
            }
        }
        assert(v.last() == t.last());
    }
}

/// Each kind of message is told by its first byte.
pub open spec fn kind_byte(m: MessageView) -> u8 {
    match m {
        MessageView::Text(_) => 0,
        MessageView::Post { pieces: _, direct: _ } => 1,
        MessageView::Ping => 2,
        MessageView::FileOffer { name: _, size: _, hash: _, direct: _ } => 3,
        MessageView::FileAccept { hash: _, offset: _, direct: _ } => 4,
        MessageView::FileReject { hash: _ } => 5,
        MessageView::DirectFailed => 6,
        MessageView::FileChunk(_) => 7,
        MessageView::FileDone => 8,
        MessageView::PresenceAsk => 9,
        MessageView::PresenceYes => 10,
        MessageView::PresenceNo => 11,
        MessageView::CallDecline => 12,
        MessageView::Left { id: _, at: _, body: _ } => 13,
        MessageView::Got(_) => 14,
    }
}

/// A message is the byte of its kind and, behind it, what it carries in the order in which it is
/// declared: bytes and texts behind their length, digests bare, a yes or no as one or zero.
pub proof fn a_message_in_bytes(m: MessageView)
    ensures
        message_bytes(m).len() > 0,
        message_bytes(m)[0] == kind_byte(m),
        match m {
            MessageView::Text(t) => message_bytes(m).skip(1) == varint(encode_utf8(t).len())
                + encode_utf8(t),
            MessageView::FileChunk(data) => message_bytes(m).skip(1) == varint(data.len()) + data,
            MessageView::FileReject { hash } => message_bytes(m).skip(1) == hash,
            MessageView::Got(id) => message_bytes(m).skip(1) == varint(id as nat),
            MessageView::Left { id, at, body } => message_bytes(m).skip(1) == varint(id as nat)
                + varint(at as nat) + varint(encode_utf8(body).len()) + encode_utf8(body),
            MessageView::FileOffer { name, size, hash, direct } => message_bytes(m).skip(1)
                == varint(encode_utf8(name).len()) + encode_utf8(name) + varint(size as nat) + hash
                + seq![if direct { 1u8 } else { 0u8 }],
            MessageView::FileAccept { hash, offset, direct: None } => message_bytes(m).skip(1)
                == hash + varint(offset as nat) + seq![0u8],
            MessageView::FileAccept { hash, offset, direct: Some(d) } => {
                &&& message_bytes(m).skip(1).take(hash.len() as int) == hash
                &&& message_bytes(m).len() >= d.fingerprint.len()
                &&& message_bytes(m).skip(message_bytes(m).len() - d.fingerprint.len())
                    == d.fingerprint
            },
            MessageView::Post { pieces, direct } => {
                &&& message_bytes(m).skip(1).drop_last() == varint(pieces.len()) + list_bytes(
                    pieces,
                    piece_writer(),
                )
                &&& message_bytes(m).last() == if direct {
                    1u8
                } else {
                    0u8
                }
            },
            _ => message_bytes(m).len() == 1,
        },
{
    let k = kind_byte(m) as nat;
    a_number_in_bytes(k);
    let b = message_bytes(m);
    let v = varint(k);
    assert(v =~= seq![k as u8]);
    match m {
        MessageView::Text(t) => {
            assert(b.skip(1) =~= varint(encode_utf8(t).len()) + encode_utf8(t));
        },
        MessageView::FileChunk(data) => {
            assert(b.skip(1) =~= varint(data.len()) + data);
        },
        MessageView::FileReject { hash } => {
            assert(b.skip(1) =~= hash);
        },
        MessageView::Got(id) => {
            assert(b.skip(1) =~= varint(id as nat));
        },
        MessageView::Left { id, at, body } => {
            assert(b.skip(1) =~= varint(id as nat) + varint(at as nat) + varint(
                encode_utf8(body).len(),
            ) + encode_utf8(body));
        },
        MessageView::FileOffer { name, size, hash, direct } => {
            assert(b.skip(1) =~= varint(encode_utf8(name).len()) + encode_utf8(name) + varint(
                size as nat,
            ) + hash + seq![if direct { 1u8 } else { 0u8 }]);
        },
        MessageView::FileAccept { hash, offset, direct } => {
            if let Some(d) = direct {
                assert(b.skip(1).take(hash.len() as int) =~= hash);
                assert(b.skip(b.len() - d.fingerprint.len()) =~= d.fingerprint);
            } else {
                assert(b.skip(1) =~= hash + varint(offset as nat) + seq![0u8]);
            }
        },
        MessageView::Post { pieces, direct } => {
            assert(b.skip(1).drop_last() =~= varint(pieces.len()) + list_bytes(
                pieces,
                piece_writer(),
            ));
        },
        _ => {},
    }
}

/// The pieces of a message are written one behind the other, each told by its first byte, and
/// the addresses of a link by theirs.
pub proof fn pieces_in_bytes(t: Seq<char>, f: FileView, ip: Seq<u8>, port: u16)
    ensures
        piece_bytes(PieceView::Text(t)) == seq![0u8] + varint(encode_utf8(t).len()) + encode_utf8(
            t,
        ),
        piece_bytes(PieceView::File(f)) == seq![1u8] + varint(encode_utf8(f.name).len())
            + encode_utf8(f.name) + varint(f.size as nat) + f.hash,
        addr_bytes(AddrView::V4(ip, port)) == seq![0u8] + ip + varint(port as nat),
        addr_bytes(AddrView::V6(ip, port)) == seq![1u8] + ip + varint(port as nat),
{
    a_number_in_bytes(0);
    a_number_in_bytes(1);
    assert(varint(0) =~= seq![0u8]);
    assert(varint(1) =~= seq![1u8]);
    assert(piece_bytes(PieceView::Text(t)) =~= seq![0u8] + varint(encode_utf8(t).len())
        + encode_utf8(t));
    assert(piece_bytes(PieceView::File(f)) =~= seq![1u8] + varint(encode_utf8(f.name).len())
        + encode_utf8(f.name) + varint(f.size as nat) + f.hash);
    assert(addr_bytes(AddrView::V4(ip, port)) =~= seq![0u8] + ip + varint(port as nat));
    assert(addr_bytes(AddrView::V6(ip, port)) =~= seq![1u8] + ip + varint(port as nat));
}

/// A frame is four bytes of length, the lowest first, and the message.
pub proof fn a_frame_in_bytes(m: MessageView)
    requires
        message_bytes(m).len() <= 65536,
    ensures
        frame_bytes(m).len() == 4 + message_bytes(m).len(),
        frame_bytes(m).skip(4) == message_bytes(m),
        frame_bytes(m)[0] + frame_bytes(m)[1] * 256 + frame_bytes(m)[2] * 65536 + frame_bytes(m)[3]
            * 16777216 == message_bytes(m).len(),
{
    assert(frame_bytes(m).skip(4) =~= message_bytes(m));
}

/// No frame is empty, and none is longer than 65536 bytes; a stream may only end between two.
pub proof fn no_frame_is_too_long(n: nat, b: Seq<u8>)
    ensures
        length_fault(n) is None <==> 1 <= n <= 65536,
        next_frame(b) is End <==> b.len() == 0,
        next_frame(b) is Frame ==> 5 <= next_frame(b)->Frame_1 <= b.len() && next_frame(b)->Frame_1
            <= 65540,
        next_frame(b) is Frame ==> next_frame(b)->Frame_1 == 4 + b[0] + b[1] * 256 + b[2] * 65536
            + b[3] * 16777216,
{
    if b.len() >= 4 {
        let t = b.take(4);
        assert(t[0] == b[0] && t[1] == b[1] && t[2] == b[2] && t[3] == b[3]);
    }
}

} // verus!
