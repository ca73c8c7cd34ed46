//! Frames: one message each, behind its length.
//!
//! Closing a stream delimits nothing here. A frame's length says where it ends, and the limits
//! on a message hold on the way out and on the way in.

use vstd::prelude::*;
use vstd::string::*;
use vstd::utf8::*;

use crate::codec::{
    add_raw, list_bytes, list_bytes_last, varint, varint_end, varint_len, Garbled,
};
use crate::message::{
    addr_bytes, addr_real, addr_writer, decode, decoded, encode, file_bytes, message_back,
    message_bytes, message_real, piece_bytes, piece_real, piece_views, piece_writer, AddrView,
    FileView, Message, MessageView, Piece, PieceView,
};
use crate::text::{contains, decimal, decimal_text, is_in};

verus! {

/// Largest frame accepted, in bytes.
pub const MAX_FRAME: usize = 65536;

/// Longest text body accepted, in bytes of UTF-8.
pub const MAX_TEXT: usize = 32768;

/// Bytes of file data in one [`Message::FileChunk`].
pub const MAX_CHUNK: usize = 32768;

/// Longest filename accepted from a peer, in bytes.
pub const MAX_NAME: usize = 255;

/// Most addresses a peer may offer for a direct link.
pub const MAX_CANDIDATES: usize = 8;

/// Most files one message may carry.
pub const MAX_FILES: usize = 16;

/// What makes a message one that may not be sent.
#[derive(Clone, Copy, Debug, PartialEq, Eq, Structural)]
pub enum Fault {
    /// A text longer than allowed; its bytes.
    TextTooLong(usize),
    /// A filename longer than allowed; its bytes.
    NameTooLong(usize),
    /// A chunk longer than allowed; its bytes.
    ChunkTooLong(usize),
    /// A chunk without data.
    ChunkEmpty,
    /// The texts of a post, taken together, are longer than allowed; their bytes.
    PostTextTooLong(u128),
    /// More files in a post than allowed; how many.
    TooManyFiles(usize),
    /// A post without pieces.
    PostEmpty,
    /// A direct link agreed to, without an address.
    NoAddress,
    /// A direct link with more addresses than allowed; how many.
    TooManyAddresses(usize),
}

/// The number of bytes in a text.
pub open spec fn utf8_len(t: Seq<char>) -> nat {
    encode_utf8(t).len()
}

/// The bytes of text in these pieces, taken together.
pub open spec fn text_total(pieces: Seq<PieceView>) -> nat
    decreases pieces.len(),
{
    if pieces.len() == 0 {
        0
    } else {
        text_total(pieces.drop_last()) + match pieces.last() {
            PieceView::Text(t) => utf8_len(t),
            PieceView::File(_) => 0,
        }
    }
}

/// How many of these pieces are files.
pub open spec fn file_count(pieces: Seq<PieceView>) -> nat
    decreases pieces.len(),
{
    if pieces.len() == 0 {
        0
    } else {
        file_count(pieces.drop_last()) + if pieces.last() is File {
            1nat
        } else {
            0
        }
    }
}

/// The first filename among these pieces that is too long, by its bytes.
pub open spec fn long_name(pieces: Seq<PieceView>) -> Option<nat>
    decreases pieces.len(),
{
    if pieces.len() == 0 {
        None
    } else {
        match long_name(pieces.drop_last()) {
            Some(n) => Some(n),
            None => match pieces.last() {
                PieceView::File(f) => if utf8_len(f.name) > MAX_NAME {
                    Some(utf8_len(f.name))
                } else {
                    None
                },
                PieceView::Text(_) => None,
            },
        }
    }
}

/// What is wrong with the pieces of a post, if anything is.
pub open spec fn post_fault(pieces: Seq<PieceView>) -> Option<Fault> {
    if text_total(pieces) > MAX_TEXT {
        Some(Fault::PostTextTooLong(text_total(pieces) as u128))
    } else if file_count(pieces) > MAX_FILES {
        Some(Fault::TooManyFiles(file_count(pieces) as usize))
    } else {
        match long_name(pieces) {
            Some(n) => Some(Fault::NameTooLong(n as usize)),
            None => if pieces.len() == 0 {
                Some(Fault::PostEmpty)
            } else {
                None
            },
        }
    }
}

/// What is wrong with a message, if anything is.
pub open spec fn message_fault(m: MessageView) -> Option<Fault> {
    match m {
        MessageView::Text(body) | MessageView::Left { body, .. } => if utf8_len(body) > MAX_TEXT {
            Some(Fault::TextTooLong(utf8_len(body) as usize))
        } else {
            None
        },
        MessageView::FileOffer { name, .. } => if utf8_len(name) > MAX_NAME {
            Some(Fault::NameTooLong(utf8_len(name) as usize))
        } else {
            None
        },
        MessageView::FileChunk(data) => if data.len() > MAX_CHUNK {
            Some(Fault::ChunkTooLong(data.len() as usize))
        } else if data.len() == 0 {
            Some(Fault::ChunkEmpty)
        } else {
            None
        },
        MessageView::Post { pieces, .. } => post_fault(pieces),
        MessageView::FileAccept { direct: Some(d), .. } => if d.candidates.len() == 0 {
            Some(Fault::NoAddress)
        } else if d.candidates.len() > MAX_CANDIDATES {
            Some(Fault::TooManyAddresses(d.candidates.len() as usize))
        } else {
            None
        },
        _ => None,
    }
}

impl Fault {
    /// What is said of it.
    pub open spec fn said(self) -> Seq<char> {
        match self {
            Fault::TextTooLong(n) => "text body is "@ + decimal_text(n as nat)
                + " bytes, over the 32768-byte limit"@,
            Fault::NameTooLong(n) => "filename is "@ + decimal_text(n as nat)
                + " bytes, over the 255-byte limit"@,
            Fault::ChunkTooLong(n) => "file chunk is "@ + decimal_text(n as nat)
                + " bytes, over the 32768-byte limit"@,
            Fault::ChunkEmpty => "an empty file chunk says nothing; FileDone ends a transfer"@,
            Fault::PostTextTooLong(n) => "message text is "@ + decimal_text(n as nat)
                + " bytes, over the 32768-byte limit"@,
            Fault::TooManyFiles(n) => "a message carrying "@ + decimal_text(n as nat)
                + " files is over the 16 limit"@,
            Fault::PostEmpty => "an empty message says nothing"@,
            Fault::NoAddress => "a direct link was agreed to but no address was given"@,
            Fault::TooManyAddresses(n) => "the peer offered "@ + decimal_text(n as nat)
                + " addresses for a direct link, over the 8 limit"@,
        }
    }

    /// Say what is wrong.
    pub fn describe(&self) -> (r: String)
        ensures
            r@ == self.said(),
    {
        match self {
            Fault::TextTooLong(n) => counted_fault(
                "text body is ",
                *n as u128,
                " bytes, over the 32768-byte limit",
            ),
            Fault::NameTooLong(n) => counted_fault(
                "filename is ",
                *n as u128,
                " bytes, over the 255-byte limit",
            ),
            Fault::ChunkTooLong(n) => counted_fault(
                "file chunk is ",
                *n as u128,
                " bytes, over the 32768-byte limit",
            ),
            Fault::ChunkEmpty => "an empty file chunk says nothing; FileDone ends a transfer".to_owned(),
            Fault::PostTextTooLong(n) => counted_fault(
                "message text is ",
                *n,
                " bytes, over the 32768-byte limit",
            ),
            Fault::TooManyFiles(n) => counted_fault(
                "a message carrying ",
                *n as u128,
                " files is over the 16 limit",
            ),
            Fault::PostEmpty => "an empty message says nothing".to_owned(),
            Fault::NoAddress => "a direct link was agreed to but no address was given".to_owned(),
            Fault::TooManyAddresses(n) => counted_fault(
                "the peer offered ",
                *n as u128,
                " addresses for a direct link, over the 8 limit",
            ),
        }
    }
}

/// A number between two texts.
fn counted_fault(before: &str, n: u128, behind: &str) -> (r: String)
    ensures
        r@ == before@ + decimal_text(n as nat) + behind@,
{
    let mut s = before.to_owned();
    s.append(decimal(n).as_str());
    s.append(behind);
    s
}

proof fn text_total_step(pieces: Seq<PieceView>, i: int)
    requires
        0 <= i < pieces.len(),
    ensures
        text_total(pieces.take(i + 1)) == text_total(pieces.take(i)) + match pieces[i] {
            PieceView::Text(t) => utf8_len(t),
            PieceView::File(_) => 0,
        },
        file_count(pieces.take(i + 1)) == file_count(pieces.take(i)) + if pieces[i] is File {
            1nat
        } else {
            0
        },
        long_name(pieces.take(i + 1)) == match long_name(pieces.take(i)) {
            Some(n) => Some(n),
            None => match pieces[i] {
                PieceView::File(f) => if utf8_len(f.name) > MAX_NAME {
                    Some(utf8_len(f.name))
                } else {
                    None
                },
                PieceView::Text(_) => None,
            },
        },
{
    assert(pieces.take(i + 1).drop_last() =~= pieces.take(i));
    assert(pieces.take(i + 1).last() == pieces[i]);
}

/// Check the pieces of a post.
fn check_post(pieces: &Vec<Piece>) -> (r: Result<(), Fault>)
    ensures
        match r {
            Ok(_) => post_fault(piece_views(pieces@)) is None,
            Err(f) => post_fault(piece_views(pieces@)) == Some(f),
        },
{
    let ghost views = piece_views(pieces@);
    let mut text: u128 = 0;
    let mut files: usize = 0;
    let mut long: Option<usize> = None;
    let mut i: usize = 0;
    while i < pieces.len()
        invariant
            i <= pieces@.len(),
            views == piece_views(pieces@),
            text == text_total(views.take(i as int)),
            text <= i * usize::MAX,
            files == file_count(views.take(i as int)),
            files <= i,
            match long {
                Some(n) => long_name(views.take(i as int)) == Some(n as nat),
                None => long_name(views.take(i as int)) is None,
            },
        decreases pieces@.len() - i,
    {
        proof {
            text_total_step(views, i as int);
            assert(views[i as int] == pieces@[i as int]@);
            assert(i * usize::MAX + usize::MAX == (i + 1) * usize::MAX) by (nonlinear_arith);
            assert(i * usize::MAX <= 0xffff_ffff_ffff_ffff * 0xffff_ffff_ffff_ffff) by (nonlinear_arith)
                requires
                    i <= 0xffff_ffff_ffff_ffff,
                    usize::MAX <= 0xffff_ffff_ffff_ffff,
            ;
        }
        match &pieces[i] {
            Piece::Text(t) => {
                text = text + t.as_str().as_bytes().len() as u128;
            },
            Piece::File(f) => {
                files = files + 1;
                let n: usize = f.name.as_str().as_bytes().len();
                if long.is_none() && n > MAX_NAME {
                    long = Some(n);
                }
            },
        }
        i = i + 1;
    }
    assert(views.take(i as int) =~= views);
    if text > MAX_TEXT as u128 {
        return Err(Fault::PostTextTooLong(text));
    }
    if files > MAX_FILES {
        return Err(Fault::TooManyFiles(files));
    }
    match long {
        Some(n) => Err(Fault::NameTooLong(n)),
        None => if pieces.len() == 0 {
            Err(Fault::PostEmpty)
        } else {
            Ok(())
        },
    }
}

impl Message {
    /// Reject a message that cannot legally be sent.
    pub fn check(&self) -> (r: Result<(), Fault>)
        ensures
            match r {
                Ok(_) => message_fault(self@) is None,
                Err(f) => message_fault(self@) == Some(f),
            },
    {
        match self {
            Message::Text(body) => {
                let n: usize = body.as_str().as_bytes().len();
                if n > MAX_TEXT {
                    return Err(Fault::TextTooLong(n));
                }
                Ok(())
            },
            Message::Left { body, .. } => {
                let n: usize = body.as_str().as_bytes().len();
                if n > MAX_TEXT {
                    return Err(Fault::TextTooLong(n));
                }
                Ok(())
            },
            Message::FileOffer { name, .. } => {
                let n: usize = name.as_str().as_bytes().len();
                if n > MAX_NAME {
                    return Err(Fault::NameTooLong(n));
                }
                Ok(())
            },
            Message::FileChunk(data) => {
                let n: usize = data.len();
                if n > MAX_CHUNK {
                    Err(Fault::ChunkTooLong(n))
                } else if n == 0 {
                    Err(Fault::ChunkEmpty)
                } else {
                    Ok(())
                }
            },
            Message::Post { pieces, .. } => check_post(pieces),
            Message::FileAccept { direct, .. } => match direct {
                Some(d) => {
                    let n: usize = d.candidates.len();
                    if n == 0 {
                        Err(Fault::NoAddress)
                    } else if n > MAX_CANDIDATES {
                        Err(Fault::TooManyAddresses(n))
                    } else {
                        Ok(())
                    }
                },
                None => Ok(()),
            },
            _ => Ok(()),
        }
    }
}

/// What can go wrong with a frame.
#[derive(Clone, Copy, Debug, PartialEq, Eq, Structural)]
pub enum FrameError {
    /// The message is not one that may be sent.
    Illegal(Fault),
    /// Encoded, the message is larger than a frame may be; its bytes.
    Oversize(usize),
    /// A frame of no bytes was announced.
    Zero,
    /// A frame larger than allowed was announced; its bytes.
    TooLong(usize),
    /// The stream ended in the middle; how much was there, and how much was expected.
    Cut { filled: usize, expected: usize },
    /// The stream ended between a length and its body; the length.
    NoBody(usize),
    /// The body is not a message.
    Undecodable(Garbled),
}

impl FrameError {
    /// What is said of it.
    pub open spec fn said(self) -> Seq<char> {
        match self {
            FrameError::Illegal(f) => f.said(),
            FrameError::Oversize(n) => "encoded frame is "@ + decimal_text(n as nat)
                + " bytes, over MAX_FRAME"@,
            FrameError::Zero => "peer announced a zero-length frame"@,
            FrameError::TooLong(n) => "peer announced a "@ + decimal_text(n as nat)
                + "-byte frame, over the 65536-byte limit"@,
            FrameError::Cut { filled, expected } => "stream ended after "@ + decimal_text(
                filled as nat,
            ) + " of "@ + decimal_text(expected as nat) + " expected bytes"@,
            FrameError::NoBody(n) => "stream ended inside a "@ + decimal_text(n as nat)
                + "-byte frame"@,
            FrameError::Undecodable(e) => "decoding a frame: "@ + e.said(),
        }
    }

    /// Say what went wrong.
    pub fn describe(&self) -> (r: String)
        ensures
            r@ == self.said(),
    {
        match self {
            FrameError::Illegal(f) => f.describe(),
            FrameError::Oversize(n) => counted_fault(
                "encoded frame is ",
                *n as u128,
                " bytes, over MAX_FRAME",
            ),
            FrameError::Zero => "peer announced a zero-length frame".to_owned(),
            FrameError::TooLong(n) => counted_fault(
                "peer announced a ",
                *n as u128,
                "-byte frame, over the 65536-byte limit",
            ),
            FrameError::Cut { filled, expected } => {
                let mut s = counted_fault("stream ended after ", *filled as u128, " of ");
                s.append(decimal(*expected as u128).as_str());
                s.append(" expected bytes");
                s
            },
            FrameError::NoBody(n) => counted_fault(
                "stream ended inside a ",
                *n as u128,
                "-byte frame",
            ),
            FrameError::Undecodable(e) => {
                let mut s = "decoding a frame: ".to_owned();
                s.append(e.describe().as_str());
                s
            },
        }
    }
}

/// Four bytes, the lowest first.
pub open spec fn le32(n: nat) -> Seq<u8> {
    seq![
        (n % 256) as u8,
        (n / 256 % 256) as u8,
        (n / 65536 % 256) as u8,
        (n / 16777216 % 256) as u8,
    ]
}

/// The number that four bytes stand for, the lowest first.
pub open spec fn le32_value(b: Seq<u8>) -> nat {
    (b[0] + 256 * b[1] + 65536 * b[2] + 16777216 * b[3]) as nat
}

/// A number below 2^32 comes back from its four bytes.
pub proof fn le32_back(n: nat)
    requires
        n < 0x1_0000_0000,
    ensures
        le32_value(le32(n)) == n,
{
}

/// The bytes of a frame.
pub open spec fn frame_bytes(m: MessageView) -> Seq<u8> {
    le32(message_bytes(m).len()) + message_bytes(m)
}

/// Why a message cannot be written as a frame, if it cannot.
pub open spec fn write_fault(m: MessageView) -> Option<FrameError> {
    match message_fault(m) {
        Some(f) => Some(FrameError::Illegal(f)),
        None => if message_bytes(m).len() > MAX_FRAME {
            Some(FrameError::Oversize(message_bytes(m).len() as usize))
        } else {
            None
        },
    }
}

/// Append a message to `out` as one frame. Nothing is appended where it fails.
pub fn write_frame(out: &mut Vec<u8>, msg: &Message) -> (r: Result<(), FrameError>)
    ensures
        message_real(msg@),
        match r {
            Ok(_) => write_fault(msg@) is None && final(out)@ == old(out)@ + frame_bytes(msg@),
            Err(e) => write_fault(msg@) == Some(e) && final(out)@ == old(out)@,
        },
{
    let body = encode(msg);
    match msg.check() {
        Err(f) => {
            return Err(FrameError::Illegal(f));
        },
        Ok(_) => {},
    }
    let n: usize = body.len();
    if n > MAX_FRAME {
        return Err(FrameError::Oversize(n));
    }
    out.push((n % 256) as u8);
    out.push((n / 256 % 256) as u8);
    out.push((n / 65536 % 256) as u8);
    out.push((n / 16777216 % 256) as u8);
    add_raw(out, body.as_slice());
    assert(out@ =~= old(out)@ + frame_bytes(msg@));
    Ok(())
}

/// What a stream begins with.
#[verifier::ext_equal]
pub enum Next {
    /// Nothing more: the peer hung up between frames.
    End,
    /// A message, and how many bytes its frame took.
    Frame(MessageView, nat),
    /// Something that is no frame.
    Broken(FrameError),
}

/// What a length prefix announces, or what is wrong with it.
pub open spec fn length_fault(n: nat) -> Option<FrameError> {
    if n == 0 {
        Some(FrameError::Zero)
    } else if n > MAX_FRAME {
        Some(FrameError::TooLong(n as usize))
    } else {
        None
    }
}

/// What a body holds, or what is wrong with it.
pub open spec fn body_result(body: Seq<u8>) -> Result<MessageView, FrameError> {
    match decoded(body) {
        Err(e) => Err(FrameError::Undecodable(e)),
        Ok(m) => match message_fault(m) {
            Some(f) => Err(FrameError::Illegal(f)),
            None => Ok(m),
        },
    }
}

/// What comes next on a stream that carries these bytes and then ends.
pub open spec fn next_frame(b: Seq<u8>) -> Next {
    if b.len() == 0 {
        Next::End
    } else if b.len() < 4 {
        Next::Broken(FrameError::Cut { filled: b.len() as usize, expected: 4 })
    } else {
        let n = le32_value(b.take(4));
        let rest = b.skip(4);
        match length_fault(n) {
            Some(e) => Next::Broken(e),
            None => if rest.len() == 0 {
                Next::Broken(FrameError::NoBody(n as usize))
            } else if rest.len() < n {
                Next::Broken(FrameError::Cut { filled: rest.len() as usize, expected: n as usize })
            } else {
                match body_result(rest.take(n as int)) {
                    Ok(m) => Next::Frame(m, 4 + n),
                    Err(e) => Next::Broken(e),
                }
            },
        }
    }
}

/// Read the length prefix of a frame: how many bytes of body follow.
pub fn frame_len(head: &[u8]) -> (r: Result<usize, FrameError>)
    requires
        head@.len() == 4,
    ensures
        match r {
            Ok(n) => n == le32_value(head@) && length_fault(n as nat) is None,
            Err(e) => length_fault(le32_value(head@)) == Some(e),
        },
{
    let n: u64 = head[0] as u64 + 256 * head[1] as u64 + 65536 * head[2] as u64 + 16777216
        * head[3] as u64;
    let n: usize = n as usize;
    if n == 0 {
        Err(FrameError::Zero)
    } else if n > MAX_FRAME {
        Err(FrameError::TooLong(n))
    } else {
        Ok(n)
    }
}

/// Read the body of a frame.
pub fn frame_body(body: &[u8]) -> (r: Result<Message, FrameError>)
    ensures
        match r {
            Ok(m) => body_result(body@) == Ok::<MessageView, FrameError>(m@),
            Err(e) => body_result(body@) == Err::<MessageView, FrameError>(e),
        },
{
    match decode(body) {
        Err(e) => Err(FrameError::Undecodable(e)),
        Ok(m) => match m.check() {
            Err(f) => Err(FrameError::Illegal(f)),
            Ok(_) => Ok(m),
        },
    }
}

/// Read one frame from a stream that carries `b` and then ends: the message and the bytes
/// behind it, or nothing where the peer hung up between frames.
pub fn read_frame(b: &[u8]) -> (r: Result<Option<(Message, &[u8])>, FrameError>)
    ensures
        match r {
            Ok(None) => next_frame(b@) == Next::End,
            Ok(Some((m, rest))) => {
                &&& next_frame(b@) == Next::Frame(m@, (b@.len() - rest@.len()) as nat)
                &&& rest@.len() < b@.len()
                &&& rest@ == b@.skip(b@.len() - rest@.len())
            },
            Err(e) => next_frame(b@) == Next::Broken(e),
        },
{
    if b.len() == 0 {
        return Ok(None);
    }
    if b.len() < 4 {
        return Err(FrameError::Cut { filled: b.len(), expected: 4 });
    }
    let (head, rest) = b.split_at(4);
    proof {
        assert(head@ =~= b@.take(4));
        assert(rest@ =~= b@.skip(4));
    }
    match frame_len(head) {
        Err(e) => Err(e),
        Ok(n) => {
            if rest.len() == 0 {
                return Err(FrameError::NoBody(n));
            }
            if rest.len() < n {
                return Err(FrameError::Cut { filled: rest.len(), expected: n });
            }
            let (body, more) = rest.split_at(n);
            proof {
                assert(body@ =~= rest@.take(n as int));
                assert(more@ =~= b@.skip(4 + n));
            }
            match frame_body(body) {
                Err(e) => Err(e),
                Ok(m) => Ok(Some((m, more))),
            }
        },
    }
}

/// A frame that arrives piece by piece.
pub struct FrameReader {
    /// What has arrived of the frame so far, length prefix first.
    pub got: Vec<u8>,
}

/// What a reader holds and is waiting for.
impl FrameReader {
    /// What is held is the beginning of one frame, not all of it.
    pub open spec fn wf(&self) -> bool {
        &&& self.got@.len() >= 4 ==> length_fault(le32_value(self.got@.take(4))) is None
            && self.got@.len() < 4 + le32_value(self.got@.take(4))
    }

    /// How many bytes complete what is being read: the prefix, then the body.
    pub open spec fn missing(&self) -> nat {
        if self.got@.len() < 4 {
            (4 - self.got@.len()) as nat
        } else {
            (4 + le32_value(self.got@.take(4)) - self.got@.len()) as nat
        }
    }

    /// Between two frames.
    pub fn new() -> (r: FrameReader)
        ensures
            r.wf(),
            r.got@.len() == 0,
    {
        FrameReader { got: Vec::new() }
    }

    /// How many bytes to ask the stream for.
    pub fn wanted(&self) -> (r: usize)
        requires
            self.wf(),
        ensures
            r == self.missing(),
            r > 0,
    {
        let have: usize = self.got.len();
        if have < 4 {
            4 - have
        } else {
            let head = vstd::slice::slice_subrange(self.got.as_slice(), 0, 4);
            assert(head@ =~= self.got@.take(4));
            match frame_len(head) {
                Ok(n) => (4 + n) - have,
                Err(_) => 0,
            }
        }
    }

    /// Take some bytes off the stream, no more than were wanted. A message comes out when
    /// its last byte does.
    pub fn feed(&mut self, chunk: &[u8]) -> (r: Result<Option<Message>, FrameError>)
        requires
            old(self).wf(),
            0 < chunk@.len() <= old(self).missing(),
        ensures
            ({
                let all = old(self).got@ + chunk@;
                let n = le32_value(all.take(4));
                if all.len() < 4 {
                    r == Ok::<Option<Message>, FrameError>(None) && final(self).got@ == all
                        && final(self).wf()
                } else if length_fault(n) is Some {
                    r == Err::<Option<Message>, FrameError>(length_fault(n)->0)
                        && final(self).got@ == all
                } else if all.len() < 4 + n {
                    r == Ok::<Option<Message>, FrameError>(None) && final(self).got@ == all
                        && final(self).wf()
                } else {
                    &&& final(self).got@.len() == 0
                    &&& final(self).wf()
                    &&& match r {
                        Ok(Some(m)) => next_frame(all) == Next::Frame(m@, all.len()),
                        Ok(None) => false,
                        Err(e) => next_frame(all) == Next::Broken(e),
                    }
                }
            }),
    {
        let ghost before = self.got@;
        add_raw(&mut self.got, chunk);
        let ghost all = self.got@;
        if self.got.len() < 4 {
            return Ok(None);
        }
        let head = vstd::slice::slice_subrange(self.got.as_slice(), 0, 4);
        assert(head@ =~= all.take(4));
        proof {
            if before.len() >= 4 {
                assert(before.take(4) =~= all.take(4));
            }
        }
        match frame_len(head) {
            Err(e) => Err(e),
            Ok(n) => {
                if self.got.len() < 4 + n {
                    return Ok(None);
                }
                let body = vstd::slice::slice_subrange(self.got.as_slice(), 4, 4 + n);
                assert(body@ =~= all.skip(4).take(n as int));
                let r = frame_body(body);
                self.got = Vec::new();
                match r {
                    Ok(m) => Ok(Some(m)),
                    Err(e) => Err(e),
                }
            },
        }
    }

    /// The stream ended. Between frames that is a hang-up; inside one it is an error.
    pub fn ended(&self) -> (r: Result<(), FrameError>)
        requires
            self.wf(),
        ensures
            match r {
                Ok(_) => next_frame(self.got@) == Next::End,
                Err(e) => next_frame(self.got@) == Next::Broken(e),
            },
    {
        match read_frame(self.got.as_slice()) {
            Err(e) => Err(e),
            Ok(_) => Ok(()),
        }
    }
}

/// What the transport says of a read that failed.
#[derive(Clone, Copy, Debug, PartialEq, Eq, Structural)]
pub enum ReadFailure {
    NotConnected,
    ConnectionReset,
    ConnectionAborted,
    Other,
}

/// A failed read is the other side hanging up: by its kind, or by what the transport says.
pub open spec fn hangup(kind: ReadFailure, text: Seq<char>) -> bool {
    kind != ReadFailure::Other || contains(text, "END cell"@) || contains(text, "stream closed"@)
        || contains(text, "not connected"@)
}

/// Is this read error just the other side hanging up?
pub fn is_hangup(kind: ReadFailure, text: &str) -> (r: bool)
    ensures
        r == hangup(kind, text@),
{
    match kind {
        ReadFailure::Other => is_in("END cell", text) || is_in("stream closed", text) || is_in(
            "not connected",
            text,
        ),
        _ => true,
    }
}

/// The frames of these messages, one after the other.
pub open spec fn wire(ms: Seq<MessageView>) -> Seq<u8>
    decreases ms.len(),
{
    if ms.len() == 0 {
        Seq::empty()
    } else {
        frame_bytes(ms[0]) + wire(ms.drop_first())
    }
}

/// Every message that can be written is read back as it was, and the bytes behind its frame
/// are left for what follows.
pub proof fn frame_comes_back(m: MessageView, rest: Seq<u8>)
    requires
        message_real(m),
        write_fault(m) is None,
    ensures
        next_frame(frame_bytes(m) + rest) == Next::Frame(m, frame_bytes(m).len()),
        (frame_bytes(m) + rest).skip(frame_bytes(m).len() as int) == rest,
{
    let n = message_bytes(m).len();
    message_not_empty(m);
    le32_back(n);
    frame_splits(message_bytes(m), rest);
    message_back(m, Seq::empty());
    assert(message_bytes(m) + Seq::<u8>::empty() =~= message_bytes(m));
}

proof fn frame_splits(body: Seq<u8>, rest: Seq<u8>)
    ensures
        ({
            let f = le32(body.len()) + body;
            let b = f + rest;
            &&& b.take(4) == le32(body.len())
            &&& b.skip(4) == body + rest
            &&& b.skip(4).take(body.len() as int) == body
            &&& b.skip(f.len() as int) == rest
            &&& f.len() == 4 + body.len()
        }),
{
    let f = le32(body.len()) + body;
    let b = f + rest;
    assert(b.take(4) =~= le32(body.len()));
    assert(b.skip(4) =~= body + rest);
    assert(b.skip(4).take(body.len() as int) =~= body);
    assert(b.skip(f.len() as int) =~= rest);
}

/// A conversation survives the wire: written one after the other, the messages are read in
/// the same order, and the stream ends where the last one does.
pub proof fn frames_come_back_in_sequence(ms: Seq<MessageView>)
    requires
        forall|i: int| 0 <= i < ms.len() ==> message_real(#[trigger] ms[i]),
        forall|i: int| 0 <= i < ms.len() ==> write_fault(#[trigger] ms[i]) is None,
    ensures
        ms.len() == 0 ==> next_frame(wire(ms)) == Next::End,
        ms.len() > 0 ==> next_frame(wire(ms)) == Next::Frame(ms[0], frame_bytes(ms[0]).len()),
        ms.len() > 0 ==> wire(ms).skip(frame_bytes(ms[0]).len() as int) == wire(ms.drop_first()),
{
    if ms.len() > 0 {
        frame_comes_back(ms[0], wire(ms.drop_first()));
    }
}

/// A frame that breaks off anywhere but at its end is an error, never a message.
pub proof fn a_cut_frame_is_an_error(m: MessageView, k: int)
    requires
        write_fault(m) is None,
        0 < k < frame_bytes(m).len(),
    ensures
        next_frame(frame_bytes(m).take(k)) is Broken,
{
    let b = frame_bytes(m).take(k);
    let n = message_bytes(m).len();
    le32_back(n);
    if k >= 4 {
        assert(b.take(4) =~= le32(n));
        assert(b.skip(4).len() == k - 4);
    }
}

/// A number that fits in 21 bits takes at most three bytes.
proof fn short_varint(n: nat)
    requires
        n < 2097152,
    ensures
        1 <= varint(n).len() <= 3,
{
    reveal_with_fuel(varint_end, 4);
    varint_len(n, 3);
}

/// No number takes more than ten bytes.
proof fn any_varint(n: u64)
    ensures
        1 <= varint(n as nat).len() <= 10,
{
    reveal_with_fuel(varint_end, 11);
    varint_len(n as nat, 10);
}

proof fn file_size(f: FileView)
    requires
        utf8_len(f.name) <= MAX_NAME,
        f.hash.len() == 32,
    ensures
        file_bytes(f).len() <= 300,
{
    short_varint(utf8_len(f.name));
    any_varint(f.size);
}

/// How many bytes a piece of a message takes on the wire.
pub open spec fn piece_room(p: PieceView) -> nat {
    match p {
        PieceView::Text(t) => 1 + varint(utf8_len(t)).len() + utf8_len(t),
        PieceView::File(f) => 1 + varint(utf8_len(f.name)).len() + utf8_len(f.name) + varint(
            f.size as nat,
        ).len() + 32,
    }
}

/// How many bytes these pieces take on the wire.
pub open spec fn pieces_room(pieces: Seq<PieceView>) -> nat
    decreases pieces.len(),
{
    if pieces.len() == 0 {
        0
    } else {
        pieces_room(pieces.drop_last()) + piece_room(pieces.last())
    }
}

/// How many bytes a post of these pieces takes on the wire.
pub open spec fn post_room(pieces: Seq<PieceView>) -> nat {
    2 + varint(pieces.len()).len() + pieces_room(pieces)
}

proof fn pieces_size(pieces: Seq<PieceView>)
    requires
        long_name(pieces) is None,
        text_total(pieces) <= MAX_TEXT,
        forall|i: int| 0 <= i < pieces.len() ==> match #[trigger] pieces[i] {
            PieceView::File(f) => f.hash.len() == 32,
            PieceView::Text(_) => true,
        },
    ensures
        list_bytes(pieces, piece_writer()).len() == pieces_room(pieces),
        pieces_room(pieces) <= 4 * pieces.len() + text_total(pieces) + 300 * file_count(pieces),
    decreases pieces.len(),
{
    if pieces.len() > 0 {
        let init = pieces.drop_last();
        assert forall|i: int| 0 <= i < init.len() implies match #[trigger] init[i] {
            PieceView::File(f) => f.hash.len() == 32,
            PieceView::Text(_) => true,
        } by {
            assert(init[i] == pieces[i]);
        }
        pieces_size(init);
        list_bytes_last(pieces, piece_writer());
        let p = pieces.last();
        assert(piece_writer()(p) == piece_bytes(p));
        assert(varint(0).len() == 1 && varint(1).len() == 1);
        match p {
            PieceView::Text(t) => {
                short_varint(utf8_len(t));
            },
            PieceView::File(f) => {
                assert(pieces[pieces.len() - 1] == p);
                file_size(f);
            },
        }
    }
}

proof fn addrs_size(s: Seq<AddrView>)
    requires
        forall|i: int| 0 <= i < s.len() ==> addr_real(#[trigger] s[i]),
    ensures
        list_bytes(s, addr_writer()).len() <= 22 * s.len(),
    decreases s.len(),
{
    if s.len() > 0 {
        let init = s.drop_last();
        assert forall|i: int| 0 <= i < init.len() implies addr_real(#[trigger] init[i]) by {
            assert(init[i] == s[i]);
        }
        addrs_size(init);
        list_bytes_last(s, addr_writer());
        let a = s.last();
        assert(addr_real(s[s.len() - 1]));
        assert(addr_writer()(a) == addr_bytes(a));
        short_varint(0);
        short_varint(1);
        match a {
            AddrView::V4(_, port) => short_varint(port as nat),
            AddrView::V6(_, port) => short_varint(port as nat),
        }
    }
}

/// Framing never makes a legal message unsendable: whatever passes the check fits in a frame.
/// The one exception is a post cut into so many pieces that their prefixes alone fill it: a
/// post fits exactly if the room its pieces take is there, and it is there wherever four bytes
/// for each piece, the text, and three hundred bytes for each file leave five for the head.
pub proof fn legal_messages_fit(m: MessageView)
    requires
        message_real(m),
        message_fault(m) is None,
    ensures
        match m {
            MessageView::Post { pieces, .. } => {
                &&& write_fault(m) is None <==> post_room(pieces) <= MAX_FRAME
                &&& 4 * pieces.len() + text_total(pieces) + 300 * file_count(pieces) + 5
                    <= MAX_FRAME ==> write_fault(m) is None
            },
            _ => write_fault(m) is None,
        },
{
    let tag: nat = match m {
        MessageView::Text(_) => 0,
        MessageView::Post { .. } => 1,
        MessageView::Ping => 2,
        MessageView::FileOffer { .. } => 3,
        MessageView::FileAccept { .. } => 4,
        MessageView::FileReject { .. } => 5,
        MessageView::DirectFailed => 6,
        MessageView::FileChunk(_) => 7,
        MessageView::FileDone => 8,
        MessageView::PresenceAsk => 9,
        MessageView::PresenceYes => 10,
        MessageView::PresenceNo => 11,
        MessageView::CallDecline => 12,
        MessageView::Left { .. } => 13,
        MessageView::Got(_) => 14,
    };
    short_varint(tag);
    match m {
        MessageView::Text(t) => short_varint(utf8_len(t)),
        MessageView::Post { pieces, direct } => {
            assert forall|i: int| 0 <= i < pieces.len() implies match #[trigger] pieces[i] {
                PieceView::File(f) => f.hash.len() == 32,
                PieceView::Text(_) => true,
            } by {
                assert(piece_real(pieces[i]));
            }
            pieces_size(pieces);
            assert(varint(1).len() == 1);
            if 4 * pieces.len() <= MAX_FRAME {
                short_varint(pieces.len());
            }
        },
        MessageView::FileOffer { name, size, hash, direct } => {
            file_size(FileView { name, size, hash });
        },
        MessageView::FileAccept { hash, offset, direct } => {
            any_varint(offset);
            match direct {
                Some(d) => {
                    addrs_size(d.candidates);
                    short_varint(d.candidates.len());
                },
                None => {},
            }
        },
        MessageView::FileChunk(data) => short_varint(data.len()),
        MessageView::Left { id, at, body } => {
            any_varint(id);
            any_varint(at);
            short_varint(utf8_len(body));
        },
        MessageView::Got(id) => any_varint(id),
        _ => {},
    }
}

/// No message is written as nothing.
proof fn message_not_empty(m: MessageView)
    ensures
        message_bytes(m).len() > 0,
{
    reveal_with_fuel(varint_end, 3);
    varint_len(0, 1);
    varint_len(1, 1);
    varint_len(2, 1);
    varint_len(3, 1);
    varint_len(4, 1);
    varint_len(5, 1);
    varint_len(6, 1);
    varint_len(7, 1);
    varint_len(8, 1);
    varint_len(9, 1);
    varint_len(10, 1);
    varint_len(11, 1);
    varint_len(12, 1);
    varint_len(13, 1);
    varint_len(14, 1);
}

} // verus!
