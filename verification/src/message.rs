//! What two sides say to each other, and the bytes of it.
//!
//! A message is the position of its variant, then its fields in order, in the encoding of
//! [`crate::codec`].

use vstd::prelude::*;
use vstd::string::*;
use vstd::utf8::*;

use crate::codec::{
    add_bool, add_bytes, add_raw, add_str, add_u64, address_back, after, bool_back, bool_bytes,
    counted, counted_back, len_back, list_back, list_bytes, raw_back, read_address, read_bool,
    read_choice, read_counted, read_len, read_list, read_raw, read_text, read_u32, read_u64,
    take_bool, take_bytes, take_choice, take_hash, take_len, take_str, take_u32, take_u64, take_v4,
    take_v6, text_back, text_bytes, u32_back, u64_back, varint, Garbled,
};

verus! {

/// An address on the network, with its port.
#[derive(Clone, Copy, Debug, PartialEq, Eq)]
pub enum Addr {
    V4([u8; 4], u16),
    V6([u8; 16], u16),
}

/// How to reach a peer's direct link, and which certificate to trust there.
#[derive(Clone, Debug, PartialEq, Eq)]
pub struct Direct {
    /// Addresses to try, in order.
    pub candidates: Vec<Addr>,
    /// BLAKE3 of the certificate the listener will present.
    pub fingerprint: [u8; 32],
}

/// What a file looks like on the wire, before anyone agrees to take it.
#[derive(Clone, Debug, PartialEq, Eq)]
pub struct FileRef {
    pub name: String,
    pub size: u64,
    pub hash: [u8; 32],
}

/// One piece of a message: some text, or a file sitting where it was put.
#[derive(Clone, Debug, PartialEq, Eq)]
pub enum Piece {
    Text(String),
    File(FileRef),
}

/// One unit of conversation.
#[allow(inconsistent_fields)]
#[derive(Clone, Debug, PartialEq, Eq)]
pub enum Message {
    /// A chat line.
    Text(String),
    /// A message, with any files the sender put inside it.
    Post {
        pieces: Vec<Piece>,
        /// The sender asks for the files to travel outside Tor.
        direct: bool,
    },
    /// "I am still here." Answered by nobody.
    Ping,
    /// "I have a file for you."
    FileOffer {
        name: String,
        size: u64,
        /// BLAKE3 of the whole file.
        hash: [u8; 32],
        /// The sender asks to send this one outside Tor.
        direct: bool,
    },
    /// "Send it, starting at this byte."
    FileAccept {
        hash: [u8; 32],
        offset: u64,
        /// Where we listen, if we agreed to a direct transfer.
        direct: Option<Direct>,
    },
    /// "No thanks."
    FileReject { hash: [u8; 32] },
    /// "I agreed to go direct, but I could not reach you."
    DirectFailed,
    /// File data, in order, starting from the accepted offset.
    FileChunk(Vec<u8>),
    /// No more data.
    FileDone,
    /// "May I keep a connection open to you, and see when you are up?"
    PresenceAsk,
    /// "Yes."
    PresenceYes,
    /// "No", or "not any more".
    PresenceNo,
    /// "I am not taking this call."
    CallDecline,
    /// A message left while its recipient was away.
    Left {
        id: u64,
        /// When it was written, in seconds since 1970.
        at: u64,
        body: String,
    },
    /// "I have the message you left under this number."
    Got(u64),
}

/// An address by its bytes and its port.
#[verifier::ext_equal]
pub enum AddrView {
    V4(Seq<u8>, u16),
    V6(Seq<u8>, u16),
}

/// A direct link by its values.
#[verifier::ext_equal]
pub struct DirectView {
    pub candidates: Seq<AddrView>,
    pub fingerprint: Seq<u8>,
}

/// A file on the wire by its values.
#[verifier::ext_equal]
pub struct FileView {
    pub name: Seq<char>,
    pub size: u64,
    pub hash: Seq<u8>,
}

/// A piece by its values.
#[verifier::ext_equal]
pub enum PieceView {
    Text(Seq<char>),
    File(FileView),
}

/// A message by its values.
#[allow(inconsistent_fields)]
#[verifier::ext_equal]
pub enum MessageView {
    Text(Seq<char>),
    Post { pieces: Seq<PieceView>, direct: bool },
    Ping,
    FileOffer { name: Seq<char>, size: u64, hash: Seq<u8>, direct: bool },
    FileAccept { hash: Seq<u8>, offset: u64, direct: Option<DirectView> },
    FileReject { hash: Seq<u8> },
    DirectFailed,
    FileChunk(Seq<u8>),
    FileDone,
    PresenceAsk,
    PresenceYes,
    PresenceNo,
    CallDecline,
    Left { id: u64, at: u64, body: Seq<char> },
    Got(u64),
}

impl View for Addr {
    type V = AddrView;

    open spec fn view(&self) -> AddrView {
        match *self {
            Addr::V4(ip, port) => AddrView::V4(ip@, port),
            Addr::V6(ip, port) => AddrView::V6(ip@, port),
        }
    }
}

impl View for Direct {
    type V = DirectView;

    open spec fn view(&self) -> DirectView {
        DirectView { candidates: addr_views(self.candidates@), fingerprint: self.fingerprint@ }
    }
}

impl View for FileRef {
    type V = FileView;

    open spec fn view(&self) -> FileView {
        FileView { name: self.name@, size: self.size, hash: self.hash@ }
    }
}

impl View for Piece {
    type V = PieceView;

    open spec fn view(&self) -> PieceView {
        match *self {
            Piece::Text(t) => PieceView::Text(t@),
            Piece::File(f) => PieceView::File(f@),
        }
    }
}

impl View for Message {
    type V = MessageView;

    open spec fn view(&self) -> MessageView {
        match *self {
            Message::Text(t) => MessageView::Text(t@),
            Message::Post { pieces, direct } => MessageView::Post {
                pieces: piece_views(pieces@),
                direct,
            },
            Message::Ping => MessageView::Ping,
            Message::FileOffer { name, size, hash, direct } => MessageView::FileOffer {
                name: name@,
                size,
                hash: hash@,
                direct,
            },
            Message::FileAccept { hash, offset, direct } => MessageView::FileAccept {
                hash: hash@,
                offset,
                direct: match direct {
                    Some(d) => Some(d@),
                    None => None,
                },
            },
            Message::FileReject { hash } => MessageView::FileReject { hash: hash@ },
            Message::DirectFailed => MessageView::DirectFailed,
            Message::FileChunk(data) => MessageView::FileChunk(data@),
            Message::FileDone => MessageView::FileDone,
            Message::PresenceAsk => MessageView::PresenceAsk,
            Message::PresenceYes => MessageView::PresenceYes,
            Message::PresenceNo => MessageView::PresenceNo,
            Message::CallDecline => MessageView::CallDecline,
            Message::Left { id, at, body } => MessageView::Left { id, at, body: body@ },
            Message::Got(id) => MessageView::Got(id),
        }
    }
}

/// Addresses by their values.
pub open spec fn addr_views(s: Seq<Addr>) -> Seq<AddrView> {
    s.map_values(|a: Addr| a@)
}

/// Pieces by their values.
pub open spec fn piece_views(s: Seq<Piece>) -> Seq<PieceView> {
    s.map_values(|p: Piece| p@)
}

/// The bytes of an address: its family, its bytes, its port.
pub open spec fn addr_bytes(a: AddrView) -> Seq<u8> {
    match a {
        AddrView::V4(ip, port) => varint(0) + (ip + varint(port as nat)),
        AddrView::V6(ip, port) => varint(1) + (ip + varint(port as nat)),
    }
}

/// How an address is read.
pub open spec fn read_addr(b: Seq<u8>) -> Result<(AddrView, Seq<u8>), Garbled> {
    match read_u32(b) {
        Err(e) => Err(e),
        Ok((family, rest)) => if family == 0 {
            match read_address(rest, 4) {
                Ok(((ip, port), rest)) => Ok((AddrView::V4(ip, port as u16), rest)),
                Err(e) => Err(e),
            }
        } else if family == 1 {
            match read_address(rest, 16) {
                Ok(((ip, port), rest)) => Ok((AddrView::V6(ip, port as u16), rest)),
                Err(e) => Err(e),
            }
        } else {
            Err(Garbled::Variant)
        },
    }
}

/// The writer of one address.
pub open spec fn addr_writer() -> spec_fn(AddrView) -> Seq<u8> {
    |a: AddrView| addr_bytes(a)
}

/// The reader of one address.
pub open spec fn addr_reader() -> spec_fn(Seq<u8>) -> Result<(AddrView, Seq<u8>), Garbled> {
    |b: Seq<u8>| read_addr(b)
}

/// The bytes of a direct link: the addresses behind their number, then the fingerprint.
pub open spec fn direct_bytes(d: DirectView) -> Seq<u8> {
    varint(d.candidates.len()) + (list_bytes(d.candidates, addr_writer()) + d.fingerprint)
}

/// How a direct link is read.
pub open spec fn read_direct(b: Seq<u8>) -> Result<(DirectView, Seq<u8>), Garbled> {
    match read_len(b) {
        Ok((n, rest)) => match read_list(rest, n, addr_reader()) {
            Ok((candidates, rest)) => match read_raw(rest, 32) {
                Ok((fingerprint, rest)) => Ok((DirectView { candidates, fingerprint }, rest)),
                Err(e) => Err(e),
            },
            Err(e) => Err(e),
        },
        Err(e) => Err(e),
    }
}

/// The bytes of a direct link behind the byte that says there is one.
pub open spec fn direct_option_bytes(direct: Option<DirectView>) -> Seq<u8> {
    match direct {
        Some(d) => direct_bytes(d),
        None => Seq::empty(),
    }
}

/// The bytes of a file on the wire.
pub open spec fn file_bytes(f: FileView) -> Seq<u8> {
    text_bytes(f.name) + (varint(f.size as nat) + f.hash)
}

/// How a file on the wire is read.
pub open spec fn read_file(b: Seq<u8>) -> Result<(FileView, Seq<u8>), Garbled> {
    match read_text(b) {
        Ok((name, rest)) => match read_u64(rest) {
            Ok((size, rest)) => match read_raw(rest, 32) {
                Ok((hash, rest)) => Ok((FileView { name, size: size as u64, hash }, rest)),
                Err(e) => Err(e),
            },
            Err(e) => Err(e),
        },
        Err(e) => Err(e),
    }
}

/// The bytes of a piece.
pub open spec fn piece_bytes(p: PieceView) -> Seq<u8> {
    match p {
        PieceView::Text(t) => varint(0) + text_bytes(t),
        PieceView::File(f) => varint(1) + file_bytes(f),
    }
}

/// How a piece is read.
pub open spec fn read_piece(b: Seq<u8>) -> Result<(PieceView, Seq<u8>), Garbled> {
    match read_u32(b) {
        Err(e) => Err(e),
        Ok((tag, rest)) => if tag == 0 {
            match read_text(rest) {
                Ok((t, rest)) => Ok((PieceView::Text(t), rest)),
                Err(e) => Err(e),
            }
        } else if tag == 1 {
            match read_file(rest) {
                Ok((f, rest)) => Ok((PieceView::File(f), rest)),
                Err(e) => Err(e),
            }
        } else {
            Err(Garbled::Variant)
        },
    }
}

/// The writer of one piece.
pub open spec fn piece_writer() -> spec_fn(PieceView) -> Seq<u8> {
    |p: PieceView| piece_bytes(p)
}

/// The reader of one piece.
pub open spec fn piece_reader() -> spec_fn(Seq<u8>) -> Result<(PieceView, Seq<u8>), Garbled> {
    |b: Seq<u8>| read_piece(b)
}

/// The bytes of a message.
pub open spec fn message_bytes(m: MessageView) -> Seq<u8> {
    match m {
        MessageView::Text(t) => varint(0) + text_bytes(t),
        MessageView::Post { pieces, direct } => varint(1) + (varint(pieces.len()) + (list_bytes(
            pieces,
            piece_writer(),
        ) + bool_bytes(direct))),
        MessageView::Ping => varint(2),
        MessageView::FileOffer { name, size, hash, direct } => varint(3) + (file_bytes(
            FileView { name, size, hash },
        ) + bool_bytes(direct)),
        MessageView::FileAccept { hash, offset, direct } => varint(4) + (hash + (varint(
            offset as nat,
        ) + (bool_bytes(direct is Some) + direct_option_bytes(direct)))),
        MessageView::FileReject { hash } => varint(5) + hash,
        MessageView::DirectFailed => varint(6),
        MessageView::FileChunk(data) => varint(7) + counted(data),
        MessageView::FileDone => varint(8),
        MessageView::PresenceAsk => varint(9),
        MessageView::PresenceYes => varint(10),
        MessageView::PresenceNo => varint(11),
        MessageView::CallDecline => varint(12),
        MessageView::Left { id, at, body } => varint(13) + (varint(id as nat) + (varint(at as nat)
            + text_bytes(body))),
        MessageView::Got(id) => varint(14) + varint(id as nat),
    }
}

/// How the fields of a post are read.
pub open spec fn read_post(b: Seq<u8>) -> Result<(MessageView, Seq<u8>), Garbled> {
    match read_len(b) {
        Ok((n, rest)) => match read_list(rest, n, piece_reader()) {
            Ok((pieces, rest)) => match read_bool(rest) {
                Ok((direct, rest)) => Ok((MessageView::Post { pieces, direct }, rest)),
                Err(e) => Err(e),
            },
            Err(e) => Err(e),
        },
        Err(e) => Err(e),
    }
}

/// How the fields of an offer are read.
pub open spec fn read_offer(b: Seq<u8>) -> Result<(MessageView, Seq<u8>), Garbled> {
    match read_file(b) {
        Ok((f, rest)) => match read_bool(rest) {
            Ok((direct, rest)) => Ok(
                (MessageView::FileOffer { name: f.name, size: f.size, hash: f.hash, direct }, rest),
            ),
            Err(e) => Err(e),
        },
        Err(e) => Err(e),
    }
}

/// How the fields of an acceptance are read.
pub open spec fn read_accept(b: Seq<u8>) -> Result<(MessageView, Seq<u8>), Garbled> {
    match read_raw(b, 32) {
        Ok((hash, rest)) => match read_u64(rest) {
            Ok((offset, rest)) => match read_choice(rest) {
                Ok((false, rest)) => Ok(
                    (MessageView::FileAccept { hash, offset: offset as u64, direct: None }, rest),
                ),
                Ok((true, rest)) => match read_direct(rest) {
                    Ok((d, rest)) => Ok(
                        (
                            MessageView::FileAccept {
                                hash,
                                offset: offset as u64,
                                direct: Some(d),
                            },
                            rest,
                        ),
                    ),
                    Err(e) => Err(e),
                },
                Err(e) => Err(e),
            },
            Err(e) => Err(e),
        },
        Err(e) => Err(e),
    }
}

/// How the fields of a message left behind are read.
pub open spec fn read_left(b: Seq<u8>) -> Result<(MessageView, Seq<u8>), Garbled> {
    match read_u64(b) {
        Ok((id, rest)) => match read_u64(rest) {
            Ok((at, rest)) => match read_text(rest) {
                Ok((body, rest)) => Ok(
                    (MessageView::Left { id: id as u64, at: at as u64, body }, rest),
                ),
                Err(e) => Err(e),
            },
            Err(e) => Err(e),
        },
        Err(e) => Err(e),
    }
}

/// How a message is read.
pub open spec fn read_message(b: Seq<u8>) -> Result<(MessageView, Seq<u8>), Garbled> {
    match read_u32(b) {
        Err(e) => Err(e),
        Ok((tag, rest)) => if tag == 0 {
            match read_text(rest) {
                Ok((t, rest)) => Ok((MessageView::Text(t), rest)),
                Err(e) => Err(e),
            }
        } else if tag == 1 {
            read_post(rest)
        } else if tag == 2 {
            Ok((MessageView::Ping, rest))
        } else if tag == 3 {
            read_offer(rest)
        } else if tag == 4 {
            read_accept(rest)
        } else if tag == 5 {
            match read_raw(rest, 32) {
                Ok((hash, rest)) => Ok((MessageView::FileReject { hash }, rest)),
                Err(e) => Err(e),
            }
        } else if tag == 6 {
            Ok((MessageView::DirectFailed, rest))
        } else if tag == 7 {
            match read_counted(rest) {
                Ok((data, rest)) => Ok((MessageView::FileChunk(data), rest)),
                Err(e) => Err(e),
            }
        } else if tag == 8 {
            Ok((MessageView::FileDone, rest))
        } else if tag == 9 {
            Ok((MessageView::PresenceAsk, rest))
        } else if tag == 10 {
            Ok((MessageView::PresenceYes, rest))
        } else if tag == 11 {
            Ok((MessageView::PresenceNo, rest))
        } else if tag == 12 {
            Ok((MessageView::CallDecline, rest))
        } else if tag == 13 {
            read_left(rest)
        } else if tag == 14 {
            match read_u64(rest) {
                Ok((id, rest)) => Ok((MessageView::Got(id as u64), rest)),
                Err(e) => Err(e),
            }
        } else {
            Err(Garbled::Variant)
        },
    }
}

/// What a body decodes to. Bytes behind the message are not looked at.
pub open spec fn decoded(b: Seq<u8>) -> Result<MessageView, Garbled> {
    match read_message(b) {
        Ok((m, _)) => Ok(m),
        Err(e) => Err(e),
    }
}

/// A value that a program can hold: digests and addresses of their length, texts that fit
/// in memory.
pub open spec fn addr_real(a: AddrView) -> bool {
    match a {
        AddrView::V4(ip, _) => ip.len() == 4,
        AddrView::V6(ip, _) => ip.len() == 16,
    }
}

/// See [`addr_real`].
pub open spec fn direct_real(d: DirectView) -> bool {
    &&& d.fingerprint.len() == 32
    &&& d.candidates.len() <= usize::MAX
    &&& forall|i: int| 0 <= i < d.candidates.len() ==> addr_real(#[trigger] d.candidates[i])
}

/// See [`addr_real`].
pub open spec fn text_real(t: Seq<char>) -> bool {
    encode_utf8(t).len() <= usize::MAX
}

/// See [`addr_real`].
pub open spec fn piece_real(p: PieceView) -> bool {
    match p {
        PieceView::Text(t) => text_real(t),
        PieceView::File(f) => text_real(f.name) && f.hash.len() == 32,
    }
}

/// See [`addr_real`].
pub open spec fn message_real(m: MessageView) -> bool {
    match m {
        MessageView::Text(t) => text_real(t),
        MessageView::Post { pieces, .. } => {
            &&& pieces.len() <= usize::MAX
            &&& forall|i: int| 0 <= i < pieces.len() ==> piece_real(#[trigger] pieces[i])
        },
        MessageView::FileOffer { name, hash, .. } => text_real(name) && hash.len() == 32,
        MessageView::FileAccept { hash, direct, .. } => {
            &&& hash.len() == 32
            &&& match direct {
                Some(d) => direct_real(d),
                None => true,
            }
        },
        MessageView::FileReject { hash } => hash.len() == 32,
        MessageView::FileChunk(data) => data.len() <= usize::MAX,
        MessageView::Left { body, .. } => text_real(body),
        _ => true,
    }
}

proof fn addr_back(a: AddrView, rest: Seq<u8>)
    requires
        addr_real(a),
    ensures
        read_addr(addr_bytes(a) + rest) == Ok::<_, Garbled>((a, rest)),
{
    match a {
        AddrView::V4(ip, port) => {
            let more = ip + varint(port as nat) + rest;
            assert(addr_bytes(a) + rest =~= varint(0) + more);
            u32_back(0, more);
            address_back(ip, port, rest);
        },
        AddrView::V6(ip, port) => {
            let more = ip + varint(port as nat) + rest;
            assert(addr_bytes(a) + rest =~= varint(1) + more);
            u32_back(1, more);
            address_back(ip, port, rest);
        },
    }
}

proof fn direct_back(d: DirectView, rest: Seq<u8>)
    requires
        direct_real(d),
    ensures
        read_direct(direct_bytes(d) + rest) == Ok::<_, Garbled>((d, rest)),
{
    let list = list_bytes(d.candidates, addr_writer());
    assert(direct_bytes(d) + rest =~= varint(d.candidates.len()) + (list + (d.fingerprint + rest)));
    len_back(d.candidates.len() as usize, list + (d.fingerprint + rest));
    assert forall|i: int, r: Seq<u8>| 0 <= i < d.candidates.len() implies #[trigger] addr_reader()(
        addr_writer()(d.candidates[i]) + r,
    ) == Ok::<_, Garbled>((d.candidates[i], r)) by {
        addr_back(d.candidates[i], r);
    }
    list_back(d.candidates, addr_writer(), addr_reader(), d.fingerprint + rest);
    raw_back(d.fingerprint, rest);
}

proof fn file_back(f: FileView, rest: Seq<u8>)
    requires
        text_real(f.name),
        f.hash.len() == 32,
    ensures
        read_file(file_bytes(f) + rest) == Ok::<_, Garbled>((f, rest)),
{
    let more = varint(f.size as nat) + (f.hash + rest);
    assert(file_bytes(f) + rest =~= text_bytes(f.name) + more);
    text_back(f.name, more);
    u64_back(f.size, f.hash + rest);
    raw_back(f.hash, rest);
}

proof fn piece_back(p: PieceView, rest: Seq<u8>)
    requires
        piece_real(p),
    ensures
        read_piece(piece_bytes(p) + rest) == Ok::<_, Garbled>((p, rest)),
{
    match p {
        PieceView::Text(t) => {
            assert(piece_bytes(p) + rest =~= varint(0) + (text_bytes(t) + rest));
            u32_back(0, text_bytes(t) + rest);
            text_back(t, rest);
        },
        PieceView::File(f) => {
            assert(piece_bytes(p) + rest =~= varint(1) + (file_bytes(f) + rest));
            u32_back(1, file_bytes(f) + rest);
            file_back(f, rest);
        },
    }
}

proof fn post_back(pieces: Seq<PieceView>, direct: bool, rest: Seq<u8>)
    requires
        message_real(MessageView::Post { pieces, direct }),
    ensures
        read_post(
            varint(pieces.len()) + (list_bytes(pieces, piece_writer()) + bool_bytes(direct)) + rest,
        ) == Ok::<_, Garbled>((MessageView::Post { pieces, direct }, rest)),
{
    let list = list_bytes(pieces, piece_writer());
    let tail = bool_bytes(direct) + rest;
    assert(varint(pieces.len()) + (list + bool_bytes(direct)) + rest =~= varint(pieces.len()) + (
    list + tail));
    len_back(pieces.len() as usize, list + tail);
    assert forall|i: int, r: Seq<u8>| 0 <= i < pieces.len() implies #[trigger] piece_reader()(
        piece_writer()(pieces[i]) + r,
    ) == Ok::<_, Garbled>((pieces[i], r)) by {
        piece_back(pieces[i], r);
    }
    list_back(pieces, piece_writer(), piece_reader(), tail);
    bool_back(direct, rest);
}

proof fn accept_back(hash: Seq<u8>, offset: u64, direct: Option<DirectView>, rest: Seq<u8>)
    requires
        message_real(MessageView::FileAccept { hash, offset, direct }),
    ensures
        read_accept(
            hash + (varint(offset as nat) + (bool_bytes(direct is Some) + direct_option_bytes(
                direct,
            ))) + rest,
        ) == Ok::<_, Garbled>((MessageView::FileAccept { hash, offset, direct }, rest)),
{
    let d = direct_option_bytes(direct);
    let t1 = bool_bytes(direct is Some) + (d + rest);
    let t2 = varint(offset as nat) + t1;
    assert(hash + (varint(offset as nat) + (bool_bytes(direct is Some) + d)) + rest =~= hash + t2);
    raw_back(hash, t2);
    u64_back(offset, t1);
    bool_back(direct is Some, d + rest);
    match direct {
        Some(dd) => direct_back(dd, rest),
        None => assert(d + rest =~= rest),
    }
}

/// Every message comes back from its bytes as it was, whatever follows them.
#[verifier::rlimit(60)]
pub proof fn message_back(m: MessageView, rest: Seq<u8>)
    requires
        message_real(m),
    ensures
        read_message(message_bytes(m) + rest) == Ok::<_, Garbled>((m, rest)),
{
    let b = message_bytes(m) + rest;
    match m {
        MessageView::Text(t) => {
            assert(b =~= varint(0) + (text_bytes(t) + rest));
            u32_back(0, text_bytes(t) + rest);
            text_back(t, rest);
        },
        MessageView::Post { pieces, direct } => {
            let body = varint(pieces.len()) + (list_bytes(pieces, piece_writer()) + bool_bytes(
                direct,
            ));
            assert(b =~= varint(1) + (body + rest));
            u32_back(1, body + rest);
            post_back(pieces, direct, rest);
        },
        MessageView::Ping => u32_back(2, rest),
        MessageView::FileOffer { name, size, hash, direct } => {
            let f = FileView { name, size, hash };
            let tail = bool_bytes(direct) + rest;
            assert(b =~= varint(3) + (file_bytes(f) + tail));
            u32_back(3, file_bytes(f) + tail);
            file_back(f, tail);
            bool_back(direct, rest);
        },
        MessageView::FileAccept { hash, offset, direct } => {
            let body = hash + (varint(offset as nat) + (bool_bytes(direct is Some)
                + direct_option_bytes(direct)));
            assert(b =~= varint(4) + (body + rest));
            u32_back(4, body + rest);
            accept_back(hash, offset, direct, rest);
        },
        MessageView::FileReject { hash } => {
            assert(b =~= varint(5) + (hash + rest));
            u32_back(5, hash + rest);
            raw_back(hash, rest);
        },
        MessageView::DirectFailed => u32_back(6, rest),
        MessageView::FileChunk(data) => {
            assert(b =~= varint(7) + (counted(data) + rest));
            u32_back(7, counted(data) + rest);
            counted_back(data, rest);
        },
        MessageView::FileDone => u32_back(8, rest),
        MessageView::PresenceAsk => u32_back(9, rest),
        MessageView::PresenceYes => u32_back(10, rest),
        MessageView::PresenceNo => u32_back(11, rest),
        MessageView::CallDecline => u32_back(12, rest),
        MessageView::Left { id, at, body } => {
            let t1 = text_bytes(body) + rest;
            let t2 = varint(at as nat) + t1;
            assert(b =~= varint(13) + (varint(id as nat) + t2));
            u32_back(13, varint(id as nat) + t2);
            u64_back(id, t2);
            u64_back(at, t1);
            text_back(body, rest);
        },
        MessageView::Got(id) => {
            assert(b =~= varint(14) + (varint(id as nat) + rest));
            u32_back(14, varint(id as nat) + rest);
            u64_back(id, rest);
        },
    }
}

/// A text in memory has a UTF-8 form that fits there.
fn note_text(s: &str)
    ensures
        text_real(s@),
{
    let n: usize = s.as_bytes().len();
    assert(n == encode_utf8(s@).len());
}

fn add_addr(out: &mut Vec<u8>, a: &Addr)
    ensures
        final(out)@ == old(out)@ + addr_bytes(a@),
{
    match a {
        Addr::V4(ip, port) => {
            add_u64(out, 0);
            add_raw(out, ip);
            add_u64(out, *port as u64);
        },
        Addr::V6(ip, port) => {
            add_u64(out, 1);
            add_raw(out, ip);
            add_u64(out, *port as u64);
        },
    }
    assert(out@ =~= old(out)@ + addr_bytes(a@));
}

fn add_direct(out: &mut Vec<u8>, d: &Direct)
    ensures
        final(out)@ == old(out)@ + direct_bytes(d@),
        direct_real(d@),
{
    add_u64(out, d.candidates.len() as u64);
    let ghost start = out@;
    let ghost views = d@.candidates;
    let mut i: usize = 0;
    assert(views.skip(0) =~= views);
    while i < d.candidates.len()
        invariant
            i <= d.candidates@.len(),
            views == addr_views(d.candidates@),
            out@ + list_bytes(views.skip(i as int), addr_writer()) == start + list_bytes(
                views,
                addr_writer(),
            ),
        decreases d.candidates@.len() - i,
    {
        let ghost before = out@;
        add_addr(out, &d.candidates[i]);
        proof {
            let t = views.skip(i as int);
            assert(t.drop_first() =~= views.skip(i + 1));
            assert(t[0] == d.candidates@[i as int]@);
            assert(out@ + list_bytes(t.drop_first(), addr_writer()) =~= before + list_bytes(
                t,
                addr_writer(),
            ));
        }
        i = i + 1;
    }
    proof {
        assert(list_bytes(views.skip(i as int), addr_writer()) =~= Seq::empty());
        assert(out@ =~= start + list_bytes(views, addr_writer()));
    }
    add_raw(out, &d.fingerprint);
    proof {
        assert(out@ =~= old(out)@ + direct_bytes(d@));
        assert forall|j: int| 0 <= j < views.len() implies addr_real(#[trigger] views[j]) by {
            let a = d.candidates@[j];
            assert(views[j] == a@);
        }
    }
}

fn add_file(out: &mut Vec<u8>, name: &str, size: u64, hash: &[u8; 32])
    ensures
        final(out)@ == old(out)@ + file_bytes(FileView { name: name@, size, hash: hash@ }),
{
    add_str(out, name);
    add_u64(out, size);
    add_raw(out, hash);
    assert(out@ =~= old(out)@ + file_bytes(FileView { name: name@, size, hash: hash@ }));
}

fn add_piece(out: &mut Vec<u8>, p: &Piece)
    ensures
        final(out)@ == old(out)@ + piece_bytes(p@),
        piece_real(p@),
{
    match p {
        Piece::Text(t) => {
            note_text(t.as_str());
            add_u64(out, 0);
            add_str(out, t.as_str());
        },
        Piece::File(f) => {
            note_text(f.name.as_str());
            add_u64(out, 1);
            add_file(out, f.name.as_str(), f.size, &f.hash);
        },
    }
    assert(out@ =~= old(out)@ + piece_bytes(p@));
}

fn add_pieces(out: &mut Vec<u8>, pieces: &Vec<Piece>)
    ensures
        final(out)@ == old(out)@ + list_bytes(piece_views(pieces@), piece_writer()),
        forall|i: int| 0 <= i < pieces@.len() ==> piece_real(#[trigger] piece_views(pieces@)[i]),
{
    let ghost start = out@;
    let ghost views = piece_views(pieces@);
    let mut i: usize = 0;
    assert(views.skip(0) =~= views);
    while i < pieces.len()
        invariant
            i <= pieces@.len(),
            views == piece_views(pieces@),
            forall|j: int| 0 <= j < i ==> piece_real(#[trigger] views[j]),
            out@ + list_bytes(views.skip(i as int), piece_writer()) == start + list_bytes(
                views,
                piece_writer(),
            ),
        decreases pieces@.len() - i,
    {
        let ghost before = out@;
        add_piece(out, &pieces[i]);
        proof {
            let t = views.skip(i as int);
            assert(t.drop_first() =~= views.skip(i + 1));
            assert(t[0] == pieces@[i as int]@);
            assert(out@ + list_bytes(t.drop_first(), piece_writer()) =~= before + list_bytes(
                t,
                piece_writer(),
            ));
        }
        i = i + 1;
    }
    proof {
        assert(list_bytes(views.skip(i as int), piece_writer()) =~= Seq::empty());
        assert(out@ =~= start + list_bytes(views, piece_writer()));
    }
}

/// The bytes of a message.
pub fn encode(m: &Message) -> (r: Vec<u8>)
    ensures
        r@ == message_bytes(m@),
        message_real(m@),
{
    let mut out: Vec<u8> = Vec::new();
    match m {
        Message::Text(t) => {
            note_text(t.as_str());
            add_u64(&mut out, 0);
            add_str(&mut out, t.as_str());
        },
        Message::Post { pieces, direct } => {
            add_u64(&mut out, 1);
            add_u64(&mut out, pieces.len() as u64);
            add_pieces(&mut out, pieces);
            add_bool(&mut out, *direct);
        },
        Message::Ping => add_u64(&mut out, 2),
        Message::FileOffer { name, size, hash, direct } => {
            note_text(name.as_str());
            add_u64(&mut out, 3);
            add_file(&mut out, name.as_str(), *size, hash);
            add_bool(&mut out, *direct);
        },
        Message::FileAccept { hash, offset, direct } => {
            add_u64(&mut out, 4);
            add_raw(&mut out, hash);
            add_u64(&mut out, *offset);
            match direct {
                Some(d) => {
                    add_bool(&mut out, true);
                    add_direct(&mut out, d);
                },
                None => add_bool(&mut out, false),
            }
        },
        Message::FileReject { hash } => {
            add_u64(&mut out, 5);
            add_raw(&mut out, hash);
        },
        Message::DirectFailed => add_u64(&mut out, 6),
        Message::FileChunk(data) => {
            let n: usize = data.len();
            assert(data@.len() == n);
            add_u64(&mut out, 7);
            add_bytes(&mut out, data.as_slice());
        },
        Message::FileDone => add_u64(&mut out, 8),
        Message::PresenceAsk => add_u64(&mut out, 9),
        Message::PresenceYes => add_u64(&mut out, 10),
        Message::PresenceNo => add_u64(&mut out, 11),
        Message::CallDecline => add_u64(&mut out, 12),
        Message::Left { id, at, body } => {
            note_text(body.as_str());
            add_u64(&mut out, 13);
            add_u64(&mut out, *id);
            add_u64(&mut out, *at);
            add_str(&mut out, body.as_str());
        },
        Message::Got(id) => {
            add_u64(&mut out, 14);
            add_u64(&mut out, *id);
        },
    }
    assert(out@ =~= message_bytes(m@));
    out
}

fn take_addr(b: &[u8]) -> (r: Result<(Addr, &[u8]), Garbled>)
    ensures
        match r {
            Ok((a, rest)) => read_addr(b@) == Ok::<_, Garbled>((a@, rest@)),
            Err(e) => read_addr(b@) is Err && read_addr(b@)->Err_0 == e,
        },
{
    match take_u32(b) {
        Err(e) => Err(e),
        Ok((family, rest)) => if family == 0 {
            match take_v4(rest) {
                Ok(((ip, port), rest)) => Ok((Addr::V4(ip, port), rest)),
                Err(e) => Err(e),
            }
        } else if family == 1 {
            match take_v6(rest) {
                Ok(((ip, port), rest)) => Ok((Addr::V6(ip, port), rest)),
                Err(e) => Err(e),
            }
        } else {
            Err(Garbled::Variant)
        },
    }
}

fn take_direct(b: &[u8]) -> (r: Result<(Direct, &[u8]), Garbled>)
    ensures
        match r {
            Ok((d, rest)) => read_direct(b@) == Ok::<_, Garbled>((d@, rest@)),
            Err(e) => read_direct(b@) is Err && read_direct(b@)->Err_0 == e,
        },
{
    let (n, first) = match take_len(b) {
        Ok(x) => x,
        Err(e) => {
            return Err(e);
        },
    };
    let mut rest = first;
    let mut candidates: Vec<Addr> = Vec::new();
    let mut i: usize = 0;
    let ghost all = read_list(first@, n as nat, addr_reader());
    assert(addr_views(candidates@) =~= Seq::empty());
    assert(after(addr_views(candidates@), all) =~= all) by {
        if all is Ok {
            assert(addr_views(candidates@) + (all->Ok_0).0 =~= (all->Ok_0).0);
        }
    }
    while i < n
        invariant
            i <= n,
            read_len(b@) == Ok::<_, Garbled>((n as nat, first@)),
            all == read_list(first@, n as nat, addr_reader()),
            all == after(
                addr_views(candidates@),
                read_list(rest@, (n - i) as nat, addr_reader()),
            ),
        decreases n - i,
    {
        match take_addr(rest) {
            Err(e) => {
                assert(addr_reader()(rest@) is Err && addr_reader()(rest@)->Err_0 == e);
                return Err(e);
            },
            Ok((a, more)) => {
                proof {
                    assert(addr_reader()(rest@) == Ok::<_, Garbled>((a@, more@)));
                    let tail = read_list(more@, (n - i - 1) as nat, addr_reader());
                    assert(addr_views(candidates@.push(a)) =~= addr_views(candidates@).push(a@));
                    if tail is Ok {
                        assert(addr_views(candidates@) + (seq![a@] + (tail->Ok_0).0) =~= addr_views(
                            candidates@.push(a),
                        ) + (tail->Ok_0).0);
                    }
                }
                candidates.push(a);
                rest = more;
            },
        }
        i = i + 1;
    }
    assert(addr_views(candidates@) + Seq::empty() =~= addr_views(candidates@));
    match take_hash(rest) {
        Ok((fingerprint, rest)) => Ok((Direct { candidates, fingerprint }, rest)),
        Err(e) => Err(e),
    }
}

fn take_file(b: &[u8]) -> (r: Result<(FileRef, &[u8]), Garbled>)
    ensures
        match r {
            Ok((f, rest)) => read_file(b@) == Ok::<_, Garbled>((f@, rest@)),
            Err(e) => read_file(b@) is Err && read_file(b@)->Err_0 == e,
        },
{
    match take_str(b) {
        Ok((name, rest)) => match take_u64(rest) {
            Ok((size, rest)) => match take_hash(rest) {
                Ok((hash, rest)) => Ok((FileRef { name, size, hash }, rest)),
                Err(e) => Err(e),
            },
            Err(e) => Err(e),
        },
        Err(e) => Err(e),
    }
}

fn take_piece(b: &[u8]) -> (r: Result<(Piece, &[u8]), Garbled>)
    ensures
        match r {
            Ok((p, rest)) => read_piece(b@) == Ok::<_, Garbled>((p@, rest@)),
            Err(e) => read_piece(b@) is Err && read_piece(b@)->Err_0 == e,
        },
{
    match take_u32(b) {
        Err(e) => Err(e),
        Ok((tag, rest)) => if tag == 0 {
            match take_str(rest) {
                Ok((t, rest)) => Ok((Piece::Text(t), rest)),
                Err(e) => Err(e),
            }
        } else if tag == 1 {
            match take_file(rest) {
                Ok((f, rest)) => Ok((Piece::File(f), rest)),
                Err(e) => Err(e),
            }
        } else {
            Err(Garbled::Variant)
        },
    }
}

fn take_post(b: &[u8]) -> (r: Result<(Message, &[u8]), Garbled>)
    ensures
        match r {
            Ok((m, rest)) => read_post(b@) == Ok::<_, Garbled>((m@, rest@)),
            Err(e) => read_post(b@) is Err && read_post(b@)->Err_0 == e,
        },
{
    let (n, first) = match take_len(b) {
        Ok(x) => x,
        Err(e) => {
            return Err(e);
        },
    };
    let mut rest = first;
    let mut pieces: Vec<Piece> = Vec::new();
    let mut i: usize = 0;
    let ghost all = read_list(first@, n as nat, piece_reader());
    assert(piece_views(pieces@) =~= Seq::empty());
    assert(after(piece_views(pieces@), all) =~= all) by {
        if all is Ok {
            assert(piece_views(pieces@) + (all->Ok_0).0 =~= (all->Ok_0).0);
        }
    }
    while i < n
        invariant
            i <= n,
            read_len(b@) == Ok::<_, Garbled>((n as nat, first@)),
            all == read_list(first@, n as nat, piece_reader()),
            all == after(
                piece_views(pieces@),
                read_list(rest@, (n - i) as nat, piece_reader()),
            ),
        decreases n - i,
    {
        match take_piece(rest) {
            Err(e) => {
                assert(piece_reader()(rest@) is Err && piece_reader()(rest@)->Err_0 == e);
                return Err(e);
            },
            Ok((p, more)) => {
                proof {
                    assert(piece_reader()(rest@) == Ok::<_, Garbled>((p@, more@)));
                    let tail = read_list(more@, (n - i - 1) as nat, piece_reader());
                    assert(piece_views(pieces@.push(p)) =~= piece_views(pieces@).push(p@));
                    if tail is Ok {
                        assert(piece_views(pieces@) + (seq![p@] + (tail->Ok_0).0) =~= piece_views(
                            pieces@.push(p),
                        ) + (tail->Ok_0).0);
                    }
                }
                pieces.push(p);
                rest = more;
            },
        }
        i = i + 1;
    }
    assert(piece_views(pieces@) + Seq::empty() =~= piece_views(pieces@));
    match take_bool(rest) {
        Ok((direct, rest)) => Ok((Message::Post { pieces, direct }, rest)),
        Err(e) => Err(e),
    }
}

fn take_offer(b: &[u8]) -> (r: Result<(Message, &[u8]), Garbled>)
    ensures
        match r {
            Ok((m, rest)) => read_offer(b@) == Ok::<_, Garbled>((m@, rest@)),
            Err(e) => read_offer(b@) is Err && read_offer(b@)->Err_0 == e,
        },
{
    match take_file(b) {
        Ok((f, rest)) => match take_bool(rest) {
            Ok((direct, rest)) => Ok(
                (Message::FileOffer { name: f.name, size: f.size, hash: f.hash, direct }, rest),
            ),
            Err(e) => Err(e),
        },
        Err(e) => Err(e),
    }
}

fn take_accept(b: &[u8]) -> (r: Result<(Message, &[u8]), Garbled>)
    ensures
        match r {
            Ok((m, rest)) => read_accept(b@) == Ok::<_, Garbled>((m@, rest@)),
            Err(e) => read_accept(b@) is Err && read_accept(b@)->Err_0 == e,
        },
{
    match take_hash(b) {
        Ok((hash, rest)) => match take_u64(rest) {
            Ok((offset, rest)) => match take_choice(rest) {
                Ok((agreed, rest)) => if agreed {
                    match take_direct(rest) {
                        Ok((d, rest)) => Ok(
                            (Message::FileAccept { hash, offset, direct: Some(d) }, rest),
                        ),
                        Err(e) => Err(e),
                    }
                } else {
                    Ok((Message::FileAccept { hash, offset, direct: None }, rest))
                },
                Err(e) => Err(e),
            },
            Err(e) => Err(e),
        },
        Err(e) => Err(e),
    }
}

fn take_left(b: &[u8]) -> (r: Result<(Message, &[u8]), Garbled>)
    ensures
        match r {
            Ok((m, rest)) => read_left(b@) == Ok::<_, Garbled>((m@, rest@)),
            Err(e) => read_left(b@) is Err && read_left(b@)->Err_0 == e,
        },
{
    match take_u64(b) {
        Ok((id, rest)) => match take_u64(rest) {
            Ok((at, rest)) => match take_str(rest) {
                Ok((body, rest)) => Ok((Message::Left { id, at, body }, rest)),
                Err(e) => Err(e),
            },
            Err(e) => Err(e),
        },
        Err(e) => Err(e),
    }
}

fn take_message(b: &[u8]) -> (r: Result<(Message, &[u8]), Garbled>)
    ensures
        match r {
            Ok((m, rest)) => read_message(b@) == Ok::<_, Garbled>((m@, rest@)),
            Err(e) => read_message(b@) is Err && read_message(b@)->Err_0 == e,
        },
{
    match take_u32(b) {
        Err(e) => Err(e),
        Ok((tag, rest)) => if tag == 0 {
            match take_str(rest) {
                Ok((t, rest)) => Ok((Message::Text(t), rest)),
                Err(e) => Err(e),
            }
        } else if tag == 1 {
            take_post(rest)
        } else if tag == 2 {
            Ok((Message::Ping, rest))
        } else if tag == 3 {
            take_offer(rest)
        } else if tag == 4 {
            take_accept(rest)
        } else if tag == 5 {
            match take_hash(rest) {
                Ok((hash, rest)) => Ok((Message::FileReject { hash }, rest)),
                Err(e) => Err(e),
            }
        } else if tag == 6 {
            Ok((Message::DirectFailed, rest))
        } else if tag == 7 {
            match take_bytes(rest) {
                Ok((data, rest)) => Ok((Message::FileChunk(data), rest)),
                Err(e) => Err(e),
            }
        } else if tag == 8 {
            Ok((Message::FileDone, rest))
        } else if tag == 9 {
            Ok((Message::PresenceAsk, rest))
        } else if tag == 10 {
            Ok((Message::PresenceYes, rest))
        } else if tag == 11 {
            Ok((Message::PresenceNo, rest))
        } else if tag == 12 {
            Ok((Message::CallDecline, rest))
        } else if tag == 13 {
            take_left(rest)
        } else if tag == 14 {
            match take_u64(rest) {
                Ok((id, rest)) => Ok((Message::Got(id), rest)),
                Err(e) => Err(e),
            }
        } else {
            Err(Garbled::Variant)
        },
    }
}

/// The message that some bytes hold, or why they hold none.
pub fn decode(b: &[u8]) -> (r: Result<Message, Garbled>)
    ensures
        match r {
            Ok(m) => decoded(b@) == Ok::<_, Garbled>(m@),
            Err(e) => decoded(b@) is Err && decoded(b@)->Err_0 == e,
        },
{
    match take_message(b) {
        Ok((m, _)) => Ok(m),
        Err(e) => Err(e),
    }
}

} // verus!
