//! Frames on the wire, and the limits on what may travel.

use murmure::codec::Garbled;
use murmure::message::{decode, encode, Addr, Direct, FileRef, Message, Piece};
use murmure::proto::{
    frame_len, is_hangup, read_frame, write_frame, Fault, FrameError, FrameReader, ReadFailure,
    MAX_CANDIDATES, MAX_CHUNK, MAX_FILES, MAX_FRAME, MAX_NAME, MAX_TEXT,
};

/// Every message on a stream, until it ends.
fn read_all(wire: &[u8]) -> Vec<Message> {
    let mut rest = wire;
    let mut got = Vec::new();
    while let Some((msg, more)) = read_frame(rest).unwrap() {
        got.push(msg);
        rest = more;
    }
    got
}

fn wire_of(sent: &[Message]) -> Vec<u8> {
    let mut wire = Vec::new();
    for msg in sent {
        write_frame(&mut wire, msg).unwrap();
    }
    wire
}

#[test]
fn frames_round_trip_in_sequence() {
    let sent = vec![
        Message::Text("bonjour".into()),
        Message::Ping,
        Message::PresenceAsk,
        Message::Text("un message plus long, avec des accents éàü".into()),
    ];
    assert_eq!(sent, read_all(&wire_of(&sent)));
}

#[test]
fn clean_end_of_stream_yields_none() {
    assert!(read_frame(&[]).unwrap().is_none());
}

#[test]
fn truncated_frame_is_an_error() {
    let mut wire = wire_of(&[Message::Text("bonjour".into())]);
    wire.truncate(wire.len() - 1);
    let err = read_frame(&wire).unwrap_err();
    assert!(
        err.describe().contains("stream ended after"),
        "expected a truncation error, got: {}",
        err.describe()
    );
}

#[test]
fn oversized_length_prefix_is_refused_before_allocating() {
    let mut wire = u32::MAX.to_le_bytes().to_vec();
    wire.extend_from_slice(b"never read");
    let err = read_frame(&wire).unwrap_err();
    assert!(
        err.describe().contains("over the"),
        "expected a size-limit error, got: {}",
        err.describe()
    );
}

/// A peer hanging up reaches us as a transport error, and must still read as the end of the
/// conversation.
#[test]
fn a_tor_hangup_reads_as_end_of_stream() {
    assert!(is_hangup(ReadFailure::Other, "Received an END cell with reason MISC"));
    assert!(FrameReader::new().ended().is_ok());
}

#[test]
fn a_peer_quitting_reads_as_end_of_stream() {
    for kind in [
        ReadFailure::NotConnected,
        ReadFailure::ConnectionReset,
        ReadFailure::ConnectionAborted,
    ] {
        assert!(is_hangup(kind, "gone"), "{kind:?} must be a hang-up");
    }
    assert!(is_hangup(ReadFailure::Other, "Stream not connected"));
    assert!(is_hangup(ReadFailure::Other, "the stream closed early"));
}

#[test]
fn a_genuine_read_error_is_not_swallowed() {
    assert!(!is_hangup(ReadFailure::Other, "disk on fire"));
    assert!(!is_hangup(ReadFailure::Other, ""));
}

#[test]
fn a_full_chunk_still_fits_a_frame() {
    let full = Message::FileChunk(vec![0u8; MAX_CHUNK]);
    let wire = wire_of(&[full.clone()]);
    assert!(wire.len() < MAX_FRAME, "{} bytes", wire.len());
    assert_eq!(read_all(&wire), vec![full]);
}

#[test]
fn a_transfer_round_trips() {
    let sent = vec![
        Message::FileOffer {
            name: "rapport.pdf".into(),
            size: 5,
            hash: [7u8; 32],
            direct: false,
        },
        Message::FileAccept { hash: [7u8; 32], offset: 2, direct: None },
        Message::FileChunk(b"llo".to_vec()),
        Message::FileDone,
    ];
    assert_eq!(sent, read_all(&wire_of(&sent)));
}

#[test]
fn oversized_file_messages_are_refused_by_the_sender() {
    for bad in [
        Message::FileChunk(vec![0u8; MAX_CHUNK + 1]),
        Message::FileOffer {
            name: "n".repeat(MAX_NAME + 1),
            size: 0,
            hash: [0u8; 32],
            direct: false,
        },
        Message::FileChunk(Vec::new()),
    ] {
        let mut wire = Vec::new();
        assert!(write_frame(&mut wire, &bad).is_err(), "{bad:?} must not reach the wire");
        assert!(wire.is_empty());
    }
}

#[test]
fn a_direct_negotiation_round_trips() {
    let mut fe80 = [0u8; 16];
    fe80[0] = 0xfe;
    fe80[1] = 0x80;
    fe80[15] = 1;
    let sent = vec![
        Message::FileOffer {
            name: "gros.pdf".into(),
            size: 2_400_000,
            hash: [3u8; 32],
            direct: true,
        },
        Message::FileAccept {
            hash: [1u8; 32],
            offset: 0,
            direct: Some(Direct {
                candidates: vec![Addr::V4([192, 168, 1, 42], 51820), Addr::V6(fe80, 51820)],
                fingerprint: [9u8; 32],
            }),
        },
        Message::DirectFailed,
    ];
    assert_eq!(sent, read_all(&wire_of(&sent)), "IPv4 and IPv6 addresses must both survive");
}

#[test]
fn a_direct_answer_must_offer_at_least_one_address_and_not_too_many() {
    let one = Addr::V4([127, 0, 0, 1], 1);
    let empty = Message::FileAccept {
        hash: [0u8; 32],
        offset: 0,
        direct: Some(Direct { candidates: Vec::new(), fingerprint: [0u8; 32] }),
    };
    let flood = Message::FileAccept {
        hash: [0u8; 32],
        offset: 0,
        direct: Some(Direct {
            candidates: vec![one; MAX_CANDIDATES + 1],
            fingerprint: [0u8; 32],
        }),
    };
    for bad in [empty, flood] {
        let mut wire = Vec::new();
        assert!(write_frame(&mut wire, &bad).is_err(), "{bad:?} must not reach the wire");
        assert!(wire.is_empty());
    }
    let mut wire = Vec::new();
    write_frame(
        &mut wire,
        &Message::FileAccept { hash: [0u8; 32], offset: 12, direct: None },
    )
    .expect("a Tor transfer names no address");
    assert!(!wire.is_empty());
}

#[test]
fn oversized_text_is_refused_by_the_sender() {
    let too_long = Message::Text("a".repeat(MAX_TEXT + 1));
    let mut wire = Vec::new();
    let err = write_frame(&mut wire, &too_long).unwrap_err();
    assert!(err.describe().contains("over the"), "got: {}", err.describe());
    assert!(wire.is_empty(), "nothing may reach the wire");
}

/// Each limit, with the fault it gives.
#[test]
fn every_fault_is_named() {
    let file = |name: &str| {
        Piece::File(FileRef { name: name.to_owned(), size: 1, hash: [0u8; 32] })
    };
    let post = |pieces: Vec<Piece>| Message::Post { pieces, direct: false };
    assert_eq!(
        Message::Text("é".repeat(MAX_TEXT / 2 + 1)).check(),
        Err(Fault::TextTooLong(MAX_TEXT + 2))
    );
    assert_eq!(Message::Text("é".repeat(MAX_TEXT / 2)).check(), Ok(()));
    assert_eq!(
        Message::Left { id: 1, at: 2, body: "x".repeat(MAX_TEXT + 1) }.check(),
        Err(Fault::TextTooLong(MAX_TEXT + 1))
    );
    assert_eq!(
        Message::FileOffer {
            name: "n".repeat(256),
            size: 1,
            hash: [0u8; 32],
            direct: false
        }
        .check(),
        Err(Fault::NameTooLong(256))
    );
    assert_eq!(
        Message::FileChunk(vec![0; MAX_CHUNK + 1]).check(),
        Err(Fault::ChunkTooLong(MAX_CHUNK + 1))
    );
    assert_eq!(Message::FileChunk(Vec::new()).check(), Err(Fault::ChunkEmpty));
    assert_eq!(post(Vec::new()).check(), Err(Fault::PostEmpty));
    let half = "y".repeat(MAX_TEXT / 2 + 1);
    assert_eq!(
        post(vec![Piece::Text(half.clone()), file("a"), Piece::Text(half)]).check(),
        Err(Fault::PostTextTooLong(MAX_TEXT as u128 + 2))
    );
    assert_eq!(
        post(vec![file("a"); MAX_FILES + 1]).check(),
        Err(Fault::TooManyFiles(MAX_FILES + 1))
    );
    assert_eq!(post(vec![file("a"); MAX_FILES]).check(), Ok(()));
    assert_eq!(
        post(vec![file("a"), file(&"b".repeat(300)), file(&"c".repeat(400))]).check(),
        Err(Fault::NameTooLong(300))
    );
    assert_eq!(
        Fault::TooManyFiles(17).describe(),
        "a message carrying 17 files is over the 16 limit"
    );
    assert_eq!(
        Fault::PostTextTooLong(40000).describe(),
        "message text is 40000 bytes, over the 32768-byte limit"
    );
    assert_eq!(
        Fault::TooManyAddresses(9).describe(),
        "the peer offered 9 addresses for a direct link, over the 8 limit"
    );
    assert_eq!(
        Fault::NoAddress.describe(),
        "a direct link was agreed to but no address was given"
    );
}

/// Many tiny pieces pass the check and still do not fit in a frame.
#[test]
fn a_post_of_too_many_pieces_does_not_fit() {
    let msg = Message::Post {
        pieces: vec![Piece::Text(String::new()); 40_000],
        direct: false,
    };
    assert_eq!(msg.check(), Ok(()));
    let mut wire = Vec::new();
    let err = write_frame(&mut wire, &msg).unwrap_err();
    assert_eq!(err, FrameError::Oversize(1 + 3 + 2 * 40_000 + 1));
    assert_eq!(err.describe(), "encoded frame is 80005 bytes, over MAX_FRAME");
    assert!(wire.is_empty());
}

/// Each way in which reading a frame fails.
#[test]
fn every_frame_error_is_told_apart() {
    assert_eq!(read_frame(&[1, 0]), Err(FrameError::Cut { filled: 2, expected: 4 }));
    assert_eq!(read_frame(&[0, 0, 0, 0, 1]), Err(FrameError::Zero));
    assert_eq!(read_frame(&[1, 0, 1, 0]), Err(FrameError::TooLong(65537)));
    assert_eq!(read_frame(&[3, 0, 0, 0]), Err(FrameError::NoBody(3)));
    assert_eq!(
        read_frame(&[3, 0, 0, 0, 9]),
        Err(FrameError::Cut { filled: 1, expected: 3 })
    );
    assert_eq!(read_frame(&[1, 0, 0, 0, 99]), Err(FrameError::Undecodable(Garbled::Variant)));
    assert_eq!(
        read_frame(&[2, 0, 0, 0, 7, 0]),
        Err(FrameError::Illegal(Fault::ChunkEmpty))
    );
    assert_eq!(FrameError::Zero.describe(), "peer announced a zero-length frame");
    assert_eq!(
        FrameError::Cut { filled: 1, expected: 3 }.describe(),
        "stream ended after 1 of 3 expected bytes"
    );
    assert_eq!(FrameError::NoBody(3).describe(), "stream ended inside a 3-byte frame");
    assert_eq!(frame_len(&[0, 1, 0, 0]), Ok(256));
}

/// A frame that arrives byte by byte is the frame that arrives at once.
#[test]
fn a_frame_can_arrive_in_pieces() {
    let sent = vec![
        Message::Text("en morceaux".into()),
        Message::Got(300),
        Message::Left { id: 7, at: 1_700_000_000, body: "à demain".into() },
    ];
    let wire = wire_of(&sent);
    for step in [1usize, 2, 3, 7, 1000] {
        let mut reader = FrameReader::new();
        let mut got = Vec::new();
        let mut at = 0;
        while at < wire.len() {
            let n = reader.wanted().min(step).min(wire.len() - at);
            if let Some(msg) = reader.feed(&wire[at..at + n]).unwrap() {
                got.push(msg);
            }
            at += n;
        }
        assert_eq!(got, sent);
        assert!(reader.ended().is_ok());
    }
    let mut reader = FrameReader::new();
    assert_eq!(reader.feed(&wire[..3]).unwrap(), None);
    assert_eq!(reader.ended(), Err(FrameError::Cut { filled: 3, expected: 4 }));
}

/// Why a body is no message is told in postcard's own words.
#[test]
fn a_body_that_is_no_message_says_why() {
    let mut accept = vec![4u8];
    accept.extend([0u8; 33]);
    for (body, why, text) in [
        (vec![0u8, 5, b'a'], Garbled::End, postcard::Error::DeserializeUnexpectedEnd),
        (vec![0xffu8; 5], Garbled::Varint, postcard::Error::DeserializeBadVarint),
        (vec![0xffu8; 4], Garbled::End, postcard::Error::DeserializeUnexpectedEnd),
        (vec![1, 0, 2], Garbled::Bool, postcard::Error::DeserializeBadBool),
        (vec![0, 2, 0xff, 0xfe], Garbled::Utf8, postcard::Error::DeserializeBadUtf8),
        ([&accept[..], &[2]].concat(), Garbled::Choice, postcard::Error::DeserializeBadOption),
        (vec![1, 1, 9], Garbled::Variant, postcard::Error::SerdeDeCustom),
        ([&accept[..], &[1, 1, 7]].concat(), Garbled::Variant, postcard::Error::SerdeDeCustom),
    ] {
        assert_eq!(decode(&body), Err(why), "{body:?}");
        let mut wire = (body.len() as u32).to_le_bytes().to_vec();
        wire.extend(&body);
        let e = read_frame(&wire).unwrap_err();
        assert_eq!(e.describe(), format!("decoding a frame: {text}"));
    }
}

/// A post fits as long as the prefixes of its pieces leave room, and not one piece longer.
#[test]
fn a_post_fits_until_its_pieces_fill_the_frame() {
    let post = |n: usize| Message::Post { pieces: vec![Piece::Text(String::new()); n], direct: false };
    assert_eq!(encode(&post(32_765)).len(), MAX_FRAME - 1);
    assert_eq!(read_all(&wire_of(&[post(32_765)])), [post(32_765)]);
    assert_eq!(write_frame(&mut Vec::new(), &post(32_766)), Err(FrameError::Oversize(65_537)));
}

/// The bytes are those of postcard: a variant's position, then its fields.
#[test]
fn the_encoding_is_postcard() {
    let text = "accents éàü".to_owned();
    assert_eq!(
        encode(&Message::Text(text.clone())),
        postcard::to_stdvec(&(0u32, text.clone())).unwrap()
    );
    assert_eq!(
        encode(&Message::Post {
            pieces: vec![
                Piece::Text("voici".into()),
                Piece::File(FileRef { name: "a.png".into(), size: 70_000, hash: [5u8; 32] }),
            ],
            direct: true,
        }),
        postcard::to_stdvec(&(
            1u32,
            2usize as u64,
            (0u32, "voici"),
            (1u32, "a.png", 70_000u64, [5u8; 32]),
            true
        ))
        .unwrap()
    );
    assert_eq!(encode(&Message::Ping), vec![2]);
    assert_eq!(
        encode(&Message::FileOffer {
            name: "n".into(),
            size: u64::MAX,
            hash: [1u8; 32],
            direct: false
        }),
        postcard::to_stdvec(&(3u32, "n", u64::MAX, [1u8; 32], false)).unwrap()
    );
    let mut ip = [0u8; 16];
    ip[15] = 1;
    assert_eq!(
        encode(&Message::FileAccept {
            hash: [2u8; 32],
            offset: 300,
            direct: Some(Direct {
                candidates: vec![Addr::V4([10, 0, 0, 1], 65535), Addr::V6(ip, 1)],
                fingerprint: [3u8; 32],
            }),
        }),
        postcard::to_stdvec(&(
            4u32,
            [2u8; 32],
            300u64,
            Some((
                2u64,
                (0u32, [10u8, 0, 0, 1], 65535u16),
                (1u32, ip, 1u16),
                [3u8; 32]
            )),
        ))
        .unwrap()
    );
    assert_eq!(
        encode(&Message::FileAccept { hash: [2u8; 32], offset: 0, direct: None }),
        postcard::to_stdvec(&(4u32, [2u8; 32], 0u64, None::<u8>)).unwrap()
    );
    assert_eq!(
        encode(&Message::FileReject { hash: [4u8; 32] }),
        postcard::to_stdvec(&(5u32, [4u8; 32])).unwrap()
    );
    assert_eq!(encode(&Message::DirectFailed), vec![6]);
    assert_eq!(
        encode(&Message::FileChunk(vec![1, 2, 255])),
        postcard::to_stdvec(&(7u32, vec![1u8, 2, 255])).unwrap()
    );
    for (i, m) in [
        Message::FileDone,
        Message::PresenceAsk,
        Message::PresenceYes,
        Message::PresenceNo,
        Message::CallDecline,
    ]
    .iter()
    .enumerate()
    {
        assert_eq!(encode(m), vec![8 + i as u8]);
    }
}

/// What does not decode: a variant nobody knows, text that is not UTF-8, a bad flag, a number
/// with too many bytes. What decodes although it could be shorter.
#[test]
fn bad_bodies_do_not_decode() {
    assert!(decode(&[]).is_err());
    assert!(decode(&[15]).is_err());
    assert!(decode(&[0, 1, 0xff]).is_err(), "not UTF-8");
    assert!(decode(&[0, 5, b'a']).is_err(), "shorter than it says");
    assert!(decode(&[1, 0, 2]).is_err(), "not a flag");
    assert!(decode(&[14, 0xff, 0xff, 0xff, 0xff, 0xff, 0xff, 0xff, 0xff, 0xff, 2]).is_err());
    assert_eq!(
        decode(&[14, 0xff, 0xff, 0xff, 0xff, 0xff, 0xff, 0xff, 0xff, 0xff, 1]),
        Ok(Message::Got(u64::MAX))
    );
    assert_eq!(decode(&[14, 0x80, 0x00]), Ok(Message::Got(0)), "longer than needed");
    assert_eq!(decode(&[2, 1, 2, 3]), Ok(Message::Ping), "what follows is not looked at");
    assert!(decode(&[0x80, 0x80, 0x80, 0x80, 0x10]).is_err(), "a variant has 32 bits");
}
