use selium::errors::{CodecError, DecodeError};
use selium::frame::{decode_frame, encode_frame, Frame, FrameType, Signal, StreamType, MAX_FRAME_SIZE};

fn round_trip(frame: Frame) {
    let bytes = encode_frame(&frame).unwrap();
    let (decoded, consumed) = decode_frame(bytes.as_slice()).unwrap().unwrap();
    assert_eq!(consumed, bytes.len());
    assert_eq!(decoded, frame);
}

#[test]
fn frame_round_trip_every_kind() {
    round_trip(Frame::Message(vec![1, 2, 3]));
    round_trip(Frame::Batch(vec![9; 40]));
    round_trip(Frame::NewStream(StreamType::Publisher, "/acme/stocks".into()));
    round_trip(Frame::NewStream(StreamType::Subscriber, "/moo/cow".into()));
    round_trip(Frame::NewStream(StreamType::Requestor, "/a/b".into()));
    round_trip(Frame::NewStream(StreamType::Replier, "/a/b".into()));
    round_trip(Frame::Request(7, vec![4, 5]));
    round_trip(Frame::Reply(7, Vec::new()));
    round_trip(Frame::ServerRequest(1056, 2, vec![0, 255]));
    round_trip(Frame::ServerReply(12, 0, vec![42]));
    round_trip(Frame::Signal(Signal::ReplierAlreadyBound));
    round_trip(Frame::Signal(Signal::Shutdown));
}

#[test]
fn frame_round_trip_with_trailing_bytes() {
    let frame = Frame::Message(vec![10, 20, 30]);
    let mut bytes = encode_frame(&frame).unwrap();
    let record_len = bytes.len();
    bytes.push(0xAB);
    bytes.push(0xCD);
    let (decoded, consumed) = decode_frame(bytes.as_slice()).unwrap().unwrap();
    assert_eq!(consumed, record_len);
    assert_eq!(decoded, frame);
}

#[test]
fn frame_exact_wire_bytes() {
    // A signal record: size = 2 (kind + signal byte), kind 7, UnknownError 6.
    let bytes = encode_frame(&Frame::Signal(Signal::UnknownError)).unwrap();
    assert_eq!(bytes, vec![2, 0, 0, 0, 7, 6]);

    // A message record: size = 1 + 4 + payload.
    let bytes = encode_frame(&Frame::Message(vec![0xAA, 0xBB])).unwrap();
    assert_eq!(bytes, vec![7, 0, 0, 0, 1, 2, 0, 0, 0, 0xAA, 0xBB]);

    // A header record: kind 0, role byte, length-prefixed path.
    let bytes = encode_frame(&Frame::NewStream(StreamType::Requestor, "/a/b".into())).unwrap();
    assert_eq!(bytes, vec![10, 0, 0, 0, 0, 2, 4, 0, 0, 0, b'/', b'a', b'/', b'b']);
}

#[test]
fn frame_too_large_is_refused() {
    let frame = Frame::Message(vec![0u8; MAX_FRAME_SIZE]);
    let r = encode_frame(&frame);
    assert!(matches!(r, Err(CodecError::FrameTooLarge(_, m)) if m == MAX_FRAME_SIZE));

    // The largest frame that fits encodes fine: 9 bytes of framing.
    let frame = Frame::Message(vec![0u8; MAX_FRAME_SIZE - 9]);
    let bytes = encode_frame(&frame).unwrap();
    assert_eq!(bytes.len(), MAX_FRAME_SIZE);
}

#[test]
fn decode_short_buffer_wants_more() {
    let frame = Frame::Request(3, vec![1, 2, 3, 4]);
    let bytes = encode_frame(&frame).unwrap();
    for cut in 0..bytes.len() {
        let r = decode_frame(&bytes[..cut]).unwrap();
        assert!(r.is_none());
    }
}

#[test]
fn decode_rejects_malformed_records() {
    // A zero size field leaves no room for the kind byte.
    let r = decode_frame(&[0, 0, 0, 0]);
    assert!(matches!(r, Err(CodecError::Decode(DecodeError::EmptyRecord))));

    // An unknown kind byte.
    let r = decode_frame(&[1, 0, 0, 0, 99]);
    assert!(matches!(r, Err(CodecError::Decode(DecodeError::UnknownFrameKind(99)))));

    // An unknown signal byte.
    let r = decode_frame(&[2, 0, 0, 0, 7, 42]);
    assert!(matches!(r, Err(CodecError::Decode(DecodeError::UnknownSignalKind(42)))));

    // An unknown stream role byte.
    let r = decode_frame(&[6, 0, 0, 0, 0, 9, 0, 0, 0, 0]);
    assert!(matches!(r, Err(CodecError::Decode(DecodeError::UnknownStreamType(9)))));

    // A message whose length prefix disagrees with the record size.
    let r = decode_frame(&[6, 0, 0, 0, 1, 9, 0, 0, 0, 1]);
    assert!(matches!(r, Err(CodecError::Decode(DecodeError::LengthMismatch))));
}

#[test]
fn frame_size_counts_the_complete_record() {
    assert_eq!(Frame::Signal(Signal::Shutdown).size(), 6);
    assert_eq!(Frame::Message(vec![1, 2]).size(), 11);
    assert_eq!(Frame::ServerReply(1, 2, vec![3]).size(), 22);
    let f = Frame::Batch(vec![7; 10]);
    let bytes = encode_frame(&f).unwrap();
    assert_eq!(f.size(), bytes.len());
}

#[test]
fn frame_ty_names_each_kind() {
    assert_eq!(Frame::Batch(Vec::new()).ty(), FrameType::Batch);
    assert_eq!(Frame::Message(Vec::new()).ty(), FrameType::Message);
    assert_eq!(Frame::NewStream(StreamType::Publisher, Vec::new()).ty(), FrameType::NewStream);
    assert_eq!(Frame::Reply(0, Vec::new()).ty(), FrameType::Reply);
    assert_eq!(Frame::Request(0, Vec::new()).ty(), FrameType::Request);
    assert_eq!(Frame::ServerReply(0, 0, Vec::new()).ty(), FrameType::ServerReply);
    assert_eq!(Frame::ServerRequest(0, 0, Vec::new()).ty(), FrameType::ServerRequest);
    assert_eq!(Frame::Signal(Signal::Shutdown).ty(), FrameType::Signal);
}
