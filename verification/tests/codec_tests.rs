use selium::codec::Codec;
use selium::frame::{Frame, Signal, StreamType};

const SENDING: bool = true;
const RECEIVING: bool = false;

fn check_state(frames: &[(Frame, bool)]) {
    let mut codec = Codec::default();
    frames.iter().for_each(|(frame, sending)| codec.state(frame, *sending).unwrap());
}

#[test]
fn test_newstream_state() {
    let mut codec = Codec::default();
    codec
        .state(&Frame::NewStream(StreamType::Publisher, "/moo/cow".into()), SENDING)
        .unwrap();

    assert_eq!(codec.stream_type(), Some(StreamType::Publisher));
    assert_eq!(codec.get_path(), Some(&Vec::from("/moo/cow")));
}

#[test]
fn test_pub_ok() {
    check_state(&[
        (Frame::NewStream(StreamType::Publisher, "/moo/cow".into()), SENDING),
        (Frame::Message(Vec::new()), SENDING),
        (Frame::Message(Vec::new()), SENDING),
        (Frame::Batch(Vec::new()), SENDING),
        (Frame::Signal(Signal::UnknownError), RECEIVING),
        (Frame::Message(Vec::new()), SENDING),
    ]);
}

#[test]
fn test_sub_ok() {
    check_state(&[
        (Frame::NewStream(StreamType::Subscriber, "/moo/cow".into()), SENDING),
        (Frame::Signal(Signal::UnknownError), RECEIVING),
        (Frame::Message(Vec::new()), RECEIVING),
        (Frame::Message(Vec::new()), RECEIVING),
        (Frame::Batch(Vec::new()), RECEIVING),
        (Frame::Message(Vec::new()), RECEIVING),
    ]);
}

#[test]
fn test_req_ok() {
    check_state(&[
        (Frame::NewStream(StreamType::Requestor, "/moo/cow".into()), SENDING),
        (Frame::Request(0, Vec::new()), SENDING),
        (Frame::Reply(0, Vec::new()), RECEIVING),
        (Frame::Request(1, Vec::new()), SENDING),
        (Frame::Request(2, Vec::new()), SENDING),
        (Frame::Reply(2, Vec::new()), RECEIVING),
        (Frame::Reply(1, Vec::new()), RECEIVING),
        (Frame::Signal(Signal::UnknownError), RECEIVING),
    ]);
}

#[test]
fn test_rep_ok() {
    check_state(&[
        (Frame::NewStream(StreamType::Replier, "/moo/cow".into()), SENDING),
        (Frame::ServerRequest(12, 0, Vec::new()), RECEIVING),
        (Frame::Signal(Signal::UnknownError), RECEIVING),
        (Frame::ServerRequest(16, 1, Vec::new()), RECEIVING),
        (Frame::ServerReply(16, 1, Vec::new()), SENDING),
        (Frame::ServerReply(12, 0, Vec::new()), SENDING),
        (Frame::ServerRequest(1056, 2, Vec::new()), RECEIVING),
        (Frame::ServerReply(1056, 2, Vec::new()), SENDING),
    ]);
}

#[test]
#[should_panic]
fn test_missing_newstream() {
    check_state(&[
        (Frame::ServerRequest(12, 0, Vec::new()), RECEIVING),
        (Frame::ServerRequest(16, 1, Vec::new()), RECEIVING),
        (Frame::ServerReply(16, 1, Vec::new()), SENDING),
        (Frame::ServerReply(12, 0, Vec::new()), SENDING),
        (Frame::ServerRequest(1056, 2, Vec::new()), RECEIVING),
        (Frame::ServerReply(1056, 2, Vec::new()), SENDING),
    ]);
}

#[test]
#[should_panic]
fn test_recv_newstream() {
    check_state(&[(Frame::NewStream(StreamType::Requestor, "/moo/cow".into()), RECEIVING)]);
}

#[test]
#[should_panic]
fn test_rep_using_req_frames() {
    check_state(&[
        (Frame::NewStream(StreamType::Replier, "/moo/cow".into()), SENDING),
        (Frame::Request(0, Vec::new()), RECEIVING),
        (Frame::Reply(0, Vec::new()), SENDING),
    ]);
}

#[test]
#[should_panic]
fn test_rep_reply_before_request() {
    check_state(&[
        (Frame::NewStream(StreamType::Replier, "/moo/cow".into()), SENDING),
        (Frame::ServerReply(0, 0, Vec::new()), SENDING),
        (Frame::ServerRequest(0, 0, Vec::new()), RECEIVING),
    ]);
}

#[test]
#[should_panic]
fn test_rep_receive_reply() {
    check_state(&[
        (Frame::NewStream(StreamType::Replier, "/moo/cow".into()), SENDING),
        (Frame::ServerReply(0, 0, Vec::new()), RECEIVING),
    ]);
}

#[test]
#[should_panic]
fn test_req_receive_request() {
    check_state(&[
        (Frame::NewStream(StreamType::Requestor, "/moo/cow".into()), SENDING),
        (Frame::Request(0, Vec::new()), RECEIVING),
    ]);
}

#[test]
#[should_panic]
fn test_req_receive_server_reply() {
    check_state(&[
        (Frame::NewStream(StreamType::Requestor, "/moo/cow".into()), SENDING),
        (Frame::ServerReply(0, 0, Vec::new()), RECEIVING),
    ]);
}

#[test]
#[should_panic]
fn test_pub_recv_message() {
    check_state(&[
        (Frame::NewStream(StreamType::Publisher, "/moo/cow".into()), SENDING),
        (Frame::Message(Vec::new()), RECEIVING),
    ]);
}

#[test]
#[should_panic]
fn test_sub_send_message() {
    check_state(&[
        (Frame::NewStream(StreamType::Subscriber, "/moo/cow".into()), SENDING),
        (Frame::Message(Vec::new()), SENDING),
    ]);
}

#[test]
#[should_panic]
fn test_send_signal() {
    check_state(&[
        (Frame::NewStream(StreamType::Subscriber, "/moo/cow".into()), SENDING),
        (Frame::Signal(Signal::UnknownError), SENDING),
    ]);
}

#[test]
fn test_recv_signal() {
    check_state(&[
        (Frame::NewStream(StreamType::Subscriber, "/moo/cow".into()), SENDING),
        (Frame::Signal(Signal::UnknownError), RECEIVING),
    ]);
}

#[test]
fn codec_encode_checks_state_and_size() {
    let mut codec = Codec::default();
    let header = Frame::NewStream(StreamType::Publisher, "/moo/cow".into());
    let bytes = codec.encode(&header).unwrap();
    assert!(bytes.len() <= 1024 * 1024);

    // A frame out of order is refused before any bytes are produced.
    let bad = codec.encode(&Frame::Reply(1, Vec::new()));
    assert!(matches!(bad, Err(selium::errors::CodecError::FrameOutOfOrder(_, _))));

    // An oversize message fails with FrameTooLarge.
    let huge = Frame::Message(vec![0u8; 2 * 1024 * 1024]);
    let r = codec.encode(&huge);
    assert!(matches!(r, Err(selium::errors::CodecError::FrameTooLarge(_, m)) if m == 1024 * 1024));
}

#[test]
fn codec_decode_runs_the_state_machine() {
    // A publisher-side codec encodes; the broker-side codec decodes the
    // same bytes while enforcing the receive direction.
    let mut sender = Codec::default();
    let mut receiver = Codec::default();

    let header = Frame::NewStream(StreamType::Subscriber, "/moo/cow".into());
    let bytes = sender.encode(&header).unwrap();
    // Receiving a NewStream header is illegal in any state.
    assert!(matches!(
        receiver.decode(&bytes),
        Err(selium::errors::CodecError::FrameOutOfOrder(_, _))
    ));
}
