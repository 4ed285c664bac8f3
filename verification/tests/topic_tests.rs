use selium::batching::{decode_message_batch, encode_message_batch, BatchConfig, MessageBatch};
use selium::errors::TopicError;
use selium::frame::{Frame, Signal};
use selium::keep_alive::request_poll;
use selium::log::{LogConfig, MessageLog};
use selium::pubsub::{subscriber_start_offset, Offset, Topic};
use selium::reqrep::{RegisterReplier, ReplyAction, ReqRepTopic, RequestAction};

fn test_log(max_entries: u32) -> MessageLog {
    let config = LogConfig {
        max_index_entries: max_entries,
        retention_period_ms: 60_000,
        cleaner_interval_ms: 1000,
        flush_interval_ms: 1000,
        flush_num_writes: None,
    };
    MessageLog::open(config, 0).unwrap()
}

#[test]
fn from_end_clamps_at_zero() {
    // A subscriber with FromEnd(k) on a topic with e entries starts at
    // max(0, e - k).
    assert_eq!(subscriber_start_offset(Offset::FromEnd(2), 5), 3);
    assert_eq!(subscriber_start_offset(Offset::FromEnd(5), 5), 0);
    assert_eq!(subscriber_start_offset(Offset::FromEnd(10), 3), 0);
    assert_eq!(subscriber_start_offset(Offset::FromEnd(0), 7), 7);
    assert_eq!(subscriber_start_offset(Offset::FromBeginning(4), 7), 4);
}

#[test]
fn publisher_sends_and_subscriber_from_beginning_sees_all() {
    // Two messages published in order arrive in order, payloads equal.
    let mut topic = Topic::new(test_log(8));
    let msft: Vec<u8> = b"MSFT:12.75".to_vec();
    let intc: Vec<u8> = b"INTC:-9.0".to_vec();
    topic.publish(&Frame::Message(msft.clone()), 1).unwrap();
    topic.publish(&Frame::Message(intc.clone()), 2).unwrap();

    let start = topic.add_subscriber(Offset::FromBeginning(0));
    assert_eq!(start, 0);
    let (frames, cursor) = topic.poll_subscriber(start);
    assert_eq!(cursor, 2);
    assert_eq!(frames.len(), 2);
    assert_eq!(frames[0], Frame::Message(msft));
    assert_eq!(frames[1], Frame::Message(intc));
}

#[test]
fn late_subscriber_from_end_sees_last_two() {
    // Five messages, then a subscriber with FromEnd(2): it sees only the
    // last two, and anything published afterwards.
    let mut topic = Topic::new(test_log(4));
    for k in 0..5u8 {
        topic.publish(&Frame::Message(vec![k]), k as u64).unwrap();
    }
    let start = topic.add_subscriber(Offset::FromEnd(2));
    assert_eq!(start, 3);
    let mut seen: Vec<Frame> = Vec::new();
    let mut cursor = start;
    loop {
        let (frames, next) = topic.poll_subscriber(cursor);
        if frames.is_empty() {
            break;
        }
        seen.extend(frames);
        cursor = next;
    }
    assert_eq!(seen, vec![Frame::Message(vec![3]), Frame::Message(vec![4])]);

    topic.publish(&Frame::Message(vec![9]), 9).unwrap();
    let (frames, _) = topic.poll_subscriber(cursor);
    assert_eq!(frames, vec![Frame::Message(vec![9])]);
}

#[test]
fn batched_publish_is_one_entry_and_one_batch_frame() {
    // A publisher batching three messages sends one Batch frame; the broker
    // stores one entry with batch_size 3; the subscriber's Batch frame
    // decodes back to the same three messages.
    let config = BatchConfig { max_size: 3, interval_ms: 60_000 };
    let mut batch = MessageBatch::new(config, 0);
    batch.push(b"one".to_vec());
    assert!(!batch.is_ready(1));
    batch.push(b"two".to_vec());
    batch.push(b"three".to_vec());
    assert!(batch.is_ready(1));
    let messages = batch.drain();
    assert!(batch.is_empty());
    let payload = encode_message_batch(&messages);

    let mut topic = Topic::new(test_log(8));
    topic.publish(&Frame::Batch(payload.clone()), 42).unwrap();
    assert_eq!(topic.log().number_of_entries(), 1);

    let (frames, _) = topic.poll_subscriber(0);
    assert_eq!(frames.len(), 1);
    match &frames[0] {
        Frame::Batch(bytes) => {
            let decoded = decode_message_batch(bytes).unwrap();
            assert_eq!(decoded, vec![b"one".to_vec(), b"two".to_vec(), b"three".to_vec()]);
        },
        other => panic!("expected a batch frame, got {:?}", other),
    }
}

#[test]
fn batch_interval_flushes_without_fill() {
    let config = BatchConfig { max_size: 100, interval_ms: 50 };
    let mut batch = MessageBatch::new(config, 0);
    batch.push(b"m".to_vec());
    assert!(!batch.is_ready(49));
    assert!(batch.is_ready(50));
    batch.update_last_run(50);
    assert!(!batch.is_ready(51));
}

#[test]
fn batch_payload_round_trips() {
    let messages = vec![b"a".to_vec(), Vec::new(), b"abc".to_vec()];
    let payload = encode_message_batch(&messages);
    assert_eq!(decode_message_batch(&payload).unwrap(), messages);
    // One message of two bytes: length prefix then the bytes.
    let payload = encode_message_batch(&vec![vec![0xAA, 0xBB]]);
    assert_eq!(payload, vec![2, 0, 0, 0, 0xAA, 0xBB]);
    // A truncated payload is refused.
    assert!(decode_message_batch(&vec![5, 0, 0, 0, 1]).is_err());
}

#[test]
fn publisher_channel_rejects_other_frames() {
    let mut topic = Topic::new(test_log(8));
    let r = topic.publish(&Frame::Request(1, Vec::new()), 0);
    assert!(matches!(r, Err(TopicError::UnexpectedFrame(_))));
    assert_eq!(topic.log().number_of_entries(), 0);
}

#[test]
fn publisher_stream_ids_are_sequential() {
    let mut topic = Topic::new(test_log(8));
    assert_eq!(topic.add_publisher(), 0);
    assert_eq!(topic.add_publisher(), 1);
    assert_eq!(topic.add_publisher(), 2);
}

#[test]
fn second_replier_is_rejected() {
    let mut topic = ReqRepTopic::new();
    assert!(matches!(topic.register_replier(), RegisterReplier::Bound(_)));
    // The slot is occupied: the second replier is told so.
    let second = topic.register_replier();
    assert!(matches!(second, RegisterReplier::Rejected(Signal::ReplierAlreadyBound)));
    // After the bound replier departs, a new one may bind.
    topic.remove_replier();
    assert!(matches!(topic.register_replier(), RegisterReplier::Bound(_)));
}

#[test]
fn requests_and_replies_correlate_across_requestors() {
    let mut topic = ReqRepTopic::new();
    assert!(matches!(topic.register_replier(), RegisterReplier::Bound(_)));
    let alice = topic.register_requestor();
    let bob = topic.register_requestor();
    assert_ne!(alice, bob);

    // Both requestors use the same request id; the forwarded server
    // requests still tell them apart by client id.
    let fa = topic.handle_requestor_frame(alice, &Frame::Request(7, b"ping-a".to_vec())).unwrap();
    let fb = topic.handle_requestor_frame(bob, &Frame::Request(7, b"ping-b".to_vec())).unwrap();
    assert!(matches!(&fa, RequestAction::Forward(Frame::ServerRequest(c, 7, _)) if *c == alice));
    assert!(matches!(&fb, RequestAction::Forward(Frame::ServerRequest(c, 7, _)) if *c == bob));

    // Replies return out of order; each requestor receives exactly its own.
    let rb = topic.handle_replier_frame(&Frame::ServerReply(bob, 7, b"pong-b".to_vec())).unwrap();
    let ra = topic.handle_replier_frame(&Frame::ServerReply(alice, 7, b"pong-a".to_vec())).unwrap();
    match rb {
        ReplyAction::Deliver(c, f) => {
            assert_eq!(c, bob);
            assert_eq!(f, Frame::Reply(7, b"pong-b".to_vec()));
        },
        ReplyAction::Dropped => panic!("expected delivery"),
    }
    match ra {
        ReplyAction::Deliver(c, f) => {
            assert_eq!(c, alice);
            assert_eq!(f, Frame::Reply(7, b"pong-a".to_vec()));
        },
        ReplyAction::Dropped => panic!("expected delivery"),
    }
}

#[test]
fn requests_buffer_until_a_replier_binds() {
    let mut topic = ReqRepTopic::new();
    let c = topic.register_requestor();
    let r = topic.handle_requestor_frame(c, &Frame::Request(1, b"early".to_vec())).unwrap();
    assert!(matches!(r, RequestAction::Buffered));

    // Binding drains the buffered request, already addressed.
    match topic.register_replier() {
        RegisterReplier::Bound(frames) => {
            assert_eq!(frames.len(), 1);
            assert_eq!(frames[0], Frame::ServerRequest(c, 1, b"early".to_vec()));
        },
        RegisterReplier::Rejected(_) => panic!("slot was empty"),
    }
}

#[test]
fn reply_to_departed_requestor_is_dropped() {
    let mut topic = ReqRepTopic::new();
    assert!(matches!(topic.register_replier(), RegisterReplier::Bound(_)));
    let c = topic.register_requestor();
    topic.remove_requestor(c);
    let r = topic.handle_replier_frame(&Frame::ServerReply(c, 3, Vec::new())).unwrap();
    assert!(matches!(r, ReplyAction::Dropped));
}

#[test]
fn replier_channel_rejects_other_frames() {
    let topic = ReqRepTopic::new();
    let r = topic.handle_replier_frame(&Frame::Message(Vec::new()));
    assert!(matches!(r, Err(TopicError::UnexpectedFrame(_))));
}

#[test]
fn ping_round_trips_to_pong_within_the_timeout() {
    let mut topic = ReqRepTopic::new();
    assert!(matches!(topic.register_replier(), RegisterReplier::Bound(_)));
    let client = topic.register_requestor();

    // The requestor's Ping travels to the replier as a server request.
    let forwarded = topic.handle_requestor_frame(client, &Frame::Request(1, b"Ping".to_vec()));
    let server_request = match forwarded.unwrap() {
        RequestAction::Forward(f) => f,
        RequestAction::Buffered => panic!("a replier is bound"),
    };
    assert_eq!(server_request, Frame::ServerRequest(client, 1, b"Ping".to_vec()));

    // The replier answers Pong; the topic hands it back to the requestor.
    let delivered = topic.handle_replier_frame(&Frame::ServerReply(client, 1, b"Pong".to_vec()));
    match delivered.unwrap() {
        ReplyAction::Deliver(cid, reply) => {
            assert_eq!(cid, client);
            assert_eq!(reply, Frame::Reply(1, b"Pong".to_vec()));
        },
        ReplyAction::Dropped => panic!("the requestor is registered"),
    }

    // Well inside the timeout, the poll returns the reply.
    let polled = request_poll(Some(b"Pong".to_vec()), 10, 100);
    assert_eq!(polled.unwrap(), Some(b"Pong".to_vec()));
}
