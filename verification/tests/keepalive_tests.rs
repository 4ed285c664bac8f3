use selium::batching::encode_message_batch;
use selium::client::{handler_reply, replier_event, subscriber_event, ReplierEvent, SubscriberEvent};
use selium::frame::{Frame, Signal};
use selium::keep_alive::{
    is_recoverable_error, reconnect_step, request_poll, BackoffKind, BackoffStrategy, ClientError,
    KeepAlive, ReconnectStep,
};

#[test]
fn constant_backoff_keeps_its_interval() {
    let strategy = BackoffStrategy::constant().with_initial_interval(100).with_max_attempts(3);
    let mut iter = strategy.into_iter();
    for expected_attempt in 1..=3u32 {
        let a = iter.next().unwrap();
        assert_eq!(a.duration_ms, 100);
        assert_eq!(a.attempt_num, expected_attempt);
        assert_eq!(a.max_attempts, 3);
    }
    assert!(iter.next().is_none());
}

#[test]
fn exponential_backoff_doubles() {
    let strategy = BackoffStrategy::exponential().with_initial_interval(100).with_max_attempts(5);
    let mut iter = strategy.into_iter();
    let delays: Vec<u64> = (0..5).map(|_| iter.next().unwrap().duration_ms).collect();
    assert_eq!(delays, vec![100, 200, 400, 800, 1600]);
    assert!(iter.next().is_none());
}

#[test]
fn exponential_backoff_saturates() {
    let strategy = BackoffStrategy::exponential()
        .with_initial_interval(u64::MAX / 2)
        .with_max_attempts(4);
    let mut iter = strategy.into_iter();
    assert_eq!(iter.next().unwrap().duration_ms, u64::MAX / 2);
    assert_eq!(iter.next().unwrap().duration_ms, u64::MAX - 1);
    assert_eq!(iter.next().unwrap().duration_ms, u64::MAX);
    assert_eq!(iter.next().unwrap().duration_ms, u64::MAX);
}

#[test]
fn fibonacci_backoff_adds_the_last_two() {
    let strategy = BackoffStrategy::fibonacci().with_initial_interval(100).with_max_attempts(6);
    let mut iter = strategy.into_iter();
    let delays: Vec<u64> = (0..6).map(|_| iter.next().unwrap().duration_ms).collect();
    assert_eq!(delays, vec![100, 100, 200, 300, 500, 800]);
}

#[test]
fn zero_max_attempts_never_retries() {
    let strategy = BackoffStrategy::constant().with_max_attempts(0);
    let mut iter = strategy.into_iter();
    assert!(iter.next().is_none());
    let step = reconnect_step(&mut iter);
    assert!(matches!(step, ReconnectStep::GiveUp(ClientError::TooManyRetries)));
}

#[test]
fn reconnect_gives_up_after_the_budget() {
    let strategy = BackoffStrategy::constant().with_initial_interval(10).with_max_attempts(2);
    let mut iter = strategy.into_iter();
    assert!(matches!(reconnect_step(&mut iter), ReconnectStep::SleepThenRetry(a) if a.attempt_num == 1));
    assert!(matches!(reconnect_step(&mut iter), ReconnectStep::SleepThenRetry(a) if a.attempt_num == 2));
    assert!(matches!(reconnect_step(&mut iter), ReconnectStep::GiveUp(ClientError::TooManyRetries)));
}

#[test]
fn only_transport_errors_are_recoverable() {
    assert!(is_recoverable_error(&ClientError::ConnectionLost));
    assert!(is_recoverable_error(&ClientError::WriteFailed));
    assert!(is_recoverable_error(&ClientError::ReadFailed));
    assert!(is_recoverable_error(&ClientError::IdleTimeout));
    assert!(!is_recoverable_error(&ClientError::AuthFailed));
    assert!(!is_recoverable_error(&ClientError::InvalidTopic));
    assert!(!is_recoverable_error(&ClientError::ProtocolMismatch));
    assert!(!is_recoverable_error(&ClientError::TooManyRetries));
    assert!(!is_recoverable_error(&ClientError::RequestTimeout));
}

#[test]
fn keep_alive_wraps_a_stream_with_its_policy() {
    let strategy = BackoffStrategy::fibonacci().with_max_attempts(7);
    let wrapped: KeepAlive<u32> = KeepAlive::new(17, strategy);
    assert_eq!(*wrapped.stream(), 17);
    assert_eq!(wrapped.backoff_strategy().max_attempts, 7);
    assert_eq!(wrapped.backoff_strategy().kind, BackoffKind::Fibonacci);
}

#[test]
fn slow_replier_times_out_and_fast_one_succeeds() {
    // A requestor with a 100 ms timeout against a replier that takes 500 ms
    // sees RequestTimeout; a subsequent request against a fast replier
    // succeeds.
    let waiting = request_poll(None, 100, 100);
    assert!(matches!(waiting, Err(ClientError::RequestTimeout)));

    let still_early = request_poll(None, 50, 100);
    assert!(matches!(still_early, Ok(None)));

    let answered = request_poll(Some(b"Pong".to_vec()), 10, 100);
    assert_eq!(answered.unwrap(), Some(b"Pong".to_vec()));
}

#[test]
fn subscriber_events_unpack_frames() {
    match subscriber_event(Frame::Message(b"tick".to_vec())).unwrap() {
        SubscriberEvent::Deliver(ms) => assert_eq!(ms, vec![b"tick".to_vec()]),
        SubscriberEvent::Notice(_) => panic!("expected a delivery"),
    }

    let payload = encode_message_batch(&vec![b"a".to_vec(), b"b".to_vec()]);
    match subscriber_event(Frame::Batch(payload)).unwrap() {
        SubscriberEvent::Deliver(ms) => assert_eq!(ms, vec![b"a".to_vec(), b"b".to_vec()]),
        SubscriberEvent::Notice(_) => panic!("expected a delivery"),
    }

    match subscriber_event(Frame::Signal(Signal::Shutdown)).unwrap() {
        SubscriberEvent::Notice(s) => assert_eq!(s, Signal::Shutdown),
        SubscriberEvent::Deliver(_) => panic!("expected a notice"),
    }

    assert!(matches!(
        subscriber_event(Frame::Request(1, Vec::new())),
        Err(ClientError::ProtocolMismatch)
    ));
    assert!(matches!(
        subscriber_event(Frame::Batch(vec![9, 0, 0, 0])),
        Err(ClientError::DecodeFailed)
    ));
}

#[test]
fn replier_events_carry_correlation_ids() {
    match replier_event(Frame::ServerRequest(12, 7, b"ping".to_vec())).unwrap() {
        ReplierEvent::HandleRequest(cid, rid, body) => {
            assert_eq!(cid, 12);
            assert_eq!(rid, 7);
            assert_eq!(body, b"ping".to_vec());
            // The handler's reply travels behind the same correlation ids...
            assert_eq!(handler_reply(cid, rid, Ok(b"pong".to_vec())).unwrap(),
                Frame::ServerReply(12, 7, b"pong".to_vec()));
            // ... and a failed handler sends no reply but a surfaced error.
            assert!(matches!(handler_reply(cid, rid, Err(())),
                Err(ClientError::HandlerFailed)));
        },
        ReplierEvent::Notice(_) => panic!("expected a request"),
    }

    assert!(matches!(
        replier_event(Frame::Reply(1, Vec::new())),
        Err(ClientError::ProtocolMismatch)
    ));
}
