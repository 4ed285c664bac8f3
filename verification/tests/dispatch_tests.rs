use selium::batching::BatchConfig;
use selium::builder::{StreamBuilder, DEFAULT_RETENTION_MS};
use selium::dispatch::{
    evaluate_cloud_auth, evaluate_handshake, route_header, AdminResponse, CloudAuthError,
    HandshakeOutcome, RouteAction, TopicKind,
};
use selium::frame::{Frame, Signal, StreamType};
use selium::pubsub::Offset;
use selium::topic_name::{TopicName, TopicNameError};

#[test]
fn topic_names_validate() {
    let name = TopicName::parse(&Vec::from("/acme/stocks")).unwrap();
    assert_eq!(name.namespace(), &Vec::from("acme"));
    assert_eq!(name.topic(), &Vec::from("stocks"));
    assert_eq!(name.to_path(), Vec::from("acme/stocks"));

    // The leading slash is optional.
    let name = TopicName::parse(&Vec::from("moo/cow")).unwrap();
    assert_eq!(name.namespace(), &Vec::from("moo"));

    assert!(matches!(TopicName::parse(&Vec::from("nodelimiter")), Err(TopicNameError::Malformed)));
    assert!(matches!(TopicName::parse(&Vec::from("/half/")), Err(TopicNameError::Malformed)));
    assert!(matches!(TopicName::parse(&Vec::from("//topic")), Err(TopicNameError::Malformed)));
    assert!(matches!(TopicName::parse(&Vec::from("/spa ce/topic")), Err(TopicNameError::Malformed)));
    assert!(matches!(TopicName::parse(&Vec::new()), Err(TopicNameError::Malformed)));

    // The broker's namespace prefix is refused from outside...
    assert!(matches!(TopicName::parse(&Vec::from("/selium/proxy")), Err(TopicNameError::Reserved)));
    // ... but the broker itself may build such names.
    let own = TopicName::create_unchecked(Vec::from("selium"), Vec::from("proxy"));
    assert_eq!(own.namespace(), &Vec::from("selium"));
}

#[test]
fn routing_follows_the_header() {
    // A valid header on an unknown topic spawns a topic of the role's kind.
    let header = Frame::NewStream(StreamType::Publisher, "/acme/stocks".into());
    match route_header(&header, None) {
        RouteAction::SpawnAndAttach(kind, role, name) => {
            assert_eq!(kind, TopicKind::PubSub);
            assert_eq!(role, StreamType::Publisher);
            assert_eq!(name.to_path(), Vec::from("acme/stocks"));
        },
        _ => panic!("expected a spawn"),
    }

    // The same header against the running topic just attaches.
    let header = Frame::NewStream(StreamType::Subscriber, "/acme/stocks".into());
    assert!(matches!(route_header(&header, Some(TopicKind::PubSub)), RouteAction::Attach(_, _)));

    // A requestor registers a request/reply topic.
    let header = Frame::NewStream(StreamType::Requestor, "/svc/echo".into());
    assert!(matches!(
        route_header(&header, None),
        RouteAction::SpawnAndAttach(TopicKind::ReqRep, _, _)
    ));

    // A role of the wrong kind is turned away from a running topic.
    assert!(matches!(
        route_header(&header, Some(TopicKind::PubSub)),
        RouteAction::Reject(Signal::UnknownError)
    ));

    // An invalid topic path is signalled and the channel closed.
    let header = Frame::NewStream(StreamType::Publisher, "broken".into());
    assert!(matches!(
        route_header(&header, None),
        RouteAction::Reject(Signal::InvalidTopicName)
    ));

    // A reserved namespace is refused the same way.
    let header = Frame::NewStream(StreamType::Publisher, "/selium/secrets".into());
    assert!(matches!(
        route_header(&header, None),
        RouteAction::Reject(Signal::InvalidTopicName)
    ));

    // Anything but a NewStream header drops the channel.
    assert!(matches!(
        route_header(&Frame::Message(Vec::new()), None),
        RouteAction::BadHeader
    ));
}

#[test]
fn cloud_auth_matches_namespaces() {
    let ns = Vec::from("acme");

    // The proxy's own key skips the check.
    assert!(evaluate_cloud_auth(true, false, None, &ns).is_ok());

    // Without a proxy the client must retry later.
    assert_eq!(
        evaluate_cloud_auth(false, false, None, &ns),
        Err(CloudAuthError::ProxyNotConnected)
    );

    // The proxy names the same namespace: allowed.
    let same = Some(Ok(AdminResponse::GetNamespaceResponse(Vec::from("acme"))));
    assert!(evaluate_cloud_auth(false, true, same, &ns).is_ok());

    // The proxy names another namespace: denied.
    let other = Some(Ok(AdminResponse::GetNamespaceResponse(Vec::from("evil"))));
    assert_eq!(evaluate_cloud_auth(false, true, other, &ns), Err(CloudAuthError::AccessDenied));

    // A malformed or missing answer is its own failure.
    let bad = Some(Ok(AdminResponse::OtherResponse));
    assert_eq!(evaluate_cloud_auth(false, true, bad, &ns), Err(CloudAuthError::InvalidResponse));
    assert_eq!(evaluate_cloud_auth(false, true, Some(Err(())), &ns), Err(CloudAuthError::ProxyFailure));
    assert_eq!(evaluate_cloud_auth(false, true, None, &ns), Err(CloudAuthError::NoResponse));
}

#[test]
fn builders_stage_their_choices() {
    let publisher = StreamBuilder::publisher("/acme/stocks".into())
        .with_encoder(0u8)
        .with_batching(BatchConfig { max_size: 3, interval_ms: 50 })
        .retain(1000);
    assert_eq!(publisher.state.common.topic, Vec::from("/acme/stocks"));
    assert_eq!(publisher.state.common.retention_policy_ms, 1000);
    assert_eq!(publisher.state.batch_config, Some(BatchConfig { max_size: 3, interval_ms: 50 }));

    let subscriber = StreamBuilder::subscriber("/acme/stocks".into())
        .with_decoder(0u8)
        .seek(Offset::FromEnd(2));
    assert_eq!(subscriber.state.offset, Offset::FromEnd(2));
    assert_eq!(subscriber.state.common.retention_policy_ms, DEFAULT_RETENTION_MS);

    let replier = StreamBuilder::replier("/svc/echo".into())
        .with_request_decoder(1u8)
        .with_reply_encoder(2u8);
    assert_eq!(replier.state.decoder, 1u8);
    assert_eq!(replier.state.encoder, 2u8);
}

#[test]
fn handshake_checks_the_salutation_and_version() {
    // "SEL" with the spoken version, little endian: accepted with "HEY".
    match evaluate_handshake(&vec![b'S', b'E', b'L', 1, 0]) {
        HandshakeOutcome::Accept(reply) => assert_eq!(reply, b"HEY".to_vec()),
        _ => panic!("expected acceptance"),
    }

    // "SEL" with another version: answered "BYE" and closed.
    match evaluate_handshake(&vec![b'S', b'E', b'L', 2, 0]) {
        HandshakeOutcome::RejectVersion(reply) => assert_eq!(reply, b"BYE".to_vec()),
        _ => panic!("expected a version refusal"),
    }

    // Anything else is closed without an answer.
    assert!(matches!(
        evaluate_handshake(&vec![b'X', b'E', b'L', 1, 0]),
        HandshakeOutcome::RejectSalutation
    ));
    assert!(matches!(
        evaluate_handshake(&vec![b'S', b'E', b'L', 1]),
        HandshakeOutcome::RejectSalutation
    ));
}
