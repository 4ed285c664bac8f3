use vstd::prelude::*;

use crate::frame::{Frame, FrameView, Signal, StreamType};
use crate::topic_name::{spec_parse_topic, spec_reserved, TopicName, TopicNameError};

verus! {

/// The two shapes a topic actor comes in; fixed by the role of the first
/// channel that registers the topic.
#[derive(Clone, Copy, Debug, PartialEq, Eq, Structural)]
pub enum TopicKind {
    PubSub,
    ReqRep,
}

/// The topic kind a stream role belongs to.
pub open spec fn spec_role_kind(t: StreamType) -> TopicKind {
    match t {
        StreamType::Publisher => TopicKind::PubSub,
        StreamType::Subscriber => TopicKind::PubSub,
        StreamType::Requestor => TopicKind::ReqRep,
        StreamType::Replier => TopicKind::ReqRep,
    }
}

/// The topic kind a stream role belongs to.
pub fn role_kind(t: StreamType) -> (r: TopicKind)
    ensures
        r == spec_role_kind(t),
{
    match t {
        StreamType::Publisher => TopicKind::PubSub,
        StreamType::Subscriber => TopicKind::PubSub,
        StreamType::Requestor => TopicKind::ReqRep,
        StreamType::Replier => TopicKind::ReqRep,
    }
}

/// What the acceptor does with a channel after reading its first frame.
pub enum RouteAction {
    /// The first frame was not a `NewStream` header: drop the channel.
    BadHeader,
    /// Respond with this signal and close the channel.
    Reject(Signal),
    /// Spawn a topic actor of this kind for the validated name, then attach
    /// the channel under its role.
    SpawnAndAttach(TopicKind, StreamType, TopicName),
    /// Attach the channel to the already-running topic under its role.
    Attach(StreamType, TopicName),
}

/// Routes a channel by its header frame: the first frame must be a
/// `NewStream` header, its topic path must validate, a fresh topic is
/// spawned with the kind the role implies, and a running topic only accepts
/// roles of its own kind.
pub fn route_header(frame: &Frame, existing: Option<TopicKind>) -> (r: RouteAction)
    ensures
        match r {
            RouteAction::BadHeader => !(frame@ matches FrameView::NewStream(_, _)),
            RouteAction::Reject(s) => (frame@ matches FrameView::NewStream(t, p) && ((s
                == Signal::InvalidTopicName && spec_parse_topic(p) is None) || (s
                == Signal::InvalidTopicName && (spec_parse_topic(p) matches Some((ns, _))
                && spec_reserved(ns))) || (s == Signal::UnknownError && (spec_parse_topic(
                p,
            ) matches Some((ns, _)) && !spec_reserved(ns)) && (existing matches Some(k) && k
                != spec_role_kind(t))))),
            RouteAction::SpawnAndAttach(k, t, name) => (frame@ matches FrameView::NewStream(
                role,
                p,
            ) && role == t && k == spec_role_kind(t) && existing is None && spec_parse_topic(p)
                == Some((name@.namespace, name@.topic)) && !spec_reserved(name@.namespace)),
            RouteAction::Attach(t, name) => (frame@ matches FrameView::NewStream(role, p) && role
                == t && existing == Some(spec_role_kind(t)) && spec_parse_topic(p) == Some(
                (name@.namespace, name@.topic),
            ) && !spec_reserved(name@.namespace)),
        },
{
    let (role, path) = match frame {
        Frame::NewStream(role, path) => (*role, path),
        _ => {
            return RouteAction::BadHeader;
        },
    };
    let name = match TopicName::parse(path) {
        Ok(name) => name,
        Err(TopicNameError::Malformed) => {
            return RouteAction::Reject(Signal::InvalidTopicName);
        },
        Err(TopicNameError::Reserved) => {
            return RouteAction::Reject(Signal::InvalidTopicName);
        },
    };
    let kind = role_kind(role);
    match existing {
        None => RouteAction::SpawnAndAttach(kind, role, name),
        Some(k) => if k == kind {
            RouteAction::Attach(role, name)
        } else {
            RouteAction::Reject(Signal::UnknownError)
        },
    }
}

/// The protocol version this broker speaks.
pub const PROTOCOL_VERSION: u16 = 1;

/// What the acceptor does with a connection's opening salutation: the
/// salutation is the three bytes `SEL` and a little-endian `u16` version.
pub enum HandshakeOutcome {
    /// The versions agree: answer with these bytes (`HEY`) and carry on.
    Accept(Vec<u8>),
    /// The versions disagree: answer with these bytes (`BYE`) and close.
    RejectVersion(Vec<u8>),
    /// The bytes are no salutation at all: close without answering.
    RejectSalutation,
}

/// Checks a connection's 5-byte opening salutation and picks the reply.
pub fn evaluate_handshake(salutation: &Vec<u8>) -> (r: HandshakeOutcome)
    ensures
        match r {
            HandshakeOutcome::Accept(reply) => salutation@.len() == 5 && salutation@.subrange(0, 3)
                == seq![83u8, 69u8, 76u8] && salutation@[3] + 0x100 * salutation@[4]
                == PROTOCOL_VERSION && reply@ == seq![72u8, 69u8, 89u8],
            HandshakeOutcome::RejectVersion(reply) => salutation@.len() == 5
                && salutation@.subrange(0, 3) == seq![83u8, 69u8, 76u8] && salutation@[3] + 0x100
                * salutation@[4] != PROTOCOL_VERSION && reply@ == seq![66u8, 89u8, 69u8],
            HandshakeOutcome::RejectSalutation => salutation@.len() != 5 || salutation@.subrange(
                0,
                3,
            ) != seq![83u8, 69u8, 76u8],
        },
{
    if salutation.len() != 5 || salutation[0] != 83 || salutation[1] != 69 || salutation[2] != 76 {
        proof {
            if salutation@.len() == 5 {
                assert(salutation@.subrange(0, 3) != seq![83u8, 69u8, 76u8]) by {
                    if salutation@.subrange(0, 3) == seq![83u8, 69u8, 76u8] {
                        assert(salutation@.subrange(0, 3)[0] == 83);
                        assert(salutation@.subrange(0, 3)[1] == 69);
                        assert(salutation@.subrange(0, 3)[2] == 76);
                    }
                }
            }
        }
        return HandshakeOutcome::RejectSalutation;
    }
    proof {
        assert(salutation@.subrange(0, 3) =~= seq![83u8, 69u8, 76u8]);
    }
    let version: u32 = salutation[3] as u32 + 0x100 * (salutation[4] as u32);
    if version == PROTOCOL_VERSION as u32 {
        let mut reply: Vec<u8> = Vec::new();
        reply.push(72);
        reply.push(69);
        reply.push(89);
        proof {
            assert(reply@ =~= seq![72u8, 69u8, 89u8]);
        }
        HandshakeOutcome::Accept(reply)
    } else {
        let mut reply: Vec<u8> = Vec::new();
        reply.push(66);
        reply.push(89);
        reply.push(69);
        proof {
            assert(reply@ =~= seq![66u8, 89u8, 69u8]);
        }
        HandshakeOutcome::RejectVersion(reply)
    }
}

/// What the cloud-auth proxy answered, reduced to the values the decision
/// reads: the namespace the key is authorized for, or something else.
pub enum AdminResponse {
    GetNamespaceResponse(Vec<u8>),
    OtherResponse,
}

/// Why a channel failed cloud authentication.
#[derive(Clone, Copy, Debug, PartialEq, Eq, Structural)]
pub enum CloudAuthError {
    /// The key is authorized for another namespace.
    AccessDenied,
    /// The proxy answered something other than a namespace.
    InvalidResponse,
    /// The proxy's channel failed.
    ProxyFailure,
    /// The proxy did not answer within the timeout.
    NoResponse,
    /// No proxy topic is connected yet; the client should retry.
    ProxyNotConnected,
}

/// Decides cloud authentication for a channel: the proxy's own key is
/// always allowed; otherwise the proxy must be connected, must have
/// answered within the timeout, and must name exactly the namespace the
/// channel asks for.
pub fn evaluate_cloud_auth(
    is_proxy_key: bool,
    proxy_connected: bool,
    response: Option<Result<AdminResponse, ()>>,
    namespace: &Vec<u8>,
) -> (r: Result<(), CloudAuthError>)
    ensures
        is_proxy_key ==> r is Ok,
        !is_proxy_key && !proxy_connected ==> r == Err::<(), CloudAuthError>(
            CloudAuthError::ProxyNotConnected,
        ),
        !is_proxy_key && proxy_connected ==> match response {
            None => r == Err::<(), CloudAuthError>(CloudAuthError::NoResponse),
            Some(Err(_)) => r == Err::<(), CloudAuthError>(CloudAuthError::ProxyFailure),
            Some(Ok(AdminResponse::OtherResponse)) => r == Err::<(), CloudAuthError>(
                CloudAuthError::InvalidResponse,
            ),
            Some(Ok(AdminResponse::GetNamespaceResponse(ns))) => if ns@ == namespace@ {
                r is Ok
            } else {
                r == Err::<(), CloudAuthError>(CloudAuthError::AccessDenied)
            },
        },
{
    if is_proxy_key {
        return Ok(());
    }
    if !proxy_connected {
        return Err(CloudAuthError::ProxyNotConnected);
    }
    match response {
        None => Err(CloudAuthError::NoResponse),
        Some(Err(_)) => Err(CloudAuthError::ProxyFailure),
        Some(Ok(AdminResponse::OtherResponse)) => Err(CloudAuthError::InvalidResponse),
        Some(Ok(AdminResponse::GetNamespaceResponse(ns))) => {
            if crate::frame::vecs_equal(&ns, namespace) {
                Ok(())
            } else {
                Err(CloudAuthError::AccessDenied)
            }
        },
    }
}

} // verus!
