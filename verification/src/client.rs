use vstd::prelude::*;

use crate::batching::{decode_message_batch, message_views, spec_decode_batch};
use crate::frame::{Frame, FrameView, Signal};
use crate::keep_alive::ClientError;

verus! {

/// What a subscriber does with one received frame.
pub enum SubscriberEvent {
    /// Deliver these payloads to the consumer, oldest first.
    Deliver(Vec<Vec<u8>>),
    /// A broker notice; the stream stays up.
    Notice(Signal),
}

/// One step of the subscriber's receive loop: a message delivers its own
/// payload, a batch splits into its messages in order, a signal is passed
/// on as a notice, and any other frame is a protocol error.
pub fn subscriber_event(frame: Frame) -> (r: Result<SubscriberEvent, ClientError>)
    ensures
        match r {
            Ok(SubscriberEvent::Deliver(ms)) => match frame@ {
                FrameView::Message(b) => message_views(ms@) == seq![b],
                FrameView::Batch(b) => spec_decode_batch(b) == Some(message_views(ms@)),
                _ => false,
            },
            Ok(SubscriberEvent::Notice(s)) => frame@ == FrameView::Signal(s),
            Err(ClientError::ProtocolMismatch) => !(frame@ matches FrameView::Message(_)) && !(
            frame@ matches FrameView::Batch(_)) && !(frame@ matches FrameView::Signal(_)),
            Err(ClientError::DecodeFailed) => (frame@ matches FrameView::Batch(b)
                && spec_decode_batch(b) is None),
            Err(_) => false,
        },
{
    match frame {
        Frame::Message(b) => {
            let ghost payload = b@;
            let mut ms: Vec<Vec<u8>> = Vec::new();
            ms.push(b);
            proof {
                assert(message_views(ms@) =~= seq![payload]);
            }
            Ok(SubscriberEvent::Deliver(ms))
        },
        Frame::Batch(b) => match decode_message_batch(&b) {
            Ok(ms) => Ok(SubscriberEvent::Deliver(ms)),
            Err(_) => Err(ClientError::DecodeFailed),
        },
        Frame::Signal(s) => Ok(SubscriberEvent::Notice(s)),
        _ => Err(ClientError::ProtocolMismatch),
    }
}

/// What a replier does with one received frame.
pub enum ReplierEvent {
    /// Run the handler on the payload and answer with a `ServerReply`
    /// carrying back the same client and request ids.
    HandleRequest(u64, u32, Vec<u8>),
    /// A broker notice; the stream stays up.
    Notice(Signal),
}

/// One step of the replier's receive loop: only server requests and
/// signals are legal on a replier channel.
pub fn replier_event(frame: Frame) -> (r: Result<ReplierEvent, ClientError>)
    ensures
        match r {
            Ok(ReplierEvent::HandleRequest(cid, rid, b)) => frame@ == FrameView::ServerRequest(
                cid,
                rid,
                b@,
            ),
            Ok(ReplierEvent::Notice(s)) => frame@ == FrameView::Signal(s),
            Err(ClientError::ProtocolMismatch) => !(frame@ matches FrameView::ServerRequest(
                _,
                _,
                _,
            )) && !(frame@ matches FrameView::Signal(_)),
            Err(_) => false,
        },
{
    match frame {
        Frame::ServerRequest(cid, rid, b) => Ok(ReplierEvent::HandleRequest(cid, rid, b)),
        Frame::Signal(s) => Ok(ReplierEvent::Notice(s)),
        _ => Err(ClientError::ProtocolMismatch),
    }
}

/// What the replier does with its handler's outcome for the request keyed
/// by `client_id` and `request_id`: a successful handler's reply travels
/// back behind the same correlation ids; a failed handler sends no reply,
/// and the failure is surfaced.
pub fn handler_reply(client_id: u64, request_id: u32, outcome: Result<Vec<u8>, ()>) -> (r: Result<
    Frame,
    ClientError,
>)
    ensures
        match r {
            Ok(f) => (outcome matches Ok(body) && f@ == FrameView::ServerReply(
                client_id,
                request_id,
                body@,
            )),
            Err(e) => outcome is Err && e == ClientError::HandlerFailed,
        },
{
    match outcome {
        Ok(body) => Ok(Frame::ServerReply(client_id, request_id, body)),
        Err(()) => Err(ClientError::HandlerFailed),
    }
}

} // verus!
