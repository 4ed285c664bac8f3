use vstd::prelude::*;

use crate::errors::CodecError;
use crate::errors::DecodeError;
use crate::frame::{
    decode_frame, encode_frame, spec_decode, spec_record, spec_record_len, Frame, FrameType,
    FrameView, StreamType, MAX_FRAME_SIZE,
};

verus! {

/// The mathematical model of a codec: the last accepted frame type, the
/// learned stream role, and the bound topic path.
pub struct CodecView {
    pub last_frame: FrameType,
    pub stream_type: Option<StreamType>,
    pub path: Option<Seq<u8>>,
}

impl CodecView {
    /// The state of a codec before any frame has passed through it.
    pub open spec fn initial() -> CodecView {
        CodecView { last_frame: FrameType::Init, stream_type: None, path: None }
    }

    pub open spec fn is_publisher(self) -> bool {
        self.stream_type == Some(StreamType::Publisher)
    }

    pub open spec fn is_subscriber(self) -> bool {
        self.stream_type == Some(StreamType::Subscriber)
    }

    pub open spec fn is_requestor(self) -> bool {
        self.stream_type == Some(StreamType::Requestor)
    }

    pub open spec fn is_replier(self) -> bool {
        self.stream_type == Some(StreamType::Replier)
    }

    /// A `NewStream` header is legal only as the very first sent frame.
    pub open spec fn valid_newstream(self, sending: bool) -> bool {
        sending && self.last_frame == FrameType::Init
    }

    /// `Message` and `Batch` frames flow from a publisher or to a subscriber.
    pub open spec fn valid_pubsub(self, sending: bool) -> bool {
        ((self.is_publisher() && sending) || (self.is_subscriber() && !sending)) && (
        self.last_frame == FrameType::NewStream || self.last_frame == FrameType::Message
            || self.last_frame == FrameType::Batch || self.last_frame == FrameType::Signal)
    }

    /// A `Reply` is received by a requestor after at least one request.
    pub open spec fn valid_reply(self, sending: bool) -> bool {
        self.is_requestor() && !sending && (self.last_frame == FrameType::Request
            || self.last_frame == FrameType::Reply || self.last_frame == FrameType::Signal)
    }

    /// A `Request` is sent by a requestor.
    pub open spec fn valid_request(self, sending: bool) -> bool {
        self.is_requestor() && sending && (self.last_frame == FrameType::NewStream
            || self.last_frame == FrameType::Request || self.last_frame == FrameType::Reply
            || self.last_frame == FrameType::Signal)
    }

    /// A `ServerReply` is sent by a replier after at least one server request.
    pub open spec fn valid_server_reply(self, sending: bool) -> bool {
        self.is_replier() && sending && (self.last_frame == FrameType::ServerRequest
            || self.last_frame == FrameType::ServerReply || self.last_frame == FrameType::Signal)
    }

    /// A `ServerRequest` is received by a replier.
    pub open spec fn valid_server_request(self, sending: bool) -> bool {
        self.is_replier() && !sending && (self.last_frame == FrameType::NewStream
            || self.last_frame == FrameType::ServerRequest || self.last_frame
            == FrameType::ServerReply || self.last_frame == FrameType::Signal)
    }

    /// The legal-transition table: whether this codec state accepts `f` in
    /// the given direction.
    pub open spec fn allows(self, f: FrameView, sending: bool) -> bool {
        match f {
            FrameView::Batch(_) => self.valid_pubsub(sending),
            FrameView::Message(_) => self.valid_pubsub(sending),
            FrameView::NewStream(_, _) => self.valid_newstream(sending),
            FrameView::Reply(_, _) => self.valid_reply(sending),
            FrameView::Request(_, _) => self.valid_request(sending),
            FrameView::ServerReply(_, _, _) => self.valid_server_reply(sending),
            FrameView::ServerRequest(_, _, _) => self.valid_server_request(sending),
            FrameView::Signal(_) => !sending,
        }
    }

    /// The state after accepting `f`: the last frame type advances, and a
    /// `NewStream` header fixes the stream role and topic path.
    pub open spec fn step(self, f: FrameView) -> CodecView {
        match f {
            FrameView::NewStream(t, p) => CodecView {
                last_frame: crate::frame::spec_frame_ty(f),
                stream_type: Some(t),
                path: Some(p),
            },
            _ => CodecView { last_frame: crate::frame::spec_frame_ty(f), ..self },
        }
    }
}

/// A direction-aware, stateful translator between byte buffers and frames,
/// enforcing the legal frame sequence for its stream's role.
pub struct Codec {
    last_frame: FrameType,
    stream_type: Option<StreamType>,
    path: Option<Vec<u8>>,
}

impl View for Codec {
    type V = CodecView;

    closed spec fn view(&self) -> CodecView {
        CodecView {
            last_frame: self.last_frame,
            stream_type: self.stream_type,
            path: match self.path {
                Some(p) => Some(p@),
                None => None,
            },
        }
    }
}

impl Default for Codec {
    /// A codec that has seen no frames and learned no role.
    fn default() -> (r: Codec)
        ensures
            r@ == CodecView::initial(),
    {
        Codec { last_frame: FrameType::Init, stream_type: None, path: None }
    }
}

impl Codec {
    /// The topic path learned from the `NewStream` header, if one has passed.
    pub fn get_path(&self) -> (r: Option<&Vec<u8>>)
        ensures
            match r {
                Some(p) => self@.path == Some(p@),
                None => self@.path is None,
            },
    {
        self.path.as_ref()
    }

    /// The stream role learned from the `NewStream` header, if one has passed.
    pub fn stream_type(&self) -> (r: Option<StreamType>)
        ensures
            r == self@.stream_type,
    {
        self.stream_type
    }

    /// The type of the last frame this codec accepted.
    pub fn last_frame(&self) -> (r: FrameType)
        ensures
            r == self@.last_frame,
    {
        self.last_frame
    }

    fn is_publisher(&self) -> (r: bool)
        ensures
            r == self@.is_publisher(),
    {
        self.stream_type == Some(StreamType::Publisher)
    }

    fn is_subscriber(&self) -> (r: bool)
        ensures
            r == self@.is_subscriber(),
    {
        self.stream_type == Some(StreamType::Subscriber)
    }

    fn is_requestor(&self) -> (r: bool)
        ensures
            r == self@.is_requestor(),
    {
        self.stream_type == Some(StreamType::Requestor)
    }

    fn is_replier(&self) -> (r: bool)
        ensures
            r == self@.is_replier(),
    {
        self.stream_type == Some(StreamType::Replier)
    }

    fn is_valid_newstream(&self, sending: bool) -> (r: bool)
        ensures
            r == self@.valid_newstream(sending),
    {
        sending && self.last_frame == FrameType::Init
    }

    fn is_valid_pubsub(&self, sending: bool) -> (r: bool)
        ensures
            r == self@.valid_pubsub(sending),
    {
        ((self.is_publisher() && sending) || (self.is_subscriber() && !sending)) && (matches!(
            self.last_frame,
            FrameType::NewStream | FrameType::Message | FrameType::Batch | FrameType::Signal,
        ))
    }

    fn is_valid_reply(&self, sending: bool) -> (r: bool)
        ensures
            r == self@.valid_reply(sending),
    {
        self.is_requestor() && !sending && (matches!(
            self.last_frame,
            FrameType::Request | FrameType::Reply | FrameType::Signal,
        ))
    }

    fn is_valid_request(&self, sending: bool) -> (r: bool)
        ensures
            r == self@.valid_request(sending),
    {
        self.is_requestor() && sending && (matches!(
            self.last_frame,
            FrameType::NewStream | FrameType::Request | FrameType::Reply | FrameType::Signal,
        ))
    }

    fn is_valid_server_reply(&self, sending: bool) -> (r: bool)
        ensures
            r == self@.valid_server_reply(sending),
    {
        self.is_replier() && sending && (matches!(
            self.last_frame,
            FrameType::ServerRequest | FrameType::ServerReply | FrameType::Signal,
        ))
    }

    fn is_valid_server_request(&self, sending: bool) -> (r: bool)
        ensures
            r == self@.valid_server_request(sending),
    {
        self.is_replier() && !sending && (matches!(
            self.last_frame,
            FrameType::NewStream | FrameType::ServerRequest | FrameType::ServerReply
                | FrameType::Signal,
        ))
    }

    /// Advances the state machine by one frame in the given direction,
    /// rejecting every transition outside the legal table.
    pub fn state(&mut self, item: &Frame, sending: bool) -> (r: Result<(), CodecError>)
        ensures
            r is Ok <==> old(self)@.allows(item@, sending),
            r is Ok ==> final (self)@ == old(self)@.step(item@),
            r is Err ==> final (self)@ == old(self)@ && r == Err::<(), CodecError>(
                CodecError::FrameOutOfOrder(item.ty_spec(), old(self)@.last_frame),
            ),
    {
        let legal = match item {
            Frame::Batch(_) => self.is_valid_pubsub(sending),
            Frame::Message(_) => self.is_valid_pubsub(sending),
            Frame::NewStream(_, _) => self.is_valid_newstream(sending),
            Frame::Reply(_, _) => self.is_valid_reply(sending),
            Frame::Request(_, _) => self.is_valid_request(sending),
            Frame::ServerReply(_, _, _) => self.is_valid_server_reply(sending),
            Frame::ServerRequest(_, _, _) => self.is_valid_server_request(sending),
            Frame::Signal(_) => !sending,
        };
        if !legal {
            return Err(CodecError::FrameOutOfOrder(item.ty(), self.last_frame));
        }
        if let Frame::NewStream(ty, path) = item {
            self.stream_type = Some(*ty);
            self.path = Some(path.clone());
            assert(self.path->Some_0@ == path@);
        }
        self.last_frame = item.ty();
        Ok(())
    }

    /// Encodes one frame for sending: the transition is checked first, then
    /// the record is produced unless it would exceed `MAX_FRAME_SIZE`.
    pub fn encode(&mut self, item: &Frame) -> (r: Result<Vec<u8>, CodecError>)
        ensures
            match r {
                Ok(v) => old(self)@.allows(item@, true) && final (self)@ == old(self)@.step(item@)
                    && v@ == spec_record(item@) && v@.len() <= MAX_FRAME_SIZE,
                Err(CodecError::FrameOutOfOrder(got, last)) => !old(self)@.allows(item@, true)
                    && final (self)@ == old(self)@ && got == item.ty_spec()
                    && last == old(self)@.last_frame,
                Err(CodecError::FrameTooLarge(_, m)) => old(self)@.allows(item@, true)
                    && final (self)@ == old(self)@.step(item@)
                    && spec_record_len(item@) > MAX_FRAME_SIZE && m == MAX_FRAME_SIZE,
                Err(CodecError::Decode(_)) => false,
            },
    {
        self.state(item, true)?;
        encode_frame(item)
    }

    /// Decodes one frame received from the peer: a parsed frame passes
    /// through the state machine before it is handed out.
    pub fn decode(&mut self, buf: &[u8]) -> (r: Result<Option<(Frame, usize)>, CodecError>)
        ensures
            match r {
                Ok(None) => spec_decode(buf@) == Ok::<Option<(FrameView, int)>, DecodeError>(None)
                    && final (self)@ == old(self)@,
                Ok(Some((f, n))) => spec_decode(buf@) == Ok::<Option<(FrameView, int)>, DecodeError>(
                    Some((f@, n as int)),
                ) && old(self)@.allows(f@, false) && final (self)@ == old(self)@.step(f@),
                Err(CodecError::Decode(e)) => spec_decode(buf@) == Err::<
                    Option<(FrameView, int)>,
                    DecodeError,
                >(e) && final (self)@ == old(self)@,
                Err(CodecError::FrameOutOfOrder(got, last)) => final (self)@ == old(self)@ && last
                    == old(self)@.last_frame && exists|f: FrameView, n: int|
                    spec_decode(buf@) == Ok::<Option<(FrameView, int)>, DecodeError>(Some((f, n)))
                        && !old(self)@.allows(f, false) && got == crate::frame::spec_frame_ty(f),
                Err(CodecError::FrameTooLarge(_, _)) => false,
            },
    {
        let parsed = decode_frame(buf)?;
        match parsed {
            Some((frame, n)) => {
                match self.state(&frame, false) {
                    Ok(()) => Ok(Some((frame, n))),
                    Err(e) => {
                        proof {
                            let (fv, ni): (FrameView, int) = (frame@, n as int);
                            assert(spec_decode(buf@) == Ok::<Option<(FrameView, int)>, DecodeError>(
                                Some((fv, ni)),
                            ) && !old(self)@.allows(fv, false));
                        }
                        Err(e)
                    },
                }
            },
            None => Ok(None),
        }
    }
}

/// Directional ground rules of the table: a signal can never be sent, a
/// `NewStream` header can never be received, and a second `NewStream` is
/// never legal once any frame has been accepted.
pub proof fn lemma_direction_rules(c: CodecView, f: FrameView, sending: bool)
    ensures
        f matches FrameView::Signal(_) && sending ==> !c.allows(f, sending),
        f matches FrameView::NewStream(_, _) && !sending ==> !c.allows(f, sending),
        f matches FrameView::NewStream(_, _) && c.last_frame != FrameType::Init ==> !c.allows(
            f,
            sending,
        ),
{
}

} // verus!
