use vstd::bytes::*;
use vstd::prelude::*;

use crate::errors::{CodecError, DecodeError};

verus! {

/// Upper bound, in bytes, on a complete framed record (size prefix included).
pub const MAX_FRAME_SIZE: usize = 1024 * 1024;

/// Out-of-band notices the broker sends to a client.
#[derive(Clone, Copy, Debug, PartialEq, Eq, Structural)]
pub enum Signal {
    CloudAuthFailed,
    InvalidTopicName,
    ReplierAlreadyBound,
    Shutdown,
    ShutdownInProgress,
    StreamClosedPrematurely,
    UnknownError,
}

/// The role a logical stream declares in its `NewStream` header.
#[derive(Clone, Copy, Debug, PartialEq, Eq, Structural)]
pub enum StreamType {
    Publisher,
    Subscriber,
    Requestor,
    Replier,
}

/// The discriminant of a frame, together with `Init` for "nothing seen yet".
#[derive(Clone, Copy, Debug, PartialEq, Eq, Structural)]
pub enum FrameType {
    Init,
    Batch,
    Message,
    NewStream,
    Reply,
    Request,
    ServerReply,
    ServerRequest,
    Signal,
}

/// One protocol message on the wire.
#[derive(Clone, Debug)]
pub enum Frame {
    Batch(Vec<u8>),
    Message(Vec<u8>),
    NewStream(StreamType, Vec<u8>),
    Reply(u32, Vec<u8>),
    Request(u32, Vec<u8>),
    ServerReply(u64, u32, Vec<u8>),
    ServerRequest(u64, u32, Vec<u8>),
    Signal(Signal),
}

/// The mathematical model of a frame: payloads are byte sequences.
pub enum FrameView {
    Batch(Seq<u8>),
    Message(Seq<u8>),
    NewStream(StreamType, Seq<u8>),
    Reply(u32, Seq<u8>),
    Request(u32, Seq<u8>),
    ServerReply(u64, u32, Seq<u8>),
    ServerRequest(u64, u32, Seq<u8>),
    Signal(Signal),
}

impl View for Frame {
    type V = FrameView;

    open spec fn view(&self) -> FrameView {
        match self {
            Frame::Batch(b) => FrameView::Batch(b@),
            Frame::Message(b) => FrameView::Message(b@),
            Frame::NewStream(t, p) => FrameView::NewStream(*t, p@),
            Frame::Reply(id, b) => FrameView::Reply(*id, b@),
            Frame::Request(id, b) => FrameView::Request(*id, b@),
            Frame::ServerReply(cid, rid, b) => FrameView::ServerReply(*cid, *rid, b@),
            Frame::ServerRequest(cid, rid, b) => FrameView::ServerRequest(*cid, *rid, b@),
            Frame::Signal(s) => FrameView::Signal(*s),
        }
    }
}

/// The wire discriminant of each signal kind.
pub open spec fn spec_signal_byte(s: Signal) -> u8 {
    match s {
        Signal::CloudAuthFailed => 0,
        Signal::InvalidTopicName => 1,
        Signal::ReplierAlreadyBound => 2,
        Signal::Shutdown => 3,
        Signal::ShutdownInProgress => 4,
        Signal::StreamClosedPrematurely => 5,
        Signal::UnknownError => 6,
    }
}

/// The signal kind a wire byte names, if any.
pub open spec fn spec_signal_of_byte(b: u8) -> Option<Signal> {
    if b == 0 {
        Some(Signal::CloudAuthFailed)
    } else if b == 1 {
        Some(Signal::InvalidTopicName)
    } else if b == 2 {
        Some(Signal::ReplierAlreadyBound)
    } else if b == 3 {
        Some(Signal::Shutdown)
    } else if b == 4 {
        Some(Signal::ShutdownInProgress)
    } else if b == 5 {
        Some(Signal::StreamClosedPrematurely)
    } else if b == 6 {
        Some(Signal::UnknownError)
    } else {
        None
    }
}

/// The wire discriminant of each stream role.
pub open spec fn spec_stream_type_byte(t: StreamType) -> u8 {
    match t {
        StreamType::Publisher => 0,
        StreamType::Subscriber => 1,
        StreamType::Requestor => 2,
        StreamType::Replier => 3,
    }
}

/// The stream role a wire byte names, if any.
pub open spec fn spec_stream_type_of_byte(b: u8) -> Option<StreamType> {
    if b == 0 {
        Some(StreamType::Publisher)
    } else if b == 1 {
        Some(StreamType::Subscriber)
    } else if b == 2 {
        Some(StreamType::Requestor)
    } else if b == 3 {
        Some(StreamType::Replier)
    } else {
        None
    }
}

/// The wire discriminant of each frame kind.
pub open spec fn spec_kind_byte(f: FrameView) -> u8 {
    match f {
        FrameView::NewStream(_, _) => 0,
        FrameView::Message(_) => 1,
        FrameView::Batch(_) => 2,
        FrameView::Request(_, _) => 3,
        FrameView::Reply(_, _) => 4,
        FrameView::ServerRequest(_, _, _) => 5,
        FrameView::ServerReply(_, _, _) => 6,
        FrameView::Signal(_) => 7,
    }
}

/// The frame-specific body encoding: little-endian integers, and byte
/// payloads carried behind a `u32` length prefix.
pub open spec fn spec_body(f: FrameView) -> Seq<u8> {
    match f {
        FrameView::NewStream(t, p) => seq![spec_stream_type_byte(t)] + spec_u32_to_le_bytes(
            p.len() as u32,
        ) + p,
        FrameView::Message(b) => spec_u32_to_le_bytes(b.len() as u32) + b,
        FrameView::Batch(b) => spec_u32_to_le_bytes(b.len() as u32) + b,
        FrameView::Request(id, b) => spec_u32_to_le_bytes(id) + spec_u32_to_le_bytes(
            b.len() as u32,
        ) + b,
        FrameView::Reply(id, b) => spec_u32_to_le_bytes(id) + spec_u32_to_le_bytes(b.len() as u32)
            + b,
        FrameView::ServerRequest(cid, rid, b) => spec_u64_to_le_bytes(cid) + spec_u32_to_le_bytes(
            rid,
        ) + spec_u32_to_le_bytes(b.len() as u32) + b,
        FrameView::ServerReply(cid, rid, b) => spec_u64_to_le_bytes(cid) + spec_u32_to_le_bytes(
            rid,
        ) + spec_u32_to_le_bytes(b.len() as u32) + b,
        FrameView::Signal(s) => seq![spec_signal_byte(s)],
    }
}

/// The length of the complete framed record: a 4-byte size prefix, the kind
/// byte, then the body.
pub open spec fn spec_record_len(f: FrameView) -> int {
    5 + spec_body(f).len() as int
}

/// The complete framed record: `size: u32 (little endian) || kind: u8 || body`,
/// where `size` counts the kind byte and the body.
pub open spec fn spec_record(f: FrameView) -> Seq<u8> {
    spec_u32_to_le_bytes((1 + spec_body(f).len()) as u32) + seq![spec_kind_byte(f)] + spec_body(f)
}

/// The discriminant of a frame model.
pub open spec fn spec_frame_ty(f: FrameView) -> FrameType {
    match f {
        FrameView::Batch(_) => FrameType::Batch,
        FrameView::Message(_) => FrameType::Message,
        FrameView::NewStream(_, _) => FrameType::NewStream,
        FrameView::Reply(_, _) => FrameType::Reply,
        FrameView::Request(_, _) => FrameType::Request,
        FrameView::ServerReply(_, _, _) => FrameType::ServerReply,
        FrameView::ServerRequest(_, _, _) => FrameType::ServerRequest,
        FrameView::Signal(_) => FrameType::Signal,
    }
}

impl Frame {
    /// The discriminant of this frame.
    pub open spec fn ty_spec(&self) -> FrameType {
        spec_frame_ty(self@)
    }

    /// The discriminant of this frame.
    pub fn ty(&self) -> (r: FrameType)
        ensures
            r == self.ty_spec(),
    {
        match self {
            Frame::Batch(_) => FrameType::Batch,
            Frame::Message(_) => FrameType::Message,
            Frame::NewStream(_, _) => FrameType::NewStream,
            Frame::Reply(_, _) => FrameType::Reply,
            Frame::Request(_, _) => FrameType::Request,
            Frame::ServerReply(_, _, _) => FrameType::ServerReply,
            Frame::ServerRequest(_, _, _) => FrameType::ServerRequest,
            Frame::Signal(_) => FrameType::Signal,
        }
    }

    /// The size of this frame's complete framed record, saturating at
    /// `usize::MAX` for payloads too large to frame at all.
    pub fn size(&self) -> (r: usize)
        ensures
            spec_record_len(self@) <= usize::MAX ==> r == spec_record_len(self@),
            spec_record_len(self@) > usize::MAX ==> r == usize::MAX,
            (r > MAX_FRAME_SIZE) == (spec_record_len(self@) > MAX_FRAME_SIZE),
    {
        proof {
            lemma_auto_spec_u32_to_from_le_bytes();
            lemma_auto_spec_u64_to_from_le_bytes();
        }
        match self {
            Frame::Batch(b) | Frame::Message(b) => {
                if b.len() > usize::MAX - 9 {
                    usize::MAX
                } else {
                    9 + b.len()
                }
            },
            Frame::NewStream(_, p) => {
                if p.len() > usize::MAX - 10 {
                    usize::MAX
                } else {
                    10 + p.len()
                }
            },
            Frame::Reply(_, b) | Frame::Request(_, b) => {
                if b.len() > usize::MAX - 13 {
                    usize::MAX
                } else {
                    13 + b.len()
                }
            },
            Frame::ServerReply(_, _, b) | Frame::ServerRequest(_, _, b) => {
                if b.len() > usize::MAX - 21 {
                    usize::MAX
                } else {
                    21 + b.len()
                }
            },
            Frame::Signal(_) => 6,
        }
    }
}

/// Appends every byte of `s` to `v`.
pub fn push_slice(v: &mut Vec<u8>, s: &[u8])
    ensures
        final(v)@ == old(v)@ + s@,
{
    let mut i: usize = 0;
    while i < s.len()
        invariant
            i <= s@.len(),
            v@ == old(v)@ + s@.subrange(0, i as int),
        decreases s@.len() - i,
    {
        v.push(s[i]);
        assert(v@ == old(v)@ + s@.subrange(0, i + 1 as int));
        i = i + 1;
    }
    assert(s@.subrange(0, s@.len() as int) == s@);
}

/// Encodes one frame as a complete framed record, refusing frames whose
/// record would exceed `MAX_FRAME_SIZE`.
pub fn encode_frame(f: &Frame) -> (r: Result<Vec<u8>, CodecError>)
    ensures
        match r {
            Ok(v) => spec_record_len(f@) <= MAX_FRAME_SIZE && v@ == spec_record(f@)
                && v@.len() <= MAX_FRAME_SIZE,
            Err(e) => spec_record_len(f@) > MAX_FRAME_SIZE && (e matches
            CodecError::FrameTooLarge(_, m) && m == MAX_FRAME_SIZE),
        },
{
    proof {
        lemma_auto_spec_u32_to_from_le_bytes();
        lemma_auto_spec_u64_to_from_le_bytes();
    }
    let size = f.size();
    if size > MAX_FRAME_SIZE {
        return Err(CodecError::FrameTooLarge(size, MAX_FRAME_SIZE));
    }
    let mut out = u32_to_le_bytes((size - 4) as u32);
    match f {
        Frame::NewStream(t, p) => {
            out.push(0u8);
            out.push(stream_type_byte(*t));
            let len_bytes = u32_to_le_bytes(p.len() as u32);
            push_slice(&mut out, len_bytes.as_slice());
            push_slice(&mut out, p.as_slice());
            assert(out@ =~= spec_record(f@));
        },
        Frame::Message(b) | Frame::Batch(b) => {
            out.push(frame_kind(f));
            let len_bytes = u32_to_le_bytes(b.len() as u32);
            push_slice(&mut out, len_bytes.as_slice());
            push_slice(&mut out, b.as_slice());
            assert(out@ =~= spec_record(f@));
        },
        Frame::Request(id, b) | Frame::Reply(id, b) => {
            out.push(frame_kind(f));
            let id_bytes = u32_to_le_bytes(*id);
            push_slice(&mut out, id_bytes.as_slice());
            let len_bytes = u32_to_le_bytes(b.len() as u32);
            push_slice(&mut out, len_bytes.as_slice());
            push_slice(&mut out, b.as_slice());
            assert(out@ =~= spec_record(f@));
        },
        Frame::ServerRequest(cid, rid, b) | Frame::ServerReply(cid, rid, b) => {
            out.push(frame_kind(f));
            let cid_bytes = u64_to_le_bytes(*cid);
            push_slice(&mut out, cid_bytes.as_slice());
            let rid_bytes = u32_to_le_bytes(*rid);
            push_slice(&mut out, rid_bytes.as_slice());
            let len_bytes = u32_to_le_bytes(b.len() as u32);
            push_slice(&mut out, len_bytes.as_slice());
            push_slice(&mut out, b.as_slice());
            assert(out@ =~= spec_record(f@));
        },
        Frame::Signal(s) => {
            out.push(7u8);
            out.push(signal_byte(*s));
            assert(out@ =~= spec_record(f@));
        },
    }
    Ok(out)
}

/// What a byte sequence decodes to: too short to tell (`Ok(None)`), one frame
/// together with the record length consumed, or a malformed record.
pub open spec fn spec_decode(b: Seq<u8>) -> Result<Option<(FrameView, int)>, DecodeError> {
    if b.len() < 4 {
        Ok(None)
    } else {
        let size = spec_u32_from_le_bytes(b.subrange(0, 4)) as int;
        if size == 0 {
            Err(DecodeError::EmptyRecord)
        } else if b.len() < 4 + size {
            Ok(None)
        } else {
            match spec_decode_body(b[4], b.subrange(5, 4 + size)) {
                Ok(f) => Ok(Some((f, 4 + size))),
                Err(e) => Err(e),
            }
        }
    }
}

/// What a record body decodes to under a given kind byte.
pub open spec fn spec_decode_body(kind: u8, body: Seq<u8>) -> Result<FrameView, DecodeError> {
    if kind == 0 {
        if body.len() < 5 {
            Err(DecodeError::LengthMismatch)
        } else {
            match spec_stream_type_of_byte(body[0]) {
                None => Err(DecodeError::UnknownStreamType(body[0])),
                Some(t) => {
                    let plen = spec_u32_from_le_bytes(body.subrange(1, 5)) as int;
                    if body.len() == 5 + plen {
                        Ok(FrameView::NewStream(t, body.subrange(5, body.len() as int)))
                    } else {
                        Err(DecodeError::LengthMismatch)
                    }
                },
            }
        }
    } else if kind == 1 || kind == 2 {
        if body.len() < 4 {
            Err(DecodeError::LengthMismatch)
        } else {
            let plen = spec_u32_from_le_bytes(body.subrange(0, 4)) as int;
            if body.len() == 4 + plen {
                let p = body.subrange(4, body.len() as int);
                if kind == 1 {
                    Ok(FrameView::Message(p))
                } else {
                    Ok(FrameView::Batch(p))
                }
            } else {
                Err(DecodeError::LengthMismatch)
            }
        }
    } else if kind == 3 || kind == 4 {
        if body.len() < 8 {
            Err(DecodeError::LengthMismatch)
        } else {
            let id = spec_u32_from_le_bytes(body.subrange(0, 4));
            let plen = spec_u32_from_le_bytes(body.subrange(4, 8)) as int;
            if body.len() == 8 + plen {
                let p = body.subrange(8, body.len() as int);
                if kind == 3 {
                    Ok(FrameView::Request(id, p))
                } else {
                    Ok(FrameView::Reply(id, p))
                }
            } else {
                Err(DecodeError::LengthMismatch)
            }
        }
    } else if kind == 5 || kind == 6 {
        if body.len() < 16 {
            Err(DecodeError::LengthMismatch)
        } else {
            let cid = spec_u64_from_le_bytes(body.subrange(0, 8));
            let rid = spec_u32_from_le_bytes(body.subrange(8, 12));
            let plen = spec_u32_from_le_bytes(body.subrange(12, 16)) as int;
            if body.len() == 16 + plen {
                let p = body.subrange(16, body.len() as int);
                if kind == 5 {
                    Ok(FrameView::ServerRequest(cid, rid, p))
                } else {
                    Ok(FrameView::ServerReply(cid, rid, p))
                }
            } else {
                Err(DecodeError::LengthMismatch)
            }
        }
    } else if kind == 7 {
        if body.len() == 1 {
            match spec_signal_of_byte(body[0]) {
                Some(s) => Ok(FrameView::Signal(s)),
                None => Err(DecodeError::UnknownSignalKind(body[0])),
            }
        } else {
            Err(DecodeError::LengthMismatch)
        }
    } else {
        Err(DecodeError::UnknownFrameKind(kind))
    }
}

/// Reads the little-endian `u32` at `pos`.
pub fn read_u32_at(buf: &[u8], pos: usize) -> (r: u32)
    requires
        pos + 4 <= buf@.len(),
    ensures
        r == spec_u32_from_le_bytes(buf@.subrange(pos as int, pos as int + 4)),
{
    let _n: usize = buf.len();
    let s = vstd::slice::slice_subrange(buf, pos, pos + 4);
    u32_from_le_bytes(s)
}

/// Reads the little-endian `u64` at `pos`.
pub fn read_u64_at(buf: &[u8], pos: usize) -> (r: u64)
    requires
        pos + 8 <= buf@.len(),
    ensures
        r == spec_u64_from_le_bytes(buf@.subrange(pos as int, pos as int + 8)),
{
    let _n: usize = buf.len();
    let s = vstd::slice::slice_subrange(buf, pos, pos + 8);
    u64_from_le_bytes(s)
}

/// Copies `buf[from .. from + len]` into a fresh vector.
pub(crate) fn copy_range(buf: &[u8], from: usize, len: usize) -> (r: Vec<u8>)
    requires
        from + len <= buf@.len(),
    ensures
        r@ == buf@.subrange(from as int, from as int + len as int),
{
    let _n: usize = buf.len();
    let s = vstd::slice::slice_subrange(buf, from, from + len);
    vstd::slice::slice_to_vec(s)
}

/// Decodes one complete framed record from the front of `buf`, returning the
/// frame and the number of bytes consumed, `None` when the buffer does not
/// yet hold a whole record, or the reason the record is malformed.
pub fn decode_frame(buf: &[u8]) -> (r: Result<Option<(Frame, usize)>, CodecError>)
    ensures
        match r {
            Ok(None) => spec_decode(buf@) == Ok::<Option<(FrameView, int)>, DecodeError>(None),
            Ok(Some((f, n))) => spec_decode(buf@) == Ok::<Option<(FrameView, int)>, DecodeError>(
                Some((f@, n as int)),
            ),
            Err(CodecError::Decode(e)) => spec_decode(buf@) == Err::<
                Option<(FrameView, int)>,
                DecodeError,
            >(e),
            Err(_) => false,
        },
{
    proof {
        lemma_auto_spec_u32_to_from_le_bytes();
        lemma_auto_spec_u64_to_from_le_bytes();
    }
    if buf.len() < 4 {
        return Ok(None);
    }
    let size32 = read_u32_at(buf, 0);
    if size32 == 0 {
        return Err(CodecError::Decode(DecodeError::EmptyRecord));
    }
    let size = size32 as usize;
    if buf.len() - 4 < size {
        return Ok(None);
    }
    let consumed = 4 + size;
    let kind = *vstd::slice::slice_index_get(buf, 4);
    let ghost body = buf@.subrange(5, 4 + size as int);
    assert(body.len() == size - 1);
    let frame: Frame;
    if kind == 0 {
        if size < 6 {
            return Err(CodecError::Decode(DecodeError::LengthMismatch));
        }
        let role_byte = *vstd::slice::slice_index_get(buf, 5);
        assert(role_byte == body[0]);
        let t = match stream_type_of_byte(role_byte) {
            Some(t) => t,
            None => {
                return Err(CodecError::Decode(DecodeError::UnknownStreamType(role_byte)));
            },
        };
        let plen32 = read_u32_at(buf, 6);
        assert(buf@.subrange(6, 10) =~= body.subrange(1, 5));
        let plen = plen32 as usize;
        if size - 6 != plen {
            return Err(CodecError::Decode(DecodeError::LengthMismatch));
        }
        let p = copy_range(buf, 10, plen);
        assert(p@ =~= body.subrange(5, body.len() as int));
        frame = Frame::NewStream(t, p);
    } else if kind == 1 || kind == 2 {
        if size < 5 {
            return Err(CodecError::Decode(DecodeError::LengthMismatch));
        }
        let plen32 = read_u32_at(buf, 5);
        assert(buf@.subrange(5, 9) =~= body.subrange(0, 4));
        let plen = plen32 as usize;
        if size - 5 != plen {
            return Err(CodecError::Decode(DecodeError::LengthMismatch));
        }
        let p = copy_range(buf, 9, plen);
        assert(p@ =~= body.subrange(4, body.len() as int));
        frame = if kind == 1 {
            Frame::Message(p)
        } else {
            Frame::Batch(p)
        };
    } else if kind == 3 || kind == 4 {
        if size < 9 {
            return Err(CodecError::Decode(DecodeError::LengthMismatch));
        }
        let id = read_u32_at(buf, 5);
        assert(buf@.subrange(5, 9) =~= body.subrange(0, 4));
        let plen32 = read_u32_at(buf, 9);
        assert(buf@.subrange(9, 13) =~= body.subrange(4, 8));
        let plen = plen32 as usize;
        if size - 9 != plen {
            return Err(CodecError::Decode(DecodeError::LengthMismatch));
        }
        let p = copy_range(buf, 13, plen);
        assert(p@ =~= body.subrange(8, body.len() as int));
        frame = if kind == 3 {
            Frame::Request(id, p)
        } else {
            Frame::Reply(id, p)
        };
    } else if kind == 5 || kind == 6 {
        if size < 17 {
            return Err(CodecError::Decode(DecodeError::LengthMismatch));
        }
        let cid = read_u64_at(buf, 5);
        assert(buf@.subrange(5, 13) =~= body.subrange(0, 8));
        let rid = read_u32_at(buf, 13);
        assert(buf@.subrange(13, 17) =~= body.subrange(8, 12));
        let plen32 = read_u32_at(buf, 17);
        assert(buf@.subrange(17, 21) =~= body.subrange(12, 16));
        let plen = plen32 as usize;
        if size - 17 != plen {
            return Err(CodecError::Decode(DecodeError::LengthMismatch));
        }
        let p = copy_range(buf, 21, plen);
        assert(p@ =~= body.subrange(16, body.len() as int));
        frame = if kind == 5 {
            Frame::ServerRequest(cid, rid, p)
        } else {
            Frame::ServerReply(cid, rid, p)
        };
    } else if kind == 7 {
        if size != 2 {
            return Err(CodecError::Decode(DecodeError::LengthMismatch));
        }
        let sig_byte = *vstd::slice::slice_index_get(buf, 5);
        assert(sig_byte == body[0]);
        let s = match signal_of_byte(sig_byte) {
            Some(s) => s,
            None => {
                return Err(CodecError::Decode(DecodeError::UnknownSignalKind(sig_byte)));
            },
        };
        frame = Frame::Signal(s);
    } else {
        return Err(CodecError::Decode(DecodeError::UnknownFrameKind(kind)));
    }
    Ok(Some((frame, consumed)))
}

/// Decoding inverts encoding: a buffer that starts with the record of `f`
/// decodes to `f` and consumes exactly that record.
pub proof fn lemma_record_round_trip(f: FrameView, rest: Seq<u8>)
    requires
        spec_record_len(f) <= MAX_FRAME_SIZE,
    ensures
        spec_decode(spec_record(f) + rest) == Ok::<Option<(FrameView, int)>, DecodeError>(
            Some((f, spec_record_len(f))),
        ),
{
    lemma_auto_spec_u32_to_from_le_bytes();
    lemma_auto_spec_u64_to_from_le_bytes();
    let b = spec_record(f) + rest;
    let bl = spec_body(f).len() as int;
    assert(b.subrange(0, 4) =~= spec_u32_to_le_bytes((1 + bl) as u32));
    let size = spec_u32_from_le_bytes(b.subrange(0, 4)) as int;
    assert(size == 1 + bl);
    assert(b[4] == spec_kind_byte(f));
    let body = b.subrange(5, 4 + size);
    assert(body =~= spec_body(f));
    match f {
        FrameView::NewStream(t, p) => {
            assert(body[0] == spec_stream_type_byte(t));
            assert(spec_stream_type_of_byte(spec_stream_type_byte(t)) == Some(t));
            assert(body.subrange(1, 5) =~= spec_u32_to_le_bytes(p.len() as u32));
            assert(body.subrange(5, body.len() as int) =~= p);
        },
        FrameView::Message(p) => {
            assert(body.subrange(0, 4) =~= spec_u32_to_le_bytes(p.len() as u32));
            assert(body.subrange(4, body.len() as int) =~= p);
        },
        FrameView::Batch(p) => {
            assert(body.subrange(0, 4) =~= spec_u32_to_le_bytes(p.len() as u32));
            assert(body.subrange(4, body.len() as int) =~= p);
        },
        FrameView::Request(id, p) => {
            assert(body.subrange(0, 4) =~= spec_u32_to_le_bytes(id));
            assert(body.subrange(4, 8) =~= spec_u32_to_le_bytes(p.len() as u32));
            assert(body.subrange(8, body.len() as int) =~= p);
        },
        FrameView::Reply(id, p) => {
            assert(body.subrange(0, 4) =~= spec_u32_to_le_bytes(id));
            assert(body.subrange(4, 8) =~= spec_u32_to_le_bytes(p.len() as u32));
            assert(body.subrange(8, body.len() as int) =~= p);
        },
        FrameView::ServerRequest(cid, rid, p) => {
            assert(body.subrange(0, 8) =~= spec_u64_to_le_bytes(cid));
            assert(body.subrange(8, 12) =~= spec_u32_to_le_bytes(rid));
            assert(body.subrange(12, 16) =~= spec_u32_to_le_bytes(p.len() as u32));
            assert(body.subrange(16, body.len() as int) =~= p);
        },
        FrameView::ServerReply(cid, rid, p) => {
            assert(body.subrange(0, 8) =~= spec_u64_to_le_bytes(cid));
            assert(body.subrange(8, 12) =~= spec_u32_to_le_bytes(rid));
            assert(body.subrange(12, 16) =~= spec_u32_to_le_bytes(p.len() as u32));
            assert(body.subrange(16, body.len() as int) =~= p);
        },
        FrameView::Signal(s) => {
            assert(body[0] == spec_signal_byte(s));
            assert(spec_signal_of_byte(spec_signal_byte(s)) == Some(s));
        },
    }
}

/// The stream role a wire byte names, if any.
pub fn stream_type_of_byte(b: u8) -> (r: Option<StreamType>)
    ensures
        r == spec_stream_type_of_byte(b),
{
    if b == 0 {
        Some(StreamType::Publisher)
    } else if b == 1 {
        Some(StreamType::Subscriber)
    } else if b == 2 {
        Some(StreamType::Requestor)
    } else if b == 3 {
        Some(StreamType::Replier)
    } else {
        None
    }
}

/// The signal kind a wire byte names, if any.
pub fn signal_of_byte(b: u8) -> (r: Option<Signal>)
    ensures
        r == spec_signal_of_byte(b),
{
    if b == 0 {
        Some(Signal::CloudAuthFailed)
    } else if b == 1 {
        Some(Signal::InvalidTopicName)
    } else if b == 2 {
        Some(Signal::ReplierAlreadyBound)
    } else if b == 3 {
        Some(Signal::Shutdown)
    } else if b == 4 {
        Some(Signal::ShutdownInProgress)
    } else if b == 5 {
        Some(Signal::StreamClosedPrematurely)
    } else if b == 6 {
        Some(Signal::UnknownError)
    } else {
        None
    }
}

/// Whether two byte vectors hold the same bytes.
pub fn vecs_equal(a: &Vec<u8>, b: &Vec<u8>) -> (r: bool)
    ensures
        r == (a@ == b@),
{
    if a.len() != b.len() {
        return false;
    }
    let n = a.len();
    let mut i: usize = 0;
    while i < n
        invariant
            i <= n,
            n == a@.len(),
            n == b@.len(),
            forall|j: int| 0 <= j < i ==> a@[j] == b@[j],
        decreases n - i,
    {
        if a[i] != b[i] {
            return false;
        }
        i = i + 1;
    }
    proof {
        assert(a@ =~= b@);
    }
    true
}

impl PartialEq for Frame {
    /// Two frames are equal when they are the same kind of frame carrying
    /// the same integers and the same payload bytes.
    fn eq(&self, other: &Frame) -> (r: bool) {
        match (self, other) {
            (Frame::Batch(a), Frame::Batch(b)) => vecs_equal(a, b),
            (Frame::Message(a), Frame::Message(b)) => vecs_equal(a, b),
            (Frame::NewStream(t1, p1), Frame::NewStream(t2, p2)) => *t1 == *t2 && vecs_equal(
                p1,
                p2,
            ),
            (Frame::Reply(i1, a), Frame::Reply(i2, b)) => *i1 == *i2 && vecs_equal(a, b),
            (Frame::Request(i1, a), Frame::Request(i2, b)) => *i1 == *i2 && vecs_equal(a, b),
            (Frame::ServerReply(c1, i1, a), Frame::ServerReply(c2, i2, b)) => *c1 == *c2 && *i1
                == *i2 && vecs_equal(a, b),
            (Frame::ServerRequest(c1, i1, a), Frame::ServerRequest(c2, i2, b)) => *c1 == *c2 && *i1
                == *i2 && vecs_equal(a, b),
            (Frame::Signal(s1), Frame::Signal(s2)) => *s1 == *s2,
            _ => false,
        }
    }
}

impl vstd::std_specs::cmp::PartialEqSpecImpl for Frame {
    open spec fn obeys_eq_spec() -> bool {
        true
    }

    open spec fn eq_spec(&self, other: &Frame) -> bool {
        self@ == other@
    }
}

/// The wire discriminant of a frame's kind.
pub fn frame_kind(f: &Frame) -> (r: u8)
    ensures
        r == spec_kind_byte(f@),
{
    match f {
        Frame::NewStream(_, _) => 0,
        Frame::Message(_) => 1,
        Frame::Batch(_) => 2,
        Frame::Request(_, _) => 3,
        Frame::Reply(_, _) => 4,
        Frame::ServerRequest(_, _, _) => 5,
        Frame::ServerReply(_, _, _) => 6,
        Frame::Signal(_) => 7,
    }
}

/// The wire discriminant of a stream role.
pub fn stream_type_byte(t: StreamType) -> (r: u8)
    ensures
        r == spec_stream_type_byte(t),
{
    match t {
        StreamType::Publisher => 0,
        StreamType::Subscriber => 1,
        StreamType::Requestor => 2,
        StreamType::Replier => 3,
    }
}

/// The wire discriminant of a signal kind.
pub fn signal_byte(s: Signal) -> (r: u8)
    ensures
        r == spec_signal_byte(s),
{
    match s {
        Signal::CloudAuthFailed => 0,
        Signal::InvalidTopicName => 1,
        Signal::ReplierAlreadyBound => 2,
        Signal::Shutdown => 3,
        Signal::ShutdownInProgress => 4,
        Signal::StreamClosedPrematurely => 5,
        Signal::UnknownError => 6,
    }
}

} // verus!
