use vstd::prelude::*;

use crate::frame::FrameType;

verus! {

/// Why a byte buffer failed to parse as a frame.
#[derive(Clone, Copy, Debug, PartialEq, Eq, Structural)]
pub enum DecodeError {
    /// The record's size field was zero, leaving no room for the kind byte.
    EmptyRecord,
    /// The kind byte named no known frame kind.
    UnknownFrameKind(u8),
    /// A `NewStream` body carried an unknown stream role byte.
    UnknownStreamType(u8),
    /// A `Signal` body carried an unknown signal kind byte.
    UnknownSignalKind(u8),
    /// A length prefix disagreed with the record's actual extent.
    LengthMismatch,
}

/// Errors raised by the message log and its memory-mapped index.
#[derive(Clone, Copy, Debug, PartialEq, Eq, Structural)]
pub enum LogError {
    /// The memory-map system call failed.
    MemoryMapIndex,
    /// An index file's length is not a whole, nonzero number of entries.
    CorruptIndex,
    /// A record would push the segment's data file past the positions a
    /// `u32` index field can name.
    RecordTooLarge,
    /// A segment rotation would push the base offset past `u64::MAX`.
    OffsetOverflow,
}

/// Errors raised by a topic actor on a misbehaving channel.
#[derive(Clone, Copy, Debug, PartialEq, Eq, Structural)]
pub enum TopicError {
    /// A publisher channel carried a frame that is not a message or batch.
    UnexpectedFrame(FrameType),
    /// A batch payload was not a whole number of length-prefixed messages,
    /// or held more messages than a batch size field can count.
    MalformedBatch,
    /// The log refused the write; the payload says why.
    Log(LogError),
}

/// Errors raised while encoding or decoding frames on a stream.
#[derive(Clone, Copy, Debug, PartialEq, Eq, Structural)]
pub enum CodecError {
    /// The buffer could not be parsed; the payload says why.
    Decode(DecodeError),
    /// A frame's complete framed record would exceed the maximum size;
    /// carries the offending size and the maximum.
    FrameTooLarge(usize, usize),
    /// A frame was encountered that the stream's state machine forbids;
    /// carries the offending frame's type and the last accepted type.
    FrameOutOfOrder(FrameType, FrameType),
}

} // verus!
