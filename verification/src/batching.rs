use vstd::bytes::*;
use vstd::prelude::*;

use crate::errors::{CodecError, DecodeError};
use crate::frame::push_slice;

verus! {

/// The byte sequences a list of byte vectors stands for.
pub open spec fn message_views(vs: Seq<Vec<u8>>) -> Seq<Seq<u8>> {
    Seq::new(vs.len(), |i: int| vs[i]@)
}

/// Appending a vector appends its view.
pub proof fn lemma_message_views_push(vs: Seq<Vec<u8>>, x: Vec<u8>)
    ensures
        message_views(vs.push(x)) == message_views(vs).push(x@),
{
    assert(message_views(vs.push(x)) =~= message_views(vs).push(x@));
}

/// A batch payload is the length-prefixed concatenation of its messages:
/// each message is its `u32` little-endian length followed by its bytes.
pub open spec fn spec_encode_batch(ms: Seq<Seq<u8>>) -> Seq<u8>
    decreases ms.len(),
{
    if ms.len() == 0 {
        Seq::empty()
    } else {
        spec_u32_to_le_bytes(ms[0].len() as u32) + ms[0] + spec_encode_batch(ms.drop_first())
    }
}

/// The messages a batch payload splits into, or `None` for a payload that is
/// not a whole number of length-prefixed messages.
pub open spec fn spec_decode_batch(b: Seq<u8>) -> Option<Seq<Seq<u8>>>
    decreases b.len(),
{
    if b.len() == 0 {
        Some(Seq::empty())
    } else if b.len() < 4 {
        None
    } else {
        let len = spec_u32_from_le_bytes(b.subrange(0, 4)) as int;
        if b.len() < 4 + len {
            None
        } else {
            match spec_decode_batch(b.subrange(4 + len, b.len() as int)) {
                Some(rest) => Some(seq![b.subrange(4, 4 + len)] + rest),
                None => None,
            }
        }
    }
}

/// Encoding one more message appends its length prefix and bytes.
pub proof fn lemma_encode_batch_push(ms: Seq<Seq<u8>>, m: Seq<u8>)
    ensures
        spec_encode_batch(ms.push(m)) == spec_encode_batch(ms) + spec_u32_to_le_bytes(
            m.len() as u32,
        ) + m,
    decreases ms.len(),
{
    let e = Seq::<Seq<u8>>::empty();
    assert(spec_encode_batch(e) == Seq::<u8>::empty());
    if ms.len() == 0 {
        assert(ms.push(m)[0] == m);
        assert(ms.push(m).drop_first() =~= e);
        assert(ms =~= e);
        assert(spec_encode_batch(ms.push(m)) =~= spec_encode_batch(ms) + spec_u32_to_le_bytes(
            m.len() as u32,
        ) + m);
    } else {
        assert(ms.push(m).drop_first() =~= ms.drop_first().push(m));
        assert(ms.push(m)[0] == ms[0]);
        lemma_encode_batch_push(ms.drop_first(), m);
        assert(spec_encode_batch(ms.push(m)) =~= spec_encode_batch(ms) + spec_u32_to_le_bytes(
            m.len() as u32,
        ) + m);
    }
}

/// Splitting a batch payload inverts building it, for every sequence of
/// messages short enough for a `u32` length prefix.
pub proof fn lemma_batch_round_trip(ms: Seq<Seq<u8>>)
    requires
        forall|i: int| 0 <= i < ms.len() ==> #[trigger] ms[i].len() < 0x1_0000_0000,
    ensures
        spec_decode_batch(spec_encode_batch(ms)) == Some(ms),
    decreases ms.len(),
{
    lemma_auto_spec_u32_to_from_le_bytes();
    if ms.len() == 0 {
        assert(spec_decode_batch(spec_encode_batch(ms)) == Some(Seq::<Seq<u8>>::empty()));
        assert(ms =~= Seq::<Seq<u8>>::empty());
    } else {
        let b = spec_encode_batch(ms);
        let m0 = ms[0];
        let tail = spec_encode_batch(ms.drop_first());
        assert(b == spec_u32_to_le_bytes(m0.len() as u32) + m0 + tail);
        assert(b.len() == 4 + m0.len() + tail.len());
        assert(b.subrange(0, 4) =~= spec_u32_to_le_bytes(m0.len() as u32));
        let len = spec_u32_from_le_bytes(b.subrange(0, 4)) as int;
        assert(len == m0.len());
        assert(b.subrange(4, 4 + len) =~= m0);
        assert(b.subrange(4 + len, b.len() as int) =~= tail);
        lemma_batch_round_trip(ms.drop_first());
        assert(seq![m0] + ms.drop_first() =~= ms);
    }
}

/// Builds a batch payload from the given messages.
pub fn encode_message_batch(messages: &Vec<Vec<u8>>) -> (r: Vec<u8>)
    requires
        forall|i: int|
            0 <= i < messages@.len() ==> #[trigger] messages@[i]@.len() < 0x1_0000_0000,
    ensures
        r@ == spec_encode_batch(message_views(messages@)),
{
    proof {
        lemma_auto_spec_u32_to_from_le_bytes();
    }
    let mut out: Vec<u8> = Vec::new();
    let mut i: usize = 0;
    proof {
        assert(message_views(messages@).subrange(0, 0).len() == 0);
    }
    while i < messages.len()
        invariant
            i <= messages@.len(),
            forall|j: int|
                0 <= j < messages@.len() ==> #[trigger] messages@[j]@.len() < 0x1_0000_0000,
            out@ == spec_encode_batch(message_views(messages@).subrange(0, i as int)),
        decreases messages@.len() - i,
    {
        let m = &messages[i];
        let len_bytes = u32_to_le_bytes(m.len() as u32);
        push_slice(&mut out, len_bytes.as_slice());
        push_slice(&mut out, m.as_slice());
        proof {
            let dv = message_views(messages@);
            assert(dv[i as int] == messages@[i as int]@);
            assert(dv.subrange(0, i + 1 as int) =~= dv.subrange(0, i as int).push(dv[i as int]));
            lemma_encode_batch_push(dv.subrange(0, i as int), dv[i as int]);
        }
        i = i + 1;
    }
    proof {
        assert(message_views(messages@).subrange(0, messages@.len() as int) =~= message_views(
            messages@,
        ));
    }
    out
}

/// Splits a batch payload into its messages, rejecting payloads that are not
/// a whole number of length-prefixed messages.
pub fn decode_message_batch(buf: &Vec<u8>) -> (r: Result<Vec<Vec<u8>>, CodecError>)
    ensures
        match r {
            Ok(v) => spec_decode_batch(buf@) == Some(message_views(v@)),
            Err(e) => spec_decode_batch(buf@) is None && e == CodecError::Decode(
                DecodeError::LengthMismatch,
            ),
        },
{
    proof {
        lemma_auto_spec_u32_to_from_le_bytes();
    }
    let n = buf.len();
    let mut out: Vec<Vec<u8>> = Vec::new();
    let mut pos: usize = 0;
    proof {
        assert(buf@.subrange(0, n as int) =~= buf@);
        match spec_decode_batch(buf@) {
            Some(r0) => {
                assert(message_views(out@) + r0 =~= r0);
            },
            None => {},
        }
    }
    while pos < n
        invariant
            pos <= n,
            n == buf@.len(),
            spec_decode_batch(buf@) == match spec_decode_batch(
                buf@.subrange(pos as int, n as int),
            ) {
                Some(rest) => Some::<Seq<Seq<u8>>>(message_views(out@) + rest),
                None => None::<Seq<Seq<u8>>>,
            },
        decreases n - pos,
    {
        proof {
            lemma_auto_spec_u32_to_from_le_bytes();
        }
        let ghost remaining = buf@.subrange(pos as int, n as int);
        if n - pos < 4 {
            return Err(CodecError::Decode(DecodeError::LengthMismatch));
        }
        let len32 = crate::frame::read_u32_at(buf.as_slice(), pos);
        assert(buf@.subrange(pos as int, pos + 4 as int) =~= remaining.subrange(0, 4));
        let len = len32 as usize;
        if n - pos - 4 < len {
            return Err(CodecError::Decode(DecodeError::LengthMismatch));
        }
        let m = crate::frame::copy_range(buf.as_slice(), pos + 4, len);
        assert(m@ =~= remaining.subrange(4, 4 + len as int));
        let ghost out_before = out@;
        out.push(m);
        proof {
            lemma_message_views_push(out_before, m);
            let rest_bytes = buf@.subrange(pos + 4 + len as int, n as int);
            assert(rest_bytes =~= remaining.subrange(4 + len as int, remaining.len() as int));
            match spec_decode_batch(rest_bytes) {
                Some(r2) => {
                    assert(message_views(out_before) + (seq![m@] + r2) =~= message_views(out@)
                        + r2);
                },
                None => {},
            }
        }
        pos = pos + 4 + len;
    }
    proof {
        assert(buf@.subrange(pos as int, n as int).len() == 0);
        assert(spec_decode_batch(buf@.subrange(pos as int, n as int)) == Some(
            Seq::<Seq<u8>>::empty(),
        ));
        assert(message_views(out@) + Seq::<Seq<u8>>::empty() =~= message_views(out@));
    }
    Ok(out)
}

/// How a publisher's batching is tuned: a batch is flushed when it holds
/// `max_size` messages or when `interval_ms` has elapsed since the last run.
#[derive(Clone, Copy, Debug, PartialEq, Eq, Structural)]
pub struct BatchConfig {
    pub max_size: usize,
    pub interval_ms: u64,
}

/// A publisher-side buffer of encoded messages awaiting their batch flush.
pub struct MessageBatch {
    messages: Vec<Vec<u8>>,
    config: BatchConfig,
    last_run_ms: u64,
}

impl MessageBatch {
    /// The buffered messages, oldest first.
    pub closed spec fn contents(self) -> Seq<Seq<u8>> {
        message_views(self.messages@)
    }

    /// The instant, in milliseconds, of the last batch flush.
    pub closed spec fn spec_last_run(self) -> u64 {
        self.last_run_ms
    }

    /// The tuning this buffer was built with.
    pub closed spec fn spec_config(self) -> BatchConfig {
        self.config
    }

    /// An empty buffer whose interval starts at `now_ms`.
    pub fn new(config: BatchConfig, now_ms: u64) -> (r: MessageBatch)
        ensures
            r.contents() == Seq::<Seq<u8>>::empty(),
            r.spec_config() == config,
            r.spec_last_run() == now_ms,
    {
        let r = MessageBatch { messages: Vec::new(), config, last_run_ms: now_ms };
        proof {
            assert(r.contents() =~= Seq::<Seq<u8>>::empty());
        }
        r
    }

    /// Buffers one encoded message.
    pub fn push(&mut self, message: Vec<u8>)
        ensures
            final(self).contents() == old(self).contents().push(message@),
            final(self).spec_config() == old(self).spec_config(),
            final(self).spec_last_run() == old(self).spec_last_run(),
    {
        proof {
            lemma_message_views_push(self.messages@, message);
        }
        self.messages.push(message);
    }

    /// How many messages are buffered.
    pub fn len(&self) -> (r: usize)
        ensures
            r == self.contents().len(),
    {
        self.messages.len()
    }

    /// Whether no messages are buffered.
    pub fn is_empty(&self) -> (r: bool)
        ensures
            r == (self.contents().len() == 0),
    {
        self.messages.is_empty()
    }

    /// Whether the batch is due: it reached its size bound, or it holds
    /// messages and its interval has elapsed since the last run.
    pub fn is_ready(&self, now_ms: u64) -> (r: bool)
        ensures
            r == (self.contents().len() >= self.spec_config().max_size || (self.contents().len()
                > 0 && now_ms >= self.spec_last_run() + self.spec_config().interval_ms)),
    {
        self.messages.len() >= self.config.max_size || (self.messages.len() > 0 && now_ms
            >= self.last_run_ms && now_ms - self.last_run_ms >= self.config.interval_ms)
    }

    /// Hands out the buffered messages, leaving the buffer empty.
    pub fn drain(&mut self) -> (r: Vec<Vec<u8>>)
        ensures
            message_views(r@) == old(self).contents(),
            final(self).contents() == Seq::<Seq<u8>>::empty(),
            final(self).spec_config() == old(self).spec_config(),
            final(self).spec_last_run() == old(self).spec_last_run(),
    {
        let r = self.messages.split_off(0);
        proof {
            assert(message_views(r@) =~= old(self).contents());
            assert(self.contents() =~= Seq::<Seq<u8>>::empty());
        }
        r
    }

    /// Restarts the batch interval at `now_ms`.
    pub fn update_last_run(&mut self, now_ms: u64)
        ensures
            final(self).contents() == old(self).contents(),
            final(self).spec_config() == old(self).spec_config(),
            final(self).spec_last_run() == now_ms,
    {
        self.last_run_ms = now_ms;
    }
}

} // verus!
