use vstd::prelude::*;

use crate::batching::{decode_message_batch, lemma_batch_round_trip, spec_decode_batch, spec_encode_batch};
use crate::errors::{LogError, TopicError};
use crate::frame::{Frame, FrameView};
use crate::log::{
    lemma_canonical_records_from, lemma_total_entries_after_writes, lemma_writes_shape_the_log,
    record_views, records_from, spec_data_len, spec_fresh_log, spec_read_slice,
    spec_record_disk_len, spec_write, spec_write_all, total_entries, MessageLog, Record,
    RecordView,
};

verus! {

/// Where a subscriber asks to start: at an absolute offset, or counting back
/// from the newest entry.
#[derive(Clone, Copy, Debug, PartialEq, Eq, Structural)]
pub enum Offset {
    FromBeginning(u64),
    FromEnd(u64),
}

/// The concrete offset a request stands for on a topic with `entries`
/// entries: `FromEnd` clamps at zero.
pub open spec fn spec_start_offset(offset: Offset, entries: u64) -> int {
    match offset {
        Offset::FromBeginning(n) => n as int,
        Offset::FromEnd(k) => if entries >= k {
            entries - k
        } else {
            0
        },
    }
}

/// Translates a subscriber's requested position against the entry count.
pub fn subscriber_start_offset(offset: Offset, entries: u64) -> (r: u64)
    ensures
        r == spec_start_offset(offset, entries),
{
    match offset {
        Offset::FromBeginning(n) => n,
        Offset::FromEnd(k) => if entries >= k {
            entries - k
        } else {
            0
        },
    }
}

/// The record a publisher frame is stored as: one message counts as one,
/// a batch as its number of messages.
pub open spec fn spec_publisher_record(f: FrameView, now_ms: u64) -> RecordView {
    match f {
        FrameView::Message(b) => RecordView { batch_size: 1u32, timestamp: now_ms, records: b },
        FrameView::Batch(b) => RecordView {
            batch_size: (match spec_decode_batch(b) {
                Some(ms) => ms.len() as u32,
                None => 0u32,
            }),
            timestamp: now_ms,
            records: b,
        },
        _ => RecordView { batch_size: 0u32, timestamp: now_ms, records: Seq::empty() },
    }
}

/// Whether a publisher frame is one the topic accepts.
pub open spec fn spec_publishable(f: FrameView) -> bool {
    match f {
        FrameView::Message(_) => true,
        FrameView::Batch(b) => spec_decode_batch(b) matches Some(ms) && ms.len() <= u32::MAX,
        _ => false,
    }
}

/// A batch of messages published as one frame is stored as one entry whose
/// batch size counts the messages and whose payload splits back into
/// exactly the batched messages, in order.
pub proof fn lemma_batched_publish_round_trip(ms: Seq<Seq<u8>>, now_ms: u64)
    requires
        forall|i: int| 0 <= i < ms.len() ==> #[trigger] ms[i].len() < 0x1_0000_0000,
        ms.len() <= u32::MAX,
    ensures
        ({
            let f = FrameView::Batch(spec_encode_batch(ms));
            &&& spec_publishable(f)
            &&& spec_publisher_record(f, now_ms).batch_size == ms.len()
            &&& spec_publisher_record(f, now_ms).timestamp == now_ms
            &&& spec_decode_batch(spec_publisher_record(f, now_ms).records) == Some(ms)
        }),
{
    lemma_batch_round_trip(ms);
}

/// What a subscriber drains from a fresh topic into which records were
/// published in order: the topic reports one entry per record, a request
/// counting back from the end starts at the clamped offset, and a drain
/// from any start yields exactly the records from that offset on — so a
/// late subscriber sees exactly the newest records it asked for, and one
/// from the beginning sees everything, in publish order.
pub proof fn lemma_subscriber_sees_the_suffix(cap: int, recs: Seq<RecordView>, back: u64)
    requires
        1 <= cap,
        recs.len() < 0xFFFF_FFFF,
    ensures
        ({
            let segs = spec_write_all(spec_fresh_log(), cap, recs);
            let entries = recs.len() as u64;
            let start = spec_start_offset(Offset::FromEnd(back), entries);
            &&& total_entries(segs) == entries
            &&& start == (if back <= entries {
                entries - back
            } else {
                0
            })
            &&& records_from(segs, start) == recs.subrange(start, recs.len() as int)
            &&& records_from(segs, 0) == recs
        }),
{
    lemma_writes_shape_the_log(cap, recs);
    lemma_total_entries_after_writes(cap, recs);
    let entries = recs.len() as u64;
    let start = spec_start_offset(Offset::FromEnd(back), entries);
    lemma_canonical_records_from(cap, recs, start);
    lemma_canonical_records_from(cap, recs, 0);
    assert(recs.subrange(0, recs.len() as int) =~= recs);
}

/// The frame a subscriber receives for a stored record: batches travel as
/// `Batch`, single messages as `Message`.
pub open spec fn spec_record_frame(r: RecordView) -> FrameView {
    if r.batch_size > 1 {
        FrameView::Batch(r.records)
    } else {
        FrameView::Message(r.records)
    }
}

/// The frames a sequence of records fans out as.
pub open spec fn spec_record_frames(rs: Seq<RecordView>) -> Seq<FrameView> {
    Seq::new(rs.len(), |i: int| spec_record_frame(rs[i]))
}

/// The frame views a vector of frames stands for.
pub open spec fn frame_views(fs: Seq<Frame>) -> Seq<FrameView> {
    Seq::new(fs.len(), |i: int| fs[i]@)
}

/// Builds the frame a subscriber receives for a stored record.
pub fn record_frame(rec: &Record) -> (f: Frame)
    ensures
        f@ == spec_record_frame(rec@),
{
    let records = rec.records.clone();
    assert(records@ == rec.records@);
    if rec.batch_size > 1 {
        Frame::Batch(records)
    } else {
        Frame::Message(records)
    }
}

/// The log record a publisher frame carries: a message counts as one, a
/// batch as its number of messages, each stamped with the write time.
pub fn publisher_record(frame: &Frame, now_ms: u64) -> (r: Result<Record, TopicError>)
    ensures
        match r {
            Ok(rec) => spec_publishable(frame@) && rec@ == spec_publisher_record(frame@, now_ms),
            Err(TopicError::UnexpectedFrame(t)) => t == frame.ty_spec() && !(frame@ matches
            FrameView::Message(_)) && !(frame@ matches FrameView::Batch(_)),
            Err(TopicError::MalformedBatch) => (frame@ matches FrameView::Batch(b) && (
            spec_decode_batch(b) is None || (spec_decode_batch(b) matches Some(ms) && ms.len()
                > u32::MAX))),
            Err(TopicError::Log(_)) => false,
        },
{
    match frame {
        Frame::Message(b) => {
            let records = b.clone();
            assert(records@ == b@);
            Ok(Record { batch_size: 1, timestamp: now_ms, records })
        },
        Frame::Batch(b) => {
            let parsed = match decode_message_batch(b) {
                Ok(p) => p,
                Err(_) => {
                    return Err(TopicError::MalformedBatch);
                },
            };
            if parsed.len() as u64 > u32::MAX as u64 {
                return Err(TopicError::MalformedBatch);
            }
            let records = b.clone();
            assert(records@ == b@);
            Ok(Record { batch_size: parsed.len() as u32, timestamp: now_ms, records })
        },
        _ => Err(TopicError::UnexpectedFrame(frame.ty())),
    }
}

/// The pub/sub topic actor's state: the topic's log and the next key for a
/// registering publisher channel.
pub struct Topic {
    log: MessageLog,
    next_stream_id: u64,
}

impl Topic {
    /// The topic's log.
    pub closed spec fn spec_log(self) -> MessageLog {
        self.log
    }

    /// The key the next publisher channel will register under.
    pub closed spec fn spec_next_stream_id(self) -> u64 {
        self.next_stream_id
    }

    pub open spec fn wf(self) -> bool {
        self.spec_log().wf()
    }

    /// A topic over a fresh or adopted log, with stream keys starting at 0.
    pub fn new(log: MessageLog) -> (r: Topic)
        requires
            log.wf(),
        ensures
            r.wf(),
            r.spec_log() == log,
            r.spec_next_stream_id() == 0,
    {
        Topic { log, next_stream_id: 0 }
    }

    /// The key the next publisher channel will register under.
    pub fn next_stream_id(&self) -> (r: u64)
        ensures
            r == self.spec_next_stream_id(),
    {
        self.next_stream_id
    }

    /// Registers a publisher channel: hands out the next stream key.
    pub fn add_publisher(&mut self) -> (r: u64)
        requires
            old(self).spec_next_stream_id() < u64::MAX,
        ensures
            r == old(self).spec_next_stream_id(),
            final(self).spec_next_stream_id() == old(self).spec_next_stream_id() + 1,
            final(self).spec_log() == old(self).spec_log(),
    {
        let id = self.next_stream_id;
        self.next_stream_id = self.next_stream_id + 1;
        id
    }

    /// Accepts one publisher frame: a message or batch is bundled with the
    /// write time and appended to the log; anything else is a protocol
    /// error. Success is owed whenever the frame is publishable, the active
    /// segment has room, and the record fits the data file's positions; a
    /// rotation can also fail in the memory-map system call.
    pub fn publish(&mut self, frame: &Frame, now_ms: u64) -> (r: Result<(), TopicError>)
        requires
            old(self).wf(),
        ensures
            final(self).wf(),
            final(self).spec_next_stream_id() == old(self).spec_next_stream_id(),
            final(self).spec_log().spec_config() == old(self).spec_log().spec_config(),
            match r {
                Ok(()) => spec_publishable(frame@) && final(self).spec_log()@ == spec_write(
                    old(self).spec_log()@,
                    old(self).spec_log().spec_config().max_index_entries as int,
                    spec_publisher_record(frame@, now_ms),
                ),
                Err(TopicError::Log(e)) => spec_publishable(frame@) && final(self).spec_log()@
                    == old(self).spec_log()@ && ({
                    let segs = old(self).spec_log()@;
                    let cap = old(self).spec_log().spec_config().max_index_entries as int;
                    let rec = spec_publisher_record(frame@, now_ms);
                    let rotating = segs.last().records.len() >= cap;
                    let target = if rotating {
                        Seq::<RecordView>::empty()
                    } else {
                        segs.last().records
                    };
                    ||| (e == LogError::OffsetOverflow && rotating && segs.last().base_offset + 4
                        * cap > u64::MAX)
                    ||| (e == LogError::RecordTooLarge && spec_data_len(target)
                        + spec_record_disk_len(rec) > u32::MAX)
                    ||| (e == LogError::MemoryMapIndex && rotating)
                }),
                Err(_) => final(self).spec_log()@ == old(self).spec_log()@ && !spec_publishable(
                    frame@,
                ),
            },
            (spec_publishable(frame@) && old(self).spec_log()@.last().records.len() < old(
                self,
            ).spec_log().spec_config().max_index_entries as int && spec_data_len(
                old(self).spec_log()@.last().records,
            ) + spec_record_disk_len(spec_publisher_record(frame@, now_ms)) <= u32::MAX) ==> r
                is Ok,
    {
        let record = match publisher_record(frame, now_ms) {
            Ok(rec) => rec,
            Err(e) => {
                return Err(e);
            },
        };
        let ghost rec = record@;
        match self.log.write(record) {
            Ok(()) => Ok(()),
            Err(e) => Err(TopicError::Log(e)),
        }
    }

    /// Registers a subscriber: translates its requested position against the
    /// topic's entry count.
    pub fn add_subscriber(&self, offset: Offset) -> (r: u64)
        requires
            self.wf(),
        ensures
            r == spec_start_offset(offset, total_entries(self.spec_log()@) as u64),
    {
        proof {
            self.spec_log().lemma_wf_bounds();
            self.spec_log().lemma_total_entries_bound(self.spec_log()@.len() as int);
            assert(self.spec_log()@.subrange(0, self.spec_log()@.len() as int) =~= self.spec_log()@);
        }
        let entries = self.log.number_of_entries();
        subscriber_start_offset(offset, entries)
    }

    /// One poll of a subscriber task: drains the next slice of the log from
    /// the subscriber's cursor into frames, and advances the cursor. An
    /// empty result means the subscriber should sleep for the polling
    /// interval.
    pub fn poll_subscriber(&self, cursor: u64) -> (r: (Vec<Frame>, u64))
        requires
            self.wf(),
        ensures
            ({
                let (ms, end) = spec_read_slice(self.spec_log()@, cursor as int, None);
                frame_views(r.0@) == spec_record_frames(ms) && r.1 as int == end
            }),
    {
        let slice = self.log.read_slice(cursor, None);
        let mut frames: Vec<Frame> = Vec::new();
        let mut i: usize = 0;
        let n = slice.messages.len();
        proof {
            assert(frame_views(frames@) =~= spec_record_frames(
                record_views(slice.messages@).subrange(0, 0),
            ));
        }
        while i < n
            invariant
                i <= n,
                n == slice.messages@.len(),
                frame_views(frames@) == spec_record_frames(
                    record_views(slice.messages@).subrange(0, i as int),
                ),
            decreases n - i,
        {
            let f = record_frame(&slice.messages[i]);
            let ghost before = frames@;
            frames.push(f);
            proof {
                let rv = record_views(slice.messages@);
                assert(rv.subrange(0, i + 1 as int) =~= rv.subrange(0, i as int).push(
                    rv[i as int],
                ));
                assert(frame_views(frames@) =~= frame_views(before).push(f@));
                assert(spec_record_frames(rv.subrange(0, i + 1 as int)) =~= spec_record_frames(
                    rv.subrange(0, i as int),
                ).push(spec_record_frame(rv[i as int])));
            }
            i = i + 1;
        }
        proof {
            assert(record_views(slice.messages@).subrange(0, n as int) =~= record_views(
                slice.messages@,
            ));
        }
        (frames, slice.end_offset)
    }

    /// Runs the flush policy: synchronizes the active segment's index with
    /// its backing storage when enough writes or enough time accumulated,
    /// and says whether it did.
    pub fn flush_if_due(&mut self, now_ms: u64) -> (r: Result<bool, LogError>)
        requires
            old(self).wf(),
        ensures
            final(self).wf(),
            final(self).spec_log()@ == old(self).spec_log()@,
            final(self).spec_log().spec_config() == old(self).spec_log().spec_config(),
            final(self).spec_next_stream_id() == old(self).spec_next_stream_id(),
            match r {
                Ok(flushed) => flushed == ((old(self).spec_log().spec_config().flush_num_writes
                    matches Some(n) && old(self).spec_log().spec_writes_since_flush() >= n)
                    || now_ms >= old(self).spec_log().spec_last_flush()
                    + old(self).spec_log().spec_config().flush_interval_ms) && (flushed
                    ==> final(self).spec_log().spec_writes_since_flush() == 0),
                Err(e) => e == LogError::MemoryMapIndex,
            },
            !((old(self).spec_log().spec_config().flush_num_writes matches Some(n) && old(
                self,
            ).spec_log().spec_writes_since_flush() >= n) || now_ms >= old(
                self,
            ).spec_log().spec_last_flush() + old(self).spec_log().spec_config().flush_interval_ms)
                ==> r is Ok,
    {
        if self.log.should_flush(now_ms) {
            match self.log.flush(now_ms) {
                Ok(()) => Ok(true),
                Err(e) => Err(e),
            }
        } else {
            Ok(false)
        }
    }

    /// Access to the topic's log for flushing and cleaning.
    pub fn log(&self) -> (r: &MessageLog)
        ensures
            r == self.spec_log(),
    {
        &self.log
    }

    /// Appends nothing; runs the retention cleaner over the topic's log.
    pub fn clean(&mut self, now_ms: u64)
        requires
            old(self).wf(),
        ensures
            final(self).wf(),
            final(self).spec_next_stream_id() == old(self).spec_next_stream_id(),
            final(self).spec_log()@ == crate::log::spec_retained(
                old(self).spec_log()@,
                old(self).spec_log().spec_config().retention_period_ms,
                now_ms as int,
            ),
    {
        self.log.remove_stale_segments(now_ms);
    }
}

} // verus!
