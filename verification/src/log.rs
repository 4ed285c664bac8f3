use vstd::prelude::*;

use crate::errors::LogError;
use crate::index::{
    le32_val, le64_val, lemma_le32_round_trip, lemma_le64_round_trip, read_le32, read_le64,
    spec_le32_of, spec_le64_of, write_le32, write_le64, zero_entry, Index, IndexEntry,
};

verus! {

/// One entry of a segment's data file: the records of one message or batch,
/// with the batch size and write timestamp.
#[derive(Clone, Debug)]
pub struct Record {
    pub batch_size: u32,
    pub timestamp: u64,
    pub records: Vec<u8>,
}

/// The mathematical model of a record.
pub struct RecordView {
    pub batch_size: u32,
    pub timestamp: u64,
    pub records: Seq<u8>,
}

impl View for Record {
    type V = RecordView;

    open spec fn view(&self) -> RecordView {
        RecordView {
            batch_size: self.batch_size,
            timestamp: self.timestamp,
            records: self.records@,
        }
    }
}

impl Record {
    /// A copy of this record.
    pub fn duplicate(&self) -> (r: Record)
        ensures
            r@ == self@,
    {
        let records = self.records.clone();
        assert(records@ == self.records@);
        Record { batch_size: self.batch_size, timestamp: self.timestamp, records }
    }
}

/// How many bytes a record occupies in the data file: a `u32` length, a
/// `u32` batch size, a `u64` timestamp, then the records.
pub open spec fn spec_record_disk_len(r: RecordView) -> int {
    16 + r.records.len() as int
}

/// A record's data-file framing:
/// `length: u32 || batch_size: u32 || timestamp: u64 || records`,
/// all little endian, where `length` counts the records alone.
pub open spec fn spec_record_bytes(r: RecordView) -> Seq<u8> {
    spec_le32_of(r.records.len() as u32) + spec_le32_of(r.batch_size) + spec_le64_of(r.timestamp)
        + r.records
}

/// What the data-file bytes at `pos` hold: a record and the position after
/// it, or `None` for a truncated or oversized framing.
pub open spec fn spec_record_at(b: Seq<u8>, pos: int) -> Option<(RecordView, int)> {
    if pos < 0 || pos + 16 > b.len() {
        None
    } else {
        let len = le32_val(b.subrange(pos, pos + 4));
        if pos + 16 + len > b.len() {
            None
        } else {
            Some(
                (
                    RecordView {
                        batch_size: le32_val(b.subrange(pos + 4, pos + 8)) as u32,
                        timestamp: le64_val(b.subrange(pos + 8, pos + 16)) as u64,
                        records: b.subrange(pos + 16, pos + 16 + len),
                    },
                    pos + 16 + len,
                ),
            )
        }
    }
}

/// Parsing a framed record from any position it was written at gives the
/// record back and lands just past it.
pub proof fn lemma_record_frame_round_trip(prefix: Seq<u8>, r: RecordView, rest: Seq<u8>)
    requires
        r.records.len() < 0x1_0000_0000,
    ensures
        spec_record_at(prefix + spec_record_bytes(r) + rest, prefix.len() as int) == Some(
            (r, prefix.len() as int + 16 + r.records.len() as int),
        ),
{
    lemma_le32_round_trip(r.records.len() as u32);
    lemma_le32_round_trip(r.batch_size);
    lemma_le64_round_trip(r.timestamp);
    let b = prefix + spec_record_bytes(r) + rest;
    let pos = prefix.len() as int;
    assert(b.subrange(pos, pos + 4) =~= spec_le32_of(r.records.len() as u32));
    assert(b.subrange(pos + 4, pos + 8) =~= spec_le32_of(r.batch_size));
    assert(b.subrange(pos + 8, pos + 16) =~= spec_le64_of(r.timestamp));
    assert(b.subrange(pos + 16, pos + 16 + r.records.len()) =~= r.records);
}

impl Record {
    /// Serializes this record in its data-file framing.
    pub fn encode(&self) -> (r: Result<Vec<u8>, LogError>)
        ensures
            match r {
                Ok(v) => self.records@.len() < 0x1_0000_0000 && v@ == spec_record_bytes(self@),
                Err(e) => self.records@.len() >= 0x1_0000_0000 && e == LogError::RecordTooLarge,
            },
    {
        if self.records.len() as u64 >= 0x1_0000_0000u64 {
            return Err(LogError::RecordTooLarge);
        }
        let mut out: Vec<u8> = Vec::new();
        write_le32(&mut out, self.records.len() as u32);
        write_le32(&mut out, self.batch_size);
        write_le64(&mut out, self.timestamp);
        crate::frame::push_slice(&mut out, self.records.as_slice());
        assert(out@ =~= spec_record_bytes(self@));
        Ok(out)
    }

    /// Parses the framed record at `pos`, returning it with the position
    /// just past it, or `None` for a truncated framing.
    pub fn decode_at(buf: &Vec<u8>, pos: usize) -> (r: Option<(Record, usize)>)
        ensures
            match r {
                Some((rec, next)) => spec_record_at(buf@, pos as int) == Some(
                    (rec@, next as int),
                ),
                None => spec_record_at(buf@, pos as int) is None,
            },
    {
        let n = buf.len();
        if pos >= n || n - pos < 16 {
            return None;
        }
        let len32 = read_le32(buf.as_slice(), pos);
        let len = len32 as usize;
        proof {
            assert(buf@.subrange(pos as int, pos + 4 as int).len() == 4);
        }
        if n - pos - 16 < len {
            return None;
        }
        let batch_size = read_le32(buf.as_slice(), pos + 4);
        let timestamp = read_le64(buf.as_slice(), pos + 8);
        let records = crate::frame::copy_range(buf.as_slice(), pos + 16, len);
        Some((Record { batch_size, timestamp, records }, pos + 16 + len))
    }
}

/// The byte size of a sequence of framed records.
pub open spec fn spec_data_len(rs: Seq<RecordView>) -> int
    decreases rs.len(),
{
    if rs.len() == 0 {
        0
    } else {
        spec_data_len(rs.drop_last()) + spec_record_disk_len(rs.last())
    }
}

/// Appending a record grows the data length by its framed size.
pub proof fn lemma_data_len_push(rs: Seq<RecordView>, r: RecordView)
    ensures
        spec_data_len(rs.push(r)) == spec_data_len(rs) + spec_record_disk_len(r),
{
    assert(rs.push(r).drop_last() =~= rs);
    assert(rs.push(r).last() == r);
}

/// The data length counts every record at least once: it dominates each
/// prefix.
pub proof fn lemma_data_len_nonneg(rs: Seq<RecordView>)
    ensures
        spec_data_len(rs) >= 0,
    decreases rs.len(),
{
    if rs.len() > 0 {
        lemma_data_len_nonneg(rs.drop_last());
    }
}

/// The record views a vector of records stands for.
pub open spec fn record_views(rs: Seq<Record>) -> Seq<RecordView> {
    Seq::new(rs.len(), |i: int| rs[i]@)
}

/// The mathematical model of a segment: its base offset and its records in
/// append order.
pub struct SegmentView {
    pub base_offset: u64,
    pub records: Seq<RecordView>,
}

impl SegmentView {
    /// One past the highest absolute offset this segment holds.
    pub open spec fn end_offset(self) -> int {
        self.base_offset + self.records.len()
    }
}

/// One segment of the message log: an index of fixed capacity and the
/// records appended so far, named by its base offset. A record's absolute
/// offset is the base offset plus its position.
pub struct Segment {
    base_offset: u64,
    index: Index,
    records: Vec<Record>,
    data_len: u32,
}

impl View for Segment {
    type V = SegmentView;

    closed spec fn view(&self) -> SegmentView {
        SegmentView { base_offset: self.base_offset, records: record_views(self.records@) }
    }
}

impl Segment {
    /// The number of index slots.
    pub closed spec fn spec_capacity(self) -> int {
        self.index@.len() as int
    }

    /// The index slot that belongs to each appended record.
    pub open spec fn entry_for(self, i: int) -> IndexEntry
        recommends
            0 <= i < self@.records.len(),
    {
        IndexEntry {
            relative_offset: (i + 1) as u32,
            file_position: spec_data_len(self@.records.subrange(0, i)) as u32,
            timestamp: self@.records[i].timestamp,
        }
    }

    /// The records fill the index's slots in order from the first; the
    /// remaining slots are vacant; the tracked data length is the framed
    /// size of the records.
    pub closed spec fn wf(self) -> bool {
        &&& self.index.wf()
        &&& self.records@.len() <= self.index@.len()
        &&& forall|i: int|
            0 <= i < self.records@.len() ==> self.index@[i] == #[trigger] self.entry_for(i)
        &&& forall|i: int|
            self.records@.len() <= i < self.index@.len() ==> self.index@[i] == zero_entry()
        &&& spec_data_len(self@.records) == self.data_len
    }

    /// Creates an empty segment with a fresh, zeroed index.
    pub fn create(base_offset: u64, max_entries: u32) -> (r: Result<Segment, LogError>)
        requires
            1 <= max_entries,
            16 * max_entries <= usize::MAX,
        ensures
            r matches Ok(s) ==> s.wf() && s@.base_offset == base_offset && s@.records
                == Seq::<RecordView>::empty() && s.spec_capacity() == max_entries,
            r matches Err(e) ==> e == LogError::MemoryMapIndex,
    {
        let index = Index::create(max_entries as usize)?;
        let s = Segment { base_offset, index, records: Vec::new(), data_len: 0 };
        proof {
            assert(record_views(s.records@) =~= Seq::<RecordView>::empty());
        }
        Ok(s)
    }

    /// The absolute offset this segment starts at.
    pub fn base_offset(&self) -> (r: u64)
        ensures
            r == self@.base_offset,
    {
        self.base_offset
    }

    /// How many records this segment holds.
    pub fn len(&self) -> (r: usize)
        ensures
            r == self@.records.len(),
    {
        self.records.len()
    }

    /// How many records this segment can hold.
    pub fn capacity(&self) -> (r: usize)
        requires
            self.wf(),
        ensures
            r == self.spec_capacity(),
    {
        self.index.capacity()
    }

    /// Whether every index slot is occupied.
    pub fn is_full(&self) -> (r: bool)
        requires
            self.wf(),
        ensures
            r == (self@.records.len() == self.spec_capacity()),
    {
        self.records.len() == self.index.capacity()
    }

    /// A reference to the record at position `i`.
    pub fn record_at(&self, i: usize) -> (r: &Record)
        requires
            i < self@.records.len(),
        ensures
            r@ == self@.records[i as int],
    {
        &self.records[i]
    }

    /// The timestamp of the newest record, or `None` for an empty segment.
    pub fn latest_timestamp(&self) -> (r: Option<u64>)
        ensures
            match r {
                Some(t) => self@.records.len() > 0 && t == self@.records.last().timestamp,
                None => self@.records.len() == 0,
            },
    {
        if self.records.len() == 0 {
            None
        } else {
            Some(self.records[self.records.len() - 1].timestamp)
        }
    }

    /// Synchronizes the index's mapped slots with their backing storage.
    pub fn flush(&mut self) -> (r: Result<(), LogError>)
        requires
            old(self).wf(),
        ensures
            final(self).wf(),
            final(self)@ == old(self)@,
            final(self).spec_capacity() == old(self).spec_capacity(),
            r matches Err(e) ==> e == LogError::MemoryMapIndex,
    {
        let r = self.index.flush();
        proof {
            assert forall|i: int| 0 <= i < self.records@.len() implies self.index@[i]
                == #[trigger] self.entry_for(i) by {
                assert(old(self).entry_for(i) == self.entry_for(i));
            }
        }
        r
    }

    /// Appends one record: it takes the next position, and its index entry
    /// fills the next vacant slot.
    pub fn append(&mut self, record: Record) -> (r: Result<(), LogError>)
        requires
            old(self).wf(),
            old(self)@.records.len() < old(self).spec_capacity(),
        ensures
            final(self).wf(),
            final(self).spec_capacity() == old(self).spec_capacity(),
            match r {
                Ok(()) => final(self)@.base_offset == old(self)@.base_offset
                    && final(self)@.records == old(self)@.records.push(record@)
                    && spec_data_len(old(self)@.records) + spec_record_disk_len(record@)
                    <= u32::MAX,
                Err(e) => e == LogError::RecordTooLarge && final(self)@ == old(self)@
                    && spec_data_len(old(self)@.records) + spec_record_disk_len(record@)
                    > u32::MAX,
            },
    {
        proof {
            lemma_data_len_nonneg(self@.records);
            self.index.lemma_view_len();
        }
        if record.records.len() as u64 > u32::MAX as u64 - 16 {
            return Err(LogError::RecordTooLarge);
        }
        if 16u64 + record.records.len() as u64 + self.data_len as u64 > u32::MAX as u64 {
            return Err(LogError::RecordTooLarge);
        }
        let count = self.records.len();
        let entry = IndexEntry {
            relative_offset: (count + 1) as u32,
            file_position: self.data_len,
            timestamp: record.timestamp,
        };
        proof {
            assert(self@.records.subrange(0, count as int) =~= self@.records);
        }
        let ghost old_records = self@.records;
        self.index.push(entry);
        self.data_len = self.data_len + 16 + record.records.len() as u32;
        self.records.push(record);
        proof {
            assert(record_views(self.records@) =~= old_records.push(record@));
            lemma_data_len_push(old_records, record@);
            assert forall|i: int| 0 <= i < self.records@.len() implies self.index@[i]
                == #[trigger] self.entry_for(i) by {
                if i < count {
                    assert(self@.records.subrange(0, i) =~= old_records.subrange(0, i));
                    assert(old(self).entry_for(i) == self.entry_for(i));
                } else {
                    assert(self@.records.subrange(0, count as int) =~= old_records);
                }
            }
        }
        Ok(())
    }
}

/// How the log rotates, flushes, and retains segments.
#[derive(Clone, Copy, Debug)]
pub struct LogConfig {
    /// Index capacity of each segment.
    pub max_index_entries: u32,
    /// How long a non-active segment's newest record is kept.
    pub retention_period_ms: u64,
    /// How often the cleaner runs.
    pub cleaner_interval_ms: u64,
    /// Flush when this much time has passed since the last flush.
    pub flush_interval_ms: u64,
    /// Flush when this many writes have accumulated, if set.
    pub flush_num_writes: Option<u64>,
}

/// The segment views a vector of segments stands for.
pub open spec fn segment_views(ss: Seq<Segment>) -> Seq<SegmentView> {
    Seq::new(ss.len(), |i: int| ss[i]@)
}

/// The lowest absolute offset the log still holds.
pub open spec fn log_start(segs: Seq<SegmentView>) -> int
    recommends
        segs.len() >= 1,
{
    segs[0].base_offset as int
}

/// One past the highest absolute offset the log holds.
pub open spec fn log_end(segs: Seq<SegmentView>) -> int
    recommends
        segs.len() >= 1,
{
    segs.last().end_offset()
}

/// The populated entries across all segments.
pub open spec fn total_entries(segs: Seq<SegmentView>) -> int
    decreases segs.len(),
{
    if segs.len() == 0 {
        0
    } else {
        total_entries(segs.drop_last()) + segs.last().records.len()
    }
}

/// The position of the segment a given offset falls into: the last segment
/// whose base offset is at most `off`.
pub open spec fn find_seg(segs: Seq<SegmentView>, off: int) -> int
    decreases segs.len(),
{
    if segs.len() == 0 {
        -1
    } else if segs.last().base_offset <= off {
        segs.len() - 1
    } else {
        find_seg(segs.drop_last(), off)
    }
}

/// Where a write lands: the active segment when it has room, otherwise a
/// fresh segment whose base offset advances by the index capacity.
pub open spec fn spec_write(segs: Seq<SegmentView>, cap: int, rec: RecordView) -> Seq<SegmentView>
    recommends
        segs.len() >= 1,
{
    let last = segs.last();
    if last.records.len() < cap {
        segs.update(
            segs.len() - 1,
            SegmentView { base_offset: last.base_offset, records: last.records.push(rec) },
        )
    } else {
        segs.push(
            SegmentView {
                base_offset: (last.base_offset + cap) as u64,
                records: seq![rec],
            },
        )
    }
}

/// What a slice read yields: the records of one segment from the requested
/// offset, clamped below to the oldest surviving offset and above to the
/// requested or natural end, together with the cursor after them.
pub open spec fn spec_read_slice(segs: Seq<SegmentView>, start: int, end: Option<u64>) -> (
    Seq<RecordView>,
    int,
)
    recommends
        segs.len() >= 1,
{
    let s0 = if start < log_start(segs) {
        log_start(segs)
    } else {
        start
    };
    let eend = match end {
        None => log_end(segs),
        Some(e) => if e < log_end(segs) {
            e as int
        } else {
            log_end(segs)
        },
    };
    if s0 >= eend {
        (Seq::<RecordView>::empty(), s0)
    } else {
        let i = find_seg(segs, s0);
        let seg = segs[i];
        let rel = s0 - seg.base_offset;
        if rel >= seg.records.len() {
            if i + 1 < segs.len() {
                (Seq::<RecordView>::empty(), segs[i + 1].base_offset as int)
            } else {
                (Seq::<RecordView>::empty(), s0)
            }
        } else {
            let stop = if eend - seg.base_offset < seg.records.len() {
                eend - seg.base_offset
            } else {
                seg.records.len() as int
            };
            (seg.records.subrange(rel, stop), seg.base_offset + stop)
        }
    }
}

/// Every record at or after `off`, oldest first: the tail of the segment
/// `off` falls into, then every later segment whole.
pub open spec fn records_from(segs: Seq<SegmentView>, off: int) -> Seq<RecordView>
    decreases segs.len(),
{
    if segs.len() == 0 {
        Seq::empty()
    } else {
        let s0 = segs[0];
        let part = if off <= s0.base_offset {
            s0.records
        } else if off < s0.end_offset() {
            s0.records.subrange(off - s0.base_offset, s0.records.len() as int)
        } else {
            Seq::<RecordView>::empty()
        };
        part + records_from(segs.drop_first(), off)
    }
}

/// Reading from anywhere at or before every base offset sees everything.
proof fn lemma_records_from_low(segs: Seq<SegmentView>, off1: int, off2: int)
    requires
        forall|j: int| 0 <= j < segs.len() ==> off1 <= (#[trigger] segs[j].base_offset),
        forall|j: int| 0 <= j < segs.len() ==> off2 <= (#[trigger] segs[j].base_offset),
    ensures
        records_from(segs, off1) == records_from(segs, off2),
    decreases segs.len(),
{
    if segs.len() > 0 {
        assert(forall|j: int|
            0 <= j < segs.drop_first().len() ==> (#[trigger] segs.drop_first()[j]) == segs[j + 1]);
        lemma_records_from_low(segs.drop_first(), off1, off2);
    }
}

/// Reading from past every segment's end sees nothing.
proof fn lemma_records_from_high(segs: Seq<SegmentView>, off: int)
    requires
        forall|j: int| 0 <= j < segs.len() ==> (#[trigger] segs[j]).end_offset() <= off,
    ensures
        records_from(segs, off) == Seq::<RecordView>::empty(),
    decreases segs.len(),
{
    if segs.len() > 0 {
        assert(forall|j: int|
            0 <= j < segs.drop_first().len() ==> (#[trigger] segs.drop_first()[j]) == segs[j + 1]);
        lemma_records_from_high(segs.drop_first(), off);
        assert(records_from(segs, off) =~= Seq::<RecordView>::empty());
    }
}

/// Segments that end at or before `off` contribute nothing: reading skips
/// to the remainder of the roster.
proof fn lemma_records_from_skip(segs: Seq<SegmentView>, off: int, i: int)
    requires
        0 <= i <= segs.len(),
        forall|j: int| 0 <= j < i ==> (#[trigger] segs[j]).end_offset() <= off,
    ensures
        records_from(segs, off) == records_from(segs.subrange(i, segs.len() as int), off),
    decreases i,
{
    if i == 0 {
        assert(segs.subrange(0, segs.len() as int) =~= segs);
    } else {
        let rest = segs.drop_first();
        assert(records_from(segs, off) =~= records_from(rest, off));
        assert(forall|j: int|
            0 <= j < rest.len() ==> (#[trigger] rest[j]) == segs[j + 1]);
        lemma_records_from_skip(rest, off, i - 1);
        assert(rest.subrange(i - 1, rest.len() as int) =~= segs.subrange(i, segs.len() as int));
    }
}

/// The segment an offset falls into has every earlier base at or below it
/// and every later base above it.
proof fn lemma_find_seg_props(segs: Seq<SegmentView>, off: int)
    requires
        segs.len() >= 1,
        segs[0].base_offset <= off,
    ensures
        ({
            let i = find_seg(segs, off);
            &&& 0 <= i < segs.len()
            &&& segs[i].base_offset <= off
            &&& forall|j: int| i < j < segs.len() ==> off < (#[trigger] segs[j].base_offset)
        }),
    decreases segs.len(),
{
    if segs.last().base_offset <= off {
    } else {
        let rest = segs.drop_last();
        lemma_find_seg_props(rest, off);
        let i = find_seg(segs, off);
        assert(i == find_seg(rest, off));
        assert forall|j: int| i < j < segs.len() implies off < (
        #[trigger] segs[j].base_offset) by {
            if j < rest.len() {
                assert(segs[j] == rest[j]);
            }
        }
    }
}

/// Whether a segment's newest record has outlived the retention period.
pub open spec fn spec_stale(seg: SegmentView, retention_ms: u64, now_ms: int) -> bool {
    seg.records.len() > 0 && seg.records.last().timestamp + retention_ms < now_ms
}

/// The non-stale segments, in order.
pub open spec fn filter_stale(segs: Seq<SegmentView>, retention_ms: u64, now_ms: int) -> Seq<
    SegmentView,
>
    decreases segs.len(),
{
    if segs.len() == 0 {
        Seq::empty()
    } else if spec_stale(segs.last(), retention_ms, now_ms) {
        filter_stale(segs.drop_last(), retention_ms, now_ms)
    } else {
        filter_stale(segs.drop_last(), retention_ms, now_ms).push(segs.last())
    }
}

/// What the cleaner leaves: every non-active segment that is not stale, and
/// the active segment whatever its age.
pub open spec fn spec_retained(segs: Seq<SegmentView>, retention_ms: u64, now_ms: int) -> Seq<
    SegmentView,
>
    recommends
        segs.len() >= 1,
{
    filter_stale(segs.drop_last(), retention_ms, now_ms).push(segs.last())
}

/// The roster a sequence of writes leaves behind, one `spec_write` per
/// record, oldest first.
pub open spec fn spec_write_all(segs: Seq<SegmentView>, cap: int, recs: Seq<RecordView>) -> Seq<
    SegmentView,
>
    decreases recs.len(),
{
    if recs.len() == 0 {
        segs
    } else {
        spec_write_all(spec_write(segs, cap, recs[0]), cap, recs.drop_first())
    }
}

/// A fresh log with nothing written: one empty segment at base offset zero.
pub open spec fn spec_fresh_log() -> Seq<SegmentView> {
    seq![SegmentView { base_offset: 0u64, records: Seq::<RecordView>::empty() }]
}

/// How many segments hold `k` records at capacity `cap`: there is always
/// one (possibly empty) active segment, and a fresh one opens only when a
/// record arrives at a full roster.
pub open spec fn spec_segment_count(cap: int, k: int) -> int {
    if k == 0 {
        1
    } else {
        (k - 1) / cap + 1
    }
}

/// The roster `k = recs.len()` writes shape out of a fresh log: segment `i`
/// is based at `i·cap` and holds the records at offsets `i·cap` on, so that
/// all but the last segment are full.
pub open spec fn spec_canonical_log(cap: int, recs: Seq<RecordView>) -> Seq<SegmentView> {
    Seq::new(
        spec_segment_count(cap, recs.len() as int) as nat,
        |i: int|
            SegmentView {
                base_offset: (i * cap) as u64,
                records: recs.subrange(
                    i * cap,
                    if (i + 1) * cap <= recs.len() {
                        (i + 1) * cap
                    } else {
                        recs.len() as int
                    },
                ),
            },
    )
}

/// Folding one more write is writing it after the fold.
proof fn lemma_write_all_snoc(segs: Seq<SegmentView>, cap: int, recs: Seq<RecordView>, r: RecordView)
    ensures
        spec_write_all(segs, cap, recs.push(r)) == spec_write(
            spec_write_all(segs, cap, recs),
            cap,
            r,
        ),
    decreases recs.len(),
{
    if recs.len() == 0 {
        assert(recs.push(r)[0] == r);
        assert(recs.push(r).drop_first() =~= Seq::<RecordView>::empty());
        assert(spec_write_all(spec_write(segs, cap, r), cap, Seq::<RecordView>::empty())
            == spec_write(segs, cap, r));
    } else {
        assert(recs.push(r)[0] == recs[0]);
        assert(recs.push(r).drop_first() =~= recs.drop_first().push(r));
        lemma_write_all_snoc(spec_write(segs, cap, recs[0]), cap, recs.drop_first(), r);
    }
}

/// One write moves the canonical roster of `recs` to the canonical roster
/// of `recs.push(r)`: into the last segment while it has room, into a fresh
/// segment based one capacity further on once it is full.
proof fn lemma_write_canonical_step(cap: int, recs: Seq<RecordView>, r: RecordView)
    requires
        1 <= cap,
        recs.len() < 0xFFFF_FFFF,
    ensures
        spec_write(spec_canonical_log(cap, recs), cap, r) == spec_canonical_log(
            cap,
            recs.push(r),
        ),
{
    let k = recs.len() as int;
    let before = spec_canonical_log(cap, recs);
    let after = spec_canonical_log(cap, recs.push(r));
    let n = spec_segment_count(cap, k);
    if k == 0 {
        assert(0 * cap == 0) by (nonlinear_arith);
        assert(1 * cap == cap) by (nonlinear_arith);
        assert(before.last().records =~= Seq::<RecordView>::empty());
        assert(spec_segment_count(cap, 1) == 1);
        assert(after[0].records =~= seq![r]);
        assert(spec_write(before, cap, r) =~~= after);
    } else {
        let q = (k - 1) / cap;
        vstd::arithmetic::div_mod::lemma_fundamental_div_mod(k - 1, cap);
        let rem = (k - 1) % cap;
        assert(n == q + 1);
        assert(q >= 0 && 0 <= rem < cap);
        assert(q * cap == cap * q) by (nonlinear_arith);
        assert((q + 1) * cap == q * cap + cap) by (nonlinear_arith);
        assert(before.last() == before[n - 1]);
        assert(q * cap <= k - 1 && k <= (q + 1) * cap);
        assert(before.last().records.len() == k - q * cap);
        assert(k - q * cap == rem + 1);
        if rem + 1 < cap {
            // The active segment has room: its records grow by one.
            assert(k == q * cap + (rem + 1));
            assert(k == cap * q + (rem + 1)) by (nonlinear_arith)
                requires k == q * cap + (rem + 1);
            vstd::arithmetic::div_mod::lemma_fundamental_div_mod_converse_div(
                k,
                cap,
                q,
                rem + 1,
            );
            assert(spec_segment_count(cap, k + 1) == n);
            assert forall|i: int| 0 <= i < n implies spec_write(before, cap, r)[i] == after[i] by {
                if i == n - 1 {
                    assert(after[i].records =~= before[i].records.push(r));
                } else {
                    assert((i + 1) * cap <= q * cap && (i + 1) * cap == i * cap + cap && 0 <= i
                        * cap) by (nonlinear_arith)
                        requires 0 <= i, i + 1 <= q, cap >= 1;
                    assert(after[i].records =~= before[i].records);
                }
            }
            assert(spec_write(before, cap, r) =~~= after);
        } else {
            // The active segment is full: a fresh one opens at base + cap.
            assert(k == q * cap + cap);
            assert(k == cap * (q + 1)) by (nonlinear_arith)
                requires k == q * cap + cap;
            vstd::arithmetic::div_mod::lemma_fundamental_div_mod_converse_div(k, cap, q + 1, 0);
            assert(spec_segment_count(cap, k + 1) == n + 1);
            assert((n - 1) * cap + cap == n * cap) by (nonlinear_arith);
            assert forall|i: int| 0 <= i < n + 1 implies spec_write(before, cap, r)[i] == after[
                i
            ] by {
                if i < n {
                    assert((i + 1) * cap <= q * cap + cap && (i + 1) * cap == i * cap + cap && 0
                        <= i * cap) by (nonlinear_arith)
                        requires 0 <= i, i + 1 <= q + 1, cap >= 1;
                    assert(after[i].records =~= before[i].records);
                } else {
                    assert(i * cap == k && (i + 1) * cap >= k + 1) by (nonlinear_arith)
                        requires i == q + 1, k == cap * (q + 1), cap >= 1;
                    assert(after[i].records =~= seq![r]);
                }
            }
            assert(spec_write(before, cap, r) =~~= after);
        }
    }
}

/// Writing `recs` into a fresh log, oldest first, leaves exactly the
/// canonical roster: base offsets `0, cap, 2*cap, ...`, every segment but
/// the last full, and the records laid out in write order.
pub proof fn lemma_writes_shape_the_log(cap: int, recs: Seq<RecordView>)
    requires
        1 <= cap,
        recs.len() < 0xFFFF_FFFF,
    ensures
        spec_write_all(spec_fresh_log(), cap, recs) == spec_canonical_log(cap, recs),
        spec_write_all(spec_fresh_log(), cap, recs).len() == spec_segment_count(
            cap,
            recs.len() as int,
        ),
        forall|i: int|
            0 <= i < spec_write_all(spec_fresh_log(), cap, recs).len() ==> (
            #[trigger] spec_write_all(spec_fresh_log(), cap, recs)[i]).base_offset == i * cap,
        forall|i: int|
            0 <= i < spec_write_all(spec_fresh_log(), cap, recs).len() - 1 ==> (
            #[trigger] spec_write_all(spec_fresh_log(), cap, recs)[i]).records.len() == cap,
    decreases recs.len(),
{
    let k = recs.len() as int;
    if k == 0 {
        assert(0 * cap == 0) by (nonlinear_arith);
        assert(spec_canonical_log(cap, recs)[0].records =~= Seq::<RecordView>::empty());
        assert(spec_canonical_log(cap, recs) =~~= spec_fresh_log());
    } else {
        let a = recs.drop_last();
        assert(a.push(recs.last()) =~= recs);
        lemma_writes_shape_the_log(cap, a);
        lemma_write_all_snoc(spec_fresh_log(), cap, a, recs.last());
        lemma_write_canonical_step(cap, a, recs.last());
    }
    let segs = spec_canonical_log(cap, recs);
    let n = spec_segment_count(cap, k);
    let ghost q = if k == 0 {
        0int
    } else {
        (k - 1) / cap
    };
    if k > 0 {
        vstd::arithmetic::div_mod::lemma_fundamental_div_mod(k - 1, cap);
        assert(q * cap == cap * q) by (nonlinear_arith);
        assert(q * cap <= k - 1);
    }
    assert forall|i: int| 0 <= i < n implies (#[trigger] segs[i]).base_offset == i * cap by {
        assert(0 <= i * cap && (i == 0 || i * cap <= q * cap)) by (nonlinear_arith)
            requires 0 <= i <= q || i == 0, cap >= 1;
    }
    assert forall|i: int| 0 <= i < n - 1 implies (#[trigger] segs[i]).records.len() == cap by {
        assert((i + 1) * cap <= q * cap && (i + 1) * cap == i * cap + cap) by (nonlinear_arith)
            requires 0 <= i, i + 1 <= q, cap >= 1;
    }
}

/// The shape of one canonical segment: its base, length and end, with the
/// bounds that place it inside the records.
proof fn lemma_canonical_seg_bounds(cap: int, recs: Seq<RecordView>, i: int)
    requires
        1 <= cap,
        recs.len() < 0xFFFF_FFFF,
        0 <= i < spec_segment_count(cap, recs.len() as int),
    ensures
        ({
            let segs = spec_canonical_log(cap, recs);
            let k = recs.len() as int;
            let m = if (i + 1) * cap <= k {
                (i + 1) * cap
            } else {
                k
            };
            &&& 0 <= i * cap <= k
            &&& i * cap <= m <= k
            &&& (i + 1) * cap == i * cap + cap
            &&& segs[i].base_offset == i * cap
            &&& segs[i].records == recs.subrange(i * cap, m)
            &&& segs[i].records.len() == m - i * cap
            &&& segs[i].end_offset() == m
        }),
{
    let k = recs.len() as int;
    let n = spec_segment_count(cap, k);
    if k > 0 {
        vstd::arithmetic::div_mod::lemma_fundamental_div_mod(k - 1, cap);
        assert(((k - 1) / cap) * cap == cap * ((k - 1) / cap)) by (nonlinear_arith);
    }
    assert(0 <= i * cap && (i + 1) * cap == i * cap + cap && (k > 0 ==> i * cap <= ((k - 1) / cap)
        * cap) && (k == 0 ==> i * cap == 0)) by (nonlinear_arith)
        requires cap >= 1, 0 <= i < n, k > 0 ==> n == (k - 1) / cap + 1, k == 0 ==> n == 1;
}

/// From an offset at or before segment `i`'s base, the canonical roster
/// from segment `i` on reads as the records from `i·cap` on, whole.
proof fn lemma_canonical_flatten(cap: int, recs: Seq<RecordView>, i: int, off: int)
    requires
        1 <= cap,
        recs.len() < 0xFFFF_FFFF,
        0 <= i <= spec_segment_count(cap, recs.len() as int),
        off <= i * cap,
    ensures
        ({
            let segs = spec_canonical_log(cap, recs);
            let k = recs.len() as int;
            let start = if i * cap <= k {
                i * cap
            } else {
                k
            };
            records_from(segs.subrange(i, segs.len() as int), off) == recs.subrange(start, k)
        }),
    decreases spec_segment_count(cap, recs.len() as int) - i,
{
    let segs = spec_canonical_log(cap, recs);
    let k = recs.len() as int;
    let n = spec_segment_count(cap, k);
    if k > 0 {
        vstd::arithmetic::div_mod::lemma_fundamental_div_mod(k - 1, cap);
        assert(((k - 1) / cap) * cap == cap * ((k - 1) / cap)) by (nonlinear_arith);
    }
    if i == n {
        assert(segs.subrange(i, n) =~= Seq::<SegmentView>::empty());
        assert(n * cap >= k) by (nonlinear_arith)
            requires cap >= 1, k >= 0, n == spec_segment_count(cap, k),
                k > 0 ==> n == (k - 1) / cap + 1 && ((k - 1) / cap) * cap <= k - 1
                && k - 1 == cap * ((k - 1) / cap) + (k - 1) % cap && 0 <= (k - 1) % cap < cap;
        assert(recs.subrange(k, k) =~= Seq::<RecordView>::empty());
    } else {
        lemma_canonical_seg_bounds(cap, recs, i);
        let m = if (i + 1) * cap <= k {
            (i + 1) * cap
        } else {
            k
        };
        let from_i = segs.subrange(i, n);
        assert(from_i[0] == segs[i]);
        assert(from_i.drop_first() =~= segs.subrange(i + 1, n));
        lemma_canonical_flatten(cap, recs, i + 1, off);
        assert(records_from(from_i, off) =~= recs.subrange(i * cap, k));
    }
}

/// Reading the canonical roster from any offset yields exactly the records
/// from that offset on, in write order.
pub proof fn lemma_canonical_records_from(cap: int, recs: Seq<RecordView>, s: int)
    requires
        1 <= cap,
        recs.len() < 0xFFFF_FFFF,
        0 <= s <= recs.len(),
    ensures
        records_from(spec_canonical_log(cap, recs), s) == recs.subrange(s, recs.len() as int),
{
    let segs = spec_canonical_log(cap, recs);
    let k = recs.len() as int;
    let n = spec_segment_count(cap, k);
    if k > 0 {
        vstd::arithmetic::div_mod::lemma_fundamental_div_mod(k - 1, cap);
        assert(((k - 1) / cap) * cap == cap * ((k - 1) / cap)) by (nonlinear_arith);
    }
    if s == k {
        assert forall|jj: int| 0 <= jj < segs.len() implies (#[trigger] segs[jj]).end_offset()
            <= s by {
            lemma_canonical_seg_bounds(cap, recs, jj);
        }
        lemma_records_from_high(segs, s);
        assert(recs.subrange(k, k) =~= Seq::<RecordView>::empty());
    } else {
        let i = s / cap;
        vstd::arithmetic::div_mod::lemma_fundamental_div_mod(s, cap);
        assert(i * cap == cap * i) by (nonlinear_arith);
        assert(i * cap <= s < (i + 1) * cap) by (nonlinear_arith)
            requires cap >= 1, s == cap * i + s % cap, 0 <= s % cap < cap, i * cap == cap * i;
        vstd::arithmetic::div_mod::lemma_div_is_ordered(s, k - 1, cap);
        assert(i < n);
        assert forall|jj: int| 0 <= jj < i implies (#[trigger] segs[jj]).end_offset() <= segs[
            i
        ].base_offset by {
            lemma_canonical_seg_bounds(cap, recs, jj);
            lemma_canonical_seg_bounds(cap, recs, i);
            assert((jj + 1) * cap <= i * cap) by (nonlinear_arith)
                requires cap >= 1, jj + 1 <= i;
        }
        lemma_records_from_skip(segs, s, i);
        let m = if (i + 1) * cap <= k {
            (i + 1) * cap
        } else {
            k
        };
        assert(s < m);
        lemma_canonical_seg_bounds(cap, recs, i);
        let from_i = segs.subrange(i, n);
        assert(from_i[0] == segs[i]);
        assert(from_i.drop_first() =~= segs.subrange(i + 1, n));
        lemma_canonical_flatten(cap, recs, i + 1, s);
        if s == i * cap {
            assert(records_from(from_i, s) =~= recs.subrange(s, k));
        } else {
            assert(segs[i].records.subrange(s - i * cap, segs[i].records.len() as int)
                =~= recs.subrange(s, m));
            assert(records_from(from_i, s) =~= recs.subrange(s, k));
        }
    }
}

/// Every write adds exactly one populated entry.
pub proof fn lemma_total_entries_after_writes(cap: int, recs: Seq<RecordView>)
    requires
        1 <= cap,
    ensures
        total_entries(spec_write_all(spec_fresh_log(), cap, recs)) == recs.len(),
    decreases recs.len(),
{
    assert(total_entries(Seq::<SegmentView>::empty()) == 0);
    if recs.len() == 0 {
        assert(spec_fresh_log().drop_last() =~= Seq::<SegmentView>::empty());
        assert(total_entries(spec_fresh_log()) == 0);
    } else {
        let a = recs.drop_last();
        assert(a.push(recs.last()) =~= recs);
        lemma_total_entries_after_writes(cap, a);
        lemma_write_all_snoc(spec_fresh_log(), cap, a, recs.last());
        let segs = spec_write_all(spec_fresh_log(), cap, a);
        lemma_writes_nonempty(cap, a);
        lemma_write_adds_one_entry(segs, cap, recs.last());
    }
}

/// A fold of writes always leaves at least the active segment.
proof fn lemma_writes_nonempty(cap: int, recs: Seq<RecordView>)
    ensures
        spec_write_all(spec_fresh_log(), cap, recs).len() >= 1,
    decreases recs.len(),
{
    if recs.len() > 0 {
        let a = recs.drop_last();
        assert(a.push(recs.last()) =~= recs);
        lemma_writes_nonempty(cap, a);
        lemma_write_all_snoc(spec_fresh_log(), cap, a, recs.last());
    }
}

/// `spec_write` grows the populated-entry count by one.
proof fn lemma_write_adds_one_entry(segs: Seq<SegmentView>, cap: int, r: RecordView)
    requires
        segs.len() >= 1,
    ensures
        total_entries(spec_write(segs, cap, r)) == total_entries(segs) + 1,
{
    let out = spec_write(segs, cap, r);
    if segs.last().records.len() < cap {
        assert(out.drop_last() =~= segs.drop_last());
        assert(out.last().records == segs.last().records.push(r));
    } else {
        assert(out.drop_last() =~= segs);
        assert(out.last().records == seq![r]);
    }
}

/// The segment an offset falls into is the one whose base is at most the
/// offset while every later base is greater.
pub proof fn lemma_find_seg_characterize(segs: Seq<SegmentView>, off: int, i: int)
    requires
        0 <= i < segs.len(),
        segs[i].base_offset <= off,
        forall|j: int| i < j < segs.len() ==> (#[trigger] segs[j].base_offset) > off,
    ensures
        find_seg(segs, off) == i,
    decreases segs.len(),
{
    if i < segs.len() - 1 {
        assert(segs.last().base_offset > off);
        assert(forall|j: int|
            i < j < segs.drop_last().len() ==> (#[trigger] segs.drop_last()[j].base_offset) > off);
        lemma_find_seg_characterize(segs.drop_last(), off, i);
    }
}

/// One read slice of the log: the records drained and the offset the cursor
/// advances to.
pub struct MessageSlice {
    pub messages: Vec<Record>,
    pub end_offset: u64,
}

/// The segmented append-only message log: an ordered roster of segments, at
/// most one of which (the last) accepts writes.
pub struct MessageLog {
    config: LogConfig,
    segments: Vec<Segment>,
    writes_since_flush: u64,
    last_flush_ms: u64,
}

impl View for MessageLog {
    type V = Seq<SegmentView>;

    closed spec fn view(&self) -> Seq<SegmentView> {
        segment_views(self.segments@)
    }
}

impl MessageLog {
    /// The configuration the log was opened with.
    pub closed spec fn spec_config(self) -> LogConfig {
        self.config
    }

    /// Writes since the last flush.
    pub closed spec fn spec_writes_since_flush(self) -> u64 {
        self.writes_since_flush
    }

    /// The instant of the last flush, in milliseconds.
    pub closed spec fn spec_last_flush(self) -> u64 {
        self.last_flush_ms
    }

    /// There is always an active segment; every segment is well formed with
    /// the configured capacity; all but the last are full; base offsets
    /// advance by at least the capacity; and the next two base offsets
    /// cannot overflow a `u64`.
    pub closed spec fn wf(self) -> bool {
        let segs = self@;
        let cap = self.config.max_index_entries as int;
        &&& self.config.max_index_entries >= 1
        &&& 16 * (self.config.max_index_entries as int) <= usize::MAX as int
        &&& segs.len() >= 1
        &&& forall|i: int|
            0 <= i < segs.len() ==> (#[trigger] self.segments@[i]).wf()
                && self.segments@[i].spec_capacity() == cap
        &&& forall|i: int| 0 <= i < segs.len() ==> (#[trigger] segs[i].records.len()) <= cap
        &&& forall|i: int| 0 <= i < segs.len() - 1 ==> (#[trigger] segs[i].records.len()) == cap
        &&& forall|i: int|
            0 <= i < segs.len() - 1 ==> (#[trigger] segs[i].base_offset) + cap <= segs[
                i + 1
            ].base_offset
        &&& segs.last().base_offset + 2 * cap <= u64::MAX
    }

    /// A well-formed log has at least one segment.
    pub proof fn lemma_wf_bounds(self)
        requires
            self.wf(),
        ensures
            self@.len() >= 1,
    {
    }

    /// Base offsets strictly increase along the roster, by at least the
    /// index capacity per step.
    pub proof fn lemma_bases_increase(self, i: int, j: int)
        requires
            self.wf(),
            0 <= i <= j < self@.len(),
        ensures
            self@[i].base_offset <= self@[j].base_offset,
            i < j ==> self@[i].base_offset + (self.spec_config().max_index_entries as int) <= self@[
                j
            ].base_offset,
        decreases j - i,
    {
        if i < j {
            self.lemma_bases_increase(i + 1, j);
        }
    }

    /// Every segment ends at or before the next one begins.
    pub proof fn lemma_segment_ends(self, i: int)
        requires
            self.wf(),
            0 <= i < self@.len() - 1,
        ensures
            self@[i].end_offset() <= self@[i + 1].base_offset,
    {
    }

    /// The populated entries never outnumber the offsets the log spans.
    pub proof fn lemma_total_entries_bound(self, n: int)
        requires
            self.wf(),
            1 <= n <= self@.len(),
        ensures
            total_entries(self@.subrange(0, n)) <= self@[n - 1].end_offset() - log_start(self@),
        decreases n,
    {
        let segs = self@.subrange(0, n);
        assert(segs.last() == self@[n - 1]);
        assert(total_entries(Seq::<SegmentView>::empty()) == 0);
        if n == 1 {
            assert(segs.drop_last() =~= Seq::<SegmentView>::empty());
            assert(total_entries(segs) == segs.last().records.len());
        } else {
            self.lemma_total_entries_bound(n - 1);
            assert(segs.drop_last() =~= self@.subrange(0, n - 1));
            self.lemma_segment_ends(n - 2);
        }
    }

    /// Opens a fresh log with one empty segment at base offset zero.
    pub fn open(config: LogConfig, now_ms: u64) -> (r: Result<MessageLog, LogError>)
        requires
            config.max_index_entries >= 1,
            16 * (config.max_index_entries as int) <= usize::MAX as int,
        ensures
            r matches Ok(log) ==> log.wf() && log.spec_config() == config && log@ == seq![
                SegmentView { base_offset: 0u64, records: Seq::<RecordView>::empty() },
            ] && log.spec_writes_since_flush() == 0 && log.spec_last_flush() == now_ms,
            r matches Err(e) ==> e == LogError::MemoryMapIndex,
    {
        let first = Segment::create(0, config.max_index_entries)?;
        let mut segments: Vec<Segment> = Vec::new();
        segments.push(first);
        let log = MessageLog { config, segments, writes_since_flush: 0, last_flush_ms: now_ms };
        proof {
            assert(log@ =~= seq![
                SegmentView { base_offset: 0u64, records: Seq::<RecordView>::empty() },
            ]);
        }
        Ok(log)
    }

    /// The base offset of each segment, oldest first.
    pub fn segment_bases(&self) -> (r: Vec<u64>)
        ensures
            r@.len() == self@.len(),
            forall|i: int| 0 <= i < r@.len() ==> r@[i] == self@[i].base_offset,
    {
        let mut bases: Vec<u64> = Vec::new();
        let mut i: usize = 0;
        while i < self.segments.len()
            invariant
                i <= self@.len(),
                bases@.len() == i,
                forall|j: int| 0 <= j < i ==> bases@[j] == self@[j].base_offset,
            decreases self@.len() - i,
        {
            bases.push(self.segments[i].base_offset());
            i = i + 1;
        }
        bases
    }

    /// The sum of populated entries across segments.
    pub fn number_of_entries(&self) -> (r: u64)
        requires
            self.wf(),
        ensures
            r == total_entries(self@),
    {
        let mut sum: u64 = 0;
        let mut i: usize = 0;
        proof {
            assert(self@.subrange(0, 0) =~= Seq::<SegmentView>::empty());
        }
        while i < self.segments.len()
            invariant
                self.wf(),
                i <= self@.len(),
                sum == total_entries(self@.subrange(0, i as int)),
                i > 0 ==> sum <= self@[i - 1].end_offset() - log_start(self@),
            decreases self@.len() - i,
        {
            proof {
                if i > 0 {
                    self.lemma_segment_ends(i - 1);
                    self.lemma_bases_increase(i as int, self@.len() - 1);
                }
                self.lemma_total_entries_bound(i + 1 as int);
                assert(self@.subrange(0, i + 1 as int).drop_last() =~= self@.subrange(0, i as int));
            }
            sum = sum + self.segments[i].len() as u64;
            i = i + 1;
        }
        proof {
            assert(self@.subrange(0, self@.len() as int) =~= self@);
        }
        sum
    }

    /// The offset one past the newest record.
    pub fn end_offset(&self) -> (r: u64)
        requires
            self.wf(),
        ensures
            r == log_end(self@),
    {
        let last = self.segments.len() - 1;
        self.segments[last].base_offset() + self.segments[last].len() as u64
    }

    /// The oldest offset the log still holds.
    pub fn start_offset(&self) -> (r: u64)
        requires
            self.wf(),
        ensures
            r == log_start(self@),
    {
        self.segments[0].base_offset()
    }

    /// Appends one record to the active segment, rotating to a fresh segment
    /// first when the active index is full. Success is owed whenever no
    /// rotation is needed and the record fits the data file's positions; a
    /// rotation can also fail in the memory-map system call.
    #[verifier::rlimit(50)]
    pub fn write(&mut self, record: Record) -> (r: Result<(), LogError>)
        requires
            old(self).wf(),
        ensures
            final(self).wf(),
            final(self).spec_config() == old(self).spec_config(),
            final(self).spec_last_flush() == old(self).spec_last_flush(),
            ({
                let segs = old(self)@;
                let cap = old(self).spec_config().max_index_entries as int;
                let rotating = segs.last().records.len() >= cap;
                let target = if rotating {
                    Seq::<RecordView>::empty()
                } else {
                    segs.last().records
                };
                let too_large = spec_data_len(target) + spec_record_disk_len(record@) > u32::MAX;
                match r {
                    Ok(()) => !too_large && final(self)@ == spec_write(segs, cap, record@)
                        && final(self).spec_writes_since_flush() == (
                    if old(self).spec_writes_since_flush() < u64::MAX {
                        old(self).spec_writes_since_flush() + 1
                    } else {
                        old(self).spec_writes_since_flush() as int
                    }),
                    Err(e) => final(self)@ == old(self)@ && final(self).spec_writes_since_flush()
                        == old(self).spec_writes_since_flush() && (
                    (e == LogError::OffsetOverflow && rotating && segs.last().base_offset + 4 * cap
                        > u64::MAX) || (e == LogError::RecordTooLarge && too_large) || (e
                        == LogError::MemoryMapIndex && rotating)),
                }
            }),
            !(old(self)@.last().records.len() >= old(self).spec_config().max_index_entries as int)
                && !(spec_data_len(old(self)@.last().records) + spec_record_disk_len(record@)
                > u32::MAX) ==> r is Ok,
    {
        let cap = self.config.max_index_entries;
        let last_idx = self.segments.len() - 1;
        let ghost old_segs = self@;
        let rotating = self.segments[last_idx].len() >= cap as usize;
        if rotating {
            let base = self.segments[last_idx].base_offset();
            if base > u64::MAX - 4 * (cap as u64) {
                return Err(LogError::OffsetOverflow);
            }
            if record.records.len() as u64 > u32::MAX as u64 - 16 {
                return Err(LogError::RecordTooLarge);
            }
            let fresh = Segment::create(base + cap as u64, cap)?;
            let mut active = fresh;
            proof {
                assert(spec_data_len(Seq::<RecordView>::empty()) == 0);
            }
            let res = active.append(record);
            proof {
                assert(res is Ok);
                assert(active@.records =~= seq![record@]);
            }
            self.segments.push(active);
            proof {
                assert(self.segments@ == old(self).segments@.push(active));
                assert(self@ =~= old_segs.push(active@));
                assert(self@ =~= spec_write(old_segs, cap as int, record@));
                assert forall|i: int|
                    0 <= i < self@.len() implies (#[trigger] self.segments@[i]).wf()
                    && self.segments@[i].spec_capacity() == cap as int by {
                    if i < old_segs.len() {
                        assert(self.segments@[i] == old(self).segments@[i]);
                    }
                }
                assert forall|i: int| 0 <= i < self@.len() - 1 implies (
                #[trigger] self@[i].records.len()) == cap as int by {
                    assert(old_segs[i] == self@[i]);
                }
            }
        } else {
            let mut active = self.segments.pop().unwrap();
            let res = active.append(record);
            match res {
                Ok(()) => {
                    self.segments.push(active);
                    proof {
                        assert forall|i: int|
                            0 <= i < self@.len() implies (#[trigger] self.segments@[i]).wf()
                            && self.segments@[i].spec_capacity() == cap as int by {
                            if i < old_segs.len() - 1 {
                                assert(self.segments@[i] == old(self).segments@[i]);
                            }
                        }
                        assert forall|i: int| 0 <= i < self@.len() - 1 implies (
                        #[trigger] self@[i].records.len()) == cap as int by {
                            assert(self@[i] == old_segs[i]);
                        }
                        assert(self@ =~= spec_write(old_segs, cap as int, record@));
                    }
                },
                Err(e) => {
                    self.segments.push(active);
                    proof {
                        assert forall|i: int|
                            0 <= i < self@.len() implies (#[trigger] self.segments@[i]).wf()
                            && self.segments@[i].spec_capacity() == cap as int by {
                            if i < old_segs.len() - 1 {
                                assert(self.segments@[i] == old(self).segments@[i]);
                            }
                        }
                        assert(self@ =~= old_segs);
                    }
                    return Err(e);
                },
            }
        }
        if self.writes_since_flush < u64::MAX {
            self.writes_since_flush = self.writes_since_flush + 1;
        }
        Ok(())
    }

    /// Locates the segment a given offset falls into by binary search over
    /// the base offsets.
    fn find_segment(&self, off: u64) -> (r: usize)
        requires
            self.wf(),
            log_start(self@) <= off,
        ensures
            r < self@.len(),
            r as int == find_seg(self@, off as int),
            self@[r as int].base_offset <= off,
    {
        let mut lo: usize = 0;
        let mut hi: usize = self.segments.len();
        while hi - lo > 1
            invariant
                self.wf(),
                lo < hi <= self@.len(),
                self@[lo as int].base_offset <= off,
                hi == self@.len() || self@[hi as int].base_offset > off,
            decreases hi - lo,
        {
            let mid = lo + (hi - lo) / 2;
            if self.segments[mid].base_offset() <= off {
                lo = mid;
            } else {
                hi = mid;
            }
        }
        proof {
            assert forall|j: int| lo < j < self@.len() implies self@[j].base_offset > off by {
                self.lemma_bases_increase(hi as int, j);
            }
            lemma_find_seg_characterize(self@, off as int, lo as int);
        }
        lo
    }

    /// Reads the records of one segment from `start`, clamped below to the
    /// oldest surviving offset and above to `end` or the segment's end, and
    /// returns the cursor to resume from. An empty slice with an advanced
    /// cursor means the requested offsets were cleaned away.
    #[verifier::rlimit(100)]
    pub fn read_slice(&self, start: u64, end: Option<u64>) -> (r: MessageSlice)
        requires
            self.wf(),
        ensures
            record_views(r.messages@) == spec_read_slice(self@, start as int, end).0,
            r.end_offset as int == spec_read_slice(self@, start as int, end).1,
    {
        let ghost spec_result = spec_read_slice(self@, start as int, end);
        let _n: usize = self.segments.len();
        let first_base = self.start_offset();
        let s0 = if start < first_base {
            first_base
        } else {
            start
        };
        let total_end = self.end_offset();
        proof {
            self.lemma_bases_increase(0, self@.len() - 1);
        }
        let eend = match end {
            None => total_end,
            Some(e) => if e < total_end {
                e
            } else {
                total_end
            },
        };
        if s0 >= eend {
            let r = MessageSlice { messages: Vec::new(), end_offset: s0 };
            proof {
                assert(record_views(r.messages@) =~= spec_result.0);
            }
            return r;
        }
        let i = self.find_segment(s0);
        let base = self.segments[i].base_offset();
        let seg_len = self.segments[i].len();
        let rel64 = s0 - base;
        if rel64 >= seg_len as u64 {
            proof {
                if i as int == self@.len() - 1 {
                    assert(s0 < log_end(self@));
                    assert(false);
                }
            }
            let next_base = self.segments[i + 1].base_offset();
            let r = MessageSlice { messages: Vec::new(), end_offset: next_base };
            proof {
                assert(record_views(r.messages@) =~= spec_result.0);
            }
            return r;
        }
        let rel = rel64 as usize;
        let stop: usize = if eend - base < seg_len as u64 {
            (eend - base) as usize
        } else {
            seg_len
        };
        let mut messages: Vec<Record> = Vec::new();
        let mut k = rel;
        proof {
            assert(record_views(messages@) =~= self@[i as int].records.subrange(
                rel as int,
                rel as int,
            ));
        }
        while k < stop
            invariant
                self.wf(),
                (i as int) < self@.len(),
                rel <= k <= stop <= self@[i as int].records.len(),
                record_views(messages@) == self@[i as int].records.subrange(rel as int, k as int),
            decreases stop - k,
        {
            let rec = self.segments[i].record_at(k).duplicate();
            let ghost before = messages@;
            messages.push(rec);
            proof {
                assert(record_views(messages@) =~= record_views(before).push(rec@));
                assert(self@[i as int].records.subrange(rel as int, k + 1 as int)
                    =~= self@[i as int].records.subrange(rel as int, k as int).push(
                    self@[i as int].records[k as int],
                ));
            }
            k = k + 1;
        }
        proof {
            if (i as int) < self@.len() - 1 {
                self.lemma_segment_ends(i as int);
                self.lemma_bases_increase(i + 1 as int, self@.len() - 1);
            }
        }
        let r = MessageSlice { messages, end_offset: base + stop as u64 };
        proof {
            assert(record_views(r.messages@) == spec_result.0);
        }
        r
    }

    /// One poll from a cursor inside the log always advances the cursor, and
    /// hands over exactly the records between the old cursor and the new
    /// one: nothing is skipped and nothing is repeated.
    pub proof fn lemma_read_slice_step(self, c: int)
        requires
            self.wf(),
            log_start(self@) <= c < log_end(self@),
        ensures
            ({
                let (ms, c2) = spec_read_slice(self@, c, None);
                &&& c < c2 <= log_end(self@)
                &&& records_from(self@, c) == ms + records_from(self@, c2)
            }),
    {
        let segs = self@;
        let len = segs.len() as int;
        let i = find_seg(segs, c);
        lemma_find_seg_props(segs, c);
        let seg = segs[i];
        assert forall|j: int| 0 <= j < i implies (#[trigger] segs[j]).end_offset()
            <= seg.base_offset by {
            self.lemma_segment_ends(j);
            self.lemma_bases_increase(j + 1, i);
        }
        if i < len - 1 {
            self.lemma_segment_ends(i);
            self.lemma_bases_increase(i + 1, len - 1);
        }
        let rel = c - seg.base_offset;
        let (ms, c2) = spec_read_slice(segs, c, None);
        if rel >= seg.records.len() {
            assert(i < len - 1);
            assert(c2 == segs[i + 1].base_offset);
            lemma_records_from_skip(segs, c, i + 1);
            lemma_records_from_skip(segs, c2, i + 1);
            let tail = segs.subrange(i + 1, len);
            assert forall|j: int| 0 <= j < tail.len() implies c <= (
            #[trigger] tail[j].base_offset) && c2 <= tail[j].base_offset by {
                assert(tail[j] == segs[i + 1 + j]);
                self.lemma_bases_increase(i + 1, i + 1 + j);
            }
            lemma_records_from_low(tail, c, c2);
            assert(records_from(segs, c) =~= ms + records_from(segs, c2));
        } else {
            assert(c2 == seg.end_offset());
            lemma_records_from_skip(segs, c, i);
            lemma_records_from_skip(segs, c2, i + 1);
            let from_i = segs.subrange(i, len);
            let tail = segs.subrange(i + 1, len);
            assert(from_i[0] == seg);
            assert(from_i.drop_first() =~= tail);
            assert(ms =~= (if c <= seg.base_offset {
                seg.records
            } else {
                seg.records.subrange(rel, seg.records.len() as int)
            }));
            assert(records_from(from_i, c) == ms + records_from(tail, c));
            assert forall|j: int| 0 <= j < tail.len() implies c <= (
            #[trigger] tail[j].base_offset) && c2 <= tail[j].base_offset by {
                assert(tail[j] == segs[i + 1 + j]);
                self.lemma_bases_increase(i + 1, i + 1 + j);
                if i < len - 1 {
                    self.lemma_segment_ends(i);
                }
            }
            lemma_records_from_low(tail, c, c2);
            assert(records_from(segs, c) =~= ms + records_from(segs, c2));
        }
    }

    /// Drains every record from `start` on: a subscriber that keeps polling
    /// from that cursor sees exactly these records, in offset order.
    pub fn drain_from(&self, start: u64) -> (r: Vec<Record>)
        requires
            self.wf(),
        ensures
            record_views(r@) == records_from(self@, start as int),
    {
        let mut out: Vec<Record> = Vec::new();
        let mut cursor: u64 = start;
        let first = self.start_offset();
        proof {
            assert forall|j: int| 0 <= j < self@.len() implies first <= (
            #[trigger] self@[j].base_offset) by {
                self.lemma_bases_increase(0, j);
            }
        }
        if cursor < first {
            proof {
                lemma_records_from_low(self@, cursor as int, first as int);
            }
            cursor = first;
        }
        let end = self.end_offset();
        proof {
            assert(record_views(out@) =~= Seq::<RecordView>::empty());
        }
        while cursor < end
            invariant
                self.wf(),
                end == log_end(self@),
                log_start(self@) <= cursor,
                record_views(out@) + records_from(self@, cursor as int) == records_from(
                    self@,
                    start as int,
                ),
            decreases end - cursor,
        {
            let slice = self.read_slice(cursor, None);
            proof {
                self.lemma_read_slice_step(cursor as int);
            }
            let ghost out_before = out@;
            let mut ms = slice.messages;
            let ghost ms_view = ms@;
            out.append(&mut ms);
            proof {
                assert(record_views(out@) =~= record_views(out_before) + record_views(ms_view));
                assert(record_views(out@) + records_from(self@, slice.end_offset as int)
                    =~= records_from(self@, start as int));
            }
            cursor = slice.end_offset;
        }
        proof {
            assert forall|j: int| 0 <= j < self@.len() implies (#[trigger] self@[j]).end_offset()
                <= cursor by {
                if j < self@.len() - 1 {
                    self.lemma_segment_ends(j);
                    self.lemma_bases_increase(j + 1, self@.len() - 1);
                }
            }
            lemma_records_from_high(self@, cursor as int);
            assert(record_views(out@) =~= records_from(self@, start as int));
        }
        out
    }

    /// Removes every non-active segment whose newest record has outlived the
    /// retention period; the active segment stays whatever its age.
    #[verifier::rlimit(100)]
    pub fn remove_stale_segments(&mut self, now_ms: u64)
        requires
            old(self).wf(),
        ensures
            final(self).wf(),
            final(self).spec_config() == old(self).spec_config(),
            final(self).spec_writes_since_flush() == old(self).spec_writes_since_flush(),
            final(self).spec_last_flush() == old(self).spec_last_flush(),
            final(self)@ == spec_retained(
                old(self)@,
                old(self).spec_config().retention_period_ms,
                now_ms as int,
            ),
    {
        let retention = self.config.retention_period_ms;
        let ghost old_segs = self@;
        let ghost cap = self.config.max_index_entries as int;
        let mut i: usize = 0;
        let ghost mut consumed: int = 0;
        proof {
            assert(filter_stale(old_segs.subrange(0, 0), retention, now_ms as int)
                =~= Seq::<SegmentView>::empty());
            assert(self@ =~= filter_stale(old_segs.subrange(0, 0), retention, now_ms as int)
                + old_segs.subrange(0, old_segs.len() as int));
        }
        while i < self.segments.len() - 1
            invariant
                self@.len() >= 1,
                retention == self.config.retention_period_ms,
                self.config == old(self).spec_config(),
                self.writes_since_flush == old(self).spec_writes_since_flush(),
                self.last_flush_ms == old(self).spec_last_flush(),
                0 <= consumed <= old_segs.len() - 1,
                i == filter_stale(old_segs.subrange(0, consumed), retention, now_ms as int).len(),
                self@ == filter_stale(old_segs.subrange(0, consumed), retention, now_ms as int)
                    + old_segs.subrange(consumed, old_segs.len() as int),
                self@.len() == i + old_segs.len() - consumed,
                forall|j: int|
                    0 <= j < self@.len() ==> (#[trigger] self.segments@[j]).wf()
                        && self.segments@[j].spec_capacity() == cap,
                forall|j: int| 0 <= j < self@.len() ==> (#[trigger] self@[j].records.len()) <= cap,
                forall|j: int|
                    0 <= j < self@.len() - 1 ==> (#[trigger] self@[j].records.len()) == cap,
                forall|j: int|
                    0 <= j < self@.len() - 1 ==> (#[trigger] self@[j].base_offset) + cap <= self@[
                        j + 1
                    ].base_offset,
                self@.last() == old_segs.last(),
                cap == old(self).spec_config().max_index_entries as int,
                cap >= 1,
            decreases old_segs.len() - consumed,
        {
            let ghost pre = self@;
            let ghost fp = filter_stale(old_segs.subrange(0, consumed), retention, now_ms as int);
            proof {
                assert(old_segs.subrange(consumed, old_segs.len() as int)[0] == old_segs[consumed]);
                assert(pre[i as int] == old_segs[consumed]);
                assert(old_segs.subrange(0, consumed + 1).drop_last() =~= old_segs.subrange(
                    0,
                    consumed,
                ));
                assert(old_segs.subrange(0, consumed + 1).last() == old_segs[consumed]);
            }
            let ts = self.segments[i].latest_timestamp();
            let is_stale = match ts {
                Some(t) => now_ms > retention && t < now_ms - retention,
                None => false,
            };
            if is_stale {
                let ghost pre_vec = self.segments@;
                let removed = self.segments.remove(i);
                proof {
                    assert(spec_stale(old_segs[consumed], retention, now_ms as int));
                    assert(self.segments@ =~= pre_vec.subrange(0, i as int) + pre_vec.subrange(
                        i + 1 as int,
                        pre_vec.len() as int,
                    ));
                    assert forall|j: int| 0 <= j < self@.len() implies self@[j] == (if j < i {
                        pre[j]
                    } else {
                        pre[j + 1]
                    }) && self.segments@[j] == (if j < i {
                        pre_vec[j]
                    } else {
                        pre_vec[j + 1]
                    }) by {}
                    assert(self@ =~= fp + old_segs.subrange(consumed + 1, old_segs.len() as int));
                    assert(filter_stale(old_segs.subrange(0, consumed + 1), retention,
                        now_ms as int) =~= fp);
                    assert forall|j: int| 0 <= j < self@.len() - 1 implies (
                    #[trigger] self@[j].base_offset) + cap <= self@[j + 1].base_offset by {
                        if j + 1 < i {
                            assert(pre[j].base_offset + cap <= pre[j + 1].base_offset);
                        } else if j < i {
                            assert(pre[j].base_offset + cap <= pre[j + 1].base_offset);
                            assert(pre[j + 1].base_offset + cap <= pre[j + 2].base_offset);
                        } else {
                            assert(pre[j + 1].base_offset + cap <= pre[j + 2].base_offset);
                        }
                    }
                }
            } else {
                proof {
                    assert(!spec_stale(old_segs[consumed], retention, now_ms as int));
                    assert(filter_stale(old_segs.subrange(0, consumed + 1), retention,
                        now_ms as int) =~= fp.push(old_segs[consumed]));
                    assert(self@ =~= fp.push(old_segs[consumed]) + old_segs.subrange(
                        consumed + 1,
                        old_segs.len() as int,
                    ));
                }
                i = i + 1;
            }
            proof {
                consumed = consumed + 1;
            }
        }
        proof {
            assert(consumed == old_segs.len() - 1);
            assert(old_segs.subrange(0, old_segs.len() - 1) =~= old_segs.drop_last());
            assert(old_segs.subrange(consumed, old_segs.len() as int) =~= seq![old_segs.last()]);
            assert(self@ =~= spec_retained(old_segs, retention, now_ms as int));
        }
    }

    /// Whether the flush policy is due: the configured number of writes has
    /// accumulated, or the configured interval has elapsed.
    pub fn should_flush(&self, now_ms: u64) -> (r: bool)
        ensures
            r == ((self.spec_config().flush_num_writes matches Some(n)
                && self.spec_writes_since_flush() >= n) || now_ms >= self.spec_last_flush()
                + self.spec_config().flush_interval_ms),
    {
        let by_writes = match self.config.flush_num_writes {
            Some(n) => self.writes_since_flush >= n,
            None => false,
        };
        by_writes || (now_ms >= self.last_flush_ms && now_ms - self.last_flush_ms
            >= self.config.flush_interval_ms)
    }

    /// Synchronizes the active segment's index with its backing storage and
    /// restarts the flush policy's counters.
    pub fn flush(&mut self, now_ms: u64) -> (r: Result<(), LogError>)
        requires
            old(self).wf(),
        ensures
            final(self).wf(),
            final(self)@ == old(self)@,
            final(self).spec_config() == old(self).spec_config(),
            match r {
                Ok(()) => final(self).spec_writes_since_flush() == 0
                    && final(self).spec_last_flush() == now_ms,
                Err(e) => e == LogError::MemoryMapIndex && final(self).spec_writes_since_flush()
                    == old(self).spec_writes_since_flush()
                    && final(self).spec_last_flush() == old(self).spec_last_flush(),
            },
    {
        let ghost old_segs = self@;
        let mut active = self.segments.pop().unwrap();
        let res = active.flush();
        self.segments.push(active);
        proof {
            assert(self@ =~= old_segs);
        }
        match res {
            Ok(()) => {
                self.writes_since_flush = 0;
                self.last_flush_ms = now_ms;
                Ok(())
            },
            Err(e) => Err(e),
        }
    }
}

} // verus!
