use selium::index::{Index, IndexEntry};
use selium::log::{LogConfig, MessageLog, Record};

fn test_config(max_entries: u32) -> LogConfig {
    LogConfig {
        max_index_entries: max_entries,
        retention_period_ms: 1000,
        cleaner_interval_ms: 100,
        flush_interval_ms: 500,
        flush_num_writes: Some(2),
    }
}

fn record(payload: &[u8], timestamp: u64) -> Record {
    Record { batch_size: 1, timestamp, records: payload.to_vec() }
}

#[test]
fn index_current_offset_counts_pushes() {
    let mut index = Index::create(8).unwrap();
    assert_eq!(index.get_current_offset(), 1);
    for k in 1..=5u32 {
        index.push(IndexEntry { relative_offset: k, file_position: 16 * k, timestamp: 100 + k as u64 });
        assert_eq!(index.get_current_offset(), k + 1);
    }
}

#[test]
fn index_find_returns_first_populated_match() {
    let mut index = Index::create(8).unwrap();
    index.push(IndexEntry { relative_offset: 1, file_position: 0, timestamp: 10 });
    index.push(IndexEntry { relative_offset: 2, file_position: 20, timestamp: 20 });
    index.push(IndexEntry { relative_offset: 3, file_position: 40, timestamp: 30 });

    let hit = index.find(|e: &IndexEntry| e.timestamp >= 20).unwrap();
    assert_eq!(hit.relative_offset, 2);
    assert_eq!(hit.file_position, 20);

    // No populated entry matches: zeroed slots are never handed out, even
    // though a zeroed entry itself would satisfy this predicate.
    let miss = index.find(|e: &IndexEntry| e.timestamp == 0);
    assert!(miss.is_none());
}

#[test]
fn index_entry_serialization_round_trips() {
    let entry = IndexEntry { relative_offset: 7, file_position: 4096, timestamp: u64::MAX - 3 };
    let bytes = entry.into_slice();
    assert_eq!(bytes.len(), 16);
    assert_eq!(IndexEntry::from_slice(bytes.as_slice()), entry);
    // Little-endian layout: offset, position, timestamp.
    assert_eq!(bytes[0..4], [7, 0, 0, 0]);
    assert_eq!(bytes[4..8], [0, 16, 0, 0]);
}

#[test]
fn log_rotates_at_capacity() {
    // Index capacity 4; ten writes must leave segments 0, 4 and 8.
    let mut log = MessageLog::open(test_config(4), 0).unwrap();
    for k in 0..10u64 {
        log.write(record(&[k as u8], k)).unwrap();
    }
    assert_eq!(log.segment_bases(), vec![0, 4, 8]);
    assert_eq!(log.number_of_entries(), 10);
    assert_eq!(log.end_offset(), 10);
}

#[test]
fn log_drain_sees_every_record_in_order() {
    let mut log = MessageLog::open(test_config(3), 0).unwrap();
    for k in 0..8u64 {
        log.write(record(&[10 + k as u8], k)).unwrap();
    }
    let drained = log.drain_from(0);
    assert_eq!(drained.len(), 8);
    for (k, rec) in drained.iter().enumerate() {
        assert_eq!(rec.records, vec![10 + k as u8]);
        assert_eq!(rec.timestamp, k as u64);
    }
}

#[test]
fn log_read_slice_walks_segment_by_segment() {
    let mut log = MessageLog::open(test_config(4), 0).unwrap();
    for k in 0..6u64 {
        log.write(record(&[k as u8], k)).unwrap();
    }
    // The first poll drains the rest of the first segment.
    let slice = log.read_slice(1, None);
    assert_eq!(slice.messages.len(), 3);
    assert_eq!(slice.end_offset, 4);
    assert_eq!(slice.messages[0].records, vec![1]);
    // The next poll drains the active segment.
    let slice = log.read_slice(4, None);
    assert_eq!(slice.messages.len(), 2);
    assert_eq!(slice.end_offset, 6);
    // A cursor at the end sees nothing and stays put.
    let slice = log.read_slice(6, None);
    assert!(slice.messages.is_empty());
    assert_eq!(slice.end_offset, 6);
}

#[test]
fn log_read_slice_honors_end_bound() {
    let mut log = MessageLog::open(test_config(8), 0).unwrap();
    for k in 0..5u64 {
        log.write(record(&[k as u8], k)).unwrap();
    }
    let slice = log.read_slice(1, Some(3));
    assert_eq!(slice.messages.len(), 2);
    assert_eq!(slice.end_offset, 3);
}

#[test]
fn cleaner_removes_only_stale_inactive_segments() {
    // Two full segments written at time 0, then a fresh one at time 5000.
    let mut log = MessageLog::open(test_config(2), 0).unwrap();
    for _ in 0..4 {
        log.write(record(&[1], 0)).unwrap();
    }
    log.write(record(&[2], 5000)).unwrap();
    assert_eq!(log.segment_bases(), vec![0, 2, 4]);

    // Retention is 1000 ms: at time 5000 the first two segments are stale.
    log.remove_stale_segments(5000);
    assert_eq!(log.segment_bases(), vec![4]);

    // The subscriber silently resumes at the oldest surviving offset.
    let drained = log.drain_from(0);
    assert_eq!(drained.len(), 1);
    assert_eq!(drained[0].records, vec![2]);

    // The active segment stays, however old its records are.
    log.remove_stale_segments(u64::MAX);
    assert_eq!(log.segment_bases(), vec![4]);
}

#[test]
fn cleaner_keeps_fresh_segments() {
    let mut log = MessageLog::open(test_config(2), 0).unwrap();
    for _ in 0..4 {
        log.write(record(&[1], 4500)).unwrap();
    }
    // At time 5000 with retention 1000 nothing has expired.
    log.remove_stale_segments(5000);
    assert_eq!(log.segment_bases(), vec![0, 2]);
}

#[test]
fn flush_policy_by_writes_and_interval() {
    let mut log = MessageLog::open(test_config(8), 0).unwrap();
    assert!(!log.should_flush(100));
    log.write(record(&[1], 1)).unwrap();
    assert!(!log.should_flush(100));
    log.write(record(&[2], 2)).unwrap();
    // Two writes accumulated: the configured number is reached.
    assert!(log.should_flush(100));
    log.flush(100).unwrap();
    assert!(!log.should_flush(101));
    // The configured interval elapses with no writes at all.
    assert!(log.should_flush(600));
}

#[test]
fn record_framing_round_trips() {
    let rec = Record { batch_size: 3, timestamp: 99, records: vec![5, 6, 7] };
    let bytes = rec.encode().unwrap();
    // length || batch_size || timestamp || records, little endian.
    assert_eq!(bytes.len(), 19);
    assert_eq!(bytes[0..4], [3, 0, 0, 0]);
    assert_eq!(bytes[4..8], [3, 0, 0, 0]);
    assert_eq!(bytes[8..16], [99, 0, 0, 0, 0, 0, 0, 0]);
    let (back, next) = Record::decode_at(&bytes, 0).unwrap();
    assert_eq!(next, 19);
    assert_eq!(back.batch_size, 3);
    assert_eq!(back.timestamp, 99);
    assert_eq!(back.records, vec![5, 6, 7]);
}
