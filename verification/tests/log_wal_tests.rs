use pyroduct::log_wal::{
    build_index, count_records, crc32c, encode_record, locate_record, log_file_index, lookup_record,
    next_segment_after, parse_usize, read_record, segment_records, should_rebuild_index, LogWal, RecordError,
};

#[test]
fn crc32c_check_value() {
    assert_eq!(crc32c(b"123456789"), 0xE306_9283);
    assert_eq!(crc32c(b""), 0);
}

#[test]
fn record_roundtrip() {
    let mut seg = Vec::new();
    encode_record(&mut seg, b"test module log");
    assert_eq!(seg.len(), 8 + 15);
    assert_eq!(&seg[0..4], &15u32.to_le_bytes());
    assert_eq!(&seg[4..8], &crc32c(b"test module log").to_le_bytes());
    match read_record(&seg) {
        Some(Ok((payload, size))) => {
            assert_eq!(payload, b"test module log");
            assert_eq!(size, 23);
        }
        other => panic!("unexpected {:?}", other.map(|r| r.map(|(p, n)| (p.to_vec(), n)))),
    }
}

#[test]
fn corrupt_record_is_a_crc_mismatch() {
    let mut seg = Vec::new();
    encode_record(&mut seg, b"payload");
    seg[10] ^= 0xFF;
    assert!(matches!(read_record(&seg), Some(Err(RecordError::CrcMismatch))));
    assert_eq!(segment_records(&seg).unwrap_err(), RecordError::CrcMismatch);
}

#[test]
fn truncated_record_is_unexpected_eof() {
    let mut seg = Vec::new();
    encode_record(&mut seg, b"payload");
    assert!(matches!(read_record(&seg[..6]), Some(Err(RecordError::UnexpectedEof))));
    assert!(matches!(read_record(&seg[..10]), Some(Err(RecordError::UnexpectedEof))));
    assert!(read_record(&seg[..3]).is_none());
    assert!(read_record(&[]).is_none());
}

#[test]
fn segment_reading_and_counting() {
    let mut seg = Vec::new();
    encode_record(&mut seg, b"one");
    encode_record(&mut seg, b"two!");
    encode_record(&mut seg, b"");
    assert_eq!(count_records(&seg), 3);
    let records = segment_records(&seg).unwrap();
    assert_eq!(records, vec![&b"one"[..], &b"two!"[..], &b""[..]]);
}

#[test]
fn index_locates_each_record() {
    let mut seg = Vec::new();
    encode_record(&mut seg, b"first");
    encode_record(&mut seg, b"second");
    let index = build_index(&seg);
    assert_eq!(index.len(), 16);
    assert_eq!(&index[0..8], &0u64.to_le_bytes());
    assert_eq!(&index[8..16], &13u64.to_le_bytes());
    assert_eq!(lookup_record(&seg, &index, 0).unwrap(), Some(&b"first"[..]));
    assert_eq!(lookup_record(&seg, &index, 8).unwrap(), Some(&b"second"[..]));
    assert_eq!(lookup_record(&seg, &index, 16).unwrap(), None);
}

#[test]
fn records_are_located_by_segment_and_slot() {
    assert_eq!(locate_record(5, 2), Some((2, 8)));
    assert_eq!(locate_record(4, 2), Some((2, 0)));
    assert_eq!(locate_record(3, 0), None);
}

#[test]
fn index_rebuild_rules() {
    assert!(should_rebuild_index(None, 0));
    assert!(should_rebuild_index(Some(7), 100));
    assert!(should_rebuild_index(Some(0), 100));
    assert!(!should_rebuild_index(Some(0), 0));
    assert!(!should_rebuild_index(Some(16), 100));
}

#[test]
fn segment_file_names() {
    assert_eq!(log_file_index("0.pyrolog"), Some(0));
    assert_eq!(log_file_index("42.pyrolog"), Some(42));
    assert_eq!(log_file_index("+7.pyrolog"), Some(7));
    assert_eq!(log_file_index("42.pyrolog.idx"), None);
    assert_eq!(log_file_index(".pyrolog"), None);
    assert_eq!(log_file_index("a.pyrolog"), None);
    assert_eq!(log_file_index("-1.pyrolog"), None);
    assert_eq!(parse_usize(b"18446744073709551615"), Some(usize::MAX));
    assert_eq!(parse_usize(b"18446744073709551616"), None);
    assert_eq!(parse_usize(b"+"), None);
}

#[test]
fn test_log_wal_retention_and_ranges() {
    // capacity is 2, opened on an empty directory
    let (mut wal, new_segment) = LogWal::opened("logs".to_string(), 2, &[], 0, 0);
    assert!(!new_segment);

    // Range should be empty/None initially
    assert_eq!(wal.oldest_log(), None);
    assert_eq!(wal.youngest_log(), None);

    // Append 5 entries
    for _ in 0..5 {
        if wal.needs_rotation() {
            wal.rotate();
        }
        wal.record_appended(10);
    }

    // Range should be 0..4
    assert_eq!(wal.oldest_log(), Some(0));
    assert_eq!(wal.youngest_log(), Some(4));
    assert_eq!(wal.current_file_index(), 2);
    assert_eq!(wal.total_entries(), 5);
    assert_eq!(wal.current_offset(), 18);

    // Keep 3 entries: the cutoff is 2, so segment 0 goes.
    let doomed = wal.segments_to_delete(3, &[0, 1, 2]).unwrap();
    assert_eq!(doomed, vec![0]);
    let deleted = wal.segments_deleted(3, doomed.len(), &[1, 2]);
    assert_eq!(deleted, 1);
    assert_eq!(wal.oldest_log(), Some(2));
    assert_eq!(wal.youngest_log(), Some(4));

    // Keep 1 entry: the cutoff is 4, so segment 1 goes too.
    let doomed = wal.segments_to_delete(1, &[1, 2]).unwrap();
    assert_eq!(doomed, vec![1]);
    let deleted2 = wal.segments_deleted(1, doomed.len(), &[2]);
    assert_eq!(deleted2, 1);
    assert_eq!(wal.oldest_log(), Some(4));
    assert_eq!(wal.youngest_log(), Some(4));

    // Keeping nothing empties the active segment as well.
    let doomed = wal.segments_to_delete(0, &[2]).unwrap();
    assert!(doomed.is_empty());
    assert_eq!(wal.segments_deleted(0, 0, &[2]), 1);
    assert_eq!(wal.oldest_log(), None);
    assert_eq!(wal.youngest_log(), None);
    assert_eq!(wal.total_entries(), 4);

    // The numbering goes on from the emptied segment's first slot.
    wal.record_appended(10);
    assert_eq!(wal.oldest_log(), Some(4));
    assert_eq!(wal.youngest_log(), Some(4));
    assert_eq!(wal.dir(), "logs");
    assert_eq!(wal.capacity(), 2);
}

#[test]
fn reopening_resumes_or_starts_a_segment() {
    // Newest segment 3 holds 1 of 2 records: writing continues there.
    let (wal, new_segment) = LogWal::opened("d".to_string(), 2, &[1, 3, 2], 1, 23);
    assert!(!new_segment);
    assert_eq!(wal.current_file_index(), 3);
    assert_eq!(wal.total_entries(), 7);
    assert_eq!(wal.current_offset(), 23);
    assert_eq!(wal.oldest_log(), Some(2));
    // A full newest segment: writing starts segment 4.
    let (wal, new_segment) = LogWal::opened("d".to_string(), 2, &[1, 3, 2], 2, 46);
    assert!(new_segment);
    assert_eq!(wal.current_file_index(), 4);
    assert_eq!(wal.total_entries(), 8);
    assert_eq!(wal.current_offset(), 0);
}

#[test]
fn next_segment_is_the_smallest_above() {
    assert_eq!(next_segment_after(&[5, 2, 9, 7], 5), Some(7));
    assert_eq!(next_segment_after(&[5, 2, 9, 7], 9), None);
    assert_eq!(next_segment_after(&[], 0), None);
    assert_eq!(next_segment_after(&[3, 3], 0), Some(3));
}

#[test]
fn bookkeeping_getters() {
    let (mut wal, _) = LogWal::opened("g".to_string(), 3, &[4, 6], 2, 50);
    assert_eq!(wal.oldest_file_index(), 4);
    assert_eq!(wal.current_entries(), 2);
    wal.record_appended(1);
    assert_eq!(wal.current_entries(), 3);
    assert!(wal.needs_rotation());
    wal.rotate();
    assert_eq!(wal.current_entries(), 0);
    assert_eq!(wal.current_file_index(), 7);
    assert_eq!(wal.total_entries(), 21);
}
