use uwu_infra::decimal::{format_i64, format_u64, parse_i64, parse_u32, parse_u64};
use uwu_infra::log_index::{
    assign_offsets, index_claims_past_log, index_end, valid_record_spans, IndexEntry, TopicIndex,
};
use uwu_infra::memory_store::{select_positions, BoundedLog};
use uwu_infra::record::{frame_record, verify_record, RECORD_PREFIX_LEN};
use uwu_infra::segments::{
    next_segment_id, plan_segment_ids, segment_file_name, segment_id_of, should_rotate,
    JsonlStoreOptions, SegmentedStoreOptions,
};
use uwu_infra::topic::TopicPattern;

#[test]
fn framed_record_roundtrips() {
    let json = br#"{"id":1}"#;
    let line = frame_record(json);
    assert_eq!(line.len(), RECORD_PREFIX_LEN + json.len() + 1);
    let crc = crc32fast::hash(json);
    assert_eq!(&line[..8], format!("{crc:08x}").as_bytes());
    assert_eq!(line[8], b'\t');
    assert_eq!(*line.last().unwrap(), b'\n');
    assert_eq!(verify_record(&line), Some(&json[..]));
}

#[test]
fn corrupt_records_are_rejected() {
    let json = br#"{"id":2}"#;
    let mut line = frame_record(json);
    // Torn write: no trailing newline.
    assert_eq!(verify_record(&line[..line.len() - 1]), None);
    // Flipped payload byte.
    line[10] ^= 1;
    assert_eq!(verify_record(&line), None);
    assert_eq!(verify_record(b"short\n"), None);
    assert_eq!(verify_record(b"zzzzzzzz\t{}\n"), None);
}

#[test]
fn uppercase_checksum_is_accepted() {
    let json = b"{}";
    let crc = crc32fast::hash(json);
    let mut line = format!("{crc:08X}\t").into_bytes();
    line.extend_from_slice(json);
    line.push(b'\n');
    assert_eq!(verify_record(&line), Some(&json[..]));
}

#[test]
fn decimal_text() {
    assert_eq!(format_u64(0), "0");
    assert_eq!(format_u64(18446744073709551615), "18446744073709551615");
    assert_eq!(format_i64(-42), "-42");
    assert_eq!(format_i64(i64::MIN), "-9223372036854775808");
    assert_eq!(parse_u64("+17"), Some(17));
    assert_eq!(parse_u64("18446744073709551616"), None);
    assert_eq!(parse_u64(""), None);
    assert_eq!(parse_u64("-1"), None);
    assert_eq!(parse_u32("4294967296"), None);
    assert_eq!(parse_i64("-9223372036854775808"), Some(i64::MIN));
    assert_eq!(parse_i64("9223372036854775808"), None);
    assert_eq!(parse_i64("-"), None);
}

#[test]
fn index_lines_roundtrip_and_legacy_form() {
    let e = IndexEntry { offset: 1234, len: 56, ts_ms: -7, topic: "a.b\tc".to_string() };
    let line = e.format_line();
    assert_eq!(line, "1234\t56\t-7\ta.b\tc");
    let back = IndexEntry::parse_line(&line).unwrap();
    assert_eq!((back.offset, back.len, back.ts_ms, back.topic.as_str()), (1234, 56, -7, "a.b\tc"));
    let legacy = IndexEntry::parse_line("10\t20\tx.y").unwrap();
    assert_eq!((legacy.offset, legacy.len, legacy.ts_ms, legacy.topic.as_str()), (10, 20, 0, "x.y"));
    let bad_ts = IndexEntry::parse_line("10\t20\tnope\tx.y").unwrap();
    assert_eq!(bad_ts.ts_ms, 0);
    assert!(IndexEntry::parse_line("10\t20").is_none());
    assert!(IndexEntry::parse_line("x\t20\tt").is_none());
}

#[test]
fn stale_index_detection() {
    let es = vec![
        IndexEntry { offset: 0, len: 10, ts_ms: 1, topic: "a".to_string() },
        IndexEntry { offset: 10, len: 5, ts_ms: 2, topic: "a".to_string() },
    ];
    assert!(!index_claims_past_log(&es, 15));
    assert!(index_claims_past_log(&es, 14));
    assert_eq!(index_end(&es, 15), 15);
    assert!(!index_claims_past_log(&Vec::new(), 0));
}

#[test]
fn batch_offsets() {
    let (offs, end) = assign_offsets(100, &vec![10, 20, 5]);
    assert_eq!(offs, vec![100, 110, 130]);
    assert_eq!(end, 135);
}

#[test]
fn time_range_index_prunes() {
    let mut idx = TopicIndex::new();
    idx.extend(vec![
        IndexEntry { offset: 30, len: 10, ts_ms: 3000, topic: "a.x".to_string() },
        IndexEntry { offset: 0, len: 10, ts_ms: 1000, topic: "a.x".to_string() },
        IndexEntry { offset: 10, len: 10, ts_ms: 2000, topic: "b.x".to_string() },
        IndexEntry { offset: 20, len: 10, ts_ms: 0, topic: "a.y".to_string() },
    ]);
    assert_eq!(idx.len(), 4);
    let p = TopicPattern::new("a.>").unwrap();
    let got = idx.snapshot_filtered_time(Some(&p), Some(1500), None);
    let offs: Vec<u64> = got.iter().map(|e| e.offset).collect();
    assert_eq!(offs, vec![20, 30]);
    let all = idx.snapshot_filtered_time(None, None, None);
    let offs: Vec<u64> = all.iter().map(|e| e.offset).collect();
    assert_eq!(offs, vec![0, 10, 20, 30]);
    idx.push(IndexEntry { offset: 5, len: 5, ts_ms: 500, topic: "b.y".to_string() });
    assert_eq!(idx.len(), 5);
    let b = TopicPattern::new("b.*").unwrap();
    let offs: Vec<u64> = idx.snapshot_filtered(Some(&b)).iter().map(|e| e.offset).collect();
    assert_eq!(offs, vec![5, 10]);
}

#[test]
fn segment_names() {
    assert_eq!(segment_file_name(1), "00000001.jsonl");
    assert_eq!(segment_file_name(123456789), "123456789.jsonl");
    assert_eq!(segment_id_of("00000001.jsonl"), Some(1));
    assert_eq!(segment_id_of("7.jsonl"), Some(7));
    assert_eq!(segment_id_of("00000001.jsonl.idx"), None);
    assert_eq!(segment_id_of(".jsonl"), None);
    assert_eq!(segment_id_of("a.b.jsonl"), None);
    assert_eq!(plan_segment_ids(vec![3, 1, 2]), vec![1, 2, 3]);
    assert_eq!(plan_segment_ids(vec![]), vec![1]);
    assert!(should_rotate(64, 64));
    assert!(!should_rotate(63, 64));
    assert_eq!(next_segment_id(1), 2);
    assert_eq!(SegmentedStoreOptions::default().max_segment_bytes, 64 * 1024 * 1024);
    assert_eq!(JsonlStoreOptions::default().batch_size, 256);
}

#[test]
fn filter_topic() {
    let mut log: BoundedLog<u32> = BoundedLog::with_capacity(2);
    log.append(1);
    log.append(2);
    log.append(3);
    assert_eq!(log.len(), 2);
    assert_eq!(*log.get(0), 2);
    let matches = vec![true, false, true, true];
    assert_eq!(select_positions(&matches, None), vec![0, 2, 3]);
    assert_eq!(select_positions(&matches, Some(2)), vec![0, 2]);
    assert_eq!(select_positions(&matches, Some(0)), vec![0]);
}

#[test]
fn recovery_keeps_the_checksummed_head() {
    let a = frame_record(br#"{"n":1}"#);
    let b = frame_record(br#"{"n":22}"#);
    let mut log = a.clone();
    log.extend_from_slice(&b);
    assert_eq!(valid_record_spans(&log), vec![(0, a.len()), (a.len(), a.len() + b.len())]);
    // A torn record at the tail (no newline yet) is left out.
    let mut torn = log.clone();
    torn.extend_from_slice(&frame_record(br#"{"n":3}"#)[..6]);
    assert_eq!(valid_record_spans(&torn), vec![(0, a.len()), (a.len(), a.len() + b.len())]);
    // A corrupted record stops the run, even with good records after it.
    let mut bad = a.clone();
    let mut broken = b.clone();
    broken[10] ^= 1;
    bad.extend_from_slice(&broken);
    bad.extend_from_slice(&a);
    assert_eq!(valid_record_spans(&bad), vec![(0, a.len())]);
    assert!(valid_record_spans(b"").is_empty());
    assert!(valid_record_spans(b"\n").is_empty());
}

#[test]
fn checksum_is_the_ieee_crc32() {
    // The standard check value of CRC-32 (IEEE) for "123456789".
    let line = frame_record(b"123456789");
    assert_eq!(&line[..9], b"cbf43926\t");
    assert_eq!(verify_record(&line), Some(&b"123456789"[..]));
    assert_eq!(&frame_record(b"")[..8], b"00000000");
}
