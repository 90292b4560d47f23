use hygg::progress::{generate_hash, percent_centi, percent_round, ProgressEvent, ProgressLog};
use hygg::codec::{encode_event, parse_event};

fn lines_of(words: &[&str]) -> Vec<String> {
    words.iter().map(|w| w.to_string()).collect()
}

#[test]
fn latest_right_after_record_returns_that_position() {
    let mut log = ProgressLog::new();
    let hash = 42u64;
    log.record_at(1000, hash, 2, 5);
    let e = log.latest(hash).expect("event was just recorded");
    assert_eq!(e.offset, 2);
    assert_eq!(e.total_lines, 5);
    let pct = 100.0 * (e.offset as f64) / (e.total_lines as f64);
    assert!((pct - 40.0).abs() < 1e-9);
    assert_eq!(percent_centi(e.offset, e.total_lines), 4000);
}

#[test]
fn latest_with_wall_clock_record() {
    let mut log = ProgressLog::new();
    let hash = 7u64;
    log.record(hash, 3, 10);
    let e = log.latest(hash).expect("event was just recorded");
    assert_eq!(e.offset, 3);
    assert_eq!(e.total_lines, 10);
}

#[test]
fn latest_picks_greatest_timestamp_regardless_of_order() {
    let mut log = ProgressLog::new();
    let hash = 9u64;
    log.record_at(50, hash, 1, 10);
    log.record_at(10, hash, 9, 10);
    log.record_at(30, hash, 4, 10);
    let e = log.latest(hash).expect("events exist");
    assert_eq!(e.timestamp, 50);
    assert_eq!(e.offset, 1);
}

#[test]
fn latest_ignores_other_documents() {
    let mut log = ProgressLog::new();
    log.record_at(100, 1, 5, 10);
    log.record_at(200, 2, 7, 10);
    let e = log.latest(1).expect("hash 1 has an event");
    assert_eq!(e.offset, 5);
    assert!(log.latest(3).is_none());
}

#[test]
fn latest_breaks_timestamp_ties_by_recency() {
    let mut log = ProgressLog::new();
    let hash = 4u64;
    log.record_at(77, hash, 1, 8);
    log.record_at(77, hash, 6, 8);
    let e = log.latest(hash).expect("events exist");
    assert_eq!(e.offset, 6);
}

#[test]
fn identical_content_yields_identical_identity() {
    let a = lines_of(&["one", "two", "three"]);
    let b = lines_of(&["one", "two", "three"]);
    assert_eq!(generate_hash(&a), generate_hash(&b));
}

#[test]
fn different_content_yields_different_identity() {
    let a = lines_of(&["one", "two"]);
    let b = lines_of(&["one", "three"]);
    assert_ne!(generate_hash(&a), generate_hash(&b));
    let c = lines_of(&["ab", "c"]);
    let d = lines_of(&["a", "bc"]);
    assert_ne!(generate_hash(&c), generate_hash(&d));
}

#[test]
fn encode_produces_the_documented_record_shape() {
    let e = ProgressEvent { timestamp: 5, document_hash: 7, offset: 2, total_lines: 5 };
    let enc = encode_event(&e);
    let expected =
        "{\"timestamp\":5,\"document_hash\":7,\"offset\":2,\"total_lines\":5,\"percentage\":40.00}";
    assert_eq!(String::from_utf8(enc).unwrap(), expected);
}

#[test]
fn encode_then_parse_returns_the_event() {
    let e = ProgressEvent {
        timestamp: 1699999999123,
        document_hash: u64::MAX,
        offset: 0,
        total_lines: 0,
    };
    let enc = encode_event(&e);
    assert_eq!(parse_event(&enc), Some(e));
    let e2 = ProgressEvent { timestamp: 0, document_hash: 1, offset: 3, total_lines: 9 };
    assert_eq!(parse_event(&encode_event(&e2)), Some(e2));
}

#[test]
fn parse_skips_malformed_records() {
    assert_eq!(parse_event(&Vec::new()), None);
    assert_eq!(parse_event(&b"garbage".to_vec()), None);
    assert_eq!(parse_event(&b"{\"timestamp\":5".to_vec()), None);
    // leading zeros are not the canonical form
    let padded =
        "{\"timestamp\":05,\"document_hash\":7,\"offset\":2,\"total_lines\":5,\"percentage\":40.00}";
    assert_eq!(parse_event(&padded.as_bytes().to_vec()), None);
    // a percentage that does not follow from offset and total is rejected
    let lying =
        "{\"timestamp\":5,\"document_hash\":7,\"offset\":2,\"total_lines\":5,\"percentage\":41.00}";
    assert_eq!(parse_event(&lying.as_bytes().to_vec()), None);
    // an offset past the end is rejected
    let past =
        "{\"timestamp\":5,\"document_hash\":7,\"offset\":9,\"total_lines\":5,\"percentage\":40.00}";
    assert_eq!(parse_event(&past.as_bytes().to_vec()), None);
}

#[test]
fn percentage_field_truncates_to_hundredths() {
    assert_eq!(percent_centi(1, 3), 3333);
    let e = ProgressEvent { timestamp: 9, document_hash: 1, offset: 1, total_lines: 3 };
    let enc = encode_event(&e);
    let expected =
        "{\"timestamp\":9,\"document_hash\":1,\"offset\":1,\"total_lines\":3,\"percentage\":33.33}";
    assert_eq!(String::from_utf8(enc.clone()).unwrap(), expected);
    assert_eq!(parse_event(&enc), Some(e));
}

#[test]
fn percent_round_rounds_half_up() {
    assert_eq!(percent_round(1, 8), 13); // 12.5 rounds up
    assert_eq!(percent_round(1, 3), 33);
    assert_eq!(percent_round(2, 3), 67);
    assert_eq!(percent_round(0, 5), 0);
    assert_eq!(percent_round(5, 5), 100);
    assert_eq!(percent_round(0, 0), 0);
}
