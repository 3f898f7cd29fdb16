//! Unit tests of the per-stream record's own operations.

use stream_reassembly::record::StreamRecord;

#[test]
fn fresh_record_is_not_retired() {
    let r: StreamRecord<String> = StreamRecord::new();
    assert_eq!(r.next_expected, 0);
    assert!(r.fin_id.is_none());
    assert_eq!(r.max_seen, 0);
    assert!(!r.is_retired());
}

#[test]
fn buffered_payloads_come_back_by_id() {
    let mut r: StreamRecord<String> = StreamRecord::new();
    r.insert_buffered(4, "e".to_string());
    r.insert_buffered(2, "c".to_string());
    assert_eq!(r.pop_buffered(3), None);
    assert_eq!(r.pop_buffered(2), Some("c".to_string()));
    assert_eq!(r.pop_buffered(2), None);
    assert_eq!(r.pop_buffered(4), Some("e".to_string()));
}

#[test]
fn retirement_condition() {
    let mut r: StreamRecord<String> = StreamRecord::new();
    r.fin_id = Some(2);
    r.next_expected = 2;
    assert!(!r.is_retired());
    r.next_expected = 3;
    assert!(r.is_retired());
}
