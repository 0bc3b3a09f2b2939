use crater::logs::{LogStorage, OVERFLOW_MARKER};

#[test]
fn records_within_the_bound_are_kept() {
    let mut l = LogStorage::new(10);
    l.record(vec![1, 2, 3]);
    l.record(vec![4, 5]);
    assert_eq!(l.records(), &vec![vec![1, 2, 3], vec![4, 5]]);
    assert!(!l.is_truncated());
    assert_eq!(l.snapshot(), vec![1, 2, 3, 4, 5]);
}

#[test]
fn overflow_drops_the_oldest_records() {
    let mut l = LogStorage::new(6);
    l.record(vec![1, 2, 3]);
    l.record(vec![4, 5]);
    l.record(vec![6, 7, 8]);
    assert_eq!(l.records(), &vec![vec![4, 5], vec![6, 7, 8]]);
    assert!(l.is_truncated());
    let mut expected = vec![4, 5, 6, 7, 8];
    expected.extend_from_slice(OVERFLOW_MARKER.as_bytes());
    assert_eq!(l.snapshot(), expected);
}

#[test]
fn exact_fit_keeps_everything() {
    let mut l = LogStorage::new(5);
    l.record(vec![1, 2, 3]);
    l.record(vec![4, 5]);
    assert!(!l.is_truncated());
    assert_eq!(l.records().len(), 2);
}

#[test]
fn record_larger_than_the_buffer() {
    let mut l = LogStorage::new(2);
    l.record(vec![1]);
    l.record(vec![1, 2, 3]);
    assert!(l.records().is_empty());
    assert!(l.is_truncated());
    assert_eq!(l.snapshot(), OVERFLOW_MARKER.as_bytes().to_vec());
}
