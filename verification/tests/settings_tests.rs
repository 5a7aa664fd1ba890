use edgewit::compaction::CompactionWorker;
use edgewit::settings::{u64_setting, usize_setting};

#[test]
fn numeric_settings_fall_back_to_defaults() {
    assert_eq!(usize_setting(None, 10), 10);
    assert_eq!(usize_setting(Some("25"), 10), 25);
    assert_eq!(usize_setting(Some("+7"), 10), 7);
    assert_eq!(usize_setting(Some("abc"), 10), 10);
    assert_eq!(usize_setting(Some(" 5"), 10), 10);
    assert_eq!(u64_setting(Some("18446744073709551615"), 5), u64::MAX);
    assert_eq!(u64_setting(Some("18446744073709551616"), 5), 5);
    assert_eq!(u64_setting(Some("-1"), 5), 5);
}

#[test]
fn compaction_worker_configuration() {
    let w = CompactionWorker::new("/data".to_string(), None, None);
    assert_eq!(w.interval_secs, 300);
    assert_eq!(w.min_segments, 10);
    assert_eq!(w.indexes_dir(), "/data/indexes");
    assert!(!w.should_compact(9));
    assert!(w.should_compact(10));
    let w = CompactionWorker::new("data/".to_string(), Some("60"), Some("2"));
    assert_eq!(w.interval_secs, 60);
    assert_eq!(w.min_segments, 2);
    assert_eq!(w.indexes_dir(), "data/indexes");
    assert!(w.should_compact(2));
}
