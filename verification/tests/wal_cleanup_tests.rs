use edgewit::wal_cleanup::{parse_wal_file_name, segments_fit, WalCleanup, WalSegment};

/// Runs a cleanup over `(file name, size)` entries where every deletion
/// succeeds; returns the names of the files that remain.
fn run_cleanup(files: &[(&str, u64)], committed: u64, max: u64) -> Vec<String> {
    let mut segments = Vec::new();
    for (id, (name, size)) in files.iter().enumerate() {
        if let Some(start) = parse_wal_file_name(name) {
            segments.push(WalSegment { id, start, size: *size });
        }
    }
    assert!(segments_fit(&segments));
    let mut cleanup = WalCleanup::new(segments, committed, max);
    let mut deleted = vec![false; files.len()];
    while let Some(seg) = cleanup.next_deletion() {
        deleted[seg.id] = true;
        cleanup.record(true);
    }
    files
        .iter()
        .enumerate()
        .filter(|(i, _)| !deleted[*i])
        .map(|(_, (n, _))| n.to_string())
        .collect()
}

#[test]
fn test_cleanup_wals() {
    let files = [
        ("0000000000000000.wal", 100),
        ("0000000000000064.wal", 50),
        ("0000000000000096.wal", 200),
        ("other.txt", 100),
    ];
    // 0.wal ends at 100, 100.wal ends at 150 — both <= committed=150 → deleted
    // 150.wal ends at 350 — > 150 → kept
    let left = run_cleanup(&files, 150, 1000);
    assert!(!left.contains(&"0000000000000000.wal".to_string()));
    assert!(!left.contains(&"0000000000000064.wal".to_string()));
    assert!(left.contains(&"0000000000000096.wal".to_string()));
    assert!(left.contains(&"other.txt".to_string()));
}

#[test]
fn test_emergency_wal_pruning() {
    let files = [
        ("0000000000000000.wal", 100),
        ("0000000000000064.wal", 200),
        ("000000000000012c.wal", 300),
    ];
    // Total 600B, nothing committed, limit 400B: deletes oldest first until within limit
    let left = run_cleanup(&files, 0, 400);
    assert!(!left.contains(&"0000000000000000.wal".to_string()));
    assert!(!left.contains(&"0000000000000064.wal".to_string()));
    assert!(left.contains(&"000000000000012c.wal".to_string()));
}

#[test]
fn wal_file_names() {
    assert_eq!(parse_wal_file_name("0000000000000064.wal"), Some(100));
    assert_eq!(parse_wal_file_name("00000001.wal"), Some(1));
    assert_eq!(parse_wal_file_name("ff.wal"), Some(255));
    assert_eq!(parse_wal_file_name(".wal"), None);
    assert_eq!(parse_wal_file_name("x.wal"), None);
    assert_eq!(parse_wal_file_name("10.wal.bak"), None);
    assert_eq!(parse_wal_file_name("10.WAL"), None);
    assert_eq!(parse_wal_file_name("10"), None);
}

#[test]
fn order_and_failed_deletions() {
    // Given out of order; committed offset 50 makes only the segment at 0 (size 40) committed.
    let segments = vec![
        WalSegment { id: 0, start: 300, size: 100 },
        WalSegment { id: 1, start: 0, size: 40 },
        WalSegment { id: 2, start: 100, size: 200 },
    ];
    let mut c = WalCleanup::new(segments, 50, 150);
    let first = c.next_deletion().unwrap();
    assert_eq!(first.id, 1);
    c.record(true);
    // Total is 300 > 150: the oldest uncommitted segment is pruned next.
    let second = c.next_deletion().unwrap();
    assert_eq!(second.id, 2);
    // The deletion fails: the total does not shrink, so the next one is offered.
    c.record(false);
    let third = c.next_deletion().unwrap();
    assert_eq!(third.id, 0);
    c.record(true);
    assert!(c.next_deletion().is_none());
    assert!(c.next_deletion().is_none());
}

#[test]
fn overflowing_segments_do_not_fit() {
    let segments = vec![WalSegment { id: 0, start: u64::MAX, size: 1 }];
    assert!(!segments_fit(&segments));
    let segments = vec![WalSegment { id: 0, start: 0, size: u64::MAX }, WalSegment { id: 1, start: 1, size: 1 }];
    assert!(!segments_fit(&segments));
}
