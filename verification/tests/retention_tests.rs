use edgewit::retention::{parse_retention_duration, parse_size, plan_retention, RetentionConfig};
use edgewit::schema::definition::{CompressionOption, IndexDefinition, PartitionStrategy, SchemaMode};

#[test]
fn test_parse_size() {
    assert_eq!(parse_size("100"), Some(100));
    assert_eq!(parse_size("100B"), Some(100));
    assert_eq!(parse_size("1KB"), Some(1024));
    assert_eq!(parse_size(" 5 MB "), Some(5 * 1024 * 1024));
    assert_eq!(parse_size("2GB"), Some(2 * 1024 * 1024 * 1024));
    assert_eq!(parse_size("invalid"), None);
}

#[test]
fn test_parse_retention_duration() {
    assert_eq!(parse_retention_duration("7d"), Some(chrono::Duration::days(7).num_seconds()));
    assert_eq!(parse_retention_duration("12h"), Some(chrono::Duration::hours(12).num_seconds()));
    assert_eq!(parse_retention_duration("1M"), Some(chrono::Duration::days(30).num_seconds()));
    assert_eq!(parse_retention_duration("5y"), Some(chrono::Duration::days(1825).num_seconds()));
    assert_eq!(parse_retention_duration("invalid"), None);
    assert_eq!(parse_retention_duration(""), None);
}

#[test]
fn retention_units() {
    assert_eq!(parse_retention_duration("30s"), Some(30));
    assert_eq!(parse_retention_duration("2m"), Some(120));
    assert_eq!(parse_retention_duration("1w"), Some(604800));
    assert_eq!(parse_retention_duration("-1d"), Some(-86400));
    assert_eq!(parse_retention_duration("7x"), None);
}

#[test]
fn size_suffixes_are_case_insensitive() {
    assert_eq!(parse_size("3kb"), Some(3072));
    assert_eq!(parse_size("1gb"), Some(1_073_741_824));
    assert_eq!(parse_size("KB"), None);
}

#[test]
fn retention_config_defaults_and_overrides() {
    let d = RetentionConfig::default();
    assert_eq!(d.max_index_bytes, 1024 * 1024 * 1024);
    assert_eq!(d.max_wal_bytes, 512 * 1024 * 1024);
    let c = RetentionConfig::with_overrides(Some("2GB"), Some("nonsense"));
    assert_eq!(c.max_index_bytes, 2 * 1024 * 1024 * 1024);
    assert_eq!(c.max_wal_bytes, 512 * 1024 * 1024);
    assert!(c.index_size_exceeded(2 * 1024 * 1024 * 1024 + 1));
    assert!(!c.index_size_exceeded(2 * 1024 * 1024 * 1024));
}

fn def(name: &str, retention: Option<&str>) -> IndexDefinition {
    IndexDefinition {
        name: name.to_string(),
        description: None,
        timestamp_field: "timestamp".to_string(),
        mode: SchemaMode::Dynamic,
        partition: PartitionStrategy::Unpartitioned,
        retention: retention.map(|r| r.to_string()),
        compression: CompressionOption::Zstd,
        fields: Vec::new(),
        settings: Vec::new(),
    }
}

#[test]
fn retention_plan_skips_missing_and_invalid() {
    let defs = vec![def("a", Some("7d")), def("b", None), def("c", Some("soon")), def("d", Some("2h"))];
    let plan = plan_retention(&defs);
    assert_eq!(plan.len(), 2);
    assert_eq!(plan[0].index_name, "a");
    assert_eq!(plan[0].seconds, 7 * 86400);
    assert_eq!(plan[1].index_name, "d");
    assert_eq!(plan[1].seconds, 7200);
}
