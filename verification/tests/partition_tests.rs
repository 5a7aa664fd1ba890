use edgewit::json::{JsonNumber, JsonValue};
use edgewit::partition::{get_partition_path, index_path, resolve_partition, PartitionError};
use edgewit::schema::definition::{CompressionOption, IndexDefinition, PartitionStrategy, SchemaMode};

fn test_def(strategy: PartitionStrategy) -> IndexDefinition {
    IndexDefinition {
        name: "logs".to_string(),
        description: None,
        timestamp_field: "timestamp".to_string(),
        mode: SchemaMode::Dynamic,
        partition: strategy,
        retention: None,
        compression: CompressionOption::Zstd,
        fields: Vec::new(),
        settings: Vec::new(),
    }
}

fn doc(ts: JsonValue) -> JsonValue {
    JsonValue::Object(vec![("timestamp".to_string(), ts)])
}

fn text(s: &str) -> JsonValue {
    JsonValue::String(s.to_string())
}

fn partition_of(def: &IndexDefinition, d: &JsonValue) -> Option<String> {
    match resolve_partition(def, d) {
        Ok(p) => p,
        Err(e) => panic!("unexpected error: {}", e.message()),
    }
}

#[test]
fn test_resolve_partition_none() {
    let def = test_def(PartitionStrategy::Unpartitioned);
    let d = doc(text("2023-10-25T14:30:00Z"));
    assert_eq!(partition_of(&def, &d), None);
}

#[test]
fn test_resolve_partition_daily() {
    let def = test_def(PartitionStrategy::Daily);
    let doc1 = doc(text("2023-10-25T14:30:00Z"));
    assert_eq!(partition_of(&def, &doc1), Some("2023-10-25".to_string()));
    let doc2 = doc(JsonValue::Number(JsonNumber::PosInt(1698244200)));
    assert_eq!(partition_of(&def, &doc2), Some("2023-10-25".to_string()));
}

#[test]
fn test_resolve_partition_hourly() {
    let def = test_def(PartitionStrategy::Hourly);
    let d = doc(text("2023-10-25T14:30:00Z"));
    assert_eq!(partition_of(&def, &d), Some("2023-10-25-14".to_string()));
}

#[test]
fn test_resolve_partition_monthly() {
    let def = test_def(PartitionStrategy::Monthly);
    let d = doc(text("2023-10-25T14:30:00Z"));
    assert_eq!(partition_of(&def, &d), Some("2023-10".to_string()));
}

#[test]
fn test_invalid_timestamp() {
    let def = test_def(PartitionStrategy::Daily);
    let d = doc(text("invalid-date"));
    assert!(resolve_partition(&def, &d).is_err());
}

#[test]
fn missing_or_unusable_timestamp_is_invalid() {
    let def = test_def(PartitionStrategy::Daily);
    let no_ts = JsonValue::Object(vec![("other".to_string(), text("x"))]);
    assert!(matches!(
        resolve_partition(&def, &no_ts),
        Err(PartitionError::InvalidTimestamp(f)) if f == "timestamp"
    ));
    let boolean = doc(JsonValue::Bool(true));
    assert!(matches!(resolve_partition(&def, &boolean), Err(PartitionError::InvalidTimestamp(_))));
    let bad = doc(text("invalid-date"));
    assert!(matches!(resolve_partition(&def, &bad), Err(PartitionError::ParseError(_))));
}

#[test]
fn float_timestamp_is_truncated_to_seconds() {
    let def = test_def(PartitionStrategy::Hourly);
    let f: f64 = 1698244200.75;
    let d = doc(JsonValue::Number(JsonNumber::Float { bits: f.to_bits(), truncated: f as i64 }));
    assert_eq!(partition_of(&def, &d), Some("2023-10-25-14".to_string()));
}

#[test]
fn test_get_partition_path() {
    let path1 = get_partition_path("/data", "logs", Some("2023-10-25"));
    assert_eq!(path1, "/data/indexes/logs/segments/2023-10-25");
    let path2 = get_partition_path("/data", "metrics", None);
    assert_eq!(path2, "/data/indexes/metrics/segments/default");
}

#[test]
fn test_index_path() {
    assert_eq!(index_path("/data", "my_index"), "/data/indexes/my_index");
}

#[test]
fn partition_error_messages() {
    assert_eq!(
        PartitionError::InvalidTimestamp("ts".to_string()).message(),
        "timestamp field 'ts' missing or invalid in document"
    );
    assert_eq!(PartitionError::ParseError("bad".to_string()).message(), "failed to parse timestamp: bad");
}
