use edgewit::indexer::{document_root, event_definition, purge_target, CommitSchedule, DirtyOffsets};
use edgewit::json::{JsonNumber, JsonValue};
use edgewit::registry::IndexRegistry;
use edgewit::schema::definition::{
    CompressionOption, FieldDefinition, FieldType, IndexDefinition, PartitionStrategy, SchemaMode,
};
use edgewit::json::JsonNumber as Num;

fn field(field_type: FieldType, fast: bool) -> FieldDefinition {
    FieldDefinition { field_type, indexed: true, stored: false, fast, optional: true, default: None }
}

fn def(name: &str, ts: &str, fields: Vec<(String, FieldDefinition)>) -> IndexDefinition {
    IndexDefinition {
        name: name.to_string(),
        description: None,
        timestamp_field: ts.to_string(),
        mode: SchemaMode::Dynamic,
        partition: PartitionStrategy::Unpartitioned,
        retention: None,
        compression: CompressionOption::Zstd,
        fields,
        settings: Vec::new(),
    }
}

fn registry() -> IndexRegistry {
    let mut r = IndexRegistry::new();
    let logs = def(
        "logs",
        "timestamp",
        vec![
            ("timestamp".to_string(), field(FieldType::Datetime, true)),
            ("message".to_string(), field(FieldType::Text, false)),
        ],
    );
    let text_ts = def("notes", "at", vec![("at".to_string(), field(FieldType::Text, false))]);
    let no_ts = def("events", "timestamp", Vec::new());
    assert!(r.register(logs).is_ok());
    assert!(r.register(text_ts).is_ok());
    assert!(r.register(no_ts).is_ok());
    r
}

#[test]
fn events_for_unknown_indexes_are_refused() {
    let r = registry();
    assert_eq!(event_definition(&r, "logs").unwrap().name, "logs");
    assert_eq!(event_definition(&r, "ghost").err(), Some("Unknown index: 'ghost'".to_string()));
}

#[test]
fn document_root_keeps_declared_non_null_fields_and_source() {
    let r = registry();
    let d = event_definition(&r, "logs").unwrap();
    let source = JsonValue::Object(vec![
        ("message".to_string(), JsonValue::String("hi".to_string())),
        ("extra".to_string(), JsonValue::Number(JsonNumber::PosInt(3))),
        ("timestamp".to_string(), JsonValue::Null),
    ]);
    let root = document_root(&d.fields, SchemaMode::Strict, source).unwrap();
    match root {
        JsonValue::Object(entries) => {
            let keys: Vec<&str> = entries.iter().map(|(k, _)| k.as_str()).collect();
            assert_eq!(keys, vec!["message", "_source"]);
            match &entries[1].1 {
                JsonValue::Object(src) => assert_eq!(src.len(), 3),
                _ => panic!("_source must hold the whole document"),
            }
        },
        _ => panic!("root must be an object"),
    }
    assert_eq!(
        document_root(&d.fields, SchemaMode::Dynamic, JsonValue::Array(Vec::new())).err(),
        Some("Payload must be a JSON object".to_string())
    );
}

#[test]
fn purge_targets_and_refusals() {
    let r = registry();
    let t = purge_target(&r, "logs").unwrap();
    assert_eq!(t.timestamp_field, "timestamp");
    assert!(t.fast);
    assert_eq!(purge_target(&r, "ghost").err(), Some("Index 'ghost' not found in registry".to_string()));
    assert_eq!(
        purge_target(&r, "events").err(),
        Some("Timestamp field 'timestamp' is not declared in index 'events' \u{2014} add it to fields: to enable retention".to_string())
    );
    assert_eq!(
        purge_target(&r, "notes").err(),
        Some("Field 'at' must be type: datetime for retention to work in 'notes'".to_string())
    );
}

#[test]
fn dirty_offsets_keep_pending_offsets_on_purge() {
    let mut d = DirtyOffsets::new();
    assert!(d.is_empty());
    d.mark_written("logs", 42);
    d.mark_purged("logs");
    d.mark_purged("metrics");
    d.mark_written("logs", 57);
    assert!(!d.is_empty());
    let mut drained = d.drain();
    drained.sort();
    assert_eq!(drained, vec![("logs".to_string(), 57), ("metrics".to_string(), 0)]);
    assert!(d.is_empty());
    assert!(d.drain().is_empty());
}

#[test]
fn commit_schedule_by_count_and_tick() {
    let mut s = CommitSchedule::new(3);
    assert!(!s.on_event(true));
    assert!(!s.on_event(false));
    assert!(!s.on_event(true));
    assert!(s.on_event(true));
    assert!(!s.on_event(true));
    assert!(s.on_tick(true));
    assert!(!s.on_event(true));
    assert!(!s.on_tick(false));
    assert!(!s.on_event(true));
    assert!(s.on_event(true));
}

#[test]
fn zero_threshold_commits_after_every_event() {
    let mut s = CommitSchedule::new(0);
    assert!(s.on_event(false));
    assert!(s.on_event(true));
}

#[test]
fn dynamic_mode_collects_unmapped_fields_as_text() {
    let r = registry();
    let d = event_definition(&r, "logs").unwrap();
    let source = JsonValue::Object(vec![
        ("message".to_string(), JsonValue::String("hi".to_string())),
        ("host".to_string(), JsonValue::String("edge-1".to_string())),
        ("ok".to_string(), JsonValue::Bool(true)),
        ("code".to_string(), JsonValue::Number(Num::NegInt(-42))),
        ("n".to_string(), JsonValue::Number(Num::PosInt(1234))),
        ("tags".to_string(), JsonValue::Array(Vec::new())),
    ]);
    let root = document_root(&d.fields, SchemaMode::Dynamic, source).unwrap();
    match root {
        JsonValue::Object(entries) => {
            let keys: Vec<&str> = entries.iter().map(|(k, _)| k.as_str()).collect();
            assert_eq!(keys, vec!["message", "_source", "_dynamic"]);
            match &entries[2].1 {
                JsonValue::String(t) => assert_eq!(t, " host edge-1 ok true code -42 n 1234 tags"),
                _ => panic!("_dynamic must be text"),
            }
        },
        _ => panic!("root must be an object"),
    }
}
