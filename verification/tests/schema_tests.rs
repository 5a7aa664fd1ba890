use tantivy::schema::{FieldType as TFieldType, IndexRecordOption, Type};
use edgewit::json::JsonValue;
use edgewit::schema::builder::{build_schema, field_layout, FieldLayout, SchemaBuilderError, TantivyKind, Tokenization};
use edgewit::schema::definition::{
    default_timestamp_field, CompressionOption, FieldDefinition, FieldType, IndexDefinition,
    PartitionStrategy, SchemaMode,
};
use edgewit::schema::validation::{is_valid_retention, validate_schema, ValidationError};

fn field(field_type: FieldType, indexed: bool, stored: bool, fast: bool, optional: bool) -> FieldDefinition {
    FieldDefinition { field_type, indexed, stored, fast, optional, default: None }
}

fn definition(
    timestamp_field: &str,
    partition: PartitionStrategy,
    retention: Option<&str>,
    fields: Vec<(String, FieldDefinition)>,
) -> IndexDefinition {
    IndexDefinition {
        name: "logs".to_string(),
        description: None,
        timestamp_field: timestamp_field.to_string(),
        mode: SchemaMode::Dynamic,
        partition,
        retention: retention.map(|r| r.to_string()),
        compression: CompressionOption::Zstd,
        fields,
        settings: Vec::new(),
    }
}

#[test]
fn index_definition_test_is_valid_retention() {
    assert!(is_valid_retention("7d"));
    assert!(is_valid_retention("14d"));
    assert!(is_valid_retention("1M"));
    assert!(is_valid_retention("12h"));

    assert!(!is_valid_retention("7"));
    assert!(!is_valid_retention("d"));
    assert!(!is_valid_retention("7days"));
    assert!(!is_valid_retention("-7d"));
}

#[test]
fn validation_test_is_valid_retention() {
    assert!(is_valid_retention("7d"));
    assert!(is_valid_retention("14d"));
    assert!(is_valid_retention("1M"));
    assert!(is_valid_retention("12h"));
    assert!(is_valid_retention("5y"));

    assert!(!is_valid_retention("7"));
    assert!(!is_valid_retention("d"));
    assert!(!is_valid_retention("7days"));
    assert!(!is_valid_retention("-7d"));
}

#[test]
fn test_validate_schema_missing_timestamp() {
    let def = definition("created_at", PartitionStrategy::Daily, None, Vec::new());
    let result = validate_schema(&def);
    assert!(matches!(
        result,
        Err(ValidationError::MissingTimestampField(f)) if f == "created_at"
    ));
}

#[test]
fn test_validate_schema_success() {
    let fields = vec![("timestamp".to_string(), field(FieldType::Datetime, true, false, true, false))];
    let def = definition("timestamp", PartitionStrategy::Daily, Some("30d"), fields);
    assert!(validate_schema(&def).is_ok());
}

#[test]
fn test_missing_timestamp_field_when_partitioned() {
    let fields = vec![("message".to_string(), field(FieldType::Text, true, false, false, false))];
    let def = definition("created_at", PartitionStrategy::Daily, None, fields);
    let result = def.validate();
    assert!(matches!(result, Err(ValidationError::MissingTimestampField(_))));
}

#[test]
fn validate_rejects_bad_retention() {
    let fields = vec![("timestamp".to_string(), field(FieldType::Datetime, true, false, true, false))];
    let def = definition("timestamp", PartitionStrategy::Daily, Some("7days"), fields);
    assert!(matches!(
        validate_schema(&def),
        Err(ValidationError::InvalidRetentionFormat(r)) if r == "7days"
    ));
}

#[test]
fn unpartitioned_index_needs_no_timestamp_field() {
    let def = definition("created_at", PartitionStrategy::Unpartitioned, Some("1w"), Vec::new());
    assert!(validate_schema(&def).is_ok());
}

#[test]
fn validation_error_messages() {
    assert_eq!(
        ValidationError::MissingTimestampField("ts".to_string()).message(),
        "timestamp field 'ts' is required for partitioning but missing from fields"
    );
    assert_eq!(
        ValidationError::InvalidRetentionFormat("x".to_string()).message(),
        "retention format invalid: x"
    );
}

#[test]
fn defaults_of_definition_enums() {
    assert_eq!(SchemaMode::default(), SchemaMode::Dynamic);
    assert_eq!(PartitionStrategy::default(), PartitionStrategy::Unpartitioned);
    assert_eq!(CompressionOption::default(), CompressionOption::Zstd);
    assert_eq!(default_timestamp_field(), "timestamp");
}

#[test]
fn test_build_schema_success() {
    let fields = vec![
        ("timestamp".to_string(), field(FieldType::Datetime, true, false, true, false)),
        ("message".to_string(), field(FieldType::Text, true, false, false, true)),
        ("status".to_string(), field(FieldType::Integer, true, true, true, true)),
    ];
    let mut def = definition("timestamp", PartitionStrategy::Daily, Some("7d"), fields);
    def.mode = SchemaMode::DropUnmapped;

    let schema = match build_schema(&def) {
        Ok(s) => s,
        Err(SchemaBuilderError::ValidationError(e)) => panic!("unexpected error: {e}"),
    };

    let _ = schema.get_field("timestamp").expect("failed to get field timestamp");
    let _ = schema.get_field("message").expect("failed to get field message");
    let _ = schema.get_field("status").expect("failed to get field status");
    let _ = schema.get_field("_source").expect("failed to get field _source");

    assert!(schema.get_field("timestamp").is_ok());
    assert!(schema.get_field("_source").is_ok());
}

#[test]
fn build_schema_lays_out_fields_in_order() {
    let fields = vec![
        ("a".to_string(), field(FieldType::Keyword, true, true, false, true)),
        ("b".to_string(), field(FieldType::Float, false, true, true, true)),
        ("c".to_string(), field(FieldType::Bytes, false, false, true, true)),
        ("d".to_string(), field(FieldType::Boolean, true, false, false, true)),
    ];
    let def = definition("ts", PartitionStrategy::Unpartitioned, None, fields);
    let schema = match build_schema(&def) {
        Ok(s) => s,
        Err(_) => panic!("building failed"),
    };
    let names: Vec<String> = schema.fields().map(|(_, e)| e.name().to_string()).collect();
    assert_eq!(names, vec!["a", "b", "c", "d", "_source", "_dynamic"]);
    let a = schema.get_field_entry(schema.get_field("a").unwrap());
    assert!(a.is_indexed());
    assert!(a.is_stored());
    let b = schema.get_field_entry(schema.get_field("b").unwrap());
    assert!(!b.is_indexed());
    assert!(b.is_fast());
    let src = schema.get_field_entry(schema.get_field("_source").unwrap());
    assert!(src.is_stored());
}

#[test]
fn field_layout_of_each_type() {
    let keyword = field_layout(&field(FieldType::Keyword, true, false, true, false));
    assert!(keyword == FieldLayout {
        kind: TantivyKind::Text,
        tokenization: Tokenization::Exact,
        indexed: true,
        stored: false,
        fast: true,
    });
    let text = field_layout(&field(FieldType::Text, false, true, false, false));
    assert!(text.kind == TantivyKind::Text && text.tokenization == Tokenization::FullText);
    assert!(!text.indexed && text.stored && !text.fast);
    assert!(field_layout(&field(FieldType::Datetime, true, true, true, true)).kind == TantivyKind::Date);
    assert!(field_layout(&field(FieldType::Integer, true, true, true, true)).kind == TantivyKind::I64);
    assert!(field_layout(&field(FieldType::Float, true, true, true, true)).kind == TantivyKind::F64);
    assert!(field_layout(&field(FieldType::Boolean, true, true, true, true)).kind == TantivyKind::Bool);
    assert!(field_layout(&field(FieldType::Bytes, true, true, true, true)).kind == TantivyKind::Bytes);
}

#[test]
fn definition_copy_keeps_everything() {
    let mut f = field(FieldType::Keyword, true, false, false, true);
    f.default = Some(JsonValue::String("INFO".to_string()));
    let def = definition("timestamp", PartitionStrategy::Hourly, Some("12h"), vec![("level".to_string(), f)]);
    let copy = def.clone();
    assert_eq!(copy.name, "logs");
    assert_eq!(copy.retention, Some("12h".to_string()));
    assert_eq!(copy.partition, PartitionStrategy::Hourly);
    assert_eq!(copy.fields.len(), 1);
    assert_eq!(copy.fields[0].0, "level");
    assert!(matches!(&copy.fields[0].1.default, Some(JsonValue::String(s)) if s == "INFO"));
}

#[test]
fn build_schema_gives_each_field_its_type_and_options() {
    let fields = vec![
        ("msg".to_string(), field(FieldType::Text, true, false, false, true)),
        ("lvl".to_string(), field(FieldType::Keyword, true, false, true, true)),
        ("at".to_string(), field(FieldType::Datetime, true, false, true, true)),
        ("n".to_string(), field(FieldType::Integer, false, true, false, true)),
        ("x".to_string(), field(FieldType::Float, true, false, false, true)),
        ("ok".to_string(), field(FieldType::Boolean, false, false, true, true)),
        ("raw".to_string(), field(FieldType::Bytes, false, true, false, true)),
    ];
    let def = definition("at", PartitionStrategy::Daily, None, fields);
    let schema = match build_schema(&def) {
        Ok(s) => s,
        Err(_) => panic!("building failed"),
    };
    let entry = |n: &str| schema.get_field_entry(schema.get_field(n).unwrap()).clone();
    assert_eq!(entry("msg").field_type().value_type(), Type::Str);
    assert_eq!(entry("lvl").field_type().value_type(), Type::Str);
    assert_eq!(entry("at").field_type().value_type(), Type::Date);
    assert_eq!(entry("n").field_type().value_type(), Type::I64);
    assert_eq!(entry("x").field_type().value_type(), Type::F64);
    assert_eq!(entry("ok").field_type().value_type(), Type::Bool);
    assert_eq!(entry("raw").field_type().value_type(), Type::Bytes);
    assert_eq!(entry("_source").field_type().value_type(), Type::Json);
    match entry("msg").field_type() {
        TFieldType::Str(o) => {
            let ix = o.get_indexing_options().unwrap();
            assert_eq!(ix.tokenizer(), "default");
            assert_eq!(ix.index_option(), IndexRecordOption::WithFreqsAndPositions);
        }
        _ => panic!("msg must be text"),
    }
    match entry("lvl").field_type() {
        TFieldType::Str(o) => {
            let ix = o.get_indexing_options().unwrap();
            assert_eq!(ix.tokenizer(), "raw");
            assert_eq!(ix.index_option(), IndexRecordOption::Basic);
            assert!(o.is_fast());
        }
        _ => panic!("lvl must be text"),
    }
    assert!(entry("n").is_stored() && !entry("n").is_indexed());
    assert!(entry("x").is_indexed() && !entry("x").is_fast());
    assert!(entry("ok").is_fast() && !entry("ok").is_stored());
    assert!(entry("at").is_indexed() && entry("at").is_fast());
    assert!(entry("_source").is_stored() && !entry("_source").is_indexed());
}

#[test]
fn dynamic_mode_adds_catch_all_text_field() {
    let fields = vec![("timestamp".to_string(), field(FieldType::Datetime, true, false, true, false))];
    let mut def = definition("timestamp", PartitionStrategy::Daily, None, fields);
    def.mode = SchemaMode::Dynamic;
    let schema = match build_schema(&def) {
        Ok(s) => s,
        Err(_) => panic!("building failed"),
    };
    let dynamic = schema.get_field_entry(schema.get_field("_dynamic").unwrap()).clone();
    match dynamic.field_type() {
        TFieldType::Str(o) => {
            let ix = o.get_indexing_options().unwrap();
            assert_eq!(ix.tokenizer(), "default");
            assert_eq!(ix.index_option(), IndexRecordOption::WithFreqsAndPositions);
            assert!(!o.is_stored());
        }
        _ => panic!("_dynamic must be text"),
    }
    for mode in [SchemaMode::Strict, SchemaMode::DropUnmapped] {
        def.mode = mode;
        let schema = match build_schema(&def) {
            Ok(s) => s,
            Err(_) => panic!("building failed"),
        };
        assert!(schema.get_field("_dynamic").is_err());
    }
}
