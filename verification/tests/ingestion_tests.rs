use edgewit::ingestion::validation::{validate_and_process_document, IngestionValidationError};
use edgewit::json::{JsonNumber, JsonValue};
use edgewit::schema::definition::{
    CompressionOption, FieldDefinition, FieldType, IndexDefinition, PartitionStrategy, SchemaMode,
};

fn s(v: &str) -> JsonValue {
    JsonValue::String(v.to_string())
}

fn num(v: u64) -> JsonValue {
    JsonValue::Number(JsonNumber::PosInt(v))
}

fn obj(entries: Vec<(&str, JsonValue)>) -> JsonValue {
    JsonValue::Object(entries.into_iter().map(|(k, v)| (k.to_string(), v)).collect())
}

fn create_test_definition(mode: SchemaMode) -> IndexDefinition {
    let fields = vec![
        (
            "timestamp".to_string(),
            FieldDefinition {
                field_type: FieldType::Datetime,
                indexed: true,
                stored: false,
                fast: true,
                optional: false,
                default: None,
            },
        ),
        (
            "level".to_string(),
            FieldDefinition {
                field_type: FieldType::Keyword,
                indexed: true,
                stored: false,
                fast: false,
                optional: true,
                default: Some(s("INFO")),
            },
        ),
        (
            "status".to_string(),
            FieldDefinition {
                field_type: FieldType::Integer,
                indexed: true,
                stored: false,
                fast: false,
                optional: false,
                default: None,
            },
        ),
    ];
    IndexDefinition {
        name: "logs".to_string(),
        description: None,
        timestamp_field: "timestamp".to_string(),
        mode,
        partition: PartitionStrategy::Unpartitioned,
        retention: None,
        compression: CompressionOption::Zstd,
        fields,
        settings: Vec::new(),
    }
}

fn str_of(v: Option<&JsonValue>) -> Option<&str> {
    match v {
        Some(JsonValue::String(s)) => Some(s.as_str()),
        _ => None,
    }
}

#[test]
fn test_valid_document() {
    let def = create_test_definition(SchemaMode::Strict);
    let doc = obj(vec![("timestamp", s("2023-01-01T12:00:00Z")), ("level", s("ERROR")), ("status", num(200))]);
    let result = validate_and_process_document(&def, doc);
    assert!(result.is_ok());
}

#[test]
fn test_missing_required_field() {
    let def = create_test_definition(SchemaMode::Strict);
    let doc = obj(vec![("level", s("ERROR")), ("status", num(200))]);
    let result = validate_and_process_document(&def, doc);
    assert!(matches!(
        result,
        Err(IngestionValidationError::MissingRequiredField(f)) if f == "timestamp"
    ));
}

#[test]
fn test_default_value_application() {
    let def = create_test_definition(SchemaMode::Strict);
    let doc = obj(vec![("timestamp", num(1672574400)), ("status", num(500))]);
    let result = match validate_and_process_document(&def, doc) {
        Ok(v) => v,
        Err(_) => panic!("document refused"),
    };
    assert_eq!(str_of(result.get("level")).unwrap(), "INFO");
}

#[test]
fn test_strict_mode_rejects_unknown() {
    let def = create_test_definition(SchemaMode::Strict);
    let doc = obj(vec![("timestamp", s("2023-01-01T12:00:00Z")), ("status", num(200)), ("extra_field", s("hello"))]);
    let result = validate_and_process_document(&def, doc);
    assert!(matches!(
        result,
        Err(IngestionValidationError::UnknownField(f)) if f == "extra_field"
    ));
}

#[test]
fn test_drop_unmapped_mode() {
    let def = create_test_definition(SchemaMode::DropUnmapped);
    let doc = obj(vec![("timestamp", s("2023-01-01T12:00:00Z")), ("status", num(200)), ("extra_field", s("hello"))]);
    let result = match validate_and_process_document(&def, doc) {
        Ok(v) => v,
        Err(_) => panic!("document refused"),
    };
    assert!(result.get("extra_field").is_none());
    assert!(result.get("timestamp").is_some());
}

#[test]
fn test_dynamic_mode_allows_unknown() {
    let def = create_test_definition(SchemaMode::Dynamic);
    let doc = obj(vec![("timestamp", s("2023-01-01T12:00:00Z")), ("status", num(200)), ("extra_field", s("hello"))]);
    let result = match validate_and_process_document(&def, doc) {
        Ok(v) => v,
        Err(_) => panic!("document refused"),
    };
    assert!(result.get("extra_field").is_some());
    assert_eq!(str_of(result.get("extra_field")).unwrap(), "hello");
}

#[test]
fn test_type_mismatch() {
    let def = create_test_definition(SchemaMode::Strict);
    let doc = obj(vec![("timestamp", s("2023-01-01T12:00:00Z")), ("status", s("not an integer"))]);
    let result = validate_and_process_document(&def, doc);
    assert!(matches!(
        result,
        Err(IngestionValidationError::TypeMismatch { field, .. }) if field == "status"
    ));
}

#[test]
fn non_object_document_is_refused() {
    let def = create_test_definition(SchemaMode::Dynamic);
    assert!(matches!(
        validate_and_process_document(&def, s("just text")),
        Err(IngestionValidationError::NotAnObject)
    ));
}

#[test]
fn null_required_field_counts_as_missing() {
    let def = create_test_definition(SchemaMode::Strict);
    let doc = obj(vec![("timestamp", JsonValue::Null), ("status", num(1))]);
    assert!(matches!(
        validate_and_process_document(&def, doc),
        Err(IngestionValidationError::MissingRequiredField(f)) if f == "timestamp"
    ));
}

#[test]
fn ingestion_error_messages() {
    assert_eq!(IngestionValidationError::NotAnObject.message(), "document must be a json object");
    assert_eq!(
        IngestionValidationError::UnknownField("x".to_string()).message(),
        "unknown field 'x' is not allowed in strict mode"
    );
    assert_eq!(
        IngestionValidationError::MissingRequiredField("y".to_string()).message(),
        "missing required field 'y'"
    );
    assert_eq!(
        IngestionValidationError::TypeMismatch { field: "z".to_string(), expected_type: FieldType::Integer }.message(),
        "type mismatch for field 'z': expected Integer"
    );
}
