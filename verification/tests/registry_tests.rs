use edgewit::registry::{IndexRegistry, RegistryError};
use edgewit::schema::definition::{
    CompressionOption, FieldDefinition, FieldType, IndexDefinition, PartitionStrategy, SchemaMode,
};
use edgewit::schema::validation::ValidationError;

fn create_test_definition(name: &str) -> IndexDefinition {
    let fields = vec![(
        "timestamp".to_string(),
        FieldDefinition {
            field_type: FieldType::Datetime,
            indexed: true,
            stored: false,
            fast: true,
            optional: false,
            default: None,
        },
    )];
    IndexDefinition {
        name: name.to_string(),
        description: None,
        timestamp_field: "timestamp".to_string(),
        mode: SchemaMode::Dynamic,
        partition: PartitionStrategy::Daily,
        retention: Some("7d".to_string()),
        compression: CompressionOption::Zstd,
        fields,
        settings: Vec::new(),
    }
}

#[test]
fn test_registry_crud() {
    let mut registry = IndexRegistry::new();
    let def1 = create_test_definition("logs");
    let def2 = create_test_definition("metrics");

    // Register
    assert!(registry.register(def1.clone()).is_ok());
    assert!(registry.register(def2.clone()).is_ok());

    // Duplicate registration should fail
    assert!(matches!(
        registry.register(def1.clone()),
        Err(RegistryError::AlreadyExists(_))
    ));

    // Get
    let retrieved = registry.get("logs").unwrap();
    assert_eq!(retrieved.name, "logs");
    assert!(registry.get("nonexistent").is_none());

    // List
    let list = registry.list();
    assert_eq!(list.len(), 2);

    // Remove
    let removed = registry.remove("logs").unwrap();
    assert_eq!(removed.name, "logs");
    assert!(registry.get("logs").is_none());

    // Remove nonexistent
    assert!(matches!(registry.remove("logs"), Err(RegistryError::NotFound(_))));
}

#[test]
fn register_refuses_invalid_definition() {
    let mut registry = IndexRegistry::new();
    let mut def = create_test_definition("logs");
    def.retention = Some("forever".to_string());
    assert!(matches!(
        registry.register(def),
        Err(RegistryError::ValidationError(ValidationError::InvalidRetentionFormat(r))) if r == "forever"
    ));
    assert!(registry.list().is_empty());
}

#[test]
fn upsert_replaces_and_is_idempotent() {
    let mut registry = IndexRegistry::new();
    assert!(registry.upsert(create_test_definition("logs")).is_ok());
    let mut changed = create_test_definition("logs");
    changed.retention = Some("30d".to_string());
    assert!(registry.upsert(changed.clone()).is_ok());
    assert!(registry.upsert(changed).is_ok());
    assert_eq!(registry.list().len(), 1);
    assert_eq!(registry.get("logs").unwrap().retention, Some("30d".to_string()));
}

#[test]
fn remove_undoes_register() {
    let mut registry = IndexRegistry::new();
    assert!(registry.register(create_test_definition("metrics")).is_ok());
    assert!(registry.register(create_test_definition("logs")).is_ok());
    assert!(registry.remove("logs").is_ok());
    let names: Vec<String> = registry.list().into_iter().map(|d| d.name).collect();
    assert_eq!(names, vec!["metrics".to_string()]);
}

#[test]
fn registry_error_messages() {
    assert_eq!(RegistryError::AlreadyExists("a".to_string()).message(), "index 'a' already exists");
    assert_eq!(RegistryError::NotFound("b".to_string()).message(), "index 'b' not found");
    assert_eq!(
        RegistryError::ValidationError(ValidationError::InvalidRetentionFormat("x".to_string())).message(),
        "validation error: retention format invalid: x"
    );
}
