use relay::schema::{RelayField, RelaySchema};
use relay::types::RelayType;

fn sample_schema() -> RelaySchema {
    RelaySchema::new(vec![
        RelayField::new("name", RelayType::Utf8).with_nullable(false),
        RelayField::new("age", RelayType::Int32),
        RelayField::new("salary", RelayType::Float64),
        RelayField::new("active", RelayType::Boolean),
    ])
    .unwrap()
}

#[test]
fn test_schema_creation() {
    let schema = sample_schema();
    assert_eq!(schema.len(), 4);
    assert!(!schema.is_empty());
}

#[test]
fn test_field_access() {
    let schema = sample_schema();
    let f = schema.field(0).unwrap();
    assert_eq!(f.name, "name");
    assert_eq!(f.dtype, RelayType::Utf8);
    assert!(!f.nullable);
}

#[test]
fn test_field_by_name() {
    let schema = sample_schema();
    let f = schema.field_by_name("age").unwrap();
    assert_eq!(f.dtype, RelayType::Int32);
    assert!(f.nullable);
}

#[test]
fn test_column_index() {
    let schema = sample_schema();
    assert_eq!(schema.column_index("name").unwrap(), 0);
    assert_eq!(schema.column_index("salary").unwrap(), 2);
    assert!(schema.column_index("nonexistent").is_err());
}

#[test]
fn test_duplicate_column_error() {
    let result = RelaySchema::new(vec![
        RelayField::new("id", RelayType::Int32),
        RelayField::new("id", RelayType::Utf8),
    ]);
    assert!(result.is_err());
    assert!(result.unwrap_err().to_string().contains("duplicate"));
}

#[test]
fn test_project() {
    let schema = sample_schema();
    let projected = schema.project(&["name", "salary"]).unwrap();
    assert_eq!(projected.len(), 2);
    assert_eq!(projected.field(0).unwrap().name, "name");
    assert_eq!(projected.field(1).unwrap().name, "salary");
}

#[test]
fn test_project_invalid_column() {
    let schema = sample_schema();
    assert!(schema.project(&["name", "nonexistent"]).is_err());
}

#[test]
fn test_contains() {
    let schema = sample_schema();
    assert!(schema.contains("name"));
    assert!(!schema.contains("nonexistent"));
}

#[test]
fn test_field_names() {
    let schema = sample_schema();
    assert_eq!(schema.field_names(), vec!["name", "age", "salary", "active"]);
}

#[test]
fn test_empty_schema() {
    let schema = RelaySchema::new(vec![]).unwrap();
    assert!(schema.is_empty());
    assert_eq!(schema.len(), 0);
}

#[test]
fn test_oob_field_access() {
    let schema = sample_schema();
    let result = schema.field(10);
    assert!(result.is_err());
    assert!(result.unwrap_err().to_string().contains("out of bounds"));
}

#[test]
fn test_field_metadata() {
    let field = RelayField::new("score", RelayType::Float64)
        .with_metadata("description", "test score 0-100")
        .with_metadata("source", "exam_system");
    assert_eq!(field.metadata.get("description").unwrap(), "test score 0-100");
    assert_eq!(field.metadata.get("source").unwrap(), "exam_system");
}

#[test]
fn error_messages_name_the_column() {
    let schema = sample_schema();
    assert_eq!(
        schema.column_index("zip").unwrap_err().to_string(),
        "Schema error: column not found: zip. Available: [\"name\", \"age\", \"salary\", \"active\"]"
    );
    let dup = RelaySchema::new(vec![
        RelayField::new("a", RelayType::Int32),
        RelayField::new("b", RelayType::Int32),
        RelayField::new("b", RelayType::Int32),
        RelayField::new("a", RelayType::Int32),
    ]);
    assert_eq!(dup.unwrap_err().to_string(), "Schema error: duplicate column name: b");
    assert_eq!(
        schema.field(10).unwrap_err().to_string(),
        "Index out of bounds: index 10 but len is 4"
    );
}

#[test]
fn project_keeps_order_copies_fields_and_rejects_repeats() {
    let schema = sample_schema();
    let p = schema.project(&["active", "name"]).unwrap();
    assert_eq!(p.field_names(), vec!["active", "name"]);
    assert!(!p.field(1).unwrap().nullable);
    assert_eq!(p.field(0).unwrap().dtype, RelayType::Boolean);
    let err = schema.project(&["age", "age"]).unwrap_err();
    assert_eq!(err.to_string(), "Schema error: duplicate column name: age");
    let missing = schema.project(&["nope", "age", "age"]).unwrap_err();
    assert!(missing.to_string().contains("column not found: nope"));
}

#[test]
fn metadata_replaces_values_and_clone_keeps_them() {
    let field = RelayField::new("x", RelayType::Int64)
        .with_metadata("k", "v1")
        .with_metadata("k", "v2")
        .with_metadata("j", "w");
    assert_eq!(field.metadata.len(), 2);
    assert_eq!(field.metadata.get("k").unwrap(), "v2");
    assert!(field.metadata.get("missing").is_none());
    let copy = field.clone();
    assert_eq!(copy.metadata.get("j").unwrap(), "w");
    assert!(copy.metadata.contains_key("k"));
    let schema = RelaySchema::new(vec![field]).unwrap();
    assert!(schema.metadata().is_empty());
    assert_eq!(schema.fields().len(), 1);
}
