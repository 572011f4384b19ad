use rocketmq::schema::catalog::{CompatibilityLevel, SchemaCompileError, SchemaRegistryError};
use rocketmq::schema::compat::RegisteredField;
use rocketmq::schema::fields::ProtoKind;
use rocketmq::schema::registry::SchemaRegistry;

const PROTO_V1: &str = r#"
        syntax = "proto3";
        message Order {
            string id = 1;
            int32 quantity = 2;
        }
    "#;

const PROTO_V2_COMPAT: &str = r#"
        syntax = "proto3";
        message Order {
            string id = 1;
            int32 quantity = 2;
            string note = 3;
        }
    "#;

const PROTO_V2_BREAKING: &str = r#"
        syntax = "proto3";
        message Order {
            string id = 1;
        }
    "#;

fn field(number: u32, name: &str, kind: ProtoKind, label: &str) -> RegisteredField {
    RegisteredField {
        number,
        name: name.to_string(),
        kind,
        message_type: String::new(),
        kind_label: label.to_string(),
    }
}

/// The fields that compiling `PROTO_V1` gives.
fn v1_fields() -> Vec<RegisteredField> {
    vec![field(1, "id", ProtoKind::String, "String"), field(2, "quantity", ProtoKind::Int32, "Int32")]
}

/// The fields that compiling `PROTO_V2_COMPAT` gives.
fn v2_compat_fields() -> Vec<RegisteredField> {
    vec![
        field(1, "id", ProtoKind::String, "String"),
        field(2, "quantity", ProtoKind::Int32, "Int32"),
        field(3, "note", ProtoKind::String, "String"),
    ]
}

/// The fields that compiling `PROTO_V2_BREAKING` gives.
fn v2_breaking_fields() -> Vec<RegisteredField> {
    vec![field(1, "id", ProtoKind::String, "String")]
}

fn register(
    reg: &mut SchemaRegistry,
    subject: &str,
    schema: &str,
    fields: Vec<RegisteredField>,
) -> Result<u64, SchemaRegistryError> {
    reg.register(subject, schema, "Order", Ok(fields))
}

#[test]
fn register_and_lookup() {
    let mut reg = SchemaRegistry::new();
    let id = register(&mut reg, "orders-value", PROTO_V1, v1_fields()).unwrap();
    assert!(id > 0);

    let entry = reg.get_by_id(id).unwrap();
    assert_eq!(entry.subject, "orders-value");
    assert_eq!(entry.version, 1);
    assert_eq!(entry.message_name, "Order");
}

#[test]
fn deduplication() {
    let mut reg = SchemaRegistry::new();
    let id1 = register(&mut reg, "orders-value", PROTO_V1, v1_fields()).unwrap();
    let id2 = register(&mut reg, "orders-value", PROTO_V1, v1_fields()).unwrap();
    assert_eq!(id1, id2);
}

#[test]
fn versioning() {
    let mut reg = SchemaRegistry::new();
    register(&mut reg, "orders-value", PROTO_V1, v1_fields()).unwrap();
    register(&mut reg, "orders-value", PROTO_V2_COMPAT, v2_compat_fields()).unwrap();

    let versions = reg.list_versions("orders-value").unwrap();
    assert_eq!(versions, vec![1, 2]);

    let latest = reg.get_latest("orders-value").unwrap();
    assert_eq!(latest.version, 2);
}

#[test]
fn backward_compat_rejects_field_removal() {
    let mut reg = SchemaRegistry::new();
    reg.set_global_compat(CompatibilityLevel::Backward);
    register(&mut reg, "orders-value", PROTO_V1, v1_fields()).unwrap();

    let err = register(&mut reg, "orders-value", PROTO_V2_BREAKING, v2_breaking_fields()).unwrap_err();
    assert!(
        matches!(err, SchemaRegistryError::IncompatibleSchema(_)),
        "Expected IncompatibleSchema, got: {:?}",
        err
    );
}

#[test]
fn none_compat_allows_breaking_change() {
    let mut reg = SchemaRegistry::new();
    reg.set_global_compat(CompatibilityLevel::NoCheck);
    register(&mut reg, "orders-value", PROTO_V1, v1_fields()).unwrap();
    register(&mut reg, "orders-value", PROTO_V2_BREAKING, v2_breaking_fields()).unwrap();
}

#[test]
fn subject_compat_overrides_global() {
    let mut reg = SchemaRegistry::new();
    reg.set_global_compat(CompatibilityLevel::Full);
    reg.set_subject_compat("lax-subject", CompatibilityLevel::NoCheck);

    register(&mut reg, "lax-subject", PROTO_V1, v1_fields()).unwrap();
    register(&mut reg, "lax-subject", PROTO_V2_BREAKING, v2_breaking_fields()).unwrap();
}

#[test]
fn soft_delete_version() {
    let mut reg = SchemaRegistry::new();
    register(&mut reg, "orders-value", PROTO_V1, v1_fields()).unwrap();
    register(&mut reg, "orders-value", PROTO_V2_COMPAT, v2_compat_fields()).unwrap();

    assert!(reg.delete_version("orders-value", 1));
    let versions = reg.list_versions("orders-value").unwrap();
    assert_eq!(versions, vec![2]);
}

#[test]
fn soft_delete_subject() {
    let mut reg = SchemaRegistry::new();
    register(&mut reg, "orders-value", PROTO_V1, v1_fields()).unwrap();
    let deleted = reg.delete_subject("orders-value");
    assert_eq!(deleted, vec![1]);
    assert!(reg.list_subjects().is_empty());
}

#[test]
fn list_subjects() {
    let mut reg = SchemaRegistry::new();
    register(&mut reg, "a-value", PROTO_V1, v1_fields()).unwrap();
    register(&mut reg, "b-value", PROTO_V1, v1_fields()).unwrap();
    let mut subjects = reg.list_subjects();
    subjects.sort();
    assert_eq!(subjects, vec!["a-value", "b-value"]);
}

#[test]
fn incompatible_message_names_the_removed_field() {
    let mut reg = SchemaRegistry::new();
    register(&mut reg, "orders-value", PROTO_V1, v1_fields()).unwrap();
    let err = register(&mut reg, "orders-value", PROTO_V2_BREAKING, v2_breaking_fields()).unwrap_err();
    match err {
        SchemaRegistryError::IncompatibleSchema(m) => {
            assert_eq!(m, "Field 'quantity' (number 2) was removed")
        }
        other => panic!("unexpected {:?}", other),
    }
}

#[test]
fn changed_type_is_incompatible_under_full() {
    let mut reg = SchemaRegistry::new();
    reg.set_global_compat(CompatibilityLevel::Full);
    register(&mut reg, "orders-value", PROTO_V1, v1_fields()).unwrap();
    let changed = vec![field(1, "id", ProtoKind::String, "String"), field(2, "quantity", ProtoKind::Int64, "Int64")];
    let err = register(&mut reg, "orders-value", PROTO_V2_COMPAT, changed).unwrap_err();
    match err {
        SchemaRegistryError::IncompatibleSchema(m) => {
            assert_eq!(m, "Field 'quantity' (number 2) changed type from Int32 to Int64")
        }
        other => panic!("unexpected {:?}", other),
    }
}

#[test]
fn forward_compat_rejects_added_field() {
    let mut reg = SchemaRegistry::new();
    reg.set_global_compat(CompatibilityLevel::Forward);
    register(&mut reg, "orders-value", PROTO_V1, v1_fields()).unwrap();
    let err = register(&mut reg, "orders-value", PROTO_V2_COMPAT, v2_compat_fields()).unwrap_err();
    assert!(matches!(err, SchemaRegistryError::IncompatibleSchema(_)));
    assert_eq!(reg.list_versions("orders-value").unwrap(), vec![1]);
}

#[test]
fn compile_error_is_reported() {
    let mut reg = SchemaRegistry::new();
    let r = reg.register(
        "orders-value",
        "syntax = proto3; message X {}",
        "X",
        Err(SchemaCompileError::CompilationFailed("bad".to_string())),
    );
    assert!(matches!(r, Err(SchemaRegistryError::CompileError(_))));
    assert!(reg.list_versions("orders-value").is_none());
}

#[test]
fn versions_continue_after_deletion() {
    let mut reg = SchemaRegistry::new();
    register(&mut reg, "orders-value", PROTO_V1, v1_fields()).unwrap();
    reg.delete_subject("orders-value");
    register(&mut reg, "orders-value", PROTO_V2_COMPAT, v2_compat_fields()).unwrap();
    assert_eq!(reg.list_versions("orders-value").unwrap(), vec![2]);
    assert!(reg.get_version("orders-value", 1).is_none());
    assert_eq!(reg.get_version("orders-value", 2).unwrap().schema_str, PROTO_V2_COMPAT);
}

#[test]
fn recovered_entries_keep_ids_and_move_the_counter() {
    let mut reg = SchemaRegistry::new();
    reg.register_recovered(7, "orders-value", 3, PROTO_V1.to_string(), "Order".to_string(), v1_fields());
    assert_eq!(reg.get_by_id(7).unwrap().version, 3);
    let id = register(&mut reg, "orders-value", PROTO_V2_COMPAT, v2_compat_fields()).unwrap();
    assert_eq!(id, 8);
    assert_eq!(reg.get_latest("orders-value").unwrap().version, 4);
    assert_eq!(reg.list_all().len(), 2);
}

#[test]
fn unknown_subject_has_no_versions() {
    let reg = SchemaRegistry::new();
    assert!(reg.list_versions("nope").is_none());
    assert!(reg.get_latest("nope").is_none());
    assert!(!SchemaRegistry::new().delete_version("nope", 1));
    assert_eq!(reg.effective_compat("nope"), CompatibilityLevel::Backward);
}
