use rocketmq::schema::catalog::{
    advance_id_counter, alloc_schema_id, CompatibilityLevel, SchemaFormat, SchemaIdCounter,
    SchemaResponse,
};
use rocketmq::schema::error::{reply_fields_kept, to_broker_error, ErrorCode};
use rocketmq::schema::validate::{is_protobuf_content, FieldTypeMismatch, SchemaValidationError};
use rocketmq::schema::wire::{decode_prefix, encode_prefix, has_wire_prefix};

#[test]
fn to_broker_error_extra_fields() {
    let validation = SchemaValidationError::ConsumerExtraFields {
        fields: vec!["email".into(), "phone".into()],
    };
    let broker_err = to_broker_error("users", &validation);
    assert_eq!(broker_err.code, ErrorCode::SchemaExtraFields);
    assert_eq!(broker_err.fields.len(), 2);
    assert_eq!(broker_err.fields[0].name, "email");
}

#[test]
fn to_broker_error_missing_fields() {
    let validation = SchemaValidationError::MissingFields { fields: vec!["age".into()] };
    let broker_err = to_broker_error("users", &validation);
    assert_eq!(broker_err.code, ErrorCode::SchemaMissingFields);
    assert_eq!(broker_err.fields.len(), 1);
}

#[test]
fn to_broker_error_schema_conflict() {
    let validation = SchemaValidationError::SchemaConflict {
        differences: vec!["field 'age': type Int32 vs String".into()],
    };
    let broker_err = to_broker_error("orders", &validation);
    assert_eq!(broker_err.code, ErrorCode::SchemaConflict);
    assert!(broker_err.fields.is_empty());
}

#[test]
fn to_broker_error_invalid_json() {
    let validation = SchemaValidationError::InvalidJson("unexpected token".into());
    let broker_err = to_broker_error("q", &validation);
    assert_eq!(broker_err.code, ErrorCode::ValidationInvalidJson);
}

#[test]
fn to_broker_error_type_mismatch() {
    let validation = SchemaValidationError::TypeMismatch {
        errors: vec![FieldTypeMismatch {
            field_name: "id".into(),
            queue_kind: "double".into(),
            got_kind: "string".into(),
        }],
    };
    let broker_err = to_broker_error("test-queue", &validation);
    assert_eq!(broker_err.code, ErrorCode::SchemaTypeMismatch);
    assert_eq!(broker_err.queue, "test-queue");
    assert_eq!(broker_err.fields.len(), 1);
    assert_eq!(broker_err.fields[0].name, "id");
    assert_eq!(broker_err.fields[0].expected, "double");
    assert_eq!(broker_err.fields[0].got, "string");
    assert!(!broker_err.truncated);
}

#[test]
fn reply_text_truncation_choice() {
    assert_eq!(reply_fields_kept(&[40, 100, 200]), 2);
    assert_eq!(reply_fields_kept(&[40, 100, 300]), 1);
    assert_eq!(reply_fields_kept(&[40, 256, 300]), 0);
    assert_eq!(reply_fields_kept(&[40]), 0);
}

#[test]
fn test_is_protobuf_content() {
    assert!(is_protobuf_content(&Some("application/protobuf".to_string())));
    assert!(is_protobuf_content(&Some("application/x-protobuf".to_string())));
    assert!(is_protobuf_content(&Some("application/vnd.company.user+protobuf".to_string())));
    assert!(!is_protobuf_content(&Some("application/json".to_string())));
    assert!(!is_protobuf_content(&None));
}

#[test]
fn consumer_extra_fields_display() {
    let err = SchemaValidationError::ConsumerExtraFields {
        fields: vec!["email".to_string(), "phone".to_string()],
    };
    let msg = err.message();
    assert!(msg.contains("email"));
    assert!(msg.contains("phone"));
    assert_eq!(msg, "Consumer schema has fields not in queue schema: [email, phone]");
}

#[test]
fn validation_messages() {
    assert_eq!(
        SchemaValidationError::TrailingBytes { unconsumed_len: 12 }.message(),
        "Protobuf payload contains 12 trailing, unconsumed bytes"
    );
    assert_eq!(
        SchemaValidationError::WrongContentType { got: None }.message(),
        "Message properties have invalid content_type: 'None'. Must contain 'protobuf'."
    );
    assert_eq!(
        SchemaValidationError::WrongContentType { got: Some("text/plain".into()) }.message(),
        "Message properties have invalid content_type: 'Some(\"text/plain\")'. Must contain 'protobuf'."
    );
}

#[test]
fn test_alloc_schema_id() {
    let mut counter = SchemaIdCounter::new();
    let id1 = alloc_schema_id(&mut counter);
    let id2 = alloc_schema_id(&mut counter);
    assert!(id2 > id1);
}

#[test]
fn advance_never_moves_back() {
    let mut counter = SchemaIdCounter::new();
    advance_id_counter(&mut counter, 10);
    assert_eq!(alloc_schema_id(&mut counter), 10);
    advance_id_counter(&mut counter, 3);
    assert_eq!(alloc_schema_id(&mut counter), 11);
}

#[test]
fn schema_catalog_values() {
    assert_eq!(CompatibilityLevel::default(), CompatibilityLevel::Backward);
    let r = SchemaResponse::new(1, "s".into(), 2, SchemaFormat::Protobuf, "x".into(), "M".into());
    assert_eq!(r.schema_type, "PROTOBUF");
}

#[test]
fn roundtrip() {
    let prefix = encode_prefix(12345);
    let mut msg = prefix.to_vec();
    msg.extend_from_slice(b"proto-payload");
    let (id, payload) = decode_prefix(&msg).unwrap();
    assert_eq!(id, 12345);
    assert_eq!(payload, b"proto-payload");
}

#[test]
fn too_short() {
    assert!(decode_prefix(&[0x00, 1, 2]).is_none());
}

#[test]
fn wrong_magic() {
    assert!(decode_prefix(&[0xFF, 0, 0, 0, 1, 10]).is_none());
}

#[test]
fn has_prefix_check() {
    assert!(has_wire_prefix(&encode_prefix(1)));
    assert!(!has_wire_prefix(&[0xFF, 0, 0, 0, 1]));
    assert!(!has_wire_prefix(&[0x00, 1]));
}

#[test]
fn zero_id() {
    let buf = encode_prefix(0);
    let (id, payload) = decode_prefix(&buf).unwrap();
    assert_eq!(id, 0);
    assert!(payload.is_empty());
}

#[test]
fn max_id() {
    let (id, _) = decode_prefix(&encode_prefix(u32::MAX)).unwrap();
    assert_eq!(id, u32::MAX);
}

use rocketmq::schema::fields::{check_json_members,
    check_consumer_subset, json_type_name, proto_kind_name, validate_json_fields, JsonType,
    ProtoKind, SchemaField,
};

fn field(name: &str, kind: ProtoKind) -> SchemaField {
    SchemaField { name: name.to_string(), kind }
}

/// The fields of `message UserCreated { string name = 1; int32 age = 2; }`.
fn user_created() -> Vec<SchemaField> {
    vec![field("name", ProtoKind::String), field("age", ProtoKind::Int32)]
}

#[test]
fn proto_kind_name_returns_lowercase() {
    assert_eq!(proto_kind_name(ProtoKind::Double), "double");
    assert_eq!(proto_kind_name(ProtoKind::Int32), "int32");
    assert_eq!(proto_kind_name(ProtoKind::String), "string");
    assert_eq!(proto_kind_name(ProtoKind::Bool), "bool");
    assert_eq!(proto_kind_name(ProtoKind::Bytes), "bytes");
    assert_eq!(proto_kind_name(ProtoKind::Float), "float");
    assert_eq!(proto_kind_name(ProtoKind::Int64), "int64");
    assert_eq!(proto_kind_name(ProtoKind::Uint32), "uint32");
}

#[test]
fn json_with_all_fields_passes() {
    let body = br#"{"name":"Alice","age":30}"#;
    assert!(validate_json_fields(&user_created(), body).is_ok());
}

#[test]
fn json_missing_field_returns_error() {
    let body = br#"{"name":"Alice"}"#;
    match validate_json_fields(&user_created(), body).unwrap_err() {
        SchemaValidationError::MissingFields { fields } => assert_eq!(fields, vec!["age"]),
        other => panic!("Expected MissingFields, got: {}", other.message()),
    }
}

#[test]
fn json_missing_all_fields_lists_them() {
    match validate_json_fields(&user_created(), br#"{}"#).unwrap_err() {
        SchemaValidationError::MissingFields { fields } => {
            assert!(fields.contains(&"name".to_string()));
            assert!(fields.contains(&"age".to_string()));
        }
        other => panic!("Expected MissingFields, got: {}", other.message()),
    }
}

#[test]
fn json_wrong_type_rejected() {
    let body = br#"{"name":"Alice","age":"not-a-number"}"#;
    match validate_json_fields(&user_created(), body).unwrap_err() {
        SchemaValidationError::TypeMismatch { errors } => {
            assert_eq!(errors.len(), 1);
            assert_eq!(errors[0].field_name, "age");
            assert_eq!(errors[0].got_kind, "string");
            assert_eq!(errors[0].queue_kind, "int32");
        }
        other => panic!("Expected TypeMismatch, got: {}", other.message()),
    }
}

#[test]
fn json_number_for_string_field_rejected() {
    let body = br#"{"name":42,"age":30}"#;
    match validate_json_fields(&user_created(), body).unwrap_err() {
        SchemaValidationError::TypeMismatch { errors } => assert_eq!(errors[0].field_name, "name"),
        other => panic!("Expected TypeMismatch, got: {}", other.message()),
    }
}

#[test]
fn json_correct_types_pass() {
    let body = br#"{"name":"Alice","age":30}"#;
    assert!(validate_json_fields(&user_created(), body).is_ok());
}

#[test]
fn json_that_is_not_an_object_or_not_json_is_invalid() {
    match validate_json_fields(&user_created(), b"[1,2]").unwrap_err() {
        SchemaValidationError::InvalidJson(msg) => assert_eq!(msg, "expected a JSON object, got other type"),
        other => panic!("Expected InvalidJson, got: {}", other.message()),
    }
    assert!(matches!(
        validate_json_fields(&user_created(), b"{\"name\":"),
        Err(SchemaValidationError::InvalidJson(_))
    ));
    assert!(matches!(
        validate_json_fields(&user_created(), &[b'{', 0xff]),
        Err(SchemaValidationError::InvalidJson(_))
    ));
    let enum_and_message = vec![field("state", ProtoKind::Enum), field("meta", ProtoKind::Message)];
    assert!(validate_json_fields(&enum_and_message, br#"{"state":"ON","meta":{}}"#).is_ok());
    assert!(validate_json_fields(&enum_and_message, br#"{"state":2,"meta":{}}"#).is_ok());
    assert!(validate_json_fields(&enum_and_message, br#"{"state":null,"meta":[]}"#).is_err());
    assert_eq!(json_type_name(JsonType::Null), "null");
}

#[test]
fn consumer_subset_passes() {
    let consumer = vec![field("name", ProtoKind::String)];
    assert!(check_consumer_subset(&user_created(), &consumer).is_ok());
}

#[test]
fn consumer_exact_match_passes() {
    assert!(check_consumer_subset(&user_created(), &user_created()).is_ok());
}

#[test]
fn consumer_superset_rejected() {
    let consumer = vec![
        field("name", ProtoKind::String),
        field("age", ProtoKind::Int32),
        field("email", ProtoKind::String),
    ];
    match check_consumer_subset(&user_created(), &consumer).unwrap_err() {
        SchemaValidationError::ConsumerExtraFields { fields } => assert_eq!(fields, vec!["email"]),
        other => panic!("Expected ConsumerExtraFields, got: {}", other.message()),
    }
}

#[test]
fn members_are_checked_for_presence_then_type() {
    let ok = vec![("name".to_string(), JsonType::String), ("age".to_string(), JsonType::Number)];
    assert!(check_json_members(&user_created(), &ok).is_ok());
    let missing = vec![("name".to_string(), JsonType::String)];
    match check_json_members(&user_created(), &missing) {
        Err(SchemaValidationError::MissingFields { fields }) => assert_eq!(fields, vec!["age"]),
        _ => panic!("Expected MissingFields"),
    }
    let wrong = vec![("name".to_string(), JsonType::Number), ("age".to_string(), JsonType::Number)];
    match check_json_members(&user_created(), &wrong) {
        Err(SchemaValidationError::TypeMismatch { errors }) => {
            assert_eq!(errors.len(), 1);
            assert_eq!(errors[0].field_name, "name");
        }
        _ => panic!("Expected TypeMismatch"),
    }
}
