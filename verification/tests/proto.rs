use prost_reflect::prost::Message as _;
use prost_reflect::prost_types::{
    field_descriptor_proto, DescriptorProto, FieldDescriptorProto, FileDescriptorProto, FileDescriptorSet,
};
use rocketmq::schema::fields::{ProtoKind, SchemaField};
use rocketmq::schema::catalog::{SchemaCompileError, SchemaFormat};
use rocketmq::schema::proto::{
    kind_from_parts, protobuf_verdict, reconstruct_schema, schema_from_descriptors, validate_message, validate_protobuf,
};
use rocketmq::schema::validate::SchemaValidationError;

/// The descriptor set of `mypackage.UserCreated { string name = 1; int32 age = 2; }`.
fn user_created_descriptors() -> Vec<u8> {
    let field = |name: &str, number: i32, ty: field_descriptor_proto::Type| {
        let mut f = FieldDescriptorProto {
            name: Some(name.to_string()),
            number: Some(number),
            json_name: Some(name.to_string()),
            ..Default::default()
        };
        f.set_label(field_descriptor_proto::Label::Optional);
        f.set_type(ty);
        f
    };
    let set = FileDescriptorSet {
        file: vec![FileDescriptorProto {
            name: Some("user.proto".to_string()),
            package: Some("mypackage".to_string()),
            message_type: vec![
                DescriptorProto {
                    name: Some("UserCreated".to_string()),
                    field: vec![
                        field("name", 1, field_descriptor_proto::Type::String),
                        field("age", 2, field_descriptor_proto::Type::Int32),
                    ],
                    ..Default::default()
                },
                DescriptorProto {
                    name: Some("UserDeleted".to_string()),
                    field: vec![field("id", 1, field_descriptor_proto::Type::String)],
                    ..Default::default()
                },
            ],
            syntax: Some("proto3".to_string()),
            ..Default::default()
        }],
    };
    set.encode_to_vec()
}

fn user_created_fields() -> Vec<SchemaField> {
    vec![
        SchemaField { name: "name".to_string(), kind: ProtoKind::String },
        SchemaField { name: "age".to_string(), kind: ProtoKind::Int32 },
    ]
}

fn alice() -> Vec<u8> {
    let mut body = vec![0x0A, 5];
    body.extend_from_slice(b"Alice");
    body.extend_from_slice(&[0x10, 0x1E]);
    body
}

#[test]
fn test_validate_valid_message() {
    let res = validate_message(&user_created_fields(), &user_created_descriptors(), "mypackage.UserCreated", &alice());
    assert!(res.is_ok());
}

#[test]
fn test_validate_invalid_message() {
    let body = vec![0xFF, 0xFF, 0xFF];
    let res = validate_message(&user_created_fields(), &user_created_descriptors(), "mypackage.UserCreated", &body);
    assert!(res.is_err());
    match res.unwrap_err() {
        SchemaValidationError::DecodeFailed(_) => {}
        _ => panic!("Expected DecodeFailed error"),
    }
}

#[test]
fn test_validate_trailing_bytes() {
    let mut body = alice();
    body.extend_from_slice(b"extra");
    let res = validate_message(&user_created_fields(), &user_created_descriptors(), "mypackage.UserCreated", &body);
    assert!(res.is_err());
    match res.unwrap_err() {
        SchemaValidationError::TrailingBytes { unconsumed_len } => {
            assert_eq!(unconsumed_len, 5);
        }
        _ => panic!("Expected TrailingBytes error"),
    }
}

#[test]
fn json_bodies_go_to_the_field_check() {
    let descriptors = user_created_descriptors();
    let ok = br#"{"name":"Alice","age":30}"#;
    assert!(validate_message(&user_created_fields(), &descriptors, "mypackage.UserCreated", ok).is_ok());
    let missing = br#"{"name":"Alice"}"#;
    match validate_message(&user_created_fields(), &descriptors, "mypackage.UserCreated", missing) {
        Err(SchemaValidationError::MissingFields { fields }) => assert_eq!(fields, vec!["age"]),
        _ => panic!("Expected MissingFields"),
    }
}

#[test]
fn undecodable_descriptors_or_unknown_types_refuse_the_payload() {
    match validate_protobuf(&[0xFF, 0xFF], "mypackage.UserCreated", &alice()) {
        Err(SchemaValidationError::DecodeFailed(_)) => {}
        _ => panic!("Expected DecodeFailed"),
    }
    match validate_protobuf(&user_created_descriptors(), "mypackage.Missing", &alice()) {
        Err(SchemaValidationError::DecodeFailed(text)) => assert!(text.contains("mypackage.Missing")),
        _ => panic!("Expected DecodeFailed"),
    }
}

#[test]
fn protobuf_verdict_values() {
    assert!(protobuf_verdict(Ok((false, 0, 9)), 9).is_ok());
    match protobuf_verdict(Ok((true, 0, 9)), 14) {
        Err(SchemaValidationError::TrailingBytes { unconsumed_len }) => assert_eq!(unconsumed_len, 5),
        _ => panic!("Expected TrailingBytes"),
    }
    match protobuf_verdict(Ok((false, 3, 20)), 14) {
        Err(SchemaValidationError::TrailingBytes { unconsumed_len }) => assert_eq!(unconsumed_len, 0),
        _ => panic!("Expected TrailingBytes"),
    }
    match protobuf_verdict(Err("bad wire type".to_string()), 3) {
        Err(SchemaValidationError::DecodeFailed(text)) => assert_eq!(text, "bad wire type"),
        _ => panic!("Expected DecodeFailed"),
    }
}

#[test]
fn test_reconstruct_schema() {
    let descriptors = user_created_descriptors();
    let raw = b"syntax = \"proto3\";".to_vec();
    let reconstructed = reconstruct_schema(7, raw.clone(), descriptors.clone(), "mypackage.UserCreated").unwrap();
    assert_eq!(reconstructed.id, 7);
    assert_eq!(reconstructed.format, SchemaFormat::Protobuf);
    assert_eq!(reconstructed.raw, raw);
    assert_eq!(reconstructed.schema.descriptors, descriptors);
    assert_eq!(reconstructed.schema.message, "mypackage.UserCreated");
    let fields: Vec<(String, ProtoKind)> =
        reconstructed.schema.fields.iter().map(|f| (f.name.clone(), f.kind)).collect();
    assert_eq!(fields, vec![("name".to_string(), ProtoKind::String), ("age".to_string(), ProtoKind::Int32)]);
}

#[test]
fn reconstruct_missing_message_lists_the_available_ones() {
    match schema_from_descriptors(user_created_descriptors(), "mypackage.NonExistent") {
        Err(SchemaCompileError::MessageNotFound { requested, available }) => {
            assert_eq!(requested, "mypackage.NonExistent");
            assert!(available.contains(&"mypackage.UserCreated".to_string()));
            assert!(available.contains(&"mypackage.UserDeleted".to_string()));
        }
        _ => panic!("Expected MessageNotFound error"),
    }
}

#[test]
fn reconstruct_from_bytes_that_are_no_descriptor_set() {
    match schema_from_descriptors(vec![0xFF, 0xFF], "X") {
        Err(SchemaCompileError::InvalidProto(text)) => assert!(!text.is_empty()),
        _ => panic!("Expected InvalidProto error"),
    }
}

#[test]
fn kinds_from_their_parts() {
    assert_eq!(kind_from_parts("sfixed64", false, false), ProtoKind::Sfixed64);
    assert_eq!(kind_from_parts("pkg.Inner", true, false), ProtoKind::Message);
    assert_eq!(kind_from_parts("pkg.Color", false, true), ProtoKind::Enum);
    assert_eq!(kind_from_parts("bool", false, false), ProtoKind::Bool);
}
