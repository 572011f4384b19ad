use rocketmq::queue::message::{Message, QueueMessage};
use rocketmq::state::publish_flow::{check_targets, enqueue_published, route_publish, PublishRoute};
use rocketmq::amqp::basic_class::BasicConsume;
use rocketmq::schema::validate::SchemaValidationError;
use rocketmq::state::consume::{consume_apply, ConsumeOutcome};
use rocketmq::amqp::queue_class::{QueueDeclare, QueueRefusal};
use rocketmq::amqp::table::FieldValue;
use rocketmq::queue::options::QueueOptions;
use rocketmq::schema::catalog::SchemaCompileError;
use rocketmq::schema::error::ErrorCode;
use prost_reflect::prost::Message as _;
use prost_reflect::prost_types::{
    field_descriptor_proto, DescriptorProto, FieldDescriptorProto, FileDescriptorProto, FileDescriptorSet,
};
use rocketmq::schema::fields::{ProtoKind, SchemaField};
use rocketmq::schema::proto::QueueSchema;
use rocketmq::state::broker::BrokerState;
use rocketmq::state::declare::{declare_apply, declare_prepare, schema_conflicts, DeclareOutcome};

fn decl(name: &str, passive: bool, exclusive: bool, args: Vec<(String, FieldValue)>) -> QueueDeclare {
    QueueDeclare {
        name: name.to_string(),
        passive,
        durable: false,
        exclusive,
        auto_delete: false,
        no_wait: false,
        arguments: args,
    }
}

fn schema_args() -> Vec<(String, FieldValue)> {
    vec![
        ("x-schema".to_string(), FieldValue::LongString(b"syntax = \"proto3\";".to_vec())),
        ("x-schema-type".to_string(), FieldValue::LongString(b"protobuf".to_vec())),
        ("x-schema-message".to_string(), FieldValue::LongString(b"Order".to_vec())),
    ]
}

fn fields() -> Vec<SchemaField> {
    vec![SchemaField { name: "id".to_string(), kind: ProtoKind::String }]
}

/// The descriptor set of `Order { string id = 1; }`.
fn order_descriptors() -> Vec<u8> {
    let mut id = FieldDescriptorProto {
        name: Some("id".to_string()),
        number: Some(1),
        json_name: Some("id".to_string()),
        ..Default::default()
    };
    id.set_label(field_descriptor_proto::Label::Optional);
    id.set_type(field_descriptor_proto::Type::String);
    FileDescriptorSet {
        file: vec![FileDescriptorProto {
            name: Some("order.proto".to_string()),
            message_type: vec![DescriptorProto {
                name: Some("Order".to_string()),
                field: vec![id],
                ..Default::default()
            }],
            syntax: Some("proto3".to_string()),
            ..Default::default()
        }],
    }
    .encode_to_vec()
}

fn order_schema() -> QueueSchema {
    QueueSchema { fields: fields(), descriptors: order_descriptors(), message: "Order".to_string() }
}

fn declared(o: &DeclareOutcome) -> (String, usize, usize, bool) {
    match o {
        DeclareOutcome::Declared { name, message_count, consumer_count, created, .. } => {
            (name.clone(), *message_count, *consumer_count, *created)
        }
        _ => panic!("not declared"),
    }
}

#[test]
fn empty_name_is_generated() {
    let mut bs = BrokerState::new();
    let d = declare_prepare(&mut bs, decl("", false, false, vec![])).ok().unwrap();
    assert_eq!(d.name, "amq.gen-1");
    let d2 = declare_prepare(&mut bs, decl("", false, false, vec![])).ok().unwrap();
    assert_eq!(d2.name, "amq.gen-2");
}

#[test]
fn reserved_names_are_refused_unless_passive() {
    let mut bs = BrokerState::new();
    assert!(matches!(declare_prepare(&mut bs, decl("amq.mine", false, false, vec![])), Err(QueueRefusal::ReservedName)));
    assert!(declare_prepare(&mut bs, decl("amq.mine", true, false, vec![])).is_ok());
    assert!(declare_prepare(&mut bs, decl("amq.gen-7", false, false, vec![])).is_ok());
}

#[test]
fn passive_declare_reports_or_refuses() {
    let mut bs = BrokerState::new();
    let r = declare_apply(&mut bs, 1, decl("q", true, false, vec![]), None);
    assert!(matches!(r, DeclareOutcome::Refused(QueueRefusal::NotFound)));
    bs.declare_queue(1, "q", QueueOptions::default());
    let r = declare_apply(&mut bs, 1, decl("q", true, false, vec![]), None);
    assert_eq!(declared(&r), ("q".to_string(), 0, 0, false));
}

#[test]
fn declare_creates_once_and_locks_exclusive_queues() {
    let mut bs = BrokerState::new();
    let r = declare_apply(&mut bs, 1, decl("jobs", false, true, vec![]), None);
    assert_eq!(declared(&r), ("jobs".to_string(), 0, 0, true));
    let again = declare_apply(&mut bs, 1, decl("jobs", false, true, vec![]), None);
    assert_eq!(declared(&again).3, false);
    let other = declare_apply(&mut bs, 2, decl("jobs", false, false, vec![]), None);
    assert!(matches!(other, DeclareOutcome::Refused(QueueRefusal::Locked)));
    assert_eq!(bs.queues.len(), 1);
}

#[test]
fn schema_declarations_need_a_compiled_schema() {
    let mut bs = BrokerState::new();
    let r = declare_apply(
        &mut bs,
        1,
        decl("orders", false, false, schema_args()),
        Some(Err(SchemaCompileError::CompilationFailed("bad".to_string()))),
    );
    assert!(matches!(r, DeclareOutcome::SchemaError(ErrorCode::SchemaCompileFailed)));
    assert!(bs.queues.is_empty());
    let mut missing_type = schema_args();
    missing_type.remove(1);
    let r = declare_apply(&mut bs, 1, decl("orders", false, false, missing_type), None);
    assert!(matches!(r, DeclareOutcome::SchemaError(ErrorCode::MissingArgument)));
    let r = declare_apply(&mut bs, 1, decl("orders", false, false, schema_args()), Some(Ok(order_schema())));
    assert_eq!(declared(&r).3, true);
    assert_eq!(bs.queues[0].1.schema.as_ref().unwrap().fields[0].name, "id");
    let del = vec![("x-schema-delete".to_string(), FieldValue::Boolean(true))];
    declare_apply(&mut bs, 1, decl("orders", false, false, del), None);
    assert!(bs.queues[0].1.schema.is_none());
}

fn consume(queue: &str, tag: Option<&str>, exclusive: bool, args: Vec<(String, FieldValue)>) -> BasicConsume {
    BasicConsume {
        queue: queue.to_string(),
        consumer_tag: tag.map(|t| t.to_string()),
        no_local: false,
        no_ack: false,
        exclusive,
        no_wait: false,
        arguments: args,
    }
}

fn consumer_schema_args() -> Vec<(String, FieldValue)> {
    vec![
        ("x-consumer-schema".to_string(), FieldValue::LongString(b"syntax".to_vec())),
        ("x-consumer-schema-message".to_string(), FieldValue::LongString(b"Order".to_vec())),
    ]
}

#[test]
fn consume_subscribes_and_indexes() {
    let mut bs = BrokerState::new();
    bs.declare_queue(1, "q", QueueOptions::default());
    let r = consume_apply(&mut bs, 1, 2, consume("q", None, false, vec![]), None);
    match r {
        ConsumeOutcome::Consuming { tag, .. } => assert_eq!(tag, "ctag-1-1"),
        _ => panic!("not consuming"),
    }
    assert_eq!(bs.queues[0].1.listeners, vec![(1, 2)]);
    assert_eq!(bs.consumer_index, vec![("ctag-1-1".to_string(), "q".to_string())]);
    assert!(matches!(consume_apply(&mut bs, 1, 3, consume("nope", None, false, vec![]), None), ConsumeOutcome::NotFound));
}

#[test]
fn consume_refusals_come_in_order() {
    let mut bs = BrokerState::new();
    bs.declare_queue(1, "q", QueueOptions::default());
    consume_apply(&mut bs, 1, 2, consume("q", Some("a"), false, vec![]), None);
    let r = consume_apply(&mut bs, 2, 1, consume("q", Some("b"), true, vec![]), None);
    assert!(matches!(r, ConsumeOutcome::ExclusiveRefused));
    let half = vec![("x-consumer-schema".to_string(), FieldValue::LongString(b"s".to_vec()))];
    let r = consume_apply(&mut bs, 2, 1, consume("q", Some("b"), false, half), None);
    assert!(matches!(r, ConsumeOutcome::SchemaMessageMissing));
    let r = consume_apply(
        &mut bs,
        2,
        1,
        consume("q", Some("b"), false, consumer_schema_args()),
        Some(Err(SchemaCompileError::CompilationFailed("x".to_string()))),
    );
    assert!(matches!(r, ConsumeOutcome::SchemaCompileFailed));
}

#[test]
fn consumer_schema_must_be_a_subset() {
    let mut bs = BrokerState::new();
    declare_apply(&mut bs, 1, decl("orders", false, false, schema_args()), Some(Ok(order_schema())));
    let extra = vec![
        SchemaField { name: "id".to_string(), kind: ProtoKind::String },
        SchemaField { name: "email".to_string(), kind: ProtoKind::String },
    ];
    let r = consume_apply(&mut bs, 1, 1, consume("orders", None, false, consumer_schema_args()), Some(Ok(extra)));
    match r {
        ConsumeOutcome::SchemaRejected(SchemaValidationError::ConsumerExtraFields { fields }) => {
            assert_eq!(fields, vec!["email".to_string()])
        }
        _ => panic!("not rejected"),
    }
    let r = consume_apply(&mut bs, 1, 1, consume("orders", None, false, consumer_schema_args()), Some(Ok(fields())));
    assert!(matches!(r, ConsumeOutcome::Consuming { .. }));
}

#[test]
fn json_bodies_are_checked_against_target_schemas() {
    let mut bs = BrokerState::new();
    declare_apply(&mut bs, 1, decl("orders", false, false, schema_args()), Some(Ok(order_schema())));
    bs.declare_queue(1, "plain", QueueOptions::default());
    let targets = vec!["plain".to_string(), "orders".to_string()];
    assert!(check_targets(&bs, &targets, br#"{"id":"a1"}"#).is_none());
    match check_targets(&bs, &targets, br#"{"other":1}"#) {
        Some((1, SchemaValidationError::MissingFields { fields })) => assert_eq!(fields, vec!["id".to_string()]),
        _ => panic!("expected missing field"),
    }
    assert!(matches!(check_targets(&bs, &targets, br#"{"id":5}"#), Some((1, SchemaValidationError::TypeMismatch { .. }))));
    assert!(check_targets(&bs, &targets, b"\x0a\x02a1").is_none());
    assert!(matches!(check_targets(&bs, &targets, b"\xff\xff\xff"), Some((1, SchemaValidationError::DecodeFailed(_)))));
    assert!(matches!(
        check_targets(&bs, &targets, b"\x0a\x02a1\x15abcd"),
        Some((1, SchemaValidationError::TrailingBytes { unconsumed_len: 5 }))
    ));
}

#[test]
fn published_messages_are_admitted_under_the_limit() {
    let mut bs = BrokerState::new();
    let mut opts = QueueOptions::default();
    opts.max_length = Some(1);
    bs.declare_queue(1, "q", opts);
    assert!(enqueue_published(&mut bs, "q", QueueMessage::Full(Message::new(1, vec![], vec![]))));
    assert!(enqueue_published(&mut bs, "q", QueueMessage::Full(Message::new(2, vec![], vec![]))));
    assert_eq!(bs.queues[0].1.messages.len(), 1);
    assert_eq!(bs.queues[0].1.messages.peek_front().unwrap().id(), 2);
    assert!(!enqueue_published(&mut bs, "none", QueueMessage::Full(Message::new(3, vec![], vec![]))));
}

#[test]
fn publishes_are_buffered_routed_checked_or_returned() {
    let mut bs = BrokerState::new();
    declare_apply(&mut bs, 1, decl("orders", false, false, schema_args()), Some(Ok(order_schema())));
    let no_headers: Vec<(String, String)> = Vec::new();
    assert!(matches!(route_publish(&bs, true, "", "orders", &no_headers, false, b"x"), PublishRoute::Buffer));
    assert!(matches!(route_publish(&bs, false, "nope", "orders", &no_headers, false, b"x"), PublishRoute::NoExchange));
    assert!(matches!(
        route_publish(&bs, false, "", "elsewhere", &no_headers, true, b"x"),
        PublishRoute::Unroutable { return_to_publisher: true }
    ));
    match route_publish(&bs, false, "", "orders", &no_headers, false, br#"{"id":"a1"}"#) {
        PublishRoute::Deliver { targets } => assert_eq!(targets, vec!["orders".to_string()]),
        _ => panic!("not delivered"),
    }
    assert!(matches!(
        route_publish(&bs, false, "", "orders", &no_headers, false, br#"{"other":1}"#),
        PublishRoute::Refused { target: 0, error: SchemaValidationError::MissingFields { .. }, .. }
    ));
    assert!(matches!(
        route_publish(&bs, false, "", "orders", &no_headers, false, b"\xff\xff"),
        PublishRoute::Refused { target: 0, error: SchemaValidationError::DecodeFailed(_), .. }
    ));
}

#[test]
fn conflicting_schema_is_refused_unless_overridden() {
    let mut bs = BrokerState::new();
    let r = declare_apply(&mut bs, 1, decl("users", false, false, schema_args()), Some(Ok(order_schema())));
    assert!(matches!(r, DeclareOutcome::Declared { created: true, .. }));
    let same = declare_apply(&mut bs, 1, decl("users", false, false, schema_args()), Some(Ok(order_schema())));
    assert!(matches!(same, DeclareOutcome::Declared { created: false, .. }));
    let wider = || {
        let mut s = order_schema();
        s.fields.push(SchemaField { name: "age".to_string(), kind: ProtoKind::Int32 });
        s
    };
    let refused = declare_apply(&mut bs, 1, decl("users", false, false, schema_args()), Some(Ok(wider())));
    assert!(matches!(refused, DeclareOutcome::SchemaError(ErrorCode::SchemaConflict)));
    assert_eq!(bs.queues[0].1.schema.as_ref().unwrap().fields.len(), 1);
    let mut args = schema_args();
    args.push(("x-schema-override".to_string(), FieldValue::Boolean(true)));
    let replaced = declare_apply(&mut bs, 1, decl("users", false, false, args), Some(Ok(wider())));
    assert!(matches!(replaced, DeclareOutcome::Declared { created: false, .. }));
    assert_eq!(bs.queues[0].1.schema.as_ref().unwrap().fields.len(), 2);
}

#[test]
fn schema_conflicts_compare_fields_by_name_and_kind() {
    let a = order_schema();
    assert!(!schema_conflicts(&a, &order_schema()));
    let mut renamed = order_schema();
    renamed.fields[0].name = "key".to_string();
    assert!(schema_conflicts(&a, &renamed));
    let mut retyped = order_schema();
    retyped.fields[0].kind = ProtoKind::Bytes;
    assert!(schema_conflicts(&a, &retyped));
}
