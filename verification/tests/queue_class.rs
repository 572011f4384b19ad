use rocketmq::amqp::method::{ACCESS_REFUSED, NOT_FOUND, PRECONDITION_FAILED, RESOURCE_LOCKED};
use rocketmq::amqp::queue_class::{
    build_declare_ok, build_message_count, check_schema_arguments, declared_queue_options,
    delete_check, exclusive_lock_check, generated_queue_name, has_argument,
    is_reserved_queue_name, parse_queue_bind, parse_queue_declare, parse_queue_delete,
    parse_queue_purge, parse_queue_unbind, refusal_reply, QueueRefusal,
};
use rocketmq::amqp::table::{write_field_table, FieldValue, TAG_LONG_INT};
use rocketmq::amqp::types::{write_octet, write_short, write_shortstr, WireReader};
use rocketmq::queue::options::{QueueOptions, QueueType};
use rocketmq::schema::error::ErrorCode;

fn long_int(v: i32) -> FieldValue {
    FieldValue::Other(TAG_LONG_INT, v.to_be_bytes().to_vec())
}

fn long_str(s: &str) -> FieldValue {
    FieldValue::LongString(s.as_bytes().to_vec())
}

fn declare_args(name: &str, flags: u8, table: &[(String, FieldValue)]) -> Vec<u8> {
    let mut args = Vec::new();
    write_short(&mut args, 0);
    write_shortstr(&mut args, name).unwrap();
    write_octet(&mut args, flags);
    write_field_table(&mut args, table).unwrap();
    args
}

#[test]
fn declare_fields_are_read() {
    let table = vec![("x-max-length".to_string(), long_int(10))];
    let d = parse_queue_declare(&declare_args("orders", 0x1A, &table));
    assert_eq!(d.name, "orders");
    assert!(!d.passive);
    assert!(d.durable);
    assert!(!d.exclusive);
    assert!(d.auto_delete);
    assert!(d.no_wait);
    assert_eq!(d.arguments.len(), 1);
    assert_eq!(d.arguments[0].0, "x-max-length");
}

#[test]
fn declare_cut_short_reads_defaults() {
    let d = parse_queue_declare(&[0, 0, 3, b'a']);
    assert_eq!(d.name, "");
    assert_eq!(d.arguments.len(), 0);
}

#[test]
fn delete_purge_bind_unbind_are_read() {
    let mut args = Vec::new();
    write_short(&mut args, 0);
    write_shortstr(&mut args, "q1").unwrap();
    write_octet(&mut args, 0x05);
    assert_eq!(parse_queue_delete(&args), ("q1".to_string(), true, false, true));
    assert_eq!(parse_queue_purge(&args), ("q1".to_string(), true));

    let mut args = Vec::new();
    write_short(&mut args, 0);
    write_shortstr(&mut args, "q1").unwrap();
    write_shortstr(&mut args, "amq.topic").unwrap();
    write_shortstr(&mut args, "*.stock").unwrap();
    write_octet(&mut args, 0x01);
    let (q, ex, rk, no_wait) = parse_queue_bind(&args);
    assert_eq!((q.as_str(), ex.as_str(), rk.as_str(), no_wait), ("q1", "amq.topic", "*.stock", true));
    let (q, ex, rk) = parse_queue_unbind(&args);
    assert_eq!((q.as_str(), ex.as_str(), rk.as_str()), ("q1", "amq.topic", "*.stock"));
}

#[test]
fn reserved_names_are_refused() {
    assert!(is_reserved_queue_name("amq.mine", false));
    assert!(!is_reserved_queue_name("amq.mine", true));
    assert!(!is_reserved_queue_name("amq.gen-42", false));
    assert!(!is_reserved_queue_name("orders", false));
    assert!(!is_reserved_queue_name("amq", false));
    assert_eq!(generated_queue_name(42), "amq.gen-42");
    assert_eq!(generated_queue_name(0), "amq.gen-0");
}

#[test]
fn declared_options_follow_arguments() {
    let table = vec![
        ("x-queue-type".to_string(), long_str("quorum")),
        ("x-quorum-initial-group-size".to_string(), long_int(5)),
        ("x-message-ttl".to_string(), long_int(60000)),
        ("x-max-length".to_string(), long_int(100)),
        ("x-dead-letter-exchange".to_string(), long_str("dlx")),
    ];
    let o = declared_queue_options(false, true, false, &table);
    assert_eq!(o.queue_type, QueueType::Quorum);
    assert!(o.durable);
    assert!(o.exclusive);
    assert!(!o.auto_delete);
    assert!(!o.stream_mode);
    assert_eq!(o.quorum_group_size, 5);
    assert_eq!(o.message_ttl, Some(60000));
    assert_eq!(o.max_length, Some(100));
    assert_eq!(o.dead_letter_exchange.as_deref(), Some("dlx"));
    assert!(o.schema.is_none());
}

#[test]
fn declared_options_ignore_wrong_types() {
    let table = vec![
        ("x-queue-type".to_string(), long_str("stream")),
        ("x-message-ttl".to_string(), long_str("60000")),
        ("x-max-length".to_string(), long_int(-1)),
        ("x-dead-letter-exchange".to_string(), long_int(1)),
    ];
    let o = declared_queue_options(false, false, true, &table);
    assert_eq!(o.queue_type, QueueType::Stream);
    assert!(o.stream_mode);
    assert!(!o.durable);
    assert_eq!(o.message_ttl, None);
    assert_eq!(o.max_length, Some(-1i64 as usize));
    assert_eq!(o.dead_letter_exchange, None);
    assert!(has_argument(&table, "x-max-length"));
    assert!(!has_argument(&table, "x-schema-override"));
}

#[test]
fn declared_options_read_invalid_text_lossily() {
    let table = vec![("x-schema-type".to_string(), FieldValue::LongString(vec![0xff, b'a']))];
    let o = declared_queue_options(false, false, false, &table);
    assert_eq!(o.schema_type.as_deref(), Some("\u{FFFD}a"));
}

#[test]
fn schema_arguments_are_checked() {
    let mut o = QueueOptions::default();
    assert_eq!(check_schema_arguments(&o), Ok(None));
    o.schema = Some(b"syntax = \"proto3\";".to_vec());
    assert_eq!(check_schema_arguments(&o), Err(ErrorCode::MissingArgument));
    o.schema_type = Some("avro".to_string());
    assert_eq!(check_schema_arguments(&o), Err(ErrorCode::SchemaUnsupportedType));
    o.schema_type = Some("protobuf".to_string());
    assert_eq!(check_schema_arguments(&o), Err(ErrorCode::MissingArgument));
    o.schema_message = Some("User".to_string());
    assert_eq!(check_schema_arguments(&o), Ok(Some("User".to_string())));
}

#[test]
fn refusals_and_their_replies() {
    assert_eq!(exclusive_lock_check(true, true, Some(2), 1), Err(QueueRefusal::Locked));
    assert_eq!(exclusive_lock_check(true, true, None, 1), Err(QueueRefusal::Locked));
    assert_eq!(exclusive_lock_check(true, true, Some(1), 1), Ok(()));
    assert_eq!(exclusive_lock_check(false, true, Some(2), 1), Ok(()));
    assert_eq!(delete_check(false, true, 1, true, 1), Err(QueueRefusal::NotFound));
    assert_eq!(delete_check(true, true, 1, true, 1), Err(QueueRefusal::InUse));
    assert_eq!(delete_check(true, true, 0, true, 1), Err(QueueRefusal::NotEmpty));
    assert_eq!(delete_check(true, false, 3, false, 3), Ok(()));
    assert_eq!(refusal_reply(QueueRefusal::NotFound), (NOT_FOUND, "NOT_FOUND - no such queue"));
    assert_eq!(refusal_reply(QueueRefusal::Locked).0, RESOURCE_LOCKED);
    assert_eq!(refusal_reply(QueueRefusal::InUse), (PRECONDITION_FAILED, "PRECONDITION_FAILED - queue in use"));
    assert_eq!(refusal_reply(QueueRefusal::ReservedName).0, ACCESS_REFUSED);
}

#[test]
fn declare_ok_and_count_replies() {
    let args = build_declare_ok("my.queue", 5, 2);
    let mut r = WireReader::new(&args);
    assert_eq!(r.read_shortstr().unwrap(), "my.queue");
    assert_eq!(r.read_long().unwrap(), 5);
    assert_eq!(r.read_long().unwrap(), 2);
    assert_eq!(build_message_count(42), vec![0, 0, 0, 42]);
}


use rocketmq::amqp::exchange_class::{
    check_exchange_declare, check_exchange_delete, declared_exchange_type, exchange_refusal_reply,
    parse_exchange_bind, parse_exchange_declare, parse_exchange_delete, parse_exchange_unbind,
    ExchangeRefusal,
};
use rocketmq::amqp::method::COMMAND_INVALID;
use rocketmq::routing::exchange::ExchangeType;

#[test]
fn exchange_methods_are_read() {
    let mut args = Vec::new();
    write_short(&mut args, 0);
    write_shortstr(&mut args, "test.ex").unwrap();
    write_shortstr(&mut args, "direct").unwrap();
    write_octet(&mut args, 0x12);
    write_field_table(&mut args, &[]).unwrap();
    let d = parse_exchange_declare(&args);
    assert_eq!((d.name.as_str(), d.kind.as_str()), ("test.ex", "direct"));
    assert!(!d.passive && d.durable && !d.auto_delete && !d.internal && d.no_wait);
    assert_eq!(d.arguments.len(), 0);

    let mut args = Vec::new();
    write_short(&mut args, 0);
    write_shortstr(&mut args, "my.exchange").unwrap();
    write_octet(&mut args, 0x02);
    assert_eq!(parse_exchange_delete(&args), ("my.exchange".to_string(), false, true));

    let mut args = Vec::new();
    write_short(&mut args, 0);
    write_shortstr(&mut args, "dest").unwrap();
    write_shortstr(&mut args, "src").unwrap();
    write_shortstr(&mut args, "rk").unwrap();
    write_octet(&mut args, 1);
    let (d, s, k, nw) = parse_exchange_bind(&args);
    assert_eq!((d.as_str(), s.as_str(), k.as_str(), nw), ("dest", "src", "rk", true));
    let (d, s, k) = parse_exchange_unbind(&args);
    assert_eq!((d.as_str(), s.as_str(), k.as_str()), ("dest", "src", "rk"));
}

#[test]
fn exchange_checks_and_replies() {
    assert_eq!(check_exchange_declare("amq.direct", true, true), None);
    assert_eq!(check_exchange_declare("nope", true, false), Some(ExchangeRefusal::NotFound));
    assert_eq!(check_exchange_declare("amq.mine", false, false), Some(ExchangeRefusal::ReservedName));
    assert_eq!(check_exchange_declare("orders", false, true), None);
    assert_eq!(declared_exchange_type("topic"), Ok(ExchangeType::Topic));
    assert_eq!(declared_exchange_type("x-delayed"), Err(ExchangeRefusal::UnsupportedType));
    assert_eq!(check_exchange_delete("amq.fanout"), Some(ExchangeRefusal::BuiltIn));
    assert_eq!(check_exchange_delete("orders"), None);
    assert_eq!(exchange_refusal_reply(ExchangeRefusal::UnsupportedType).0, COMMAND_INVALID);
    assert_eq!(exchange_refusal_reply(ExchangeRefusal::NotFound).1, "NOT_FOUND - no such exchange");
}
