use rocketmq::amqp::basic_class::{
    apply_qos, build_consume_ok, build_get_empty, build_get_ok, consumer_schema,
    exclusive_consumer_refused, parse_basic_ack, parse_basic_cancel, parse_basic_consume,
    parse_basic_get, parse_basic_nack, parse_basic_qos, parse_basic_reject,
};
use rocketmq::amqp::session::ConnectionState;
use rocketmq::amqp::table::{write_field_table, FieldValue};
use rocketmq::amqp::types::{write_long, write_longlong, write_octet, write_short, write_shortstr, WireReader};

#[test]
fn consume_fields_are_read() {
    let mut args = Vec::new();
    write_short(&mut args, 0);
    write_shortstr(&mut args, "test.queue").unwrap();
    write_shortstr(&mut args, "my-tag").unwrap();
    write_octet(&mut args, 0x0E);
    write_field_table(&mut args, &[("x-priority".to_string(), FieldValue::Boolean(true))]).unwrap();
    let c = parse_basic_consume(&args);
    assert_eq!(c.queue, "test.queue");
    assert_eq!(c.consumer_tag.as_deref(), Some("my-tag"));
    assert!(!c.no_local && c.no_ack && c.exclusive && c.no_wait);
    assert_eq!(c.arguments.len(), 1);

    let mut args = Vec::new();
    write_short(&mut args, 0);
    write_shortstr(&mut args, "q").unwrap();
    write_shortstr(&mut args, "").unwrap();
    let c = parse_basic_consume(&args);
    assert_eq!(c.consumer_tag, None);
    assert!(!c.no_ack);
}

#[test]
fn cancel_get_ack_reject_nack_qos_are_read() {
    let mut args = Vec::new();
    write_shortstr(&mut args, "ctag").unwrap();
    write_octet(&mut args, 1);
    assert_eq!(parse_basic_cancel(&args), ("ctag".to_string(), true));

    let mut args = Vec::new();
    write_short(&mut args, 0);
    write_shortstr(&mut args, "q1").unwrap();
    write_octet(&mut args, 1);
    assert_eq!(parse_basic_get(&args), ("q1".to_string(), true));

    let mut args = Vec::new();
    write_longlong(&mut args, 99);
    write_octet(&mut args, 0x03);
    assert_eq!(parse_basic_ack(&args), (99, true));
    assert_eq!(parse_basic_reject(&args), (99, true));
    assert_eq!(parse_basic_nack(&args), (99, true, true));
    assert_eq!(parse_basic_nack(&[2]), (0, false, true));

    let mut args = Vec::new();
    write_long(&mut args, 0);
    write_short(&mut args, 10);
    write_octet(&mut args, 1);
    assert_eq!(parse_basic_qos(&args), (10, true));
    assert_eq!(parse_basic_qos(&[0, 5]), (5, false));
}

#[test]
fn consumer_checks() {
    assert!(exclusive_consumer_refused(true, 1));
    assert!(!exclusive_consumer_refused(true, 0));
    assert!(!exclusive_consumer_refused(false, 3));
    assert_eq!(consumer_schema(&[]), Ok(None));
    let raw = FieldValue::LongString(b"syntax = \"proto3\";".to_vec());
    assert_eq!(consumer_schema(&[("x-consumer-schema".to_string(), raw.clone())]), Err(()));
    let got = consumer_schema(&[
        ("x-consumer-schema".to_string(), raw),
        ("x-consumer-schema-message".to_string(), FieldValue::LongString(b"User".to_vec())),
    ]);
    assert_eq!(got, Ok(Some((b"syntax = \"proto3\";".to_vec(), "User".to_string()))));
}

#[test]
fn qos_applies_to_one_or_all_channels() {
    let mut cs = ConnectionState::new();
    cs.open_channel(1);
    cs.open_channel(2);
    apply_qos(&mut cs, 2, 10, false);
    assert_eq!((cs.channels[0].prefetch_count, cs.channels[1].prefetch_count), (0, 10));
    apply_qos(&mut cs, 7, 3, false);
    assert_eq!((cs.channels[0].prefetch_count, cs.channels[1].prefetch_count), (0, 10));
    apply_qos(&mut cs, 1, 5, true);
    assert_eq!((cs.channels[0].prefetch_count, cs.channels[1].prefetch_count), (5, 5));
}

#[test]
fn basic_replies() {
    let args = build_consume_ok("amq.ctag-1");
    let mut r = WireReader::new(&args);
    assert_eq!(r.read_shortstr().unwrap(), "amq.ctag-1");
    let args = build_get_ok(7, true, "amq.direct", "k", 3);
    let mut r = WireReader::new(&args);
    assert_eq!(r.read_longlong().unwrap(), 7);
    assert_eq!(r.read_octet().unwrap(), 1);
    assert_eq!(r.read_shortstr().unwrap(), "amq.direct");
    assert_eq!(r.read_shortstr().unwrap(), "k");
    assert_eq!(r.read_long().unwrap(), 3);
    assert_eq!(build_get_empty(), vec![0]);
}
