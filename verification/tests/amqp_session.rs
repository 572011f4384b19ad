use rocketmq::amqp::adapter::{AmqpProtocol, ProtocolAdapter};
use rocketmq::amqp::args::{build_channel_close, build_deliver_args, parse_msg_id, parse_publish_args};
use rocketmq::amqp::codec::{DEFAULT_CHANNEL_MAX, DEFAULT_FRAME_MAX};
use rocketmq::amqp::connection::{
    build_connection_close, build_connection_close_ok, build_connection_open_ok,
    build_connection_start, build_connection_tune, parse_connection_open,
    parse_start_ok_credentials, parse_tune_ok,
};
use rocketmq::amqp::content::{content_body, content_header, ContentState, ContentStep};
use rocketmq::amqp::method::{
    CLASS_BASIC, CLASS_EXCHANGE, CLASS_QUEUE, METHOD_EXCHANGE_DECLARE, METHOD_QUEUE_DECLARE,
    NOT_FOUND,
};
use rocketmq::amqp::codec::{decode_frame, encode_content_header};
use rocketmq::amqp::properties::BasicProperties;
use rocketmq::amqp::session::ChannelState;
use rocketmq::amqp::table::{
    parse_field_entries, read_field_table, table_get, write_field_table, FieldValue,
};
use rocketmq::amqp::types::{
    write_long, write_longlong, write_longstr, write_octet, write_short, write_shortstr,
    WireReader,
};

#[test]
fn connection_start_builds() {
    let args = build_connection_start();
    let mut r = WireReader::new(&args);
    assert_eq!(r.read_octet().unwrap(), 0);
    assert_eq!(r.read_octet().unwrap(), 9);
    let props = read_field_table(&mut r).unwrap();
    assert!(table_get(&props, "product").is_some());
    assert!(table_get(&props, "capabilities").is_some());
    let mechs = r.read_longstr().unwrap();
    assert_eq!(std::str::from_utf8(&mechs).unwrap(), "PLAIN AMQPLAIN");
    let locales = r.read_longstr().unwrap();
    assert_eq!(std::str::from_utf8(&locales).unwrap(), "en_US");
}

#[test]
fn connection_close_builds() {
    let args = build_connection_close(NOT_FOUND, "NOT-FOUND", CLASS_QUEUE, METHOD_QUEUE_DECLARE);
    let mut r = WireReader::new(&args);
    assert_eq!(r.read_short().unwrap(), NOT_FOUND);
    let text = r.read_shortstr().unwrap();
    assert_eq!(text, "NOT-FOUND");
    assert_eq!(r.read_short().unwrap(), CLASS_QUEUE);
    assert_eq!(r.read_short().unwrap(), METHOD_QUEUE_DECLARE);
}

#[test]
fn connection_open_ok_builds() {
    let args = build_connection_open_ok();
    let mut r = WireReader::new(&args);
    let known_hosts = r.read_shortstr().unwrap();
    assert_eq!(known_hosts, "");
}

#[test]
fn connection_tune_roundtrip() {
    let args = build_connection_tune(2047, 131072, 60);
    let (ch, fm, hb) = parse_tune_ok(&args).unwrap();
    assert_eq!(ch, 2047);
    assert_eq!(fm, 131072);
    assert_eq!(hb, 60);
}

#[test]
fn tune_ok_client_lowers() {
    let mut buf = Vec::new();
    write_short(&mut buf, 100);
    write_long(&mut buf, 65536);
    write_short(&mut buf, 30);
    let (ch, fm, hb) = parse_tune_ok(&buf).unwrap();
    assert_eq!(ch, 100);
    assert_eq!(fm, 65536);
    assert_eq!(hb, 30);
}

#[test]
fn tune_ok_zero_means_server_default() {
    let mut buf = Vec::new();
    write_short(&mut buf, 0);
    write_long(&mut buf, 0);
    write_short(&mut buf, 0);
    let (ch, fm, hb) = parse_tune_ok(&buf).unwrap();
    assert_eq!(ch, DEFAULT_CHANNEL_MAX);
    assert_eq!(fm, DEFAULT_FRAME_MAX);
    assert_eq!(hb, 0);
}

#[test]
fn tune_ok_client_cannot_raise() {
    let args = build_connection_tune(60000, 1_000_000, 5);
    assert_eq!(parse_tune_ok(&args).unwrap(), (DEFAULT_CHANNEL_MAX, DEFAULT_FRAME_MAX, 5));
    assert!(parse_tune_ok(&args[..7]).is_err());
}

#[test]
fn connection_open_parse() {
    let mut buf = Vec::new();
    write_shortstr(&mut buf, "/staging").unwrap();
    write_shortstr(&mut buf, "").unwrap();
    write_octet(&mut buf, 0);
    let vhost = parse_connection_open(&buf).unwrap();
    assert_eq!(vhost, "/staging");
    assert!(parse_connection_open(&[5, b'a']).is_err());
}

#[test]
fn plain_auth_parse() {
    let mut buf = Vec::new();
    write_field_table(&mut buf, &[]).unwrap();
    write_shortstr(&mut buf, "PLAIN").unwrap();
    write_longstr(&mut buf, b"\x00guest\x00guest").unwrap();
    write_shortstr(&mut buf, "en_US").unwrap();
    let (user, pass) = parse_start_ok_credentials(&buf).unwrap();
    assert_eq!(user, "guest");
    assert_eq!(pass, "guest");
}

#[test]
fn plain_auth_extracts_any_credentials() {
    let mut buf = Vec::new();
    write_field_table(&mut buf, &[]).unwrap();
    write_shortstr(&mut buf, "PLAIN").unwrap();
    write_longstr(&mut buf, b"\x00alice\x00s3cret").unwrap();
    write_shortstr(&mut buf, "en_US").unwrap();
    let (user, pass) = parse_start_ok_credentials(&buf).unwrap();
    assert_eq!(user, "alice");
    assert_eq!(pass, "s3cret");
}

#[test]
fn unsupported_mechanism() {
    let mut buf = Vec::new();
    write_field_table(&mut buf, &[]).unwrap();
    write_shortstr(&mut buf, "EXTERNAL").unwrap();
    write_longstr(&mut buf, b"").unwrap();
    write_shortstr(&mut buf, "en_US").unwrap();
    assert!(parse_start_ok_credentials(&buf).is_err());
}

#[test]
fn plain_auth_needs_two_separators() {
    let mut buf = Vec::new();
    write_field_table(&mut buf, &[]).unwrap();
    write_shortstr(&mut buf, "PLAIN").unwrap();
    write_longstr(&mut buf, b"\x00onlyuser").unwrap();
    write_shortstr(&mut buf, "en_US").unwrap();
    assert!(parse_start_ok_credentials(&buf).is_err());
}

#[test]
fn amqplain_auth_reads_login_and_password() {
    let mut creds = Vec::new();
    write_field_table(
        &mut creds,
        &[
            ("LOGIN".to_string(), FieldValue::LongString(b"bob".to_vec())),
            ("PASSWORD".to_string(), FieldValue::LongString(b"pw".to_vec())),
        ],
    )
    .unwrap();
    let mut buf = Vec::new();
    write_field_table(&mut buf, &[("product".to_string(), FieldValue::LongString(b"x".to_vec()))]).unwrap();
    write_shortstr(&mut buf, "AMQPLAIN").unwrap();
    write_longstr(&mut buf, &creds).unwrap();
    write_shortstr(&mut buf, "en_US").unwrap();
    let (user, pass) = parse_start_ok_credentials(&buf).unwrap();
    assert_eq!(user, "bob");
    assert_eq!(pass, "pw");
}

#[test]
fn connection_close_ok_is_empty() {
    assert!(build_connection_close_ok().is_empty());
}

fn check_deliver_args() {
    let args = build_deliver_args("ctag-1", 42, false, "amq.direct", "key1");
    let mut r = WireReader::new(&args);
    assert_eq!(r.read_shortstr().unwrap(), "ctag-1");
    assert_eq!(r.read_longlong().unwrap(), 42);
    assert_eq!(r.read_octet().unwrap(), 0);
    assert_eq!(r.read_shortstr().unwrap(), "amq.direct");
    assert_eq!(r.read_shortstr().unwrap(), "key1");
}

#[test]
fn basic_deliver_args_build() {
    check_deliver_args();
}

#[test]
fn amqp_basic_deliver_args_build() {
    check_deliver_args();
}

#[test]
fn deliver_args_encode() {
    let args = build_deliver_args("ctag-1", 42, false, "amq.direct", "my.key");
    let mut r = WireReader::new(&args);
    assert_eq!(r.read_shortstr().unwrap(), "ctag-1");
    assert_eq!(r.read_longlong().unwrap(), 42);
    assert_eq!(r.read_octet().unwrap(), 0);
    assert_eq!(r.read_shortstr().unwrap(), "amq.direct");
    assert_eq!(r.read_shortstr().unwrap(), "my.key");
}

fn check_deliver_redelivered() {
    let args = build_deliver_args("t", 1, true, "", "");
    let mut r = WireReader::new(&args);
    let _ = r.read_shortstr().unwrap();
    let _ = r.read_longlong().unwrap();
    assert_eq!(r.read_octet().unwrap(), 1);
}

#[test]
fn basic_deliver_args_redelivered() {
    check_deliver_redelivered();
}

#[test]
fn amqp_basic_deliver_args_redelivered() {
    check_deliver_redelivered();
}

#[test]
fn amqp_delivery_deliver_args_redelivered() {
    check_deliver_redelivered();
}

fn check_consume_args() {
    let mut args = Vec::new();
    write_short(&mut args, 0);
    write_shortstr(&mut args, "test.queue").unwrap();
    write_shortstr(&mut args, "my-tag").unwrap();
    write_octet(&mut args, 0x02);
    let mut r = WireReader::new(&args);
    let _ = r.read_short().unwrap();
    assert_eq!(r.read_shortstr().unwrap(), "test.queue");
    assert_eq!(r.read_shortstr().unwrap(), "my-tag");
    let flags = r.read_octet().unwrap();
    assert_eq!(flags & 0x02, 0x02);
}

#[test]
fn basic_consume_args_parse() {
    check_consume_args();
}

#[test]
fn amqp_basic_consume_args_parse() {
    check_consume_args();
}

fn check_ack_args() {
    let mut args = Vec::new();
    write_longlong(&mut args, 99);
    write_octet(&mut args, 0x01);
    let mut r = WireReader::new(&args);
    assert_eq!(r.read_longlong().unwrap(), 99);
    assert_eq!(r.read_octet().unwrap(), 0x01);
}

#[test]
fn basic_ack_args_parse() {
    check_ack_args();
}

#[test]
fn amqp_basic_ack_args_parse() {
    check_ack_args();
}

fn check_reject_args() {
    let mut args = Vec::new();
    write_longlong(&mut args, 7);
    write_octet(&mut args, 0x01);
    let mut r = WireReader::new(&args);
    assert_eq!(r.read_longlong().unwrap(), 7);
    assert_eq!(r.read_octet().unwrap() & 0x01, 0x01);
}

#[test]
fn basic_reject_args_parse() {
    check_reject_args();
}

#[test]
fn amqp_basic_reject_args_parse() {
    check_reject_args();
}

fn check_qos_args() {
    let mut args = Vec::new();
    write_long(&mut args, 0);
    write_short(&mut args, 10);
    write_octet(&mut args, 0x01);
    let mut r = WireReader::new(&args);
    assert_eq!(r.read_long().unwrap(), 0);
    assert_eq!(r.read_short().unwrap(), 10);
    assert_eq!(r.read_octet().unwrap() & 0x01, 0x01);
}

#[test]
fn basic_qos_args_parse() {
    check_qos_args();
}

#[test]
fn amqp_basic_qos_args_parse() {
    check_qos_args();
}

fn check_get_args() {
    let mut args = Vec::new();
    write_short(&mut args, 0);
    write_shortstr(&mut args, "q1").unwrap();
    write_octet(&mut args, 0x01);
    let mut r = WireReader::new(&args);
    let _ = r.read_short().unwrap();
    assert_eq!(r.read_shortstr().unwrap(), "q1");
    assert_eq!(r.read_octet().unwrap() & 0x01, 0x01);
}

#[test]
fn basic_get_args_parse() {
    check_get_args();
}

#[test]
fn amqp_basic_get_args_parse() {
    check_get_args();
}

#[test]
fn publish_args_parse() {
    let mut args = Vec::new();
    write_short(&mut args, 0);
    write_shortstr(&mut args, "amq.direct").unwrap();
    write_shortstr(&mut args, "my.key").unwrap();
    write_octet(&mut args, 0x01);
    let (ex, rk, mandatory, immediate) = parse_publish_args(&args);
    assert_eq!(ex, "amq.direct");
    assert_eq!(rk, "my.key");
    assert!(mandatory);
    assert!(!immediate);
}

#[test]
fn publish_args_defaults_when_cut_short() {
    let (ex, rk, mandatory, immediate) = parse_publish_args(&[0]);
    assert_eq!(ex, "");
    assert_eq!(rk, "");
    assert!(!mandatory);
    assert!(!immediate);
}

#[test]
fn exchange_declare_args_encode() {
    let mut args = Vec::new();
    write_short(&mut args, 0);
    write_shortstr(&mut args, "test.ex").unwrap();
    write_shortstr(&mut args, "direct").unwrap();
    write_octet(&mut args, 0x02);
    write_field_table(&mut args, &[]).unwrap();

    let mut r = WireReader::new(&args);
    assert_eq!(r.read_short().unwrap(), 0);
    assert_eq!(r.read_shortstr().unwrap(), "test.ex");
    assert_eq!(r.read_shortstr().unwrap(), "direct");
    assert_eq!(r.read_octet().unwrap(), 0x02);
}

#[test]
fn exchange_delete_args_encode() {
    let mut args = Vec::new();
    write_short(&mut args, 0);
    write_shortstr(&mut args, "my.exchange").unwrap();
    write_octet(&mut args, 0);

    let mut r = WireReader::new(&args);
    let _ = r.read_short().unwrap();
    assert_eq!(r.read_shortstr().unwrap(), "my.exchange");
}

#[test]
fn channel_close_error_builds() {
    let args = build_channel_close(NOT_FOUND, "NOT_FOUND", CLASS_EXCHANGE, METHOD_EXCHANGE_DECLARE);
    let mut r = WireReader::new(&args);
    assert_eq!(r.read_short().unwrap(), 404);
    assert_eq!(r.read_shortstr().unwrap(), "NOT_FOUND");
    assert_eq!(r.read_short().unwrap(), CLASS_EXCHANGE);
    assert_eq!(r.read_short().unwrap(), METHOD_EXCHANGE_DECLARE);
}

#[test]
fn msg_id_from_inline_headers() {
    assert_eq!(parse_msg_id(b"id:42"), Some(42));
    assert_eq!(parse_msg_id(b"name:x\r\nid:7\r\nid:9"), Some(7));
    assert_eq!(parse_msg_id(b"id:abc\r\nid:9"), None);
    assert_eq!(parse_msg_id(b"name:x"), None);
    assert_eq!(parse_msg_id(b""), None);
    assert_eq!(parse_msg_id(&[0xff, 0xfe]), None);
}

fn content_state_example(body_size: u64, mandatory: bool, exchange: &str, routing_key: &str) -> ContentState {
    ContentState {
        exchange: exchange.into(),
        routing_key: routing_key.into(),
        mandatory,
        properties: BasicProperties::default(),
        body_size,
        body_received: Vec::new(),
        channel: 1,
    }
}

fn check_accumulates_body() {
    let mut cs = content_state_example(10, false, "ex", "rk");
    cs.body_received.extend_from_slice(&[1, 2, 3, 4, 5]);
    assert_eq!(cs.body_received.len(), 5);
    assert!(cs.body_received.len() < cs.body_size as usize);
    cs.body_received.extend_from_slice(&[6, 7, 8, 9, 10]);
    assert!(cs.body_received.len() as u64 >= cs.body_size);
}

#[test]
fn connection_loop_content_state_accumulates_body() {
    check_accumulates_body();
}

#[test]
fn amqp_loop_content_state_accumulates_body() {
    check_accumulates_body();
}

fn check_zero_body() {
    let cs = content_state_example(0, true, "amq.direct", "test");
    assert_eq!(cs.body_size, 0);
    assert!(cs.body_received.is_empty());
}

#[test]
fn connection_loop_zero_body_publish() {
    check_zero_body();
}

#[test]
fn amqp_loop_zero_body_publish() {
    check_zero_body();
}

#[test]
fn content_frames_complete_a_publish() {
    let mut args = Vec::new();
    write_short(&mut args, 0);
    write_shortstr(&mut args, "amq.direct").unwrap();
    write_shortstr(&mut args, "k").unwrap();
    write_octet(&mut args, 1);
    let mut state = Some(ContentState::start(4, &args));
    assert!(state.as_ref().unwrap().mandatory);
    let header = encode_content_header(4, CLASS_BASIC, 6, &BasicProperties::default());
    let (frame, _) = decode_frame(&header).unwrap();
    assert_eq!(content_header(&mut state, &frame.payload), ContentStep::Waiting);
    assert_eq!(content_body(&mut state, b"abc"), ContentStep::Waiting);
    assert_eq!(content_body(&mut state, b"def"), ContentStep::Complete);
    assert_eq!(state.as_ref().unwrap().body_received, b"abcdef".to_vec());
    let mut none: Option<ContentState> = None;
    assert_eq!(content_body(&mut none, b"x"), ContentStep::NoPublish);
    assert_eq!(content_header(&mut state, &[1, 2]), ContentStep::Dropped);
    assert!(state.is_none());
}

#[test]
fn channel_state_prefetch_gating() {
    let mut ch = ChannelState::new(1);
    ch.prefetch_count = 2;
    assert!(ch.can_deliver());
    ch.unacked_count = 2;
    assert!(!ch.can_deliver());
}

#[test]
fn channel_state_flow_control() {
    let mut ch = ChannelState::new(1);
    assert!(ch.can_deliver());
    ch.flow_active = false;
    assert!(!ch.can_deliver());
    ch.flow_active = true;
    assert!(ch.can_deliver());
}

#[test]
fn channel_state_flow_overrides_prefetch() {
    let mut ch = ChannelState::new(1);
    ch.prefetch_count = 10;
    ch.unacked_count = 0;
    ch.flow_active = false;
    assert!(!ch.can_deliver());
}

#[test]
fn protocol_adapter_names() {
    assert_eq!(AmqpProtocol::new().name(), "AMQP-0-9-1");
    assert_eq!(ProtocolAdapter::create_amqp().name(), "AMQP-0-9-1");
}

#[test]
fn field_table_roundtrip() {
    let entries = vec![
        ("flag".to_string(), FieldValue::Boolean(true)),
        ("name".to_string(), FieldValue::LongString(b"v".to_vec())),
        ("n".to_string(), FieldValue::Other(b'I', vec![0, 0, 0, 5])),
    ];
    let mut buf = Vec::new();
    write_field_table(&mut buf, &entries).unwrap();
    let mut r = WireReader::new(&buf);
    let back = read_field_table(&mut r).unwrap();
    assert_eq!(back.len(), 3);
    assert!(matches!(table_get(&back, "flag"), Some(FieldValue::Boolean(true))));
    assert!(matches!(table_get(&back, "n"), Some(FieldValue::Other(73, v)) if v == &vec![0, 0, 0, 5]));
    assert!(parse_field_entries(&[1, b'k', b'?']).is_err());
}

use rocketmq::amqp::adapter::ConnectionMeta;
use rocketmq::amqp::session::{ConnectionState, PendingOp};

#[test]
fn connection_state_defaults() {
    let cs = ConnectionState::new();
    assert_eq!(cs.vhost, "/");
    assert_eq!(cs.next_delivery_tag, 1);
    assert_eq!((cs.frame_max, cs.channel_max, cs.heartbeat), (131_072, 2047, 60));
    assert!(!cs.tx_mode && !cs.authenticated && !cs.confirm_mode);
    assert_eq!(cs.channels_count(), 0);
    assert_eq!(cs.username(), "");
}

#[test]
fn connection_channels_open_close_and_flow() {
    let mut cs = ConnectionState::new();
    cs.open_channel(1);
    cs.open_channel(2);
    cs.channels[0].prefetch_count = 5;
    cs.open_channel(1);
    assert_eq!(cs.channels_count(), 2);
    assert_eq!(cs.channels[0].prefetch_count, 5);
    cs.set_channel_flow(2, false);
    cs.set_channel_flow(9, false);
    let metas = cs.get_channels();
    assert_eq!(metas.len(), 2);
    assert!(metas[0].flow_active);
    assert!(!metas[1].flow_active);
    cs.close_channel(1);
    cs.close_channel(7);
    assert_eq!(cs.channels_count(), 1);
    assert_eq!(cs.get_channels()[0].id, 2);
}

#[test]
fn transaction_buffer_commit_and_rollback() {
    let mut cs = ConnectionState::new();
    assert!(!cs.buffer_op(PendingOp::Ack { msg_id: 1 }));
    assert!(cs.take_tx_buffer().is_none());
    cs.select_tx();
    assert!(cs.tx_mode());
    assert!(cs.buffer_op(PendingOp::Ack { msg_id: 1 }));
    assert!(cs.buffer_op(PendingOp::Publish {
        exchange: "ex".into(),
        routing_key: "rk".into(),
        headers: vec![],
        body: vec![7],
    }));
    let ops = cs.take_tx_buffer().unwrap();
    assert_eq!(ops.len(), 2);
    assert!(matches!(ops[0], PendingOp::Ack { msg_id: 1 }));
    assert!(matches!(&ops[1], PendingOp::Publish { body, .. } if body == &vec![7]));
    // The next transaction starts empty and the connection stays in tx mode.
    assert_eq!(cs.take_tx_buffer().unwrap().len(), 0);
    assert!(cs.tx_mode);
}
