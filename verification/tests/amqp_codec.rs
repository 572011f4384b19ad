use rocketmq::amqp::frame_loop::{close_code, frame_step, heartbeat_timing, silence_exceeded, FrameVerdict};
use rocketmq::amqp::delivery::encode_delivery_frames;
use rocketmq::queue::message::Message;
use rocketmq::amqp::codec::{
    decode_content_header, decode_frame, decode_method, encode_body_frame, encode_content_header,
    encode_heartbeat, encode_method_frame, protocol_header, split_body_frames, FrameError,
    FRAME_BODY, FRAME_END, FRAME_HEADER, FRAME_HEARTBEAT, FRAME_METHOD,
};
use rocketmq::amqp::method::{
    is_connection_error, reply_text, ACCESS_REFUSED, CLASS_BASIC, CLASS_CHANNEL, CLASS_CONFIRM,
    CLASS_CONNECTION, CLASS_EXCHANGE, CLASS_QUEUE, CLASS_TX, COMMAND_INVALID, FRAME_ERROR,
    METHOD_BASIC_ACK, METHOD_BASIC_DELIVER, METHOD_BASIC_NACK, METHOD_BASIC_PUBLISH,
    METHOD_BASIC_RETURN, METHOD_CHANNEL_CLOSE_OK, METHOD_CHANNEL_FLOW_OK, METHOD_CHANNEL_OPEN_OK,
    METHOD_CONFIRM_SELECT_OK, METHOD_CONNECTION_CLOSE, METHOD_CONNECTION_OPEN,
    METHOD_CONNECTION_START, METHOD_CONNECTION_TUNE, METHOD_QUEUE_DECLARE_OK,
    METHOD_QUEUE_DELETE_OK, METHOD_QUEUE_PURGE_OK, METHOD_TX_COMMIT_OK, METHOD_TX_ROLLBACK_OK,
    METHOD_TX_SELECT_OK, NOT_ALLOWED, NOT_FOUND, NO_ROUTE, REPLY_SUCCESS,
};
use rocketmq::amqp::properties::BasicProperties;
use rocketmq::amqp::table::write_field_table;
use rocketmq::amqp::types::{
    write_long, write_longlong, write_longstr, write_octet, write_short, write_shortstr,
    WireReader,
};
use rocketmq::amqp::args::build_deliver_args;

#[test]
fn protocol_header_correct() {
    assert_eq!(&protocol_header(), b"AMQP\x00\x00\x09\x01");
}

#[test]
fn heartbeat_frame_encode_decode() {
    let hb = encode_heartbeat();
    assert_eq!(hb.len(), 8);
    assert_eq!(hb[0], FRAME_HEARTBEAT);
    assert_eq!(hb[7], FRAME_END);

    let (frame, consumed) = decode_frame(&hb).unwrap();
    assert_eq!(consumed, 8);
    assert_eq!(frame.frame_type, FRAME_HEARTBEAT);
    assert_eq!(frame.channel, 0);
    assert!(frame.payload.is_empty());
}

#[test]
fn method_frame_roundtrip() {
    let args = vec![0x00, 0x0A, 0x41, 0x42];
    let wire = encode_method_frame(1, 10, 10, &args);

    let (frame, consumed) = decode_frame(&wire).unwrap();
    assert_eq!(consumed, wire.len());
    assert_eq!(frame.frame_type, FRAME_METHOD);
    assert_eq!(frame.channel, 1);

    let method = decode_method(&frame.payload).unwrap();
    assert_eq!(method.class_id, 10);
    assert_eq!(method.method_id, 10);
    assert_eq!(method.arguments, args);
}

#[test]
fn body_frame_roundtrip() {
    let body = b"hello world";
    let wire = encode_body_frame(1, body);

    let (frame, _) = decode_frame(&wire).unwrap();
    assert_eq!(frame.frame_type, FRAME_BODY);
    assert_eq!(frame.channel, 1);
    assert_eq!(frame.payload, body);
}

#[test]
fn body_split_single() {
    let body = b"small";
    let frames = split_body_frames(1, body, 1024);
    assert_eq!(frames.len(), 1);
}

#[test]
fn body_split_multiple() {
    let body = vec![0x41; 100];
    let frames = split_body_frames(1, &body, 50);
    assert!(frames.len() >= 3);

    let mut reconstructed = Vec::new();
    for wire in &frames {
        let (frame, _) = decode_frame(wire).unwrap();
        reconstructed.extend_from_slice(&frame.payload);
    }
    assert_eq!(reconstructed, body);
}

#[test]
fn body_split_empty() {
    let frames = split_body_frames(1, b"", 1024);
    assert!(frames.is_empty());
}

#[test]
fn frame_bad_end_marker() {
    let mut wire = encode_heartbeat();
    wire[7] = 0x00;
    assert!(decode_frame(&wire).is_err());
}

#[test]
fn frame_too_short() {
    assert!(decode_frame(&[0, 0, 0]).is_err());
}

#[test]
fn frame_incomplete_payload() {
    let wire = vec![1, 0, 1, 0, 0, 0, 100, 0, 0, 0, 0, 0, 0, 0, 0, 0, 0, 0xCE];
    assert!(decode_frame(&wire).is_err());
}

#[test]
fn method_payload_too_short() {
    assert!(decode_method(&[0, 0]).is_err());
}

#[test]
fn method_frame_channel_zero() {
    let wire = encode_method_frame(0, CLASS_CONNECTION, METHOD_CONNECTION_START, &[]);
    let (frame, _) = decode_frame(&wire).unwrap();
    assert_eq!(frame.channel, 0);
}

#[test]
fn connection_errors_classified() {
    assert!(is_connection_error(FRAME_ERROR));
    assert!(is_connection_error(COMMAND_INVALID));
    assert!(is_connection_error(NOT_ALLOWED));
    assert!(!is_connection_error(NOT_FOUND));
    assert!(!is_connection_error(ACCESS_REFUSED));
    assert!(!is_connection_error(REPLY_SUCCESS));
}

#[test]
fn reply_text_known() {
    assert_eq!(reply_text(NOT_FOUND), "NOT-FOUND");
    assert_eq!(reply_text(FRAME_ERROR), "FRAME-ERROR");
    assert_eq!(reply_text(REPLY_SUCCESS), "REPLY-SUCCESS");
}

#[test]
fn reply_text_unknown() {
    assert_eq!(reply_text(999), "UNKNOWN");
}

#[test]
fn class_ids_correct() {
    assert_eq!(CLASS_CONNECTION, 10);
    assert_eq!(CLASS_CHANNEL, 20);
    assert_eq!(CLASS_EXCHANGE, 40);
    assert_eq!(CLASS_QUEUE, 50);
    assert_eq!(CLASS_BASIC, 60);
    assert_eq!(CLASS_TX, 90);
}

#[test]
fn method_ids_connection() {
    assert_eq!(METHOD_CONNECTION_START, 10);
    assert_eq!(METHOD_CONNECTION_TUNE, 30);
    assert_eq!(METHOD_CONNECTION_OPEN, 40);
    assert_eq!(METHOD_CONNECTION_CLOSE, 50);
}

#[test]
fn method_ids_basic() {
    assert_eq!(METHOD_BASIC_PUBLISH, 40);
    assert_eq!(METHOD_BASIC_DELIVER, 60);
    assert_eq!(METHOD_BASIC_ACK, 80);
    assert_eq!(METHOD_BASIC_NACK, 120);
}

fn make_declare_args(name: &str, flags: u8) -> Vec<u8> {
    let mut args = Vec::new();
    write_short(&mut args, 0);
    write_shortstr(&mut args, name).unwrap();
    write_octet(&mut args, flags);
    write_field_table(&mut args, &[]).unwrap();
    args
}

fn check_declare_args() {
    let args = make_declare_args("test.q", 0x06);
    let mut r = WireReader::new(&args);
    let _ = r.read_short().unwrap();
    assert_eq!(r.read_shortstr().unwrap(), "test.q");
    let flags = r.read_octet().unwrap();
    assert_eq!(flags & 0x02, 0x02);
    assert_eq!(flags & 0x04, 0x04);
}

#[test]
fn queue_declare_args_parse() {
    check_declare_args();
}

#[test]
fn amqp_queue_declare_args_parse() {
    check_declare_args();
}

fn check_declare_ok_frame() {
    let mut args = Vec::new();
    write_shortstr(&mut args, "my.queue").unwrap();
    write_long(&mut args, 5);
    write_long(&mut args, 2);
    let frame = encode_method_frame(1, CLASS_QUEUE, METHOD_QUEUE_DECLARE_OK, &args);
    let (decoded, _) = decode_frame(&frame).unwrap();
    let m = decode_method(&decoded.payload).unwrap();
    assert_eq!(m.class_id, CLASS_QUEUE);
    assert_eq!(m.method_id, METHOD_QUEUE_DECLARE_OK);
    let mut r = WireReader::new(&m.arguments);
    assert_eq!(r.read_shortstr().unwrap(), "my.queue");
    assert_eq!(r.read_long().unwrap(), 5);
    assert_eq!(r.read_long().unwrap(), 2);
}

#[test]
fn queue_declare_ok_frame() {
    check_declare_ok_frame();
}

#[test]
fn amqp_queue_declare_ok_frame() {
    check_declare_ok_frame();
}

fn check_delete_ok_frame() {
    let mut args = Vec::new();
    write_long(&mut args, 42);
    let frame = encode_method_frame(1, CLASS_QUEUE, METHOD_QUEUE_DELETE_OK, &args);
    let (decoded, _) = decode_frame(&frame).unwrap();
    let m = decode_method(&decoded.payload).unwrap();
    assert_eq!(m.class_id, CLASS_QUEUE);
    let mut r = WireReader::new(&m.arguments);
    assert_eq!(r.read_long().unwrap(), 42);
}

#[test]
fn queue_delete_ok_frame() {
    check_delete_ok_frame();
}

#[test]
fn amqp_queue_delete_ok_frame() {
    check_delete_ok_frame();
}

fn check_purge_ok_frame() {
    let mut args = Vec::new();
    write_long(&mut args, 10);
    let frame = encode_method_frame(1, CLASS_QUEUE, METHOD_QUEUE_PURGE_OK, &args);
    let (decoded, _) = decode_frame(&frame).unwrap();
    let m = decode_method(&decoded.payload).unwrap();
    assert_eq!(m.class_id, CLASS_QUEUE);
    assert_eq!(m.method_id, METHOD_QUEUE_PURGE_OK);
}

#[test]
fn queue_purge_ok_frame() {
    check_purge_ok_frame();
}

#[test]
fn amqp_queue_purge_ok_frame() {
    check_purge_ok_frame();
}

fn check_bind_args_parse() {
    let mut args = Vec::new();
    write_short(&mut args, 0);
    write_shortstr(&mut args, "q1").unwrap();
    write_shortstr(&mut args, "amq.direct").unwrap();
    write_shortstr(&mut args, "rk1").unwrap();
    write_octet(&mut args, 0);
    write_field_table(&mut args, &[]).unwrap();

    let mut r = WireReader::new(&args);
    let _ = r.read_short().unwrap();
    assert_eq!(r.read_shortstr().unwrap(), "q1");
    assert_eq!(r.read_shortstr().unwrap(), "amq.direct");
    assert_eq!(r.read_shortstr().unwrap(), "rk1");
}

#[test]
fn queue_bind_args_parse() {
    check_bind_args_parse();
}

#[test]
fn amqp_queue_bind_args_parse() {
    check_bind_args_parse();
}

fn check_unbind_args_parse() {
    let mut args = Vec::new();
    write_short(&mut args, 0);
    write_shortstr(&mut args, "q1").unwrap();
    write_shortstr(&mut args, "amq.topic").unwrap();
    write_shortstr(&mut args, "*.stock").unwrap();
    write_field_table(&mut args, &[]).unwrap();

    let mut r = WireReader::new(&args);
    let _ = r.read_short().unwrap();
    assert_eq!(r.read_shortstr().unwrap(), "q1");
    assert_eq!(r.read_shortstr().unwrap(), "amq.topic");
    assert_eq!(r.read_shortstr().unwrap(), "*.stock");
}

#[test]
fn queue_unbind_args_parse() {
    check_unbind_args_parse();
}

#[test]
fn amqp_queue_unbind_args_parse() {
    check_unbind_args_parse();
}

#[test]
fn tx_tx_select_ok_frame() {
    let frame = encode_method_frame(1, CLASS_TX, METHOD_TX_SELECT_OK, &[]);
    let (decoded, _) = decode_frame(&frame).unwrap();
    let m = decode_method(&decoded.payload).unwrap();
    assert_eq!(m.class_id, CLASS_TX);
    assert_eq!(m.method_id, METHOD_TX_SELECT_OK);
}

#[test]
fn tx_tx_commit_ok_frame() {
    let frame = encode_method_frame(1, CLASS_TX, METHOD_TX_COMMIT_OK, &[]);
    let (decoded, _) = decode_frame(&frame).unwrap();
    let m = decode_method(&decoded.payload).unwrap();
    assert_eq!(m.class_id, CLASS_TX);
    assert_eq!(m.method_id, METHOD_TX_COMMIT_OK);
}

#[test]
fn tx_tx_rollback_ok_frame() {
    let frame = encode_method_frame(1, CLASS_TX, METHOD_TX_ROLLBACK_OK, &[]);
    let (decoded, _) = decode_frame(&frame).unwrap();
    let m = decode_method(&decoded.payload).unwrap();
    assert_eq!(m.class_id, CLASS_TX);
    assert_eq!(m.method_id, METHOD_TX_ROLLBACK_OK);
}

#[test]
fn tx_confirm_select_ok_frame() {
    let frame = encode_method_frame(1, CLASS_CONFIRM, METHOD_CONFIRM_SELECT_OK, &[]);
    let (decoded, _) = decode_frame(&frame).unwrap();
    let m = decode_method(&decoded.payload).unwrap();
    assert_eq!(m.class_id, CLASS_CONFIRM);
    assert_eq!(m.method_id, METHOD_CONFIRM_SELECT_OK);
}

#[test]
fn amqp_tx_tx_select_ok_frame() {
    let frame = encode_method_frame(1, CLASS_TX, METHOD_TX_SELECT_OK, &[]);
    let (decoded, _) = decode_frame(&frame).unwrap();
    let m = decode_method(&decoded.payload).unwrap();
    assert_eq!(m.class_id, CLASS_TX);
    assert_eq!(m.method_id, METHOD_TX_SELECT_OK);
}

#[test]
fn amqp_tx_tx_commit_ok_frame() {
    let frame = encode_method_frame(1, CLASS_TX, METHOD_TX_COMMIT_OK, &[]);
    let (decoded, _) = decode_frame(&frame).unwrap();
    let m = decode_method(&decoded.payload).unwrap();
    assert_eq!(m.class_id, CLASS_TX);
    assert_eq!(m.method_id, METHOD_TX_COMMIT_OK);
}

#[test]
fn amqp_tx_tx_rollback_ok_frame() {
    let frame = encode_method_frame(1, CLASS_TX, METHOD_TX_ROLLBACK_OK, &[]);
    let (decoded, _) = decode_frame(&frame).unwrap();
    let m = decode_method(&decoded.payload).unwrap();
    assert_eq!(m.class_id, CLASS_TX);
    assert_eq!(m.method_id, METHOD_TX_ROLLBACK_OK);
}

#[test]
fn amqp_tx_confirm_select_ok_frame() {
    let frame = encode_method_frame(1, CLASS_CONFIRM, METHOD_CONFIRM_SELECT_OK, &[]);
    let (decoded, _) = decode_frame(&frame).unwrap();
    let m = decode_method(&decoded.payload).unwrap();
    assert_eq!(m.class_id, CLASS_CONFIRM);
    assert_eq!(m.method_id, METHOD_CONFIRM_SELECT_OK);
}

#[test]
fn channel_open_ok_frame_valid() {
    let mut args = Vec::new();
    write_longstr(&mut args, b"").unwrap();
    let frame = encode_method_frame(1, CLASS_CHANNEL, METHOD_CHANNEL_OPEN_OK, &args);
    let (decoded, _) = decode_frame(&frame).unwrap();
    assert_eq!(decoded.frame_type, FRAME_METHOD);
    assert_eq!(decoded.channel, 1);
    let m = decode_method(&decoded.payload).unwrap();
    assert_eq!(m.class_id, CLASS_CHANNEL);
    assert_eq!(m.method_id, METHOD_CHANNEL_OPEN_OK);
}

#[test]
fn channel_close_ok_frame_valid() {
    let frame = encode_method_frame(1, CLASS_CHANNEL, METHOD_CHANNEL_CLOSE_OK, &[]);
    let (decoded, _) = decode_frame(&frame).unwrap();
    let m = decode_method(&decoded.payload).unwrap();
    assert_eq!(m.class_id, CLASS_CHANNEL);
    assert_eq!(m.method_id, METHOD_CHANNEL_CLOSE_OK);
}

#[test]
fn channel_flow_ok_active() {
    let mut args = Vec::new();
    write_octet(&mut args, 1);
    let frame = encode_method_frame(1, CLASS_CHANNEL, METHOD_CHANNEL_FLOW_OK, &args);
    let (decoded, _) = decode_frame(&frame).unwrap();
    let m = decode_method(&decoded.payload).unwrap();
    assert_eq!(m.class_id, CLASS_CHANNEL);
    assert_eq!(m.arguments, vec![1]);
}

#[test]
fn channel_flow_ok_inactive() {
    let mut args = Vec::new();
    write_octet(&mut args, 0);
    let frame = encode_method_frame(1, CLASS_CHANNEL, METHOD_CHANNEL_FLOW_OK, &args);
    let (decoded, _) = decode_frame(&frame).unwrap();
    let m = decode_method(&decoded.payload).unwrap();
    assert_eq!(m.arguments, vec![0]);
}

fn check_return_frame() {
    let mut args = Vec::new();
    write_short(&mut args, NO_ROUTE);
    write_shortstr(&mut args, "NO_ROUTE").unwrap();
    write_shortstr(&mut args, "amq.direct").unwrap();
    write_shortstr(&mut args, "key").unwrap();
    let frame = encode_method_frame(1, CLASS_BASIC, METHOD_BASIC_RETURN, &args);
    let (decoded, _) = decode_frame(&frame).unwrap();
    let m = decode_method(&decoded.payload).unwrap();
    assert_eq!(m.class_id, CLASS_BASIC);
    assert_eq!(m.method_id, METHOD_BASIC_RETURN);
}

#[test]
fn basic_basic_return_frame_structure() {
    check_return_frame();
}

#[test]
fn amqp_basic_basic_return_frame_structure() {
    check_return_frame();
}

#[test]
fn deliver_frame_structure() {
    let args = build_deliver_args("tag", 99, false, "ex", "rk");
    let frame = encode_method_frame(1, CLASS_BASIC, METHOD_BASIC_DELIVER, &args);
    let (decoded, _) = decode_frame(&frame).unwrap();
    let m = decode_method(&decoded.payload).unwrap();
    assert_eq!(m.class_id, CLASS_BASIC);
    assert_eq!(m.method_id, METHOD_BASIC_DELIVER);
}

#[test]
fn full_delivery_frame_set() {
    let args = build_deliver_args("tag", 1, false, "", "");
    let method = encode_method_frame(1, CLASS_BASIC, METHOD_BASIC_DELIVER, &args);
    let props = BasicProperties::default();
    let body = b"hello world";
    let header = encode_content_header(1, CLASS_BASIC, body.len() as u64, &props);
    let body_frame = encode_body_frame(1, body);

    let (f1, _) = decode_frame(&method).unwrap();
    assert_eq!(f1.frame_type, FRAME_METHOD);
    let (f2, _) = decode_frame(&header).unwrap();
    assert_eq!(f2.frame_type, FRAME_HEADER);
    let (f3, _) = decode_frame(&body_frame).unwrap();
    assert_eq!(f3.frame_type, FRAME_BODY);
    assert_eq!(&f3.payload, body);
}

// ─── Further cases ────────────────────────────────────────────────────

#[test]
fn content_header_roundtrip_with_properties() {
    let props = BasicProperties {
        content_type: Some("text/plain".to_string()),
        delivery_mode: Some(2),
        priority: Some(7),
        timestamp: Some(1_700_000_000),
        ..BasicProperties::default()
    };
    let wire = encode_content_header(3, CLASS_BASIC, 42, &props);
    let (frame, _) = decode_frame(&wire).unwrap();
    assert_eq!(frame.frame_type, FRAME_HEADER);
    let header = decode_content_header(&frame.payload).unwrap();
    assert_eq!(header.class_id, CLASS_BASIC);
    assert_eq!(header.body_size, 42);
    assert_eq!(header.properties.content_type, Some("text/plain".to_string()));
    assert_eq!(header.properties.delivery_mode, Some(2));
    assert_eq!(header.properties.priority, Some(7));
    assert_eq!(header.properties.timestamp, Some(1_700_000_000));
    assert_eq!(header.properties.message_id, None);
}

#[test]
fn content_header_flag_word() {
    let props = BasicProperties { content_type: Some("a".to_string()), ..BasicProperties::default() };
    let mut buf = Vec::new();
    props.encode(&mut buf).unwrap();
    assert_eq!(buf, vec![0x80, 0x00, 1, b'a']);
    let empty = BasicProperties::default();
    let mut buf2 = Vec::new();
    empty.encode(&mut buf2).unwrap();
    assert_eq!(buf2, vec![0, 0]);
}

#[test]
fn content_header_too_short_is_rejected() {
    assert_eq!(decode_content_header(&[0; 13]).unwrap_err(), FrameError::HeaderTooShort);
}

#[test]
fn frame_errors_are_specific() {
    assert_eq!(decode_frame(&[0, 0, 0]).unwrap_err(), FrameError::TooShort);
    let mut wire = encode_heartbeat();
    wire[7] = 0x11;
    assert_eq!(decode_frame(&wire).unwrap_err(), FrameError::BadFrameEnd(0x11));
    assert_eq!(decode_method(&[0, 0]).unwrap_err(), FrameError::MethodTooShort);
}

#[test]
fn method_frame_exact_bytes() {
    let wire = encode_method_frame(1, 10, 11, &[7]);
    assert_eq!(wire, vec![1, 0, 1, 0, 0, 0, 5, 0, 10, 0, 11, 7, 0xCE]);
}

#[test]
fn longlong_write_read() {
    let mut buf = Vec::new();
    write_longlong(&mut buf, 0x0102030405060708);
    assert_eq!(buf, vec![1, 2, 3, 4, 5, 6, 7, 8]);
    let mut r = WireReader::new(&buf);
    assert_eq!(r.read_longlong().unwrap(), 0x0102030405060708);
    assert!(r.read_octet().is_err());
}

#[test]
fn delivery_frames_carry_method_header_and_body() {
    let props = BasicProperties { content_type: Some("text/plain".to_string()), ..BasicProperties::default() };
    let mut headers = Vec::new();
    props.encode(&mut headers).unwrap();
    let mut msg = Message::new(42, headers, b"hello world".to_vec());
    msg.redelivered = true;
    msg.exchange = "amq.direct".to_string();
    msg.routing_key = "my.key".to_string();
    let frames = encode_delivery_frames(5, "ctag-1", &msg);

    let (f1, n1) = decode_frame(&frames).unwrap();
    assert_eq!(f1.frame_type, FRAME_METHOD);
    assert_eq!(f1.channel, 5);
    let m = decode_method(&f1.payload).unwrap();
    assert_eq!(m.class_id, CLASS_BASIC);
    assert_eq!(m.method_id, METHOD_BASIC_DELIVER);
    assert_eq!(m.arguments, build_deliver_args("ctag-1", 42, true, "amq.direct", "my.key"));

    let (f2, n2) = decode_frame(&frames[n1..]).unwrap();
    assert_eq!(f2.frame_type, FRAME_HEADER);
    let h = decode_content_header(&f2.payload).unwrap();
    assert_eq!(h.class_id, CLASS_BASIC);
    assert_eq!(h.body_size, 11);
    assert_eq!(h.properties.content_type.as_deref(), Some("text/plain"));

    let (f3, n3) = decode_frame(&frames[n1 + n2..]).unwrap();
    assert_eq!(f3.frame_type, FRAME_BODY);
    assert_eq!(f3.payload, b"hello world".to_vec());
    assert_eq!(n1 + n2 + n3, frames.len());
}

#[test]
fn delivery_of_empty_body_has_no_body_frame() {
    let msg = Message::new(1, vec![], vec![]);
    let frames = encode_delivery_frames(1, "t", &msg);
    let (_, n1) = decode_frame(&frames).unwrap();
    let (f2, n2) = decode_frame(&frames[n1..]).unwrap();
    assert_eq!(f2.frame_type, FRAME_HEADER);
    assert_eq!(n1 + n2, frames.len());
}

#[test]
fn frame_loop_checks_in_order() {
    assert_eq!(frame_step(9, 0, 0, 131072, 2047), FrameVerdict::UnexpectedFrame);
    assert_eq!(frame_step(1, 0, 200, 100, 2047), FrameVerdict::FrameTooLarge);
    assert_eq!(frame_step(1, 3000, 10, 131072, 2047), FrameVerdict::InvalidChannel);
    assert_eq!(frame_step(1, 1, 10, 0, 2047), FrameVerdict::Method);
    assert_eq!(frame_step(2, 1, 10, 131072, 2047), FrameVerdict::Header);
    assert_eq!(frame_step(3, 1, 10, 131072, 2047), FrameVerdict::Body);
    assert_eq!(frame_step(8, 0, 0, 131072, 2047), FrameVerdict::Heartbeat);
    assert_eq!(frame_step(8, 1, 0, 131072, 2047), FrameVerdict::InvalidHeartbeat);
    assert_eq!(close_code(FrameVerdict::UnexpectedFrame), Some(505));
    assert_eq!(close_code(FrameVerdict::InvalidChannel), Some(504));
    assert_eq!(close_code(FrameVerdict::Method), None);
    assert_eq!(heartbeat_timing(60, 30), (60_000, 120_000));
    assert_eq!(heartbeat_timing(0, 30), (30_000, 60_000));
    assert!(silence_exceeded(120_001, 120_000));
    assert!(!silence_exceeded(120_000, 120_000));
}
