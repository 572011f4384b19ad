use rocketmq::amqp::codec::{decode_frame, decode_method};
use rocketmq::amqp::content::ContentState;
use rocketmq::amqp::properties::BasicProperties;
use rocketmq::amqp::session::{ChannelState, ConnectionState, PendingOp};
use rocketmq::amqp::table::FieldValue;
use rocketmq::queue::message::QueueMessage;
use rocketmq::queue::options::QueueOptions;
use rocketmq::schema::fields::{ProtoKind, SchemaField};
use rocketmq::schema::proto::QueueSchema;
use rocketmq::schema::validate::SchemaValidationError;
use rocketmq::state::amqp_publish::{complete_publish, publish_refusal_reply, routing_headers, PublishCompletion};
use rocketmq::state::broker::BrokerState;

/// Splits a byte stream into (frame type, channel, class, method, payload or arguments).
fn frames(mut bytes: &[u8]) -> Vec<(u8, u16, u16, u16, Vec<u8>)> {
    let mut out = Vec::new();
    while !bytes.is_empty() {
        let (f, used) = decode_frame(bytes).unwrap();
        if f.frame_type == 1 {
            let m = decode_method(&f.payload).unwrap();
            out.push((1, f.channel, m.class_id, m.method_id, m.arguments));
        } else {
            out.push((f.frame_type, f.channel, 0, 0, f.payload));
        }
        bytes = &bytes[used..];
    }
    out
}

fn content(exchange: &str, key: &str, mandatory: bool, properties: BasicProperties, body: &[u8]) -> ContentState {
    ContentState {
        exchange: exchange.to_string(),
        routing_key: key.to_string(),
        mandatory,
        properties,
        body_size: body.len() as u64,
        body_received: body.to_vec(),
        channel: 1,
    }
}

fn encoded(p: &BasicProperties) -> Vec<u8> {
    let mut out = Vec::new();
    let _ = p.encode(&mut out);
    out
}

#[test]
fn publish_in_a_transaction_is_buffered() {
    let mut bs = BrokerState::new();
    bs.declare_queue(1, "q", QueueOptions::default());
    let mut cs = ConnectionState::new();
    cs.tx_mode = true;
    let mut chan = ChannelState::new(1);
    let mut props = BasicProperties::default();
    props.priority = Some(3);
    let want_headers = encoded(&props);
    let r = complete_publish(&mut bs, &mut cs, &mut chan, content("", "q", false, props, b"tx body"), 0);
    match r {
        PublishCompletion::Answered { frames, complete, .. } => {
            assert!(frames.is_empty());
            assert!(complete);
        }
        _ => panic!("a buffered publish is not refused"),
    }
    assert_eq!(bs.queues[0].1.messages.len(), 0);
    assert_eq!(cs.tx_buffer.len(), 1);
    match &cs.tx_buffer[0] {
        PendingOp::Publish { exchange, routing_key, headers, body } => {
            assert_eq!(exchange, "");
            assert_eq!(routing_key, "q");
            assert_eq!(headers, &want_headers);
            assert!(!headers.is_empty());
            assert_eq!(body, b"tx body");
        }
        _ => panic!("not a publish"),
    }
}

#[test]
fn delivered_message_keeps_properties_priority_and_deadline() {
    let mut bs = BrokerState::new();
    let mut opts = QueueOptions::default();
    opts.max_priority = 5;
    opts.message_ttl = Some(1000);
    bs.declare_queue(1, "q", opts);
    let mut cs = ConnectionState::new();
    let mut chan = ChannelState::new(1);
    chan.confirm_mode = true;
    chan.next_delivery_tag = 7;
    let mut props = BasicProperties::default();
    props.priority = Some(9);
    props.expiration = Some("500".to_string());
    let want_headers = encoded(&props);
    let r = complete_publish(&mut bs, &mut cs, &mut chan, content("", "q", false, props, b"hello"), 10_000);
    let out = match r {
        PublishCompletion::Answered { frames, complete, .. } => {
            assert!(complete);
            frames
        }
        _ => panic!("refused"),
    };
    assert_eq!(chan.next_delivery_tag, 8);
    let f = frames(&out);
    assert_eq!(f.len(), 1);
    assert_eq!((f[0].2, f[0].3), (60, 80));
    assert_eq!(&f[0].4[..8], &7u64.to_be_bytes());
    assert_eq!(bs.queues[0].1.stat_published, 1);
    assert_eq!(bs.queues[0].1.last_activity, 10_000);
    let q = &mut bs.queues[0].1.messages;
    assert_eq!(q.len(), 1);
    match q.pop_front() {
        Some(QueueMessage::Full(m)) => {
            assert_eq!(m.priority, 5);
            assert_eq!(m.expiration, Some(10_500));
            assert_eq!(m.headers, want_headers);
            assert_eq!(m.body, b"hello".to_vec());
            assert_eq!(m.exchange, "");
            assert_eq!(m.routing_key, "q");
            assert!(!m.redelivered);
        }
        _ => panic!("no message"),
    }
}

#[test]
fn queue_ttl_shorter_than_message_ttl_wins() {
    let mut bs = BrokerState::new();
    let mut opts = QueueOptions::default();
    opts.message_ttl = Some(200);
    bs.declare_queue(1, "q", opts);
    let mut cs = ConnectionState::new();
    let mut chan = ChannelState::new(1);
    let mut props = BasicProperties::default();
    props.expiration = Some("5000".to_string());
    let r = complete_publish(&mut bs, &mut cs, &mut chan, content("", "q", false, props, b"x"), 1000);
    match r {
        PublishCompletion::Answered { frames, .. } => assert!(frames.is_empty()),
        _ => panic!("refused"),
    }
    assert_eq!(chan.next_delivery_tag, 1);
    match bs.queues[0].1.messages.pop_front() {
        Some(QueueMessage::Full(m)) => {
            assert_eq!(m.expiration, Some(1200));
            assert_eq!(m.priority, 0);
        }
        _ => panic!("no message"),
    }
}

#[test]
fn unroutable_mandatory_publish_is_returned_then_confirmed() {
    let mut bs = BrokerState::new();
    let mut cs = ConnectionState::new();
    let mut chan = ChannelState::new(1);
    chan.confirm_mode = true;
    let r = complete_publish(&mut bs, &mut cs, &mut chan, content("", "nowhere", true, BasicProperties::default(), b"abc"), 0);
    let out = match r {
        PublishCompletion::Answered { frames, .. } => frames,
        _ => panic!("refused"),
    };
    let f = frames(&out);
    assert_eq!(f.len(), 4);
    assert_eq!((f[0].0, f[0].2, f[0].3), (1, 60, 50));
    assert_eq!(u16::from_be_bytes([f[0].4[0], f[0].4[1]]), 312);
    assert_eq!(f[1].0, 2);
    assert_eq!((f[2].0, f[2].4.clone()), (3, b"abc".to_vec()));
    assert_eq!((f[3].2, f[3].3), (60, 80));
}

#[test]
fn missing_exchange_is_confirmed_and_changes_nothing() {
    let mut bs = BrokerState::new();
    bs.declare_queue(1, "q", QueueOptions::default());
    let mut cs = ConnectionState::new();
    let mut chan = ChannelState::new(1);
    chan.confirm_mode = true;
    let r = complete_publish(&mut bs, &mut cs, &mut chan, content("no-such", "q", false, BasicProperties::default(), b"x"), 0);
    match r {
        PublishCompletion::Answered { frames, complete, .. } => {
            assert!(complete);
            let f = frames_of(&frames);
            assert_eq!(f, vec![(60, 80)]);
        }
        _ => panic!("refused"),
    }
    assert_eq!(bs.queues[0].1.messages.len(), 0);
}

fn frames_of(bytes: &[u8]) -> Vec<(u16, u16)> {
    frames(bytes).into_iter().map(|f| (f.2, f.3)).collect()
}

#[test]
fn schema_refusal_leaves_queues_alone() {
    let mut bs = BrokerState::new();
    bs.declare_queue(1, "orders", QueueOptions::default());
    bs.queues[0].1.schema = Some(QueueSchema {
        fields: vec![SchemaField { name: "id".to_string(), kind: ProtoKind::String }],
        descriptors: Vec::new(),
        message: "Order".to_string(),
    });
    let mut cs = ConnectionState::new();
    let mut chan = ChannelState::new(1);
    chan.confirm_mode = true;
    chan.next_delivery_tag = 4;
    let r = complete_publish(&mut bs, &mut cs, &mut chan, content("", "orders", false, BasicProperties::default(), br#"{"other":1}"#), 0);
    match r {
        PublishCompletion::Refused { queue, error, tag } => {
            assert_eq!(queue, "orders");
            assert!(matches!(error, SchemaValidationError::MissingFields { .. }));
            assert_eq!(tag, Some(4));
            let f = frames(&publish_refusal_reply(1, tag, "bad"));
            assert_eq!((f[0].2, f[0].3), (20, 40));
            assert_eq!(u16::from_be_bytes([f[0].4[0], f[0].4[1]]), 406);
            assert_eq!((f[1].2, f[1].3), (60, 120));
        }
        _ => panic!("not refused"),
    }
    assert_eq!(bs.queues[0].1.messages.len(), 0);
    let ok = complete_publish(&mut bs, &mut cs, &mut chan, content("", "orders", false, BasicProperties::default(), br#"{"id":"a"}"#), 0);
    assert!(matches!(ok, PublishCompletion::Answered { complete: true, .. }));
    assert_eq!(bs.queues[0].1.messages.len(), 1);
}

#[test]
fn header_values_are_matched_as_text() {
    let mut props = BasicProperties::default();
    props.headers = Some(vec![
        ("format".to_string(), FieldValue::LongString(b"pdf".to_vec())),
        ("urgent".to_string(), FieldValue::Boolean(true)),
    ]);
    let hs = routing_headers(&props.headers);
    assert_eq!(hs, vec![("format".to_string(), "pdf".to_string()), ("urgent".to_string(), "true".to_string())]);
    assert!(routing_headers(&None).is_empty());
}

#[test]
fn persistent_messages_on_durable_queues_are_logged() {
    let mut bs = BrokerState::new();
    let mut durable = QueueOptions::default();
    durable.durable = true;
    bs.declare_queue(1, "d", durable);
    bs.declare_queue(1, "t", QueueOptions::default());
    let mut cs = ConnectionState::new();
    let mut chan = ChannelState::new(1);
    let mut props = BasicProperties::default();
    props.delivery_mode = Some(2);
    let id = bs.next_msg_id;
    match complete_publish(&mut bs, &mut cs, &mut chan, content("", "d", false, props, b"keep"), 0) {
        PublishCompletion::Answered { persisted, .. } => assert_eq!(persisted, vec![("d".to_string(), id)]),
        _ => panic!("refused"),
    }
    let mut props = BasicProperties::default();
    props.delivery_mode = Some(2);
    match complete_publish(&mut bs, &mut cs, &mut chan, content("", "t", false, props, b"temp"), 0) {
        PublishCompletion::Answered { persisted, .. } => assert!(persisted.is_empty()),
        _ => panic!("refused"),
    }
    match complete_publish(&mut bs, &mut cs, &mut chan, content("", "d", false, BasicProperties::default(), b"transient"), 0) {
        PublishCompletion::Answered { persisted, .. } => assert!(persisted.is_empty()),
        _ => panic!("refused"),
    }
    assert_eq!(bs.queues[0].1.messages.len(), 2);
}
