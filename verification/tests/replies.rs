use rocketmq::amqp::codec::{decode_frame, decode_method};
use rocketmq::amqp::properties::BasicProperties;
use rocketmq::amqp::queue_class::QueueRefusal;
use rocketmq::amqp::session::{ConnectionState, PendingOp};
use rocketmq::queue::options::QueueOptions;
use rocketmq::schema::validate::SchemaValidationError;
use rocketmq::state::broker::BrokerState;
use rocketmq::state::consume::ConsumeOutcome;
use rocketmq::state::declare::DeclareOutcome;
use rocketmq::state::publish_flow::PublishRoute;
use rocketmq::state::replies::{
    consume_reply, declare_reply, publish_reply, tx_commit, tx_commit_reply, tx_rollback, tx_rollback_reply,
    TxCommitOutcome,
};

/// Splits a byte stream into (frame type, channel, class, method, arguments) of its frames.
fn frames(mut bytes: &[u8]) -> Vec<(u8, u16, u16, u16, Vec<u8>)> {
    let mut out = Vec::new();
    while !bytes.is_empty() {
        let (f, used) = decode_frame(bytes).unwrap();
        if f.frame_type == 1 {
            let m = decode_method(&f.payload).unwrap();
            out.push((1, f.channel, m.class_id, m.method_id, m.arguments));
        } else {
            out.push((f.frame_type, f.channel, 0, 0, f.payload));
        }
        bytes = &bytes[used..];
    }
    out
}

fn close_code(args: &[u8]) -> u16 {
    u16::from_be_bytes([args[0], args[1]])
}

#[test]
fn declare_refusals_close_the_channel() {
    for (refusal, code) in [
        (QueueRefusal::ReservedName, 403),
        (QueueRefusal::NotFound, 404),
        (QueueRefusal::Locked, 405),
    ] {
        let f = frames(&declare_reply(3, &DeclareOutcome::Refused(refusal), "").unwrap());
        assert_eq!(f.len(), 1);
        let (_, ch, class, method, args) = &f[0];
        assert_eq!((*ch, *class, *method), (3, 20, 40));
        assert_eq!(close_code(args), code);
        assert_eq!(&args[args.len() - 4..], &[0, 50, 0, 10]);
    }
}

#[test]
fn declared_queues_get_declare_ok_unless_no_wait() {
    let o = DeclareOutcome::Declared {
        name: "q".to_string(),
        message_count: 2,
        consumer_count: 1,
        no_wait: false,
        created: true,
    };
    let f = frames(&declare_reply(1, &o, "").unwrap());
    assert_eq!(f[0].2, 50);
    assert_eq!(f[0].3, 11);
    assert_eq!(f[0].4, vec![1, b'q', 0, 0, 0, 2, 0, 0, 0, 1]);
    let quiet = DeclareOutcome::Declared {
        name: "q".to_string(),
        message_count: 0,
        consumer_count: 0,
        no_wait: true,
        created: false,
    };
    assert!(declare_reply(1, &quiet, "").is_none());
    let f = frames(&declare_reply(1, &DeclareOutcome::SchemaError(rocketmq::schema::error::ErrorCode::MissingArgument), "{}").unwrap());
    assert_eq!(close_code(&f[0].4), 406);
}

#[test]
fn consume_replies() {
    let f = frames(&consume_reply(2, &ConsumeOutcome::NotFound, "").unwrap());
    assert_eq!((f[0].2, f[0].3, close_code(&f[0].4)), (20, 40, 404));
    let f = frames(&consume_reply(2, &ConsumeOutcome::ExclusiveRefused, "").unwrap());
    assert_eq!(close_code(&f[0].4), 403);
    let ok = ConsumeOutcome::Consuming { tag: "t1".to_string(), no_wait: false };
    let f = frames(&consume_reply(2, &ok, "").unwrap());
    assert_eq!((f[0].2, f[0].3), (60, 21));
    assert_eq!(f[0].4, vec![2, b't', b'1']);
}

#[test]
fn tx_commit_applies_and_answers_commit_ok() {
    let mut bs = BrokerState::new();
    bs.declare_queue(1, "q1", QueueOptions::default());
    let mut cs = ConnectionState::new();
    cs.tx_mode = true;
    cs.tx_buffer.push(PendingOp::Publish {
        exchange: String::new(),
        routing_key: "q1".to_string(),
        headers: vec![],
        body: b"transacted".to_vec(),
    });
    let o = tx_commit(&mut cs, &mut bs, 1);
    assert!(matches!(o, TxCommitOutcome::Committed { .. }));
    assert!(cs.tx_buffer.is_empty());
    assert!(cs.tx_mode);
    assert_eq!(bs.queues[0].1.messages.len(), 1);
    let f = frames(&tx_commit_reply(1, &o, ""));
    assert_eq!(f.len(), 1);
    assert_eq!((f[0].2, f[0].3), (90, 21));
}

#[test]
fn tx_commit_outside_tx_mode_is_refused() {
    let mut bs = BrokerState::new();
    let mut cs = ConnectionState::new();
    let o = tx_commit(&mut cs, &mut bs, 1);
    assert!(matches!(o, TxCommitOutcome::NotInTx));
    let f = frames(&tx_commit_reply(1, &o, ""));
    assert_eq!((f[0].2, f[0].3, close_code(&f[0].4)), (20, 40, 406));
}

#[test]
fn tx_rollback_discards_the_buffer() {
    let mut cs = ConnectionState::new();
    cs.tx_mode = true;
    cs.tx_buffer.push(PendingOp::Ack { msg_id: 4 });
    assert!(tx_rollback(&mut cs));
    assert!(cs.tx_buffer.is_empty());
    assert!(cs.tx_mode);
    let f = frames(&tx_rollback_reply(1, true));
    assert_eq!((f[0].2, f[0].3), (90, 31));
    let mut idle = ConnectionState::new();
    assert!(!tx_rollback(&mut idle));
    let f = frames(&tx_rollback_reply(1, false));
    assert_eq!(close_code(&f[0].4), 406);
}

#[test]
fn publish_replies_confirm_return_or_close() {
    let props = BasicProperties::default();
    assert!(publish_reply(1, &PublishRoute::Buffer, Some(1), "", "", "k", &props, b"x").is_empty());
    let f = frames(&publish_reply(1, &PublishRoute::NoExchange, Some(7), "", "", "k", &props, b"x"));
    assert_eq!((f[0].2, f[0].3), (60, 80));
    assert_eq!(f[0].4, vec![0, 0, 0, 0, 0, 0, 0, 7, 0]);
    let f = frames(&publish_reply(
        1,
        &PublishRoute::Unroutable { return_to_publisher: true },
        None,
        "",
        "ex",
        "k",
        &props,
        b"body",
    ));
    assert_eq!(f.len(), 3);
    assert_eq!((f[0].2, f[0].3), (60, 50));
    assert_eq!(f[1].0, 2);
    assert_eq!(f[2].4, b"body".to_vec());
    let refused = PublishRoute::Refused { target: 0, queue: "q".to_string(), error: SchemaValidationError::DecodeFailed("x".to_string()) };
    let f = frames(&publish_reply(1, &refused, Some(2), "{}", "", "k", &props, b"x"));
    assert_eq!(close_code(&f[0].4), 406);
    assert_eq!((f[1].2, f[1].3), (60, 120));
    assert!(publish_reply(1, &PublishRoute::Deliver { targets: vec![] }, None, "", "", "k", &props, b"x").is_empty());
}
