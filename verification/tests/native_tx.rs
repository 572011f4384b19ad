use rocketmq::amqp::session::{ConnectionState, PendingOp};
use rocketmq::queue::message::{Message, QueueMessage};
use rocketmq::queue::options::QueueOptions;
use rocketmq::state::broker::BrokerState;
use rocketmq::state::native_tx::native_commit;
use rocketmq::state::replies::tx_rollback;

#[test]
fn native_commit_outside_a_transaction_does_nothing() {
    let mut bs = BrokerState::new();
    bs.declare_queue(1, "q", QueueOptions::default());
    let mut cs = ConnectionState::new();
    cs.tx_buffer.push(PendingOp::Ack { msg_id: 1 });
    assert!(native_commit(&mut cs, &mut bs).is_none());
    assert_eq!(cs.tx_buffer.len(), 1);
    assert_eq!(bs.queues[0].1.messages.len(), 0);
}

#[test]
fn native_commit_publishes_bare_messages_and_settles_acks() {
    let mut bs = BrokerState::new();
    bs.declare_queue(1, "a", QueueOptions::default());
    bs.declare_queue(1, "b", QueueOptions::default());
    bs.queues[1].1.inflight.push((42, Message::new(42, vec![], b"old".to_vec())));
    let mut cs = ConnectionState::new();
    cs.select_tx();
    assert!(cs.tx_mode);
    cs.tx_buffer.push(PendingOp::Publish {
        exchange: "ex".to_string(),
        routing_key: "a".to_string(),
        headers: vec![1, 2, 3],
        body: b"one".to_vec(),
    });
    cs.tx_buffer.push(PendingOp::Publish {
        exchange: String::new(),
        routing_key: "missing".to_string(),
        headers: vec![],
        body: b"two".to_vec(),
    });
    cs.tx_buffer.push(PendingOp::Ack { msg_id: 42 });
    cs.tx_buffer.push(PendingOp::Ack { msg_id: 7 });
    let first_id = bs.next_msg_id;
    let logged = native_commit(&mut cs, &mut bs).expect("committed");
    assert_eq!(logged, vec![42]);
    assert!(cs.tx_buffer.is_empty());
    assert!(cs.tx_mode);
    assert_eq!(bs.next_msg_id, first_id + 2);
    assert!(bs.queues[1].1.inflight.is_empty());
    match bs.queues[0].1.messages.pop_front() {
        Some(QueueMessage::Full(m)) => {
            assert_eq!(m.id, first_id);
            assert!(m.headers.is_empty());
            assert_eq!(m.body, b"one".to_vec());
            assert_eq!(m.exchange, "");
            assert_eq!(m.routing_key, "");
        }
        _ => panic!("not published"),
    }
    assert_eq!(bs.queues[1].1.messages.len(), 0);
}

#[test]
fn native_rollback_discards_only_in_a_transaction() {
    let mut cs = ConnectionState::new();
    assert!(!tx_rollback(&mut cs));
    cs.select_tx();
    cs.tx_buffer.push(PendingOp::Ack { msg_id: 3 });
    assert!(tx_rollback(&mut cs));
    assert!(cs.tx_buffer.is_empty());
}
