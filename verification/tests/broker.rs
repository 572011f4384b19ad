use rocketmq::state::place::{place_message, Placement};
use rocketmq::state::settle::{ack_delivery, resolve_negative_delivery};
use rocketmq::amqp::session::PendingOp;
use rocketmq::state::tx::apply_tx_ops;
use rocketmq::queue::message::Message;
use rocketmq::queue::options::QueueOptions;
use rocketmq::queue::state::QueueState;
use rocketmq::state::broker::BrokerState;

fn queue<'a>(bs: &'a BrokerState, name: &str) -> Option<&'a QueueState> {
    bs.queues.iter().find(|(n, _)| n == name).map(|(_, q)| q)
}

#[test]
fn broker_state_alloc_ids_monotonic() {
    let mut bs = BrokerState::new();
    assert_eq!(bs.alloc_conn_id(), 1);
    assert_eq!(bs.alloc_conn_id(), 2);
    assert_eq!(bs.alloc_msg_id(), 1);
    assert_eq!(bs.alloc_msg_id(), 2);
}

#[test]
fn broker_state_default_exchanges() {
    let bs = BrokerState::new();
    let ex = &bs.exchanges;
    assert_eq!(ex.len(), 5);
    for name in ["", "amq.direct", "amq.fanout", "amq.topic", "amq.headers"] {
        assert!(ex.iter().any(|e| e.name == name));
    }
}

#[test]
fn broker_state_remove_connection() {
    let mut bs = BrokerState::new();
    bs.connections.push(1);
    bs.queues.push(("q1".to_string(), QueueState::new()));
    bs.queues[0].1.listeners.push((1, 1));

    bs.remove_connection(1);
    assert!(!bs.connections.contains(&1));
    assert!(queue(&bs, "q1").unwrap().listeners.is_empty());
}

#[test]
fn broker_state_exclusive_queue_removed() {
    let mut bs = BrokerState::new();
    bs.connections.push(1);
    let mut opts = QueueOptions::default();
    opts.exclusive = true;
    let mut q = QueueState::with_options(opts);
    q.owner_conn_id = Some(1);
    bs.queues.push(("excl".to_string(), q));

    bs.remove_connection(1);
    assert!(queue(&bs, "excl").is_none());
}

#[test]
fn disconnect_requeues_unacked_deliveries() {
    let mut bs = BrokerState::new();
    let mut q = QueueState::new();
    q.inflight.push((7, Message::new(7, vec![], b"x".to_vec())));
    bs.queues.push(("work".to_string(), q));
    bs.delivery_index.push((7, "work".to_string()));
    bs.conn_deliveries.push((3, vec![("work".to_string(), 7)]));

    bs.remove_connection(3);
    let q = queue(&bs, "work").unwrap();
    assert!(q.inflight.is_empty());
    assert_eq!(q.messages.len(), 1);
    assert!(bs.delivery_index.is_empty());
    assert!(bs.conn_deliveries.is_empty());
}

#[test]
fn disconnect_drops_subscriptions_and_auto_delete_queues() {
    let mut bs = BrokerState::new();
    let mut opts = QueueOptions::default();
    opts.auto_delete = true;
    let mut temp = QueueState::with_options(opts);
    temp.add_consumer(5, 1, Some("c5".to_string()), None);
    let mut shared = QueueState::new();
    shared.add_consumer(5, 2, Some("c5b".to_string()), None);
    shared.add_consumer(6, 1, Some("c6".to_string()), None);
    bs.queues.push(("temp".to_string(), temp));
    bs.queues.push(("shared".to_string(), shared));
    bs.consumer_index.push(("c5".to_string(), "temp".to_string()));
    bs.consumer_index.push(("c5b".to_string(), "shared".to_string()));
    bs.consumer_index.push(("c6".to_string(), "shared".to_string()));

    bs.remove_connection(5);
    assert!(queue(&bs, "temp").is_none());
    let shared = queue(&bs, "shared").unwrap();
    assert_eq!(shared.listeners, vec![(6, 1)]);
    assert_eq!(shared.consumer_count, 1);
    assert_eq!(shared.consumer_tags.len(), 1);
    assert_eq!(bs.consumer_index, vec![("c6".to_string(), "shared".to_string())]);
}

#[test]
fn recorded_exclusive_queues_go_with_their_connection() {
    let mut bs = BrokerState::new();
    bs.queues.push(("mine".to_string(), QueueState::new()));
    bs.queues.push(("other".to_string(), QueueState::new()));
    bs.register_exclusive_queue(9, "mine");
    bs.register_exclusive_queue(9, "gone");
    bs.deregister_exclusive_queue(9, "gone");
    assert_eq!(bs.conn_exclusive_queues, vec![(9, vec!["mine".to_string()])]);
    bs.remove_connection(9);
    assert!(queue(&bs, "mine").is_none());
    assert!(queue(&bs, "other").is_some());
    assert!(bs.conn_exclusive_queues.is_empty());
}

#[test]
fn consumers_are_registered_and_forgotten() {
    let mut bs = BrokerState::new();
    bs.register_consumer(1, 2, "q", "tag-1");
    bs.register_consumer(1, 3, "q", "tag-2");
    assert_eq!(bs.conn_consumers[0].1.len(), 2);
    assert_eq!(bs.consumer_index.len(), 2);
    bs.deregister_consumer(1, "tag-1");
    assert_eq!(bs.conn_consumers[0].1, vec![("q".to_string(), "tag-2".to_string(), 3)]);
    assert_eq!(bs.consumer_index, vec![("tag-2".to_string(), "q".to_string())]);
}

#[test]
fn queues_are_bound_to_the_default_exchange_once() {
    let mut bs = BrokerState::new();
    bs.auto_bind_default_exchange("orders");
    bs.auto_bind_default_exchange("orders");
    let default = bs.exchanges.iter().find(|e| e.name.is_empty()).unwrap();
    assert_eq!(default.bindings.len(), 1);
    assert_eq!(default.bindings[0].queue_name, "orders");
    assert_eq!(default.bindings[0].routing_key, "orders");
}

#[test]
fn committed_publishes_reach_the_named_queue() {
    let mut bs = BrokerState::new();
    bs.queues.push(("orders".to_string(), QueueState::new()));
    let ops = vec![
        PendingOp::Publish {
            exchange: String::new(),
            routing_key: "orders".to_string(),
            headers: vec![],
            body: b"one".to_vec(),
        },
        PendingOp::Publish {
            exchange: String::new(),
            routing_key: "missing".to_string(),
            headers: vec![],
            body: b"two".to_vec(),
        },
    ];
    let logged = apply_tx_ops(&mut bs, 1, ops);
    assert!(logged.is_empty());
    let q = queue(&bs, "orders").unwrap();
    assert_eq!(q.messages.len(), 1);
    assert_eq!(bs.alloc_msg_id(), 3);
}

#[test]
fn committed_acks_settle_deliveries() {
    let mut bs = BrokerState::new();
    let mut q = QueueState::new();
    q.inflight.push((5, Message::new(5, vec![], b"x".to_vec())));
    bs.queues.push(("work".to_string(), q));
    bs.delivery_index.push((5, "work".to_string()));
    bs.conn_deliveries.push((1, vec![("work".to_string(), 5), ("work".to_string(), 6)]));
    let logged = apply_tx_ops(&mut bs, 1, vec![PendingOp::Ack { msg_id: 5 }, PendingOp::Ack { msg_id: 99 }]);
    assert_eq!(logged, vec![5]);
    assert!(queue(&bs, "work").unwrap().inflight.is_empty());
    assert!(bs.delivery_index.is_empty());
    assert_eq!(bs.conn_deliveries[0].1, vec![("work".to_string(), 6)]);
}

#[test]
fn declaring_creates_once_and_binds_to_default_exchange() {
    let mut bs = BrokerState::new();
    let mut opts = QueueOptions::default();
    opts.exclusive = true;
    assert!(bs.declare_queue(4, "jobs", opts));
    assert!(!bs.declare_queue(4, "jobs", QueueOptions::default()));
    assert_eq!(bs.queues.len(), 1);
    let q = queue(&bs, "jobs").unwrap();
    assert_eq!(q.name, "jobs");
    assert_eq!(q.owner_conn_id, Some(4));
    assert_eq!(bs.conn_exclusive_queues, vec![(4, vec!["jobs".to_string()])]);
    let default = bs.exchanges.iter().find(|e| e.name.is_empty()).unwrap();
    assert_eq!(default.bindings.len(), 1);
    assert_eq!(default.bindings[0].routing_key, "jobs");
}

#[test]
fn deleting_and_purging_report_message_counts() {
    let mut bs = BrokerState::new();
    bs.declare_queue(1, "a", QueueOptions::default());
    bs.queues[0].1.messages.push_back(rocketmq::queue::message::QueueMessage::Full(Message::new(1, vec![], vec![])));
    bs.queues[0].1.messages.push_back(rocketmq::queue::message::QueueMessage::Full(Message::new(2, vec![], vec![])));
    assert_eq!(bs.purge_queue("a"), Some(2));
    assert_eq!(bs.purge_queue("a"), Some(0));
    assert_eq!(bs.purge_queue("nope"), None);
    assert_eq!(bs.delete_queue(1, "a"), Some(0));
    assert_eq!(bs.delete_queue(1, "a"), None);
    assert!(bs.queues.is_empty());
}

fn broker_with_delivery(tag: u64) -> BrokerState {
    let mut bs = BrokerState::new();
    let mut q = QueueState::new();
    q.inflight.push((tag, Message::new(tag, vec![], b"m".to_vec())));
    bs.queues.push(("work".to_string(), q));
    bs.delivery_index.push((tag, "work".to_string()));
    bs.conn_deliveries.push((1, vec![("work".to_string(), tag)]));
    bs
}

#[test]
fn ack_settles_and_counts() {
    let mut bs = broker_with_delivery(8);
    assert!(ack_delivery(&mut bs, 1, 8));
    let q = queue(&bs, "work").unwrap();
    assert!(q.inflight.is_empty());
    assert_eq!(q.stat_acked, 1);
    assert!(bs.delivery_index.is_empty());
    assert!(bs.conn_deliveries[0].1.is_empty());
    assert!(!ack_delivery(&mut bs, 1, 8));
}

#[test]
fn reject_with_requeue_puts_message_back_redelivered() {
    let mut bs = broker_with_delivery(4);
    assert!(resolve_negative_delivery(&mut bs, 1, 4, true));
    let q = &mut bs.queues[0].1;
    assert!(q.inflight.is_empty());
    let m = q.messages.pop_front().unwrap();
    assert_eq!(m.id(), 4);
    assert!(m.redelivered());
    assert_eq!(m.delivery_count(), 1);
}

#[test]
fn reject_without_requeue_discards() {
    let mut bs = broker_with_delivery(4);
    assert!(resolve_negative_delivery(&mut bs, 1, 4, false));
    assert_eq!(bs.queues[0].1.messages.len(), 0);
    assert!(!resolve_negative_delivery(&mut bs, 1, 4, true));
}

#[test]
fn placing_delivers_to_a_live_listener_or_holds() {
    let mut bs = BrokerState::new();
    bs.declare_queue(1, "q", QueueOptions::default());
    assert!(matches!(place_message(&mut bs, "nope", Message::new(1, vec![], vec![]), &[]), Placement::NoQueue));
    let r = place_message(&mut bs, "q", Message::new(1, vec![], b"a".to_vec()), &[]);
    assert!(matches!(r, Placement::Held { .. }));
    assert_eq!(bs.queues[0].1.messages.len(), 1);
    bs.queues[0].1.listeners.push((7, 2));
    let r = place_message(&mut bs, "q", Message::new(2, vec![], b"b".to_vec()), &[7]);
    match r {
        Placement::Delivered { conn_id, channel_id, evicted } => {
            assert_eq!((conn_id, channel_id), (7, 2));
            assert!(evicted.is_empty());
        }
        _ => panic!("not delivered"),
    }
    assert_eq!(bs.queues[0].1.inflight.len(), 1);
    assert_eq!(bs.queues[0].1.inflight[0].0, 2);
}

#[test]
fn placing_evicts_the_oldest_over_the_limit() {
    let mut bs = BrokerState::new();
    let mut opts = QueueOptions::default();
    opts.max_length = Some(2);
    bs.declare_queue(1, "q", opts);
    place_message(&mut bs, "q", Message::new(1, vec![], vec![]), &[]);
    place_message(&mut bs, "q", Message::new(2, vec![], vec![]), &[]);
    match place_message(&mut bs, "q", Message::new(3, vec![], vec![]), &[]) {
        Placement::Held { evicted } => {
            assert_eq!(evicted.len(), 1);
            assert_eq!(evicted[0].id(), 1);
        }
        _ => panic!("not held"),
    }
    assert_eq!(bs.queues[0].1.messages.len(), 2);
}
