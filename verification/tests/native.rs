use rocketmq::queue::options::QueueOptions;
use rocketmq::state::broker::BrokerState;
use rocketmq::state::nack::{dead_letter, native_nack, NackResult};
use rocketmq::state::native::{native_publish, PublishOutcome};
use rocketmq::state::place::Placement;

fn broker_with(queues: &[&str]) -> BrokerState {
    let mut bs = BrokerState::new();
    for q in queues {
        bs.declare_queue(1, q, QueueOptions::default());
        bs.auto_bind_default_exchange(q);
    }
    bs
}

fn delivered(o: &Option<PublishOutcome>) -> Vec<(String, u64, bool)> {
    match o {
        Some(PublishOutcome::Routed { deliveries, complete }) => {
            assert!(*complete);
            deliveries
                .iter()
                .map(|(q, id, p)| (q.clone(), *id, matches!(p, Placement::Delivered { .. })))
                .collect()
        }
        _ => panic!("not routed"),
    }
}

#[test]
fn native_publish_holds_without_consumers() {
    let mut bs = broker_with(&["q"]);
    let mut seen = Vec::new();
    let first_id = bs.next_msg_id;
    let o = native_publish(&mut bs, &mut seen, b"queue:q\r\ncolor:red\r\n", &b"hello".to_vec(), true, 1000, &[]);
    assert_eq!(delivered(&o), vec![("q".to_string(), first_id, false)]);
    assert_eq!(bs.queues[0].1.messages.len(), 1);
    assert_eq!(bs.next_msg_id, first_id + 1);
}

#[test]
fn native_publish_delivers_to_a_live_consumer() {
    let mut bs = broker_with(&["q"]);
    bs.queues[0].1.listeners.push((7, 3));
    let mut seen = Vec::new();
    let o = native_publish(&mut bs, &mut seen, b"queue:q\r\n", &b"hi".to_vec(), true, 0, &[7]);
    let d = delivered(&o);
    assert_eq!(d.len(), 1);
    assert!(d[0].2);
    assert_eq!(bs.queues[0].1.inflight.len(), 1);
    assert_eq!(bs.queues[0].1.inflight[0].1.body, b"hi".to_vec());
}

#[test]
fn native_publish_skips_duplicate_message_ids() {
    let mut bs = broker_with(&["q"]);
    let mut seen = Vec::new();
    let h = b"queue:q\r\nmessage-id:m-1\r\n";
    let o = native_publish(&mut bs, &mut seen, h, &b"a".to_vec(), true, 0, &[]);
    assert_eq!(delivered(&o).len(), 1);
    assert_eq!(seen, vec!["m-1".to_string()]);
    let o = native_publish(&mut bs, &mut seen, h, &b"a".to_vec(), true, 0, &[]);
    assert!(matches!(o, Some(PublishOutcome::Duplicate)));
    assert_eq!(bs.queues[0].1.messages.len(), 1);
    // Without reading message ids, the same headers publish again.
    let o = native_publish(&mut bs, &mut seen, h, &b"a".to_vec(), false, 0, &[]);
    assert_eq!(delivered(&o).len(), 1);
    assert_eq!(bs.queues[0].1.messages.len(), 2);
}

#[test]
fn native_publish_refuses_unknown_exchanges_and_bad_headers() {
    let mut bs = broker_with(&["q"]);
    let mut seen = Vec::new();
    let o = native_publish(&mut bs, &mut seen, b"exchange:nope\r\nrouting_key:q\r\n", &b"a".to_vec(), true, 0, &[]);
    assert!(matches!(o, Some(PublishOutcome::NoExchange)));
    let o = native_publish(&mut bs, &mut seen, &[0xFF, 0xFE], &b"a".to_vec(), true, 0, &[]);
    assert!(o.is_none());
    assert_eq!(bs.queues[0].1.messages.len(), 0);
}

#[test]
fn native_publish_without_bindings_routes_nowhere() {
    let mut bs = broker_with(&["q"]);
    let mut seen = Vec::new();
    let o = native_publish(&mut bs, &mut seen, b"queue:other\r\n", &b"a".to_vec(), true, 0, &[]);
    assert_eq!(delivered(&o), vec![]);
}

#[test]
fn nack_requeues_and_redelivers() {
    let mut bs = broker_with(&["q"]);
    bs.queues[0].1.listeners.push((7, 3));
    let mut seen = Vec::new();
    let o = native_publish(&mut bs, &mut seen, b"queue:q\r\n", &b"hi".to_vec(), true, 0, &[7]);
    let id = delivered(&o)[0].1;
    let next = bs.next_msg_id;
    let headers = format!("id:{}\r\nrequeue:true\r\n", id);
    match native_nack(&mut bs, headers.as_bytes(), &[7]) {
        NackResult::Requeued { queue, redelivered_to } => {
            assert_eq!(queue, "q");
            assert_eq!(redelivered_to, Some((next, 7, 3)));
        }
        _ => panic!("not requeued"),
    }
    let (new_id, m) = &bs.queues[0].1.inflight[0];
    assert_eq!(*new_id, next);
    assert_eq!(m.id, next);
    assert!(m.redelivered);
    assert_eq!(m.delivery_count, 1);
}

#[test]
fn nack_without_requeue_discards_without_a_dead_letter_exchange() {
    let mut bs = broker_with(&["q"]);
    bs.queues[0].1.listeners.push((7, 3));
    let mut seen = Vec::new();
    let o = native_publish(&mut bs, &mut seen, b"queue:q\r\n", &b"hi".to_vec(), true, 0, &[7]);
    let id = delivered(&o)[0].1;
    let headers = format!("id:{}\r\n", id);
    match native_nack(&mut bs, headers.as_bytes(), &[7]) {
        NackResult::DeadLettered { queue, to } => {
            assert_eq!(queue, "q");
            assert!(to.is_empty());
        }
        _ => panic!("not dead-lettered"),
    }
    assert!(bs.queues[0].1.inflight.is_empty());
    assert_eq!(bs.queues[0].1.messages.len(), 0);
}

#[test]
fn nack_of_unknown_or_unreadable_ids() {
    let mut bs = broker_with(&["q"]);
    assert!(matches!(native_nack(&mut bs, b"id:999\r\n", &[]), NackResult::Unknown));
    assert!(matches!(native_nack(&mut bs, b"requeue:true\r\n", &[]), NackResult::BadHeaders));
    assert!(matches!(native_nack(&mut bs, &[0xFF], &[]), NackResult::BadHeaders));
}

#[test]
fn retries_past_the_limit_dead_letter() {
    let mut bs = BrokerState::new();
    let mut opts = QueueOptions::default();
    opts.max_retries = Some(0);
    opts.dead_letter_exchange = Some(String::new());
    opts.dead_letter_routing_key = Some("dlq".to_string());
    bs.declare_queue(1, "q", opts);
    bs.auto_bind_default_exchange("q");
    bs.declare_queue(1, "dlq", QueueOptions::default());
    bs.auto_bind_default_exchange("dlq");
    bs.queues[0].1.listeners.push((7, 3));
    let mut seen = Vec::new();
    let o = native_publish(&mut bs, &mut seen, b"queue:q\r\n", &b"hi".to_vec(), true, 0, &[7]);
    let id = delivered(&o)[0].1;
    let headers = format!("id:{}\r\nrequeue:true\r\n", id);
    match native_nack(&mut bs, headers.as_bytes(), &[7]) {
        NackResult::DeadLettered { queue, to } => {
            assert_eq!(queue, "q");
            assert_eq!(to, vec!["dlq".to_string()]);
        }
        _ => panic!("not dead-lettered"),
    }
    assert_eq!(bs.queues[1].1.messages.len(), 1);
}

#[test]
fn dead_letter_copies_to_each_routed_queue() {
    let mut bs = BrokerState::new();
    let mut opts = QueueOptions::default();
    opts.dead_letter_exchange = Some(String::new());
    opts.dead_letter_routing_key = Some("dlq".to_string());
    bs.declare_queue(1, "q", opts);
    bs.declare_queue(1, "dlq", QueueOptions::default());
    bs.auto_bind_default_exchange("dlq");
    let msg = rocketmq::queue::message::Message::new(42, b"h:v\r\n".to_vec(), b"body".to_vec());
    assert_eq!(dead_letter(&mut bs, "q", &msg), vec!["dlq".to_string()]);
    assert_eq!(bs.queues[1].1.messages.len(), 1);
    assert!(dead_letter(&mut bs, "dlq", &msg).is_empty());
    assert!(dead_letter(&mut bs, "missing", &msg).is_empty());
}

#[test]
fn messages_dropped_for_room_are_dead_lettered() {
    let mut bs = BrokerState::new();
    let mut opts = QueueOptions::default();
    opts.max_length = Some(1);
    opts.dead_letter_exchange = Some(String::new());
    opts.dead_letter_routing_key = Some("dlq".to_string());
    bs.declare_queue(1, "q", opts);
    bs.declare_queue(1, "dlq", QueueOptions::default());
    let mut seen = Vec::new();
    let o = native_publish(&mut bs, &mut seen, b"queue:q\r\n", &b"first".to_vec(), true, 0, &[]);
    assert_eq!(delivered(&o).len(), 1);
    let o = native_publish(&mut bs, &mut seen, b"queue:q\r\n", &b"second".to_vec(), true, 0, &[]);
    match o {
        Some(PublishOutcome::Routed { deliveries, .. }) => match &deliveries[0].2 {
            Placement::Held { evicted } => assert_eq!(evicted.len(), 1),
            _ => panic!("not held"),
        },
        _ => panic!("not routed"),
    }
    assert_eq!(bs.queues[0].1.messages.len(), 1);
    assert_eq!(bs.queues[1].1.messages.len(), 1);
}
