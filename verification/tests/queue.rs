use rocketmq::queue::delay::DelayQueue;
use rocketmq::queue::message::{Message, QueueMessage};
use rocketmq::queue::options::{QueueOptions, QueueType};
use rocketmq::queue::priority::PriorityQueue;
use rocketmq::queue::state::{ConsumerGroup, QueueState};

fn full(id: u64, body: &[u8], priority: u8) -> QueueMessage {
    let mut m = Message::new(id, vec![], body.to_vec());
    m.priority = priority;
    QueueMessage::Full(m)
}

#[test]
fn message_new_defaults() {
    let msg = Message::new(1, vec![], vec![1, 2, 3]);
    assert_eq!(msg.id, 1);
    assert_eq!(msg.priority, 0);
    assert!(!msg.redelivered);
    assert!(!msg.is_expired(10_000));
}

#[test]
fn message_expired() {
    let now = 10_000;
    let msg = Message {
        id: 1,
        headers: vec![],
        body: vec![],
        priority: 0,
        expiration: Some(now - 1_000),
        redelivered: false,
        delivery_count: 0,
        exchange: "".to_string(),
        routing_key: "".to_string(),
    };
    assert!(msg.is_expired(now));
}

#[test]
fn message_not_expired() {
    let now = 10_000;
    let msg = Message {
        id: 1,
        headers: vec![],
        body: vec![],
        priority: 0,
        expiration: Some(now + 60_000),
        redelivered: false,
        delivery_count: 0,
        exchange: "".to_string(),
        routing_key: "".to_string(),
    };
    assert!(!msg.is_expired(now));
}

#[test]
fn priority_queue_fifo_same_priority() {
    let mut pq = PriorityQueue::new();
    pq.push_back(full(1, b"first", 0));
    pq.push_back(full(2, b"second", 0));
    pq.push_back(full(3, b"third", 0));
    assert_eq!(pq.len(), 3);
    assert_eq!(pq.pop_front().unwrap().unwrap_full().body, b"first");
    assert_eq!(pq.pop_front().unwrap().unwrap_full().body, b"second");
    assert_eq!(pq.pop_front().unwrap().unwrap_full().body, b"third");
    assert!(pq.pop_front().is_none());
}

#[test]
fn priority_queue_higher_priority_first() {
    let mut pq = PriorityQueue::new();
    pq.push_back(full(1, b"low", 1));
    pq.push_back(full(2, b"high", 10));
    pq.push_back(full(3, b"mid", 5));
    assert_eq!(pq.pop_front().unwrap().unwrap_full().body, b"high");
    assert_eq!(pq.pop_front().unwrap().unwrap_full().body, b"mid");
    assert_eq!(pq.pop_front().unwrap().unwrap_full().body, b"low");
}

#[test]
fn priority_queue_push_front_stays_at_front() {
    let mut pq = PriorityQueue::new();
    pq.push_back(full(1, b"back", 0));
    pq.push_front(full(2, b"front", 0));
    assert_eq!(pq.pop_front().unwrap().unwrap_full().body, b"front");
}

#[test]
fn priority_queue_pop_oldest_evicts_lowest() {
    let mut pq = PriorityQueue::new();
    pq.push_back(full(1, b"low", 0));
    pq.push_back(full(2, b"high", 10));
    assert_eq!(pq.pop_oldest().unwrap().unwrap_full().body, b"low");
    assert_eq!(pq.len(), 1);
}

#[test]
fn priority_queue_empty_operations() {
    let mut pq = PriorityQueue::new();
    assert_eq!(pq.len(), 0);
    assert!(pq.pop_front().is_none());
    assert!(pq.pop_oldest().is_none());
}

#[test]
fn delay_queue_future_not_drained() {
    let mut dq = DelayQueue::new();
    let msg = Message::new(1, vec![], b"future".to_vec());
    dq.schedule("q1".to_string(), msg, 60_000, 0);
    let ready = dq.drain_ready(0);
    assert!(ready.is_empty());
    assert_eq!(dq.len(), 1);
}

#[test]
fn delay_queue_drains_in_due_order() {
    let mut dq = DelayQueue::new();
    dq.schedule("q".to_string(), Message::new(1, vec![], b"late".to_vec()), 500, 0);
    dq.schedule("q".to_string(), Message::new(2, vec![], b"early".to_vec()), 100, 0);
    dq.schedule("q".to_string(), Message::new(3, vec![], b"early2".to_vec()), 100, 0);
    let ready = dq.drain_ready(100);
    assert_eq!(ready.len(), 2);
    assert_eq!(ready[0].message.id, 2);
    assert_eq!(ready[1].message.id, 3);
    assert_eq!(dq.len(), 1);
    assert_eq!(dq.drain_ready(1_000)[0].message.id, 1);
}

#[test]
fn message_delivery_count_default() {
    let msg = Message::new(1, vec![], vec![]);
    assert_eq!(msg.delivery_count, 0);
}

#[test]
fn priority_queue_peek_front() {
    let mut pq = PriorityQueue::new();
    assert!(pq.peek_front().is_none());
    pq.push_back(full(1, b"a", 0));
    assert_eq!(pq.peek_front().unwrap().clone().unwrap_full().body, b"a");
    assert_eq!(pq.len(), 1);
}

#[test]
fn consumer_group_add_member() {
    let mut g = ConsumerGroup::new("workers".to_string());
    assert!(g.add_member(1, 1));
    assert_eq!(g.members.len(), 1);
}

#[test]
fn consumer_group_add_duplicate_rejected() {
    let mut g = ConsumerGroup::new("workers".to_string());
    assert!(g.add_member(1, 1));
    assert!(!g.add_member(1, 1));
    assert_eq!(g.members.len(), 1);
}

#[test]
fn consumer_group_remove_member() {
    let mut g = ConsumerGroup::new("workers".to_string());
    g.add_member(1, 1);
    g.add_member(2, 1);
    assert!(g.remove_member(1, 1));
    assert_eq!(g.members.len(), 1);
    assert_eq!(g.members[0], (2, 1));
}

#[test]
fn consumer_group_remove_nonexistent() {
    let mut g = ConsumerGroup::new("workers".to_string());
    assert!(!g.remove_member(99, 1));
}

#[test]
fn consumer_group_round_robin_skips_dead() {
    let mut g = ConsumerGroup::new("workers".to_string());
    g.add_member(1, 1);
    g.add_member(2, 1);
    g.add_member(3, 1);
    assert_eq!(g.next_target(&[1, 2, 3]), Some((1, 1)));
    assert_eq!(g.next_target(&[1, 3]), Some((3, 1)));
    assert_eq!(g.next_target(&[]), None);
}

#[test]
fn queue_type_from_amqp_arg_variants() {
    assert_eq!(QueueType::from_amqp_arg(None), QueueType::Classic);
    assert_eq!(QueueType::from_amqp_arg(Some("classic")), QueueType::Classic);
    assert_eq!(QueueType::from_amqp_arg(Some("quorum")), QueueType::Quorum);
    assert_eq!(QueueType::from_amqp_arg(Some("stream")), QueueType::Stream);
    assert_eq!(QueueType::from_amqp_arg(Some("unknown")), QueueType::Classic);
}

#[test]
fn queue_type_as_str_roundtrip() {
    assert_eq!(QueueType::Classic.as_str(), "classic");
    assert_eq!(QueueType::Quorum.as_str(), "quorum");
    assert_eq!(QueueType::Stream.as_str(), "stream");
}

#[test]
fn from_headers_parses_queue_type() {
    let headers = "name:my-q\r\nx-queue-type:quorum\r\nx-quorum-initial-group-size:5";
    let (name, opts) = QueueOptions::from_headers(headers);
    assert_eq!(name, "my-q");
    assert_eq!(opts.queue_type, QueueType::Quorum);
    assert_eq!(opts.quorum_group_size, 5);
}

#[test]
fn from_headers_defaults_to_classic() {
    let headers = "name:classic-q\r\ndurable:true";
    let (_, opts) = QueueOptions::from_headers(headers);
    assert_eq!(opts.queue_type, QueueType::Classic);
    assert!(opts.durable);
}

#[test]
fn from_headers_stream_sets_stream_mode() {
    let headers = "name:stream-q\r\nx-queue-type:stream";
    let (_, opts) = QueueOptions::from_headers(headers);
    assert_eq!(opts.queue_type, QueueType::Stream);
    assert!(opts.stream_mode);
}

#[test]
fn queue_options_from_headers_full() {
    let input = "name:orders\r\ndurable:true\r\nexclusive:true\r\nauto_delete:true\r\nmax_priority:10\r\nmessage_ttl:60000\r\nmax_length:1000\r\nx-dead-letter-exchange:dlx\r\nx-dead-letter-routing-key:dead\r\n";
    let (name, opts) = QueueOptions::from_headers(input);
    assert_eq!(name, "orders");
    assert!(opts.durable);
    assert!(opts.exclusive);
    assert!(opts.auto_delete);
    assert_eq!(opts.max_priority, 10);
    assert_eq!(opts.message_ttl, Some(60000));
    assert_eq!(opts.max_length, Some(1000));
    assert_eq!(opts.dead_letter_exchange.as_deref(), Some("dlx"));
    assert_eq!(opts.dead_letter_routing_key.as_deref(), Some("dead"));
}

#[test]
fn queue_options_from_headers_minimal() {
    let input = "name:q1\r\n";
    let (name, opts) = QueueOptions::from_headers(input);
    assert_eq!(name, "q1");
    assert!(!opts.durable);
    assert!(opts.message_ttl.is_none());
}

#[test]
fn queue_options_ignores_unknown_keys() {
    let input = "name:q1\r\nunknown:value\r\n";
    let (name, _) = QueueOptions::from_headers(input);
    assert_eq!(name, "q1");
}

#[test]
fn queue_options_invalid_ttl_ignored() {
    let input = "name:q1\r\nmessage_ttl:bad\r\n";
    let (_, opts) = QueueOptions::from_headers(input);
    assert!(opts.message_ttl.is_none());
}

#[test]
fn queue_options_parses_new_fields() {
    let input = "name:q1\r\nx-expires:30000\r\nx-max-retries:5\r\nx-retry-delay:1000\r\nx-retry-multiplier:2.0\r\n";
    let (name, opts) = QueueOptions::from_headers(input);
    assert_eq!(name, "q1");
    assert_eq!(opts.expires, Some(30000));
    assert_eq!(opts.max_retries, Some(5));
    assert_eq!(opts.retry_delay_ms, Some(1000));
    let multiplier: Option<f64> = opts.retry_multiplier.as_deref().and_then(|s| s.parse().ok());
    assert_eq!(multiplier, Some(2.0));
}

#[test]
fn stream_mode_from_headers() {
    let input = "name:events\r\nx-queue-type:stream\r\n";
    let (name, opts) = QueueOptions::from_headers(input);
    assert_eq!(name, "events");
    assert!(opts.stream_mode);
}

#[test]
fn options_rate_limit_from_headers() {
    let input = "name:q1\r\nx-rate-limit:500\r\n";
    let (name, opts) = QueueOptions::from_headers(input);
    assert_eq!(name, "q1");
    assert_eq!(opts.rate_limit, Some(500));
}

#[test]
fn options_stream_type_non_stream() {
    let input = "name:q1\r\nx-queue-type:classic\r\n";
    let (_, opts) = QueueOptions::from_headers(input);
    assert!(!opts.stream_mode);
}

#[test]
fn from_headers_edge_cases() {
    // A value may itself hold ':'; only the first one ends the key.
    let (name, opts) = QueueOptions::from_headers("name:a:b\r\n\r\nno-colon\r\nmax_priority:300\r\nx-quorum-initial-group-size:x");
    assert_eq!(name, "a:b");
    assert_eq!(opts.max_priority, 0);
    assert_eq!(opts.quorum_group_size, 3);
    // A later line overrides an earlier one; '+' is accepted before digits.
    let (_, opts) = QueueOptions::from_headers("max_priority:+7\r\nmax_priority:9\r\nx-queue-type:stream\r\nx-queue-type:classic");
    assert_eq!(opts.max_priority, 9);
    assert_eq!(opts.queue_type, QueueType::Classic);
    assert!(opts.stream_mode);
    let d = QueueOptions::default();
    assert_eq!(d.quorum_group_size, 0);
    assert!(d.schema.is_none());
}

fn group_members(q: &QueueState, name: &str) -> usize {
    q.groups.iter().find(|g| g.name == name).map(|g| g.members.len()).unwrap()
}

fn has_tag(q: &QueueState, tag: &str) -> bool {
    q.consumer_tags.iter().any(|t| t.0 == tag)
}

#[test]
fn queue_state_round_robin() {
    let mut q = QueueState::new();
    let live = [10u64, 20, 30];
    q.listeners = vec![(10, 1), (20, 1), (30, 1)];
    assert_eq!(q.next_target(&live), Some((10, 1)));
    assert_eq!(q.next_target(&live), Some((20, 1)));
    assert_eq!(q.next_target(&live), Some((30, 1)));
    assert_eq!(q.next_target(&live), Some((10, 1)));
}

#[test]
fn queue_state_no_listeners() {
    let mut q = QueueState::new();
    assert_eq!(q.next_target(&[]), None);
}

#[test]
fn consumer_tag_auto_generated() {
    let mut q = QueueState::new();
    let tag = q.add_consumer(10, 1, None, None);
    assert_eq!(tag, "ctag-10-1");
    assert_eq!(q.listeners.len(), 1);
    assert_eq!(q.consumer_count, 1);
}

#[test]
fn consumer_tag_custom() {
    let mut q = QueueState::new();
    let tag = q.add_consumer(10, 1, Some("my-worker".to_string()), None);
    assert_eq!(tag, "my-worker");
    assert!(has_tag(&q, "my-worker"));
}

#[test]
fn consumer_cancel_by_tag() {
    let mut q = QueueState::new();
    q.add_consumer(10, 1, Some("worker-1".to_string()), None);
    q.add_consumer(20, 1, Some("worker-2".to_string()), None);
    assert_eq!(q.listeners.len(), 2);

    assert!(q.cancel_consumer("worker-1"));
    assert_eq!(q.listeners.len(), 1);
    assert_eq!(q.listeners[0], (20, 1));
    assert_eq!(q.consumer_count, 1);

    assert!(!q.cancel_consumer("nonexistent"));
}

#[test]
fn consumer_add_idempotent() {
    let mut q = QueueState::new();
    q.add_consumer(10, 1, Some("tag-a".to_string()), None);
    q.add_consumer(10, 1, Some("tag-b".to_string()), None);
    assert_eq!(q.listeners.len(), 1);
    assert!(has_tag(&q, "tag-a"));
    assert!(has_tag(&q, "tag-b"));
}

#[test]
fn queue_add_consumer_with_group() {
    let mut q = QueueState::new();
    let tag = q.add_consumer(1, 1, Some("w1".to_string()), Some("workers".to_string()));
    assert_eq!(tag, "w1");
    assert!(q.groups.iter().any(|g| g.name == "workers"));
    assert_eq!(group_members(&q, "workers"), 1);
}

#[test]
fn queue_multiple_consumers_same_group() {
    let mut q = QueueState::new();
    q.add_consumer(1, 1, Some("w1".to_string()), Some("g1".to_string()));
    q.add_consumer(2, 1, Some("w2".to_string()), Some("g1".to_string()));
    assert_eq!(q.groups.len(), 1);
    assert_eq!(group_members(&q, "g1"), 2);
}

#[test]
fn queue_multiple_groups() {
    let mut q = QueueState::new();
    q.add_consumer(1, 1, Some("a".to_string()), Some("g1".to_string()));
    q.add_consumer(2, 1, Some("b".to_string()), Some("g2".to_string()));
    assert_eq!(q.groups.len(), 2);
}

#[test]
fn queue_cancel_consumer_removes_from_group() {
    let mut q = QueueState::new();
    q.add_consumer(1, 1, Some("w1".to_string()), Some("workers".to_string()));
    q.add_consumer(2, 1, Some("w2".to_string()), Some("workers".to_string()));

    q.cancel_consumer("w1");
    assert_eq!(group_members(&q, "workers"), 1);
}

#[test]
fn queue_cancel_last_consumer_removes_group() {
    let mut q = QueueState::new();
    q.add_consumer(1, 1, Some("w1".to_string()), Some("workers".to_string()));

    q.cancel_consumer("w1");
    assert!(q.groups.is_empty());
}

#[test]
fn queue_consumer_no_group() {
    let mut q = QueueState::new();
    q.add_consumer(1, 1, Some("solo".to_string()), None);
    assert!(q.groups.is_empty());
}

#[test]
fn stream_mode_default_off() {
    let q = QueueState::new();
    assert!(!q.stream_mode);
    assert_eq!(q.stream_offset, 0);
}

#[test]
fn stream_mode_from_options() {
    let mut opts = QueueOptions::default();
    opts.stream_mode = true;
    let q = QueueState::with_options(opts);
    assert!(q.stream_mode);
}

#[test]
fn stream_offset_tracking() {
    let mut q = QueueState::new();
    q.stream_mode = true;
    q.stream_offset = 42;
    assert_eq!(q.stream_offset, 42);
    q.stream_offset += 1;
    assert_eq!(q.stream_offset, 43);
}

#[test]
fn queue_next_target_skips_dead_connections() {
    let mut q = QueueState::new();
    q.listeners = vec![(10, 1), (20, 2), (30, 3)];
    assert_eq!(q.next_target(&[30]), Some((30, 3)));
    assert_eq!(q.next_listener, 3);
    assert_eq!(q.next_target(&[]), None);
    assert_eq!(q.next_listener, 6);
}

#[test]
fn queue_next_target_prefers_groups() {
    let mut q = QueueState::new();
    q.add_consumer(1, 1, Some("solo".to_string()), None);
    q.add_consumer(2, 1, Some("w".to_string()), Some("g".to_string()));
    assert_eq!(q.next_target(&[1, 2]), Some((2, 1)));
    assert_eq!(q.next_target(&[1]), None);
}

#[test]
fn generated_tags_count_up() {
    let mut q = QueueState::new();
    assert_eq!(q.add_consumer(7, 2, None, None), "ctag-7-1");
    assert_eq!(q.add_consumer(7, 3, None, None), "ctag-7-2");
    assert_eq!(q.consumer_count, 2);
}

#[test]
fn requeue_inflight_puts_message_in_front() {
    let mut q = QueueState::new();
    q.messages.push_back(full(1, b"a", 0));
    let mut m = Message::new(9, vec![], b"b".to_vec());
    m.priority = 0;
    q.inflight.push((99, m));
    q.requeue_inflight(98);
    assert_eq!(q.inflight.len(), 1);
    q.requeue_inflight(99);
    assert!(q.inflight.is_empty());
    assert_eq!(q.messages.len(), 2);
    assert_eq!(q.messages.pop_front().unwrap().id(), 9);
}

#[test]
fn priority_len_counts_pushes_less_successful_pops() {
    let msg = |id: u64, p: u8| {
        let mut m = Message::new(id, vec![], vec![]);
        m.priority = p;
        QueueMessage::Full(m)
    };
    let mut pq = PriorityQueue::new();
    let mut expected: usize = 0;
    assert!(pq.is_empty() && pq.peek_front().is_none());
    pq.push_back(msg(1, 0));
    pq.push_front(msg(2, 7));
    pq.push_back(msg(3, 3));
    expected += 3;
    assert_eq!(pq.len(), expected);
    assert!(pq.pop_front().is_some());
    assert!(pq.pop_oldest().is_some());
    expected -= 2;
    assert_eq!(pq.len(), expected);
    assert!(!pq.is_empty() && pq.peek_front().is_some());
    pq.clear();
    assert_eq!(pq.len(), 0);
    assert!(pq.pop_front().is_none());
    assert!(pq.pop_oldest().is_none());
    assert_eq!(pq.len(), 0);
    assert!(pq.is_empty() && pq.peek_front().is_none());
    pq.push_back(msg(4, 9));
    assert_eq!(pq.len(), 1);
}
