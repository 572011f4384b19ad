use rocketmq::amqp::publish::{
    admit_message, build_basic_return, build_confirm_ack, build_confirm_nack, effective_priority,
    effective_ttl, make_room, message_deadline, next_confirm_tag, per_message_ttl, plan_publish,
    published_entry, stored_on_disk, PublishPlan,
};
use rocketmq::amqp::method::NO_ROUTE;
use rocketmq::amqp::session::ChannelState;
use rocketmq::amqp::types::WireReader;
use rocketmq::queue::message::{Message, QueueMessage};
use rocketmq::queue::priority::PriorityQueue;

fn msg(id: u64, priority: u8) -> QueueMessage {
    let mut m = Message::new(id, vec![], vec![]);
    m.priority = priority;
    QueueMessage::Full(m)
}

#[test]
fn publish_plans() {
    assert_eq!(plan_publish(true, false, 0, true), PublishPlan::Buffer);
    assert_eq!(plan_publish(false, false, 3, true), PublishPlan::NoExchange);
    assert_eq!(plan_publish(false, true, 0, true), PublishPlan::Unroutable { return_to_publisher: true });
    assert_eq!(plan_publish(false, true, 0, false), PublishPlan::Unroutable { return_to_publisher: false });
    assert_eq!(plan_publish(false, true, 2, false), PublishPlan::Deliver);
}

#[test]
fn confirm_tags_advance_only_in_confirm_mode() {
    let mut ch = ChannelState::new(1);
    assert_eq!(next_confirm_tag(&mut ch), None);
    assert_eq!(ch.next_delivery_tag, 1);
    ch.confirm_mode = true;
    assert_eq!(next_confirm_tag(&mut ch), Some(1));
    assert_eq!(next_confirm_tag(&mut ch), Some(2));
    assert_eq!(ch.next_delivery_tag, 3);
}

#[test]
fn ttl_and_priority_stamping() {
    assert_eq!(per_message_ttl(&Some("1500".to_string())), Some(1500));
    assert_eq!(per_message_ttl(&Some("soon".to_string())), None);
    assert_eq!(per_message_ttl(&None), None);
    assert_eq!(effective_ttl(Some(1000), Some(500)), Some(500));
    assert_eq!(effective_ttl(Some(1000), None), Some(1000));
    assert_eq!(effective_ttl(None, Some(700)), Some(700));
    assert_eq!(effective_ttl(None, None), None);
    assert_eq!(message_deadline(10_000, Some(1000), Some(2000)), Some(11_000));
    assert_eq!(message_deadline(10_000, None, None), None);
    assert_eq!(effective_priority(Some(9), 5), 5);
    assert_eq!(effective_priority(Some(3), 5), 3);
    assert_eq!(effective_priority(None, 5), 0);
    assert_eq!(effective_priority(Some(9), 0), 0);
    assert!(stored_on_disk(true, Some(2)));
    assert!(!stored_on_disk(true, Some(1)));
    assert!(!stored_on_disk(false, Some(2)));
    assert!(!stored_on_disk(true, None));
}

#[test]
fn entries_reference_disk_when_written() {
    let e = published_entry(7, vec![1], vec![2, 3], 4, Some(99), Some((3, 128, 40)), "ex".into(), "rk".into());
    match e {
        QueueMessage::Ref(r) => {
            assert_eq!((r.id, r.segment_id, r.offset, r.length, r.priority), (7, 3, 128, 40, 4));
            assert_eq!(r.expiration, Some(99));
            assert!(!r.redelivered);
        }
        QueueMessage::Full(_) => panic!("expected a reference"),
    }
    let e = published_entry(8, vec![1], vec![2, 3], 0, None, None, "ex".into(), "rk".into());
    match e {
        QueueMessage::Full(m) => {
            assert_eq!(m.id, 8);
            assert_eq!(m.body, vec![2, 3]);
            assert_eq!(m.exchange, "ex");
        }
        QueueMessage::Ref(_) => panic!("expected a full message"),
    }
}

#[test]
fn max_length_drops_the_oldest() {
    let mut q = PriorityQueue::new();
    q.push_back(msg(1, 0));
    q.push_back(msg(2, 5));
    q.push_back(msg(3, 0));
    admit_message(&mut q, Some(2), msg(4, 0));
    assert_eq!(q.len(), 2);
    // The lowest level's oldest messages left first.
    assert_eq!(q.pop_front().map(|m| m.id()), Some(2));
    assert_eq!(q.pop_front().map(|m| m.id()), Some(4));

    let mut q = PriorityQueue::new();
    q.push_back(msg(1, 0));
    make_room(&mut q, None);
    assert_eq!(q.len(), 1);
    make_room(&mut q, Some(0));
    assert_eq!(q.len(), 0);
}

#[test]
fn confirm_and_return_replies() {
    assert_eq!(build_confirm_ack(5), vec![0, 0, 0, 0, 0, 0, 0, 5, 0]);
    assert_eq!(build_confirm_nack(5), vec![0, 0, 0, 0, 0, 0, 0, 5, 0, 0]);
    let args = build_basic_return(NO_ROUTE, "NO_ROUTE", "amq.direct", "key");
    let mut r = WireReader::new(&args);
    assert_eq!(r.read_short().unwrap(), NO_ROUTE);
    assert_eq!(r.read_shortstr().unwrap(), "NO_ROUTE");
    assert_eq!(r.read_shortstr().unwrap(), "amq.direct");
    assert_eq!(r.read_shortstr().unwrap(), "key");
}
