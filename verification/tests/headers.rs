use rocketmq::headers::publish::{
    dead_letter_target, nack_outcome, nack_requeue, parse_publish_headers, NackOutcome,
};

#[test]
fn publish_headers_are_split_by_role() {
    let h = "exchange:orders\r\nrouting_key:eu.new\r\npriority:7\r\nexpiration:1500\r\nx-tenant:acme\r\nmessage-id:m-1\r\n";
    let p = parse_publish_headers(h, true);
    assert_eq!(p.exchange, "orders");
    assert_eq!(p.routing_key, "eu.new");
    assert_eq!(p.priority, 7);
    assert_eq!(p.expiration_ms, Some(1500));
    assert_eq!(p.message_id.as_deref(), Some("m-1"));
    assert_eq!(p.user_headers, b"x-tenant:acme\r\n".to_vec());
    let names: Vec<&str> = p.routing_headers.iter().map(|(k, _)| k.as_str()).collect();
    assert_eq!(names, vec!["message-id", "x-tenant", "expiration", "priority"]);
}

#[test]
fn publish_headers_without_dedup_keep_message_id() {
    let p = parse_publish_headers("queue:jobs\r\nmessage-id:m-1\r\npriority:999\r\nnot a header\r\n", false);
    assert_eq!(p.exchange, "");
    assert_eq!(p.routing_key, "jobs");
    assert_eq!(p.priority, 0);
    assert_eq!(p.message_id, None);
    assert_eq!(p.user_headers, b"message-id:m-1\r\n".to_vec());
}

#[test]
fn queue_header_only_applies_to_default_exchange() {
    let p = parse_publish_headers("exchange:amq.topic\r\nqueue:jobs\r\nrouting_key:a.b", true);
    assert_eq!(p.exchange, "amq.topic");
    assert_eq!(p.routing_key, "a.b");
    let p = parse_publish_headers("exchange:amq.topic\r\nqueue:jobs", true);
    assert_eq!(p.routing_key, "");
    // The latest of two lines with one key comes first, so it wins a lookup.
    let p = parse_publish_headers("x:1\r\nx:2", true);
    assert_eq!(p.routing_headers[0], ("x".to_string(), "2".to_string()));
}

#[test]
fn nack_headers_and_outcomes() {
    assert!(nack_requeue("id:4\r\nrequeue:true\r\n"));
    assert!(!nack_requeue("id:4\r\nrequeue:false\r\n"));
    assert!(!nack_requeue("id:4"));
    assert_eq!(nack_outcome(false, 3, Some(1)), (NackOutcome::DeadLetter, 3));
    assert_eq!(nack_outcome(true, 0, None), (NackOutcome::Requeue, 1));
    assert_eq!(nack_outcome(true, 2, Some(3)), (NackOutcome::Requeue, 3));
    assert_eq!(nack_outcome(true, 3, Some(3)), (NackOutcome::DeadLetter, 4));
    assert_eq!(
        dead_letter_target(&Some("dlx".to_string()), &None),
        Some(("dlx".to_string(), String::new()))
    );
    assert_eq!(
        dead_letter_target(&Some("dlx".to_string()), &Some("dead".to_string())),
        Some(("dlx".to_string(), "dead".to_string()))
    );
    assert_eq!(dead_letter_target(&None, &Some("dead".to_string())), None);
}
