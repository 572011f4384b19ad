use rocketmq::routing::exchange::{
    create_default_exchanges, Binding, Exchange, ExchangeType, HeadersMatch,
};
use rocketmq::routing::topic::topic_matches;

fn bind(ex: &mut Exchange, queue: &str, key: &str) {
    ex.add_binding(Binding { queue_name: queue.into(), routing_key: key.into(), headers_match: None });
}

fn pairs(kv: &[(&str, &str)]) -> Vec<(String, String)> {
    kv.iter().map(|(k, v)| (k.to_string(), v.to_string())).collect()
}

#[test]
fn direct_routing() {
    let mut ex = Exchange::new("test".to_string(), ExchangeType::Direct, false);
    bind(&mut ex, "q1", "orders");
    bind(&mut ex, "q2", "payments");
    let empty = pairs(&[]);
    assert_eq!(ex.route("orders", &empty), vec!["q1"]);
    assert_eq!(ex.route("payments", &empty), vec!["q2"]);
    assert!(ex.route("unknown", &empty).is_empty());
}

#[test]
fn fanout_routing() {
    let mut ex = Exchange::new("test".to_string(), ExchangeType::Fanout, false);
    bind(&mut ex, "q1", "");
    bind(&mut ex, "q2", "");
    let empty = pairs(&[]);
    let routed = ex.route("anything", &empty);
    assert_eq!(routed.len(), 2);
    assert!(routed.contains(&"q1".to_string()));
    assert!(routed.contains(&"q2".to_string()));
}

#[test]
fn topic_routing() {
    let mut ex = Exchange::new("test".to_string(), ExchangeType::Topic, false);
    bind(&mut ex, "all_logs", "logs.#");
    bind(&mut ex, "app_errors", "logs.app.error");
    bind(&mut ex, "any_error", "logs.*.error");
    let empty = pairs(&[]);

    let routed = ex.route("logs.app.error", &empty);
    assert!(routed.contains(&"all_logs".to_string()));
    assert!(routed.contains(&"app_errors".to_string()));
    assert!(routed.contains(&"any_error".to_string()));

    let routed = ex.route("logs.db.error", &empty);
    assert!(routed.contains(&"all_logs".to_string()));
    assert!(routed.contains(&"any_error".to_string()));
    assert!(!routed.contains(&"app_errors".to_string()));

    let routed = ex.route("logs.app.info", &empty);
    assert_eq!(routed, vec!["all_logs"]);
}

#[test]
fn headers_routing() {
    let mut ex = Exchange::new("test".to_string(), ExchangeType::Headers, false);
    let required = pairs(&[("format", "pdf"), ("type", "report")]);
    ex.add_binding(Binding {
        queue_name: "pdf_reports".into(),
        routing_key: String::new(),
        headers_match: Some(HeadersMatch::All(required)),
    });
    let msg_headers = pairs(&[("format", "pdf"), ("type", "report")]);
    assert_eq!(ex.route("", &msg_headers), vec!["pdf_reports"]);
    let partial = pairs(&[("format", "pdf")]);
    assert!(ex.route("", &partial).is_empty());
}

#[test]
fn no_duplicate_bindings() {
    let mut ex = Exchange::new("test".to_string(), ExchangeType::Direct, false);
    let binding = Binding { queue_name: "q1".into(), routing_key: "key".into(), headers_match: None };
    ex.add_binding(binding.clone());
    ex.add_binding(binding);
    assert_eq!(ex.bindings.len(), 1);
}

#[test]
fn exchange_type_from_str() {
    assert_eq!(ExchangeType::from_str("direct"), Some(ExchangeType::Direct));
    assert_eq!(ExchangeType::from_str("fanout"), Some(ExchangeType::Fanout));
    assert_eq!(ExchangeType::from_str("topic"), Some(ExchangeType::Topic));
    assert_eq!(ExchangeType::from_str("headers"), Some(ExchangeType::Headers));
    assert_eq!(ExchangeType::from_str("unknown"), None);
    assert_eq!(ExchangeType::from_str(""), None);
}

#[test]
fn exchange_type_as_str_roundtrip() {
    for kind in [ExchangeType::Direct, ExchangeType::Fanout, ExchangeType::Topic, ExchangeType::Headers] {
        let s = kind.as_str();
        assert_eq!(ExchangeType::from_str(s), Some(kind));
    }
}

#[test]
fn remove_binding_by_queue_and_key() {
    let mut ex = Exchange::new("test".to_string(), ExchangeType::Direct, false);
    bind(&mut ex, "q1", "a");
    bind(&mut ex, "q2", "b");
    ex.remove_binding("q1", "a");
    assert_eq!(ex.bindings.len(), 1);
    assert_eq!(ex.bindings[0].queue_name, "q2");
}

#[test]
fn remove_nonexistent_binding_is_noop() {
    let mut ex = Exchange::new("test".to_string(), ExchangeType::Direct, false);
    bind(&mut ex, "q1", "a");
    ex.remove_binding("q1", "wrong_key");
    assert_eq!(ex.bindings.len(), 1);
}

#[test]
fn topic_hash_matches_everything() {
    assert!(topic_matches("#", "a.b.c"));
    assert!(topic_matches("#", "a"));
    assert!(topic_matches("#", ""));
}

#[test]
fn topic_hash_in_middle() {
    assert!(topic_matches("a.#.z", "a.b.c.z"));
    assert!(topic_matches("a.#.z", "a.z"));
}

#[test]
fn topic_star_requires_exactly_one_word() {
    assert!(topic_matches("a.*.c", "a.b.c"));
    assert!(!topic_matches("a.*.c", "a.b.d.c"));
    assert!(!topic_matches("*", "a.b"));
}

#[test]
fn topic_exact_match() {
    assert!(topic_matches("a.b.c", "a.b.c"));
    assert!(!topic_matches("a.b.c", "a.b.d"));
    assert!(!topic_matches("a.b", "a.b.c"));
}

#[test]
fn topic_empty_pattern_matches_empty_key() {
    assert!(topic_matches("", ""));
}

#[test]
fn topic_star_does_not_match_empty() {
    assert!(!topic_matches("a.*", "a"));
}

#[test]
fn headers_any_routing() {
    let mut ex = Exchange::new("test".to_string(), ExchangeType::Headers, false);
    let required = pairs(&[("color", "red"), ("size", "large")]);
    ex.add_binding(Binding {
        queue_name: "q1".into(),
        routing_key: String::new(),
        headers_match: Some(HeadersMatch::Any(required)),
    });
    let h = pairs(&[("color", "red")]);
    assert_eq!(ex.route("", &h), vec!["q1"]);
    let h2 = pairs(&[("color", "blue")]);
    assert!(ex.route("", &h2).is_empty());
}

#[test]
fn exchange_no_bindings_routes_nothing() {
    let ex = Exchange::new("empty".to_string(), ExchangeType::Direct, false);
    let empty = pairs(&[]);
    assert!(ex.route("anything", &empty).is_empty());
}

#[test]
fn fanout_ignores_routing_key() {
    let mut ex = Exchange::new("test".to_string(), ExchangeType::Fanout, false);
    bind(&mut ex, "q1", "specific");
    let empty = pairs(&[]);
    let routed = ex.route("totally_different", &empty);
    assert_eq!(routed, vec!["q1"]);
}

#[test]
fn direct_multiple_queues_same_key() {
    let mut ex = Exchange::new("test".to_string(), ExchangeType::Direct, false);
    bind(&mut ex, "q1", "events");
    bind(&mut ex, "q2", "events");
    let empty = pairs(&[]);
    let routed = ex.route("events", &empty);
    assert_eq!(routed.len(), 2);
}

fn find<'a>(exchanges: &'a [Exchange], name: &str) -> &'a Exchange {
    exchanges.iter().find(|e| e.name == name).unwrap()
}

#[test]
fn default_exchanges_correct_types() {
    let exchanges = create_default_exchanges();
    assert_eq!(find(&exchanges, "").kind, ExchangeType::Direct);
    assert_eq!(find(&exchanges, "amq.direct").kind, ExchangeType::Direct);
    assert_eq!(find(&exchanges, "amq.fanout").kind, ExchangeType::Fanout);
    assert_eq!(find(&exchanges, "amq.topic").kind, ExchangeType::Topic);
    assert_eq!(find(&exchanges, "amq.headers").kind, ExchangeType::Headers);
}

#[test]
fn default_exchanges_are_durable() {
    let exchanges = create_default_exchanges();
    for ex in exchanges.iter() {
        assert!(ex.durable, "{} should be durable", ex.name);
    }
}

#[test]
fn exchange_type_bytes() {
    assert_eq!(ExchangeType::Direct.to_byte(), 0);
    assert_eq!(ExchangeType::Fanout.to_byte(), 1);
    assert_eq!(ExchangeType::Topic.to_byte(), 2);
    assert_eq!(ExchangeType::Headers.to_byte(), 3);
}

#[test]
fn add_binding_twice_is_once() {
    let mut ex = Exchange::new("x".to_string(), ExchangeType::Topic, true);
    bind(&mut ex, "q", "a.#");
    bind(&mut ex, "q", "a.#");
    bind(&mut ex, "q", "b.#");
    assert_eq!(ex.bindings.len(), 2);
    assert_eq!(ex.route("a.b", &pairs(&[])), vec!["q"]);
}

#[test]
fn fanout_ignores_routing_key_and_unbinding_stops_direct_routing() {
    let mut fan = Exchange::new("fan".into(), ExchangeType::Fanout, false);
    bind(&mut fan, "q1", "a");
    bind(&mut fan, "q2", "b");
    assert_eq!(fan.route("anything", &[]), vec!["q1".to_string(), "q2".to_string()]);
    assert_eq!(fan.route("", &[]), vec!["q1".to_string(), "q2".to_string()]);

    let mut direct = Exchange::new("d".into(), ExchangeType::Direct, false);
    bind(&mut direct, "q1", "k");
    bind(&mut direct, "q1", "other");
    bind(&mut direct, "q2", "k");
    assert_eq!(direct.route("k", &[]), vec!["q1".to_string(), "q2".to_string()]);
    direct.remove_binding("q1", "k");
    assert_eq!(direct.route("k", &[]), vec!["q2".to_string()]);
    assert_eq!(direct.route("other", &[]), vec!["q1".to_string()]);
}
