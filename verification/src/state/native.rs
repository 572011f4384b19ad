//! A publish on the broker's native protocol, from its text headers to
//! the queues: deduplication by message id, routing through the named
//! exchange, then one placement per routed queue, the messages dropped to
//! make room going to the queue's dead-letter exchange. Writing to the log and
//! sending the deliveries is left to the caller, which gets every
//! placement back.

use vstd::prelude::*;
use vstd::utf8::*;
use crate::amqp::types::utf8_str;
use crate::headers::publish::{opt_text, pairs_view, parse_publish_headers, publish_fold, routing_fold, PublishHeaders};
use crate::queue::state::{cursors_fit, groups_model};
use crate::routing::exchange::routed_queues;
use crate::text::slices::keyed_lines;
use crate::queue::message::QueueMessage;
use crate::state::broker::{exchange_pos, names_model, stores_fit, BrokerState};
use crate::state::nack::{dead_letter, dead_lettered, options_kept};
use crate::state::place::{
    check_duplicate, cursors_ok, deadlines_fit, publish_to_target, published_to, route_to_queues, Placement,
};

verus! {

/// What became of a publish.
pub enum PublishOutcome {
    /// A message with the same id was published before: skipped.
    Duplicate,
    /// No exchange has the name the headers give.
    NoExchange,
    /// Routed: for each routed queue, in routing order, its name, the id
    /// the message got there and where it went. `complete` is false only
    /// when a queue's length or delivery cursor ran out of room, and the
    /// queues from there on were left out.
    Routed { deliveries: Vec<(String, u64, Placement)>, complete: bool },
}

/// The seen ids after a message with id `id` (when it has one) passed.
pub open spec fn remembered(seen: Seq<Seq<char>>, id: Option<Seq<char>>) -> Seq<Seq<char>> {
    match id {
        Some(i) => seen.push(i),
        None => seen,
    }
}

/// The messages a placement dropped to make room.
pub open spec fn evicted_of(p: Placement) -> Seq<QueueMessage> {
    match p {
        Placement::NoQueue => Seq::empty(),
        Placement::Held { evicted } => evicted@,
        Placement::Delivered { evicted, .. } => evicted@,
    }
}

/// What dead-lettering one message dropped from queue `source` does, from
/// `b0` to `b1` (see [`dead_lettered`]); a stream reference is left alone.
pub open spec fn eviction_step(b0: BrokerState, b1: BrokerState, source: Seq<char>, m: QueueMessage) -> bool {
    match m {
        QueueMessage::Full(msg) => exists|to: Seq<Seq<char>>|
            #[trigger] dead_lettered(b0, b1, source, msg.id, msg.headers@, msg.body@, to),
        QueueMessage::Ref(_) => b1 == b0,
    }
}

/// Whether `states` go through the dead-lettering of the messages `ev`
/// dropped from queue `source`, one after the other.
pub open spec fn evictions_chain(states: Seq<BrokerState>, source: Seq<char>, ev: Seq<QueueMessage>) -> bool {
    &&& states.len() == ev.len() + 1
    &&& forall|j: int| 0 <= j < ev.len() ==> #[trigger] eviction_step(states[j], states[j + 1], source, ev[j])
}

/// Dead-letters, in order, the messages dropped from queue `source`.
fn dead_letter_evicted(broker: &mut BrokerState, source: &str, evicted: &Vec<QueueMessage>)
    requires
        stores_fit(old(broker).queues@, 0),
    ensures
        stores_fit(final(broker).queues@, 0),
        options_kept(old(broker).queues@, final(broker).queues@),
        exists|states: Seq<BrokerState>|
            #[trigger] evictions_chain(states, source@, evicted@) && states[0] == *old(broker) && states.last()
                == *final(broker),
{
    let ghost b0 = *broker;
    let ghost mut states: Seq<BrokerState> = seq![b0];
    let mut i: usize = 0;
    while i < evicted.len()
        invariant
            i <= evicted@.len(),
            stores_fit(broker.queues@, 0),
            options_kept(b0.queues@, broker.queues@),
            states.len() == i + 1,
            states[0] == b0,
            states.last() == *broker,
            forall|j: int| 0 <= j < i ==> #[trigger] eviction_step(states[j], states[j + 1], source@, evicted@[j]),
        decreases evicted@.len() - i,
    {
        let ghost before = *broker;
        let ghost q0 = broker.queues@;
        match &evicted[i] {
            QueueMessage::Full(m) => {
                let to = dead_letter(broker, source, m);
                assert(dead_lettered(before, *broker, source@, m.id, m.headers@, m.body@, names_model(to@)));
            },
            QueueMessage::Ref(_) => {},
        }
        proof {
            let s2 = states.push(*broker);
            assert forall|j: int| 0 <= j < i + 1 implies #[trigger] eviction_step(s2[j], s2[j + 1], source@, evicted@[j]) by {
                if j < i {
                    assert(s2[j] == states[j]);
                    assert(s2[j + 1] == states[j + 1]);
                } else {
                    assert(s2[j] == before);
                }
            }
            assert forall|k: int| 0 <= k < b0.queues@.len() implies (#[trigger] broker.queues@[k]).1.options
                == b0.queues@[k].1.options by {
                assert(q0[k].1.options == b0.queues@[k].1.options);
            }
            states = s2;
        }
        i = i + 1;
    }
    assert(evictions_chain(states, source@, evicted@));
}

/// Whether `out` are the placements made one after the other on the
/// `targets` in order, each followed by the dead-lettering of the
/// messages it dropped, `states` being the broker before each and after
/// the last.
pub open spec fn publish_chain(
    states: Seq<BrokerState>,
    targets: Seq<Seq<char>>,
    out: Seq<(String, u64, Placement)>,
    headers: Seq<u8>,
    body: Seq<u8>,
    priority: u8,
    ttl: Option<u64>,
    now: u64,
    live: Seq<u64>,
) -> bool {
    &&& states.len() == out.len() + 1
    &&& out.len() <= targets.len()
    &&& forall|j: int|
        0 <= j < out.len() ==> (#[trigger] out[j]).0@ == targets[j] && exists|mid: BrokerState, es: Seq<BrokerState>|
            #![trigger published_to(states[j], mid, targets[j], headers, body, priority, ttl, now, live, (out[j].1, out[j].2)), evictions_chain(es, targets[j], evicted_of(out[j].2))]
            published_to(states[j], mid, targets[j], headers, body, priority, ttl, now, live, (out[j].1, out[j].2))
                && evictions_chain(es, targets[j], evicted_of(out[j].2)) && es[0] == mid && es.last() == states[j + 1]
}

/// What a publish with headers `ph` and `body` does, from broker `b0` and
/// seen ids `s0` to `b1` and `s1`, answering `r`: a duplicate id changes
/// nothing; otherwise the id is remembered, an unknown exchange changes
/// nothing more, and a known one places the message on each queue it
/// routes to, in order (see [`published_to`]), each placement followed by
/// the dead-lettering of the messages it dropped to make room.
pub open spec fn publish_effect(
    b0: BrokerState,
    b1: BrokerState,
    s0: Seq<Seq<char>>,
    s1: Seq<Seq<char>>,
    ph: PublishHeaders,
    body: Seq<u8>,
    now: u64,
    live: Seq<u64>,
    r: PublishOutcome,
) -> bool {
    let dup = ph.message_id matches Some(id) && s0.contains(id@);
    let p = exchange_pos(b0.exchanges@, ph.exchange@, 0);
    &&& dup ==> r is Duplicate && b1 == b0 && s1 == s0
    &&& !dup ==> s1 == remembered(s0, opt_text(ph.message_id))
    &&& !dup && p >= b0.exchanges@.len() ==> r is NoExchange && b1 == b0
    &&& !dup && p < b0.exchanges@.len() ==> (r matches PublishOutcome::Routed { deliveries, complete } && ({
        let targets = routed_queues(b0.exchanges@[p].kind, b0.exchanges@[p].bindings@, ph.routing_key@, ph.routing_headers@);
        &&& complete ==> deliveries@.len() == targets.len()
        &&& !complete ==> deliveries@.len() < targets.len() && !(stores_fit(b1.queues@, 1) && cursors_ok(b1.queues@))
        &&& exists|states: Seq<BrokerState>|
            #[trigger] publish_chain(states, targets, deliveries@, ph.user_headers@, body, ph.priority, ph.expiration_ms, now, live)
                && states[0] == b0 && states.last() == b1
    }))
}

/// Publishing the same headers twice: when the first publish carried a
/// message id and was not itself a duplicate, the second is skipped as a
/// duplicate and changes neither the broker nor the seen ids.
pub proof fn lemma_republish_is_duplicate(
    b0: BrokerState,
    b1: BrokerState,
    b2: BrokerState,
    s0: Seq<Seq<char>>,
    s1: Seq<Seq<char>>,
    s2: Seq<Seq<char>>,
    ph: PublishHeaders,
    body: Seq<u8>,
    body2: Seq<u8>,
    now: u64,
    now2: u64,
    live: Seq<u64>,
    live2: Seq<u64>,
    r1: PublishOutcome,
    r2: PublishOutcome,
)
    requires
        ph.message_id is Some,
        !(r1 is Duplicate),
        publish_effect(b0, b1, s0, s1, ph, body, now, live, r1),
        publish_effect(b1, b2, s1, s2, ph, body2, now2, live2, r2),
    ensures
        r2 is Duplicate,
        b2 == b1,
        s2 == s1,
{
    let id = ph.message_id->Some_0;
    assert(s1 == s0.push(id@));
    assert(s1[s0.len() as int] == id@);
    assert(s1.contains(id@));
}

/// Whether every queue can take one more message and move its delivery
/// cursors once more.
fn room_to_place(broker: &BrokerState) -> (r: bool)
    requires
        stores_fit(broker.queues@, 0),
    ensures
        r == (stores_fit(broker.queues@, 1) && cursors_ok(broker.queues@)),
{
    let ghost qs = broker.queues@;
    let mut i: usize = 0;
    while i < broker.queues.len()
        invariant
            i <= qs.len(),
            qs == broker.queues@,
            stores_fit(qs, 0),
            forall|j: int|
                0 <= j < i ==> (#[trigger] qs[j]).1.messages.len_spec() + 1 < usize::MAX && qs[j].1.next_listener
                    + qs[j].1.listeners@.len() <= usize::MAX && cursors_fit(qs[j].1@.groups),
        decreases qs.len() - i,
    {
        let q = &broker.queues[i].1;
        assert(qs[i as int].1 == *q);
        let n = q.messages.len();
        if n >= usize::MAX - 1 {
            assert(!(qs[i as int].1.messages.len_spec() + 1 < usize::MAX));
            return false;
        }
        if !q.cursors_have_room() {
            assert(q@.groups == groups_model(q.groups@));
            assert(!(qs[i as int].1.next_listener + qs[i as int].1.listeners@.len() <= usize::MAX && cursors_fit(
                qs[i as int].1@.groups,
            )));
            return false;
        }
        assert(q@.groups == groups_model(q.groups@));
        i = i + 1;
    }
    true
}

/// A publish whose headers were read into `ph`, as [`publish_effect`]
/// says; `seen` holds the message ids published so far and `live` the
/// connections that can take deliveries.
pub fn publish_parsed(
    broker: &mut BrokerState,
    seen: &mut Vec<String>,
    ph: &PublishHeaders,
    body: &Vec<u8>,
    now: u64,
    live: &[u64],
) -> (r: PublishOutcome)
    requires
        stores_fit(old(broker).queues@, 0),
        deadlines_fit(old(broker).queues@, now, ph.expiration_ms),
    ensures
        publish_effect(
            *old(broker),
            *final(broker),
            names_model(old(seen)@),
            names_model(final(seen)@),
            *ph,
            body@,
            now,
            live@,
            r,
        ),
        stores_fit(final(broker).queues@, 0),
        deadlines_fit(final(broker).queues@, now, ph.expiration_ms),
{
    let ghost b0 = *broker;
    if check_duplicate(seen, &ph.message_id) {
        return PublishOutcome::Duplicate;
    }
    let targets = match route_to_queues(broker, ph.exchange.as_str(), ph.routing_key.as_str(), ph.routing_headers.as_slice()) {
        None => {
            return PublishOutcome::NoExchange;
        },
        Some(t) => t,
    };
    let ghost ts = names_model(targets@);
    let ghost p = exchange_pos(b0.exchanges@, ph.exchange@, 0);
    assert(ts == routed_queues(b0.exchanges@[p].kind, b0.exchanges@[p].bindings@, ph.routing_key@, ph.routing_headers@));
    let mut deliveries: Vec<(String, u64, Placement)> = Vec::new();
    let ghost mut states: Seq<BrokerState> = seq![b0];
    let mut i: usize = 0;
    while i < targets.len()
        invariant
            i <= targets@.len(),
            ts == names_model(targets@),
            b0 == *old(broker),
            p == exchange_pos(b0.exchanges@, ph.exchange@, 0),
            p < b0.exchanges@.len(),
            ts == routed_queues(b0.exchanges@[p].kind, b0.exchanges@[p].bindings@, ph.routing_key@, ph.routing_headers@),
            !(ph.message_id matches Some(id) && names_model(old(seen)@).contains(id@)),
            names_model(seen@) == remembered(names_model(old(seen)@), opt_text(ph.message_id)),
            deliveries@.len() == i,
            stores_fit(broker.queues@, 0),
            deadlines_fit(broker.queues@, now, ph.expiration_ms),
            states.len() == i + 1,
            states[0] == b0,
            states.last() == *broker,
            publish_chain(states, ts, deliveries@, ph.user_headers@, body@, ph.priority, ph.expiration_ms, now, live@),
        decreases targets@.len() - i,
    {
        if !room_to_place(broker) {
            return PublishOutcome::Routed { deliveries, complete: false };
        }
        let ghost before = *broker;
        let (id, placement) = publish_to_target(
            broker,
            targets[i].as_str(),
            &ph.user_headers,
            body,
            ph.priority,
            ph.expiration_ms,
            now,
            live,
        );
        let ghost mid = *broker;
        let ghost mq = broker.queues@;
        match &placement {
            Placement::Held { evicted } => dead_letter_evicted(broker, targets[i].as_str(), evicted),
            Placement::Delivered { evicted, .. } => dead_letter_evicted(broker, targets[i].as_str(), evicted),
            Placement::NoQueue => {
                assert(evictions_chain(seq![mid], targets@[i as int]@, evicted_of(placement)));
            },
        }
        let name = targets[i].clone();
        let ghost prev = deliveries@;
        deliveries.push((name, id, placement));
        proof {
            let s2 = states.push(*broker);
            assert(ts[i as int] == targets@[i as int]@);
            let es = choose|es: Seq<BrokerState>| #[trigger] evictions_chain(es, ts[i as int], evicted_of(placement)) && es[0] == mid && es.last() == *broker;
            assert(published_to(before, mid, ts[i as int], ph.user_headers@, body@, ph.priority, ph.expiration_ms, now, live@, (id, placement)));
            assert forall|j: int| 0 <= j < deliveries@.len() implies (#[trigger] deliveries@[j]).0@ == ts[j] && exists|m2: BrokerState, es2: Seq<BrokerState>|
                #![trigger published_to(s2[j], m2, ts[j], ph.user_headers@, body@, ph.priority, ph.expiration_ms, now, live@, (deliveries@[j].1, deliveries@[j].2)), evictions_chain(es2, ts[j], evicted_of(deliveries@[j].2))]
                published_to(s2[j], m2, ts[j], ph.user_headers@, body@, ph.priority, ph.expiration_ms, now, live@, (deliveries@[j].1, deliveries@[j].2))
                && evictions_chain(es2, ts[j], evicted_of(deliveries@[j].2)) && es2[0] == m2 && es2.last() == s2[j + 1] by {
                if j < i {
                    assert(deliveries@[j] == prev[j]);
                    assert(s2[j] == states[j]);
                    assert(s2[j + 1] == states[j + 1]);
                } else {
                    assert(s2[j] == before);
                    assert(deliveries@[j] == (targets@[i as int], id, placement));
                    assert(published_to(s2[j], mid, ts[j], ph.user_headers@, body@, ph.priority, ph.expiration_ms, now, live@, (deliveries@[j].1, deliveries@[j].2)));
                    assert(evictions_chain(es, ts[j], evicted_of(deliveries@[j].2)));
                }
            }
            assert forall|k: int| 0 <= k < broker.queues@.len() implies ((#[trigger] broker.queues@[k]).1.options.message_ttl
                matches Some(t) ==> now + t <= u64::MAX) by {
                assert(broker.queues@[k].1.options == mq[k].1.options);
            }
            states = s2;
        }
        i = i + 1;
    }
    PublishOutcome::Routed { deliveries, complete: true }
}

/// A publish on the native protocol with the raw `headers` and `body`:
/// `None`, and nothing changes, when the headers are not UTF-8; otherwise
/// the headers are read (the `message-id` line too when
/// `with_message_id`, so that duplicates are skipped) and the publish goes
/// as [`publish_effect`] says.
pub fn native_publish(
    broker: &mut BrokerState,
    seen: &mut Vec<String>,
    headers: &[u8],
    body: &Vec<u8>,
    with_message_id: bool,
    now: u64,
    live: &[u64],
) -> (r: Option<PublishOutcome>)
    requires
        stores_fit(old(broker).queues@, 0),
        valid_utf8(headers@) ==> deadlines_fit(
            old(broker).queues@,
            now,
            publish_fold(headers@, keyed_lines(headers@, 0), with_message_id).expiration_ms,
        ),
    ensures
        r is None <==> !valid_utf8(headers@),
        r is None ==> *final(broker) == *old(broker) && final(seen)@ == old(seen)@,
        stores_fit(final(broker).queues@, 0),
        valid_utf8(headers@) ==> deadlines_fit(
            final(broker).queues@,
            now,
            publish_fold(headers@, keyed_lines(headers@, 0), with_message_id).expiration_ms,
        ),
        r matches Some(o) ==> exists|ph: PublishHeaders|
            #![trigger publish_effect(*old(broker), *final(broker), names_model(old(seen)@), names_model(final(seen)@), ph, body@, now, live@, o)]
            ph.fields() == publish_fold(headers@, keyed_lines(headers@, 0), with_message_id) && pairs_view(ph.routing_headers@)
                == routing_fold(headers@, keyed_lines(headers@, 0)) && publish_effect(
                *old(broker),
                *final(broker),
                names_model(old(seen)@),
                names_model(final(seen)@),
                ph,
                body@,
                now,
                live@,
                o,
            ),
{
    let text = match utf8_str(headers) {
        None => {
            return None;
        },
        Some(t) => t,
    };
    let ph = parse_publish_headers(text, with_message_id);
    let o = publish_parsed(broker, seen, &ph, body, now, live);
    Some(o)
}

/// Two identical native publishes whose headers carry a message id: when
/// `headers` read (with `with_message_id`) to a message id and the first
/// publish, from broker `b0` and seen ids `s0` to `b1` and `s1`, was not a
/// duplicate, the second, from `b1` and `s1` to `b2` and `s2`, is skipped
/// as one and changes neither the broker nor the seen ids. Each call is
/// taken as the contract of [`native_publish`] gives it.
pub proof fn lemma_native_republish_is_duplicate(
    b0: BrokerState,
    b1: BrokerState,
    b2: BrokerState,
    s0: Seq<Seq<char>>,
    s1: Seq<Seq<char>>,
    s2: Seq<Seq<char>>,
    headers: Seq<u8>,
    with_message_id: bool,
    body: Seq<u8>,
    now: u64,
    now2: u64,
    live: Seq<u64>,
    live2: Seq<u64>,
    o1: PublishOutcome,
    o2: PublishOutcome,
)
    requires
        publish_fold(headers, keyed_lines(headers, 0), with_message_id).message_id is Some,
        !(o1 is Duplicate),
        exists|ph: PublishHeaders|
            #![trigger publish_effect(b0, b1, s0, s1, ph, body, now, live, o1)]
            ph.fields() == publish_fold(headers, keyed_lines(headers, 0), with_message_id) && publish_effect(
                b0,
                b1,
                s0,
                s1,
                ph,
                body,
                now,
                live,
                o1,
            ),
        exists|ph: PublishHeaders|
            #![trigger publish_effect(b1, b2, s1, s2, ph, body, now2, live2, o2)]
            ph.fields() == publish_fold(headers, keyed_lines(headers, 0), with_message_id) && publish_effect(
                b1,
                b2,
                s1,
                s2,
                ph,
                body,
                now2,
                live2,
                o2,
            ),
    ensures
        o2 is Duplicate,
        b2 == b1,
        s2 == s1,
{
    let f = publish_fold(headers, keyed_lines(headers, 0), with_message_id);
    let ph1 = choose|ph: PublishHeaders|
        #![trigger publish_effect(b0, b1, s0, s1, ph, body, now, live, o1)]
        ph.fields() == f && publish_effect(b0, b1, s0, s1, ph, body, now, live, o1);
    let ph2 = choose|ph: PublishHeaders|
        #![trigger publish_effect(b1, b2, s1, s2, ph, body, now2, live2, o2)]
        ph.fields() == f && publish_effect(b1, b2, s1, s2, ph, body, now2, live2, o2);
    assert(opt_text(ph1.message_id) == opt_text(ph2.message_id));
    let id = ph1.message_id->Some_0;
    assert(s1 == s0.push(id@));
    assert(s1[s0.len() as int] == id@);
    assert(s1.contains(id@));
    assert(ph2.message_id->Some_0@ == id@);
}

} // verus!
