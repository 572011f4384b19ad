//! Placing a published message on one of the queues it was routed to:
//! make room under the queue's length limit, then hand the message to a
//! live consumer or hold it.

use vstd::prelude::*;
use crate::amqp::publish::{
    effective_priority, effective_priority_spec, effective_ttl_spec, evict_for, excess, message_deadline, oldest_n,
    without_oldest_n,
};
use crate::queue::message::{Message, QueueMessage};
use crate::queue::priority::total;
use crate::queue::state::{cursors_fit, pick_from_groups, rr_step, QueueModel};
use crate::routing::exchange::routed_queues;
use crate::routing::topic::str_eq;
use crate::state::broker::{exchange_pos, names_model, find_queue, lemma_name_pos, name_pos, queues_model, stores_fit, BrokerState};

verus! {

/// Where a message went.
pub enum Placement {
    /// No queue has that name.
    NoQueue,
    /// Held in the queue; the messages dropped to make room.
    Held { evicted: Vec<QueueMessage> },
    /// Given to the consumer on `channel_id` of `conn_id`, and kept in
    /// flight; the messages dropped to make room.
    Delivered { conn_id: u64, channel_id: u16, evicted: Vec<QueueMessage> },
}

/// Whether every queue's round-robin cursors can move once past each of
/// its listeners and group members.
pub open spec fn cursors_ok(qs: Seq<(String, crate::queue::state::QueueState)>) -> bool {
    forall|i: int| 0 <= i < qs.len() ==> (#[trigger] qs[i]).1.next_listener + qs[i].1.listeners@.len() <= usize::MAX
        && cursors_fit(qs[i].1@.groups)
}

/// The consumer a queue gives its next message to, with the queue's
/// cursors moved: its groups are asked in order when it has any,
/// otherwise its listeners round-robin.
pub open spec fn next_consumer(q: QueueModel, live: Seq<u64>) -> (QueueModel, Option<(u64, u16)>) {
    if q.groups.len() > 0 {
        let g = pick_from_groups(q.groups, live);
        (QueueModel { groups: g.0, ..q }, g.1)
    } else {
        let s = rr_step(q.listeners, q.next_listener, live);
        (QueueModel { next_listener: s.1, ..q }, s.0)
    }
}

/// A queue after `msg` is placed: the oldest messages leave until it fits
/// under the length limit; then it goes in flight when a consumer takes
/// it, else to the back of its priority level.
pub open spec fn placed(q: QueueModel, msg: Message, live: Seq<u64>) -> (QueueModel, Option<(u64, u16)>) {
    let trimmed = without_oldest_n(q.messages, excess(total(q.messages), q.options.max_length));
    let t = next_consumer(q, live);
    let q1 = t.0;
    if t.1 is Some {
        (QueueModel { messages: trimmed, inflight: q1.inflight.push((msg.id, msg)), ..q1 }, t.1)
    } else {
        (
            QueueModel {
                messages: trimmed.update(msg.priority as int, trimmed[msg.priority as int].push(QueueMessage::Full(msg))),
                ..q1
            },
            t.1,
        )
    }
}

/// Places `msg` on the first queue named `name`, as [`placed`] says, with
/// `live` the connections that can take deliveries.
pub fn place_message(broker: &mut BrokerState, name: &str, msg: Message, live: &[u64]) -> (r: Placement)
    requires
        stores_fit(old(broker).queues@, 1),
        cursors_ok(old(broker).queues@),
    ensures
        ({
            let m = queues_model(old(broker).queues@);
            let p = name_pos(m, name@, 0);
            if p >= m.len() {
                *final(broker) == *old(broker) && r is NoQueue
            } else {
                let q = m[p].1;
                let out = placed(q, msg, live@);
                let gone = oldest_n(q.messages, excess(total(q.messages), q.options.max_length));
                &&& queues_model(final(broker).queues@) == m.update(p, (m[p].0, out.0))
                &&& *final(broker) == (BrokerState { queues: final(broker).queues, ..*old(broker) })
                &&& match out.1 {
                    Some((c, ch)) => r matches Placement::Delivered { conn_id, channel_id, evicted } && conn_id == c
                        && channel_id == ch && evicted@ == gone,
                    None => r matches Placement::Held { evicted } && evicted@ == gone,
                }
            }
        }),
        stores_fit(final(broker).queues@, 0),
{
    let ghost m = queues_model(broker.queues@);
    let ghost b0 = broker.queues@;
    let p = find_queue(&broker.queues, name);
    proof {
        lemma_name_pos(m, name@, 0);
    }
    if p >= broker.queues.len() {
        return Placement::NoQueue;
    }
    let (qname, mut q) = broker.queues.remove(p);
    assert(b0[p as int] == (qname, q));
    let ghost q0 = q@;
    proof {
        q.messages.lemma_wf_shape();
    }
    let max_length = q.options.max_length;
    let evicted = evict_for(&mut q.messages, max_length);
    let target = q.next_target(live);
    let r = match target {
        Some((c, ch)) => {
            q.inflight.push((msg.id, msg));
            Placement::Delivered { conn_id: c, channel_id: ch, evicted }
        },
        None => {
            q.messages.push_back(QueueMessage::Full(msg));
            Placement::Held { evicted }
        },
    };
    assert(q@ =~= placed(q0, msg, live@).0);
    broker.queues.insert(p, (qname, q));
    assert(queues_model(broker.queues@) =~= m.update(p as int, (m[p as int].0, q@)));
    assert forall|i: int| 0 <= i < broker.queues@.len() implies (#[trigger] broker.queues@[i]).1.messages.wf()
        && broker.queues@[i].1.messages.len_spec() + 0 < usize::MAX by {
        if i != p {
            assert(broker.queues@[i] == b0[i]);
        }
    }
    r
}

/// Whether `m` is the message a publish puts on a queue: its id, the
/// publisher's headers and body, the priority the queue keeps, its
/// deadline, not yet delivered, and no exchange or routing key recorded.
pub open spec fn published_as(m: Message, id: u64, headers: Seq<u8>, body: Seq<u8>, priority: u8, expiration: Option<u64>) -> bool {
    &&& m.id == id
    &&& m.headers@ == headers
    &&& m.body@ == body
    &&& m.priority == priority
    &&& m.expiration == expiration
    &&& !m.redelivered
    &&& m.delivery_count == 0
    &&& m.exchange@ == Seq::<char>::empty()
    &&& m.routing_key@ == Seq::<char>::empty()
}

/// The deadline of a message published at `now` on a queue with
/// `queue_ttl`, when it asked for `message_ttl`.
pub open spec fn deadline(now: u64, queue_ttl: Option<u64>, message_ttl: Option<u64>) -> Option<u64> {
    match effective_ttl_spec(queue_ttl, message_ttl) {
        Some(t) => Some((now + t) as u64),
        None => None,
    }
}

/// Whether every deadline a publish at `now` can set fits the clock.
pub open spec fn deadlines_fit(qs: Seq<(String, crate::queue::state::QueueState)>, now: u64, ttl: Option<u64>) -> bool {
    &&& ttl matches Some(t) ==> now + t <= u64::MAX
    &&& forall|i: int| 0 <= i < qs.len() ==> ((#[trigger] qs[i]).1.options.message_ttl matches Some(t) ==> now + t <= u64::MAX)
}

/// What publishing to the routed queue `name` does, from broker `b0` to
/// `b1`, returning `r`: the message gets the broker's next message id
/// (also when no queue has that name), the priority the queue keeps and
/// the earlier of the queue's and its own time to live from `now`, and is
/// placed as [`placed`] says; nothing else changes.
pub open spec fn published_to(
    b0: BrokerState,
    b1: BrokerState,
    name: Seq<char>,
    headers: Seq<u8>,
    body: Seq<u8>,
    priority: u8,
    ttl: Option<u64>,
    now: u64,
    live: Seq<u64>,
    r: (u64, Placement),
) -> bool {
    let m = queues_model(b0.queues@);
    let p = name_pos(m, name, 0);
    &&& r.0 == b0.next_msg_id
    &&& b1 == (BrokerState {
        queues: b1.queues,
        next_msg_id: if r.0 == u64::MAX { 0 } else { (r.0 + 1) as u64 },
        ..b0
    })
    &&& p >= m.len() ==> b1.queues == b0.queues && r.1 is NoQueue
    &&& p < m.len() ==> exists|msg: Message| #![trigger published_as(msg, r.0, headers, body, effective_priority_spec(Some(priority), m[p].1.options.max_priority), deadline(now, m[p].1.options.message_ttl, ttl))]
        published_as(
            msg,
            r.0,
            headers,
            body,
            effective_priority_spec(Some(priority), m[p].1.options.max_priority),
            deadline(now, m[p].1.options.message_ttl, ttl),
        ) && queues_model(b1.queues@) == m.update(p, (m[p].0, placed(m[p].1, msg, live).0))
        && match placed(m[p].1, msg, live).1 {
            Some((c, ch)) => r.1 matches Placement::Delivered { conn_id, channel_id, evicted } && conn_id == c
                && channel_id == ch && evicted@ == oldest_n(m[p].1.messages, excess(total(m[p].1.messages), m[p].1.options.max_length)),
            None => r.1 matches Placement::Held { evicted } && evicted@ == oldest_n(m[p].1.messages, excess(total(m[p].1.messages), m[p].1.options.max_length)),
        }
}

/// Publishes to one routed queue: the message gets the broker's next
/// message id (also when no queue has that name), the priority the queue
/// keeps and the earlier of the queue's and its own time to live from
/// `now`, and is placed as [`placed`] says. Returns the id and where the
/// message went.
pub fn publish_to_target(
    broker: &mut BrokerState,
    name: &str,
    headers: &Vec<u8>,
    body: &Vec<u8>,
    priority: u8,
    ttl: Option<u64>,
    now: u64,
    live: &[u64],
) -> (r: (u64, Placement))
    requires
        stores_fit(old(broker).queues@, 1),
        cursors_ok(old(broker).queues@),
        deadlines_fit(old(broker).queues@, now, ttl),
    ensures
        published_to(*old(broker), *final(broker), name@, headers@, body@, priority, ttl, now, live@, r),
        stores_fit(final(broker).queues@, 0),
        deadlines_fit(final(broker).queues@, now, ttl),
{
    let id = broker.alloc_msg_id();
    let ghost m = queues_model(broker.queues@);
    let p = find_queue(&broker.queues, name);
    proof {
        lemma_name_pos(m, name@, 0);
    }
    if p >= broker.queues.len() {
        return (id, Placement::NoQueue);
    }
    let q = &broker.queues[p].1;
    let prio = effective_priority(Some(priority), q.options.max_priority);
    assert(broker.queues@[p as int].1.options.message_ttl == q.options.message_ttl);
    let expiration = message_deadline(now, q.options.message_ttl, ttl);
    let mut msg = Message::new(id, headers.clone(), body.clone());
    msg.priority = prio;
    msg.expiration = expiration;
    let ghost b0 = broker.queues@;
    let placement = place_message(broker, name, msg, live);
    assert(published_as(msg, id, headers@, body@, prio, expiration));
    assert(m[p as int].1.options.max_priority == b0[p as int].1.options.max_priority);
    assert(prio == effective_priority_spec(Some(priority), m[p as int].1.options.max_priority));
    assert(expiration == deadline(now, m[p as int].1.options.message_ttl, ttl));
    assert(published_as(
        msg,
        id,
        headers@,
        body@,
        effective_priority_spec(Some(priority), m[p as int].1.options.max_priority),
        deadline(now, m[p as int].1.options.message_ttl, ttl),
    ));
    assert forall|i: int| 0 <= i < broker.queues@.len() implies ((#[trigger] broker.queues@[i]).1.options.message_ttl
        matches Some(t) ==> now + t <= u64::MAX) by {
        let fm = queues_model(broker.queues@);
        assert(b0.len() == m.len());
        assert(fm.len() == m.len());
        assert(fm[i].1.options.message_ttl == broker.queues@[i].1.options.message_ttl);
        assert(m[i].1.options.message_ttl == b0[i].1.options.message_ttl);
        if i == p {
            assert(fm[i].1.options == placed(m[i].1, msg, live@).0.options);
        }
        assert(fm[i].1.options.message_ttl == m[i].1.options.message_ttl);
    }
    (id, placement)
}

/// Deduplication by message id: a message whose id was seen is a
/// duplicate; otherwise its id (when it has one) is remembered. Returns
/// whether it is a duplicate.
pub fn check_duplicate(seen: &mut Vec<String>, message_id: &Option<String>) -> (r: bool)
    ensures
        message_id is None ==> !r,
        message_id matches Some(id) ==> r == names_model(old(seen)@).contains(id@),
        r || message_id is None ==> final(seen)@ == old(seen)@,
        message_id matches Some(id) ==> (!r ==> names_model(final(seen)@) == names_model(old(seen)@).push(id@)),
{
    match message_id {
        None => false,
        Some(id) => {
            let ghost ns = names_model(seen@);
            let mut i: usize = 0;
            while i < seen.len()
                invariant
                    i <= seen@.len(),
                    ns == names_model(seen@),
                    *seen == *old(seen),
                    *message_id == Some(*id),
                    forall|k: int| 0 <= k < i ==> ns[k] != id@,
                decreases seen@.len() - i,
            {
                if str_eq(seen[i].as_str(), id.as_str()) {
                    assert(ns[i as int] == id@);
                    assert(names_model(old(seen)@).contains(id@));
                    return true;
                }
                i = i + 1;
            }
            assert(!ns.contains(id@));
            seen.push(id.clone());
            assert(names_model(seen@) =~= ns.push(id@));
            false
        },
    }
}

/// The queues a publish to exchange `exchange` with `routing_key` and
/// `headers` goes to, in binding order; `None` when no exchange has that
/// name.
pub fn route_to_queues(broker: &BrokerState, exchange: &str, routing_key: &str, headers: &[(String, String)]) -> (r: Option<Vec<String>>)
    ensures
        ({
            let p = exchange_pos(broker.exchanges@, exchange@, 0);
            &&& p >= broker.exchanges@.len() ==> r is None
            &&& p < broker.exchanges@.len() ==> (r matches Some(qs) && names_model(qs@) == routed_queues(
                broker.exchanges@[p].kind,
                broker.exchanges@[p].bindings@,
                routing_key@,
                headers@,
            ))
        }),
{
    let mut i: usize = 0;
    while i < broker.exchanges.len()
        invariant
            i <= broker.exchanges@.len(),
            exchange_pos(broker.exchanges@, exchange@, 0) == exchange_pos(broker.exchanges@, exchange@, i as int),
        decreases broker.exchanges@.len() - i,
    {
        if str_eq(broker.exchanges[i].name.as_str(), exchange) {
            let qs = broker.exchanges[i].route(routing_key, headers);
            let ghost want = routed_queues(broker.exchanges@[i as int].kind, broker.exchanges@[i as int].bindings@, routing_key@, headers@);
            assert(names_model(qs@) =~= want);
            return Some(qs);
        }
        i = i + 1;
    }
    None
}

} // verus!
