//! Negative acknowledgement on the broker's native protocol: a nacked
//! message goes back to the front of its queue (and to a consumer again
//! when one takes it), or, when it was not to be requeued or has used up
//! its retries, to its queue's dead-letter exchange.

use vstd::prelude::*;
use vstd::utf8::*;
use crate::amqp::args::parse_msg_id;
use crate::amqp::types::utf8_str;
use crate::headers::publish::{dead_letter_target, nack_outcome, nack_outcome_spec, nack_requeue, requeue_asked, NackOutcome};
use crate::queue::message::{Message, QueueMessage};
use crate::queue::priority::total;
use crate::queue::state::{inflight_pos, QueueModel};
use crate::routing::exchange::routed_queues;
use crate::state::broker::{exchange_pos, find_queue, lemma_name_pos, name_pos, names_model, queues_model, stores_fit, BrokerState};
use crate::queue::priority::{is_highest, lemma_highest_unique};
use crate::state::place::{cursors_ok, next_consumer, published_as, route_to_queues};
use crate::text::slices::keyed_lines;

verus! {

/// The queues a message dead-lettered from queue `source` goes to: those
/// the queue's dead-letter exchange routes its dead-letter routing key
/// (empty when unset) to, with no headers; `None` when there is no such
/// queue, it has no dead-letter exchange, or no exchange has that name.
pub open spec fn dead_letter_route(b: BrokerState, source: Seq<char>) -> Option<Seq<Seq<char>>> {
    let m = queues_model(b.queues@);
    let sp = name_pos(m, source, 0);
    if sp >= m.len() {
        None
    } else {
        match m[sp].1.options.dead_letter_exchange {
            None => None,
            Some(x) => {
                let e = exchange_pos(b.exchanges@, x, 0);
                let rk = match m[sp].1.options.dead_letter_routing_key {
                    Some(k) => k,
                    None => Seq::<char>::empty(),
                };
                if e >= b.exchanges@.len() {
                    None
                } else {
                    Some(routed_queues(b.exchanges@[e].kind, b.exchanges@[e].bindings@, rk, Seq::empty()))
                }
            },
        }
    }
}

/// What putting a dead-lettered copy of message `id` on queue `name`
/// does, from broker `b0` to `b1`: a fresh message with the same id,
/// headers and body joins the back of the lowest priority level of the
/// first queue of that name; nothing changes when there is none, or when
/// the queue is within one message of the machine's limit.
pub open spec fn dead_letter_step(b0: BrokerState, b1: BrokerState, name: Seq<char>, id: u64, headers: Seq<u8>, body: Seq<u8>) -> bool {
    let m = queues_model(b0.queues@);
    let p = name_pos(m, name, 0);
    &&& b1 == (BrokerState { queues: b1.queues, ..b0 })
    &&& (p >= m.len() || total(m[p].1.messages) + 1 >= usize::MAX) ==> b1 == b0
    &&& (p < m.len() && total(m[p].1.messages) + 1 < usize::MAX) ==> exists|c: Message|
        #![trigger published_as(c, id, headers, body, 0, None)]
        published_as(c, id, headers, body, 0, None) && queues_model(b1.queues@) == m.update(
            p,
            (
                m[p].0,
                QueueModel {
                    messages: m[p].1.messages.update(0, m[p].1.messages[0].push(QueueMessage::Full(c))),
                    ..m[p].1
                },
            ),
        )
}

/// Whether `states` go from one dead-letter step to the next over the
/// `targets` in order.
pub open spec fn dead_letter_chain(states: Seq<BrokerState>, targets: Seq<Seq<char>>, id: u64, headers: Seq<u8>, body: Seq<u8>) -> bool {
    &&& states.len() == targets.len() + 1
    &&& forall|j: int| 0 <= j < targets.len() ==> #[trigger] dead_letter_step(states[j], states[j + 1], targets[j], id, headers, body)
}

/// What dead-lettering message `id` (with `headers` and `body`) from
/// queue `source` does, from broker `b0` to `b1`, the copies going to the
/// queues `to`: nothing without a route; otherwise one
/// [`dead_letter_step`] per routed queue, in order.
pub open spec fn dead_lettered(b0: BrokerState, b1: BrokerState, source: Seq<char>, id: u64, headers: Seq<u8>, body: Seq<u8>, to: Seq<Seq<char>>) -> bool {
    match dead_letter_route(b0, source) {
        None => b1 == b0 && to.len() == 0,
        Some(ts) => to == ts && exists|states: Seq<BrokerState>|
            #[trigger] dead_letter_chain(states, ts, id, headers, body) && states[0] == b0 && states.last() == b1,
    }
}

/// Whether every queue keeps its options, the queues staying in place.
pub open spec fn options_kept(a: Seq<(String, crate::queue::state::QueueState)>, b: Seq<(String, crate::queue::state::QueueState)>) -> bool {
    &&& b.len() == a.len()
    &&& forall|i: int| 0 <= i < a.len() ==> (#[trigger] b[i]).1.options == a[i].1.options
}

/// Puts a copy of `msg` on queue `name`, as [`dead_letter_step`] says.
fn put_dead_letter(broker: &mut BrokerState, name: &str, msg: &Message)
    requires
        stores_fit(old(broker).queues@, 0),
    ensures
        stores_fit(final(broker).queues@, 0),
        dead_letter_step(*old(broker), *final(broker), name@, msg.id, msg.headers@, msg.body@),
        options_kept(old(broker).queues@, final(broker).queues@),
{
    let ghost m = queues_model(broker.queues@);
    let ghost b0 = broker.queues@;
    let p = find_queue(&broker.queues, name);
    proof {
        lemma_name_pos(m, name@, 0);
    }
    if p >= broker.queues.len() {
        return;
    }
    proof {
        broker.queues@[p as int].1.messages.lemma_wf_shape();
    }
    assert(m[p as int].1.messages == broker.queues@[p as int].1.messages.view());
    if broker.queues[p].1.messages.len() >= usize::MAX - 1 {
        return;
    }
    let copy = Message::new(msg.id, msg.headers.clone(), msg.body.clone());
    assert(published_as(copy, msg.id, msg.headers@, msg.body@, 0, None));
    let (qname, mut q) = broker.queues.remove(p);
    assert(b0[p as int] == (qname, q));
    let ghost q0 = q@;
    q.messages.push_back(QueueMessage::Full(copy));
    assert(q@ =~= QueueModel {
        messages: q0.messages.update(0, q0.messages[0].push(QueueMessage::Full(copy))),
        ..q0
    });
    broker.queues.insert(p, (qname, q));
    assert(queues_model(broker.queues@) =~= m.update(p as int, (m[p as int].0, q@)));
    assert forall|i: int| 0 <= i < broker.queues@.len() implies (#[trigger] broker.queues@[i]).1.messages.wf()
        && broker.queues@[i].1.messages.len_spec() + 0 < usize::MAX by {
        if i != p {
            assert(broker.queues@[i] == b0[i]);
        }
    }
    assert forall|i: int| 0 <= i < broker.queues@.len() implies (#[trigger] broker.queues@[i]).1.options
        == b0[i].1.options by {
        if i != p {
            assert(broker.queues@[i] == b0[i]);
        }
    }
}

/// Dead-letters `msg` from queue `source`: a copy goes to each queue
/// [`dead_letter_route`] gives, in order; the names are returned (none,
/// and nothing changes, when the route is `None`).
pub fn dead_letter(broker: &mut BrokerState, source: &str, msg: &Message) -> (r: Vec<String>)
    requires
        stores_fit(old(broker).queues@, 0),
    ensures
        stores_fit(final(broker).queues@, 0),
        dead_lettered(*old(broker), *final(broker), source@, msg.id, msg.headers@, msg.body@, names_model(r@)),
        options_kept(old(broker).queues@, final(broker).queues@),
{
    let ghost b0 = *broker;
    let ghost m = queues_model(broker.queues@);
    let sp = find_queue(&broker.queues, source);
    proof {
        lemma_name_pos(m, source@, 0);
    }
    if sp >= broker.queues.len() {
        return Vec::new();
    }
    let o = &broker.queues[sp].1.options;
    assert(m[sp as int].1.options == broker.queues@[sp as int].1.options@);
    let (dlx, rk) = match dead_letter_target(&o.dead_letter_exchange, &o.dead_letter_routing_key) {
        None => {
            return Vec::new();
        },
        Some(t) => t,
    };
    let no_headers: Vec<(String, String)> = Vec::new();
    let targets = match route_to_queues(broker, dlx.as_str(), rk.as_str(), no_headers.as_slice()) {
        None => {
            return Vec::new();
        },
        Some(t) => t,
    };
    let ghost ts = names_model(targets@);
    assert(dead_letter_route(b0, source@) == Some(ts));
    let ghost mut states: Seq<BrokerState> = seq![b0];
    let mut i: usize = 0;
    while i < targets.len()
        invariant
            i <= targets@.len(),
            ts == names_model(targets@),
            stores_fit(broker.queues@, 0),
            options_kept(b0.queues@, broker.queues@),
            states.len() == i + 1,
            states[0] == b0,
            states.last() == *broker,
            forall|j: int| 0 <= j < i ==> #[trigger] dead_letter_step(states[j], states[j + 1], ts[j], msg.id, msg.headers@, msg.body@),
        decreases targets@.len() - i,
    {
        let ghost before = *broker;
        put_dead_letter(broker, targets[i].as_str(), msg);
        proof {
            assert(ts[i as int] == targets@[i as int]@);
            let s2 = states.push(*broker);
            assert forall|j: int| 0 <= j < i + 1 implies #[trigger] dead_letter_step(s2[j], s2[j + 1], ts[j], msg.id, msg.headers@, msg.body@) by {
                if j < i {
                    assert(s2[j] == states[j]);
                    assert(s2[j + 1] == states[j + 1]);
                } else {
                    assert(s2[j] == before);
                }
            }
            states = s2;
        }
        i = i + 1;
    }
    assert(dead_letter_chain(states, ts, msg.id, msg.headers@, msg.body@));
    targets
}

/// The position of the first queue, from `i` on, holding message `id` in
/// flight, or the length.
pub open spec fn holder_pos(m: Seq<(Seq<char>, QueueModel)>, id: u64, i: int) -> int
    decreases m.len() - i,
{
    if i < 0 || i >= m.len() {
        m.len() as int
    } else if inflight_pos(m[i].1.inflight, id, 0) < m[i].1.inflight.len() {
        i
    } else {
        holder_pos(m, id, i + 1)
    }
}

/// The queue [`holder_pos`] finds does hold the message in flight.
proof fn lemma_holder_pos(m: Seq<(Seq<char>, QueueModel)>, id: u64, i: int)
    requires
        0 <= i <= m.len(),
    ensures
        i <= holder_pos(m, id, i) <= m.len(),
        holder_pos(m, id, i) < m.len() ==> inflight_pos(m[holder_pos(m, id, i)].1.inflight, id, 0) < m[holder_pos(
            m,
            id,
            i,
        )].1.inflight.len(),
    decreases m.len() - i,
{
    if i < m.len() && !(inflight_pos(m[i].1.inflight, id, 0) < m[i].1.inflight.len()) {
        lemma_holder_pos(m, id, i + 1);
    }
}

/// The position of the first queue holding message `id` in flight (or the
/// length) and the message's position among that queue's in-flight ones.
fn find_holder(broker: &BrokerState, id: u64) -> (r: (usize, usize))
    ensures
        r.0 == holder_pos(queues_model(broker.queues@), id, 0),
        r.0 < broker.queues@.len() ==> r.1 == inflight_pos(queues_model(broker.queues@)[r.0 as int].1.inflight, id, 0),
{
    let ghost m = queues_model(broker.queues@);
    let mut i: usize = 0;
    while i < broker.queues.len()
        invariant
            i <= m.len(),
            m == queues_model(broker.queues@),
            holder_pos(m, id, 0) == holder_pos(m, id, i as int),
        decreases m.len() - i,
    {
        let fl = &broker.queues[i].1.inflight;
        assert(m[i as int].1.inflight == fl@);
        let mut j: usize = 0;
        while j < fl.len()
            invariant
                j <= fl@.len(),
                i < m.len(),
                m == queues_model(broker.queues@),
                holder_pos(m, id, 0) == holder_pos(m, id, i as int),
                m[i as int].1.inflight == fl@,
                inflight_pos(fl@, id, 0) == inflight_pos(fl@, id, j as int),
            decreases fl@.len() - j,
        {
            if fl[j].0 == id {
                assert(inflight_pos(fl@, id, j as int) == j);
                return (i, j);
            }
            j = j + 1;
        }
        i = i + 1;
    }
    (i, 0)
}

/// What became of a nack.
pub enum NackResult {
    /// The headers are not UTF-8 or carry no message id.
    BadHeaders,
    /// No queue holds that message in flight.
    Unknown,
    /// Put back at the front of `queue`, marked redelivered with one more
    /// delivery counted. When a consumer took the queue's next message it
    /// went out again: its new id, and the consumer's connection and
    /// channel.
    Requeued { queue: String, redelivered_to: Option<(u64, u64, u16)> },
    /// Out of `queue` for good: dead-lettered to the queues listed (none
    /// when the queue has no dead-letter route: discarded).
    DeadLettered { queue: String, to: Vec<String> },
}

/// A queue after nacked message `msg` was put back at the front of its
/// level and the queue offered its next message: with `Some` consumer the
/// message at the front of the highest level goes out in flight under
/// `new_id` (a stream reference stays where it is).
#[verifier::opaque]
pub open spec fn requeued(q: QueueModel, msg: Message, new_id: u64, live: Seq<u64>) -> (QueueModel, Option<(u64, u64, u16)>) {
    let lv = msg.priority as int;
    let q1 = QueueModel { messages: q.messages.update(lv, seq![QueueMessage::Full(msg)] + q.messages[lv]), ..q };
    let t = next_consumer(q1, live);
    let q2 = t.0;
    match t.1 {
        None => (q2, None),
        Some((c, ch)) => {
            let p = choose|p: int| is_highest(q2.messages, p);
            match q2.messages[p][0] {
                QueueMessage::Full(m) => (
                    QueueModel {
                        messages: q2.messages.update(p, q2.messages[p].drop_first()),
                        inflight: q2.inflight.push((new_id, Message { id: new_id, ..m })),
                        ..q2
                    },
                    Some((new_id, c, ch)),
                ),
                QueueMessage::Ref(_) => (q2, None),
            }
        },
    }
}

/// The message id a nack's headers carry: the first `id:` line, when the
/// headers are UTF-8.
pub open spec fn nacked_id(headers: Seq<u8>) -> Option<u64> {
    if valid_utf8(headers) {
        crate::amqp::args::id_line_value(headers, 0)
    } else {
        None
    }
}

/// What a nack with `headers` does, from broker `b0` to `b1`, answering
/// `r`: with no message id nothing changes; with an id no queue holds in
/// flight nothing changes; otherwise the message leaves that queue's
/// in-flight set and, as [`nack_outcome_spec`] decides from whether the
/// headers ask for a requeue and the queue's retry limit, is requeued
/// under the broker's next message id (see [`requeued`]) or
/// dead-lettered (see [`dead_lettered`]).
pub open spec fn nack_effect(b0: BrokerState, b1: BrokerState, headers: Seq<u8>, live: Seq<u64>, r: NackResult) -> bool {
    let m = queues_model(b0.queues@);
    match nacked_id(headers) {
        None => r is BadHeaders && b1 == b0,
        Some(id) => {
            let qp = holder_pos(m, id, 0);
            if qp >= m.len() {
                r is Unknown && b1 == b0
            } else {
                let q = m[qp].1;
                let ip = inflight_pos(q.inflight, id, 0);
                let msg = q.inflight[ip].1;
                let q0 = QueueModel { inflight: q.inflight.remove(ip), ..q };
                let d = nack_outcome_spec(requeue_asked(headers, keyed_lines(headers, 0)), msg.delivery_count, q.options.max_retries);
                match d.0 {
                    NackOutcome::Requeue => {
                        let rq = requeued(q0, Message { delivery_count: d.1, redelivered: true, ..msg }, b0.next_msg_id, live);
                        &&& r matches NackResult::Requeued { queue, redelivered_to } && queue@ == m[qp].0 && redelivered_to == rq.1
                        &&& queues_model(b1.queues@) == m.update(qp, (m[qp].0, rq.0))
                        &&& b1 == (BrokerState {
                            queues: b1.queues,
                            next_msg_id: if b0.next_msg_id == u64::MAX { 0 } else { (b0.next_msg_id + 1) as u64 },
                            ..b0
                        })
                    },
                    NackOutcome::DeadLetter => r matches NackResult::DeadLettered { queue, to } && queue@ == m[qp].0
                        && exists|mid: BrokerState|
                        #![trigger dead_lettered(mid, b1, m[qp].0, msg.id, msg.headers@, msg.body@, names_model(to@))]
                        mid == (BrokerState { queues: mid.queues, ..b0 }) && queues_model(mid.queues@) == m.update(
                            qp,
                            (m[qp].0, q0),
                        ) && dead_lettered(mid, b1, m[qp].0, msg.id, msg.headers@, msg.body@, names_model(to@)),
                }
            }
        },
    }
}

/// Puts nacked message `msg` back at the front of its level in `q` and
/// offers the queue's next message to a consumer, as [`requeued`] says.
fn requeue_nacked(q: &mut crate::queue::state::QueueState, msg: Message, new_id: u64, live: &[u64]) -> (r: Option<(u64, u64, u16)>)
    requires
        old(q).messages.wf(),
        old(q).messages.len_spec() + 1 < usize::MAX,
        old(q).next_listener + old(q).listeners@.len() <= usize::MAX,
        crate::queue::state::cursors_fit(old(q)@.groups),
    ensures
        (final(q)@, r) == requeued(old(q)@, msg, new_id, live@),
{
    reveal(requeued);
    let ghost q0 = q@;
    let ghost msg2 = msg;
    q.messages.push_front(QueueMessage::Full(msg));
    let ghost q1 = q@;
    assert(q1 =~= QueueModel {
        messages: q0.messages.update(msg2.priority as int, seq![QueueMessage::Full(msg2)] + q0.messages[msg2.priority as int]),
        ..q0
    });
    match q.next_target(live) {
        None => {
            assert(q@ =~= next_consumer(q1, live@).0);
            None
        },
        Some((c, ch)) => {
            let ghost q2 = q@;
            assert(q2 =~= next_consumer(q1, live@).0);
            proof {
                q.messages.lemma_wf_shape();
            }
            assert(q.messages.len_spec() > 0);
            let is_full = match q.messages.peek_front() {
                Some(QueueMessage::Full(_)) => true,
                _ => false,
            };
            let ghost hp = choose|p: int| is_highest(q2.messages, p);
            proof {
                let p0 = choose|p: int| #[trigger] is_highest(q2.messages, p);
                lemma_highest_unique(q2.messages, p0, hp);
            }
            if is_full {
                let popped = q.messages.pop_front();
                proof {
                    let pp = choose|p: int| #[trigger] is_highest(q2.messages, p) && popped == Some(q2.messages[p][0]);
                    lemma_highest_unique(q2.messages, pp, hp);
                }
                match popped {
                    Some(QueueMessage::Full(m2)) => {
                        let mut m2 = m2;
                        m2.id = new_id;
                        q.inflight.push((new_id, m2));
                        assert(q@ =~= requeued(q0, msg2, new_id, live@).0);
                        Some((new_id, c, ch))
                    },
                    _ => None,
                }
            } else {
                assert(q@ =~= requeued(q0, msg2, new_id, live@).0);
                None
            }
        },
    }
}

/// Assembles [`nack_effect`] for a dead-lettered message.
proof fn lemma_nack_dead_letter(
    b0: BrokerState,
    mid: BrokerState,
    b1: BrokerState,
    headers: Seq<u8>,
    live: Seq<u64>,
    r: NackResult,
    id: u64,
    qp: int,
    ip: int,
)
    requires
        nacked_id(headers) == Some(id),
        qp == holder_pos(queues_model(b0.queues@), id, 0),
        qp < queues_model(b0.queues@).len(),
        ip == inflight_pos(queues_model(b0.queues@)[qp].1.inflight, id, 0),
        nack_outcome_spec(
            requeue_asked(headers, keyed_lines(headers, 0)),
            queues_model(b0.queues@)[qp].1.inflight[ip].1.delivery_count,
            queues_model(b0.queues@)[qp].1.options.max_retries,
        ).0 is DeadLetter,
        mid == (BrokerState { queues: mid.queues, ..b0 }),
        queues_model(mid.queues@) == queues_model(b0.queues@).update(
            qp,
            (
                queues_model(b0.queues@)[qp].0,
                QueueModel {
                    inflight: queues_model(b0.queues@)[qp].1.inflight.remove(ip),
                    ..queues_model(b0.queues@)[qp].1
                },
            ),
        ),
        r matches NackResult::DeadLettered { queue, to } && queue@ == queues_model(b0.queues@)[qp].0 && dead_lettered(
            mid,
            b1,
            queues_model(b0.queues@)[qp].0,
            queues_model(b0.queues@)[qp].1.inflight[ip].1.id,
            queues_model(b0.queues@)[qp].1.inflight[ip].1.headers@,
            queues_model(b0.queues@)[qp].1.inflight[ip].1.body@,
            names_model(to@),
        ),
    ensures
        nack_effect(b0, b1, headers, live, r),
{
}

/// A nack on the native protocol, as [`nack_effect`] says; `live` are the
/// connections that can take deliveries.
#[verifier::spinoff_prover]
#[verifier::rlimit(50)]
pub fn native_nack(broker: &mut BrokerState, headers: &[u8], live: &[u64]) -> (r: NackResult)
    requires
        stores_fit(old(broker).queues@, 1),
        cursors_ok(old(broker).queues@),
        forall|i: int, j: int|
            0 <= i < old(broker).queues@.len() && 0 <= j < old(broker).queues@[i].1.inflight@.len()
                ==> (#[trigger] old(broker).queues@[i].1.inflight@[j]).1.delivery_count < u32::MAX,
    ensures
        nack_effect(*old(broker), *final(broker), headers@, live@, r),
{
    let id = match parse_msg_id(headers) {
        None => {
            return NackResult::BadHeaders;
        },
        Some(i) => i,
    };
    let text = match utf8_str(headers) {
        None => {
            return NackResult::BadHeaders;
        },
        Some(t) => t,
    };
    let asked = nack_requeue(text);
    let ghost m = queues_model(broker.queues@);
    let ghost b0 = *broker;
    assert(b0 == *old(broker));
    let (qp, ip) = find_holder(broker, id);
    proof {
        lemma_holder_pos(m, id, 0);
    }
    if qp >= broker.queues.len() {
        return NackResult::Unknown;
    }
    let ghost qs = broker.queues@;
    let (qname, mut q) = broker.queues.remove(qp);
    assert(qs[qp as int] == (qname, q));
    assert(m[qp as int].1 == q@);
    let ghost qm = q@;
    let (_, msg) = q.inflight.remove(ip);
    assert(q.inflight@ == qm.inflight.remove(ip as int));
    assert(msg == qm.inflight[ip as int].1);
    assert(msg.delivery_count < u32::MAX) by {
        assert(qs[qp as int].1.inflight@[ip as int] == qm.inflight[ip as int]);
    }
    let (outcome, n) = nack_outcome(asked, msg.delivery_count, q.options.max_retries);
    let ghost q0 = q@;
    assert(q0 =~= QueueModel { inflight: qm.inflight.remove(ip as int), ..qm });
    assert(asked == requeue_asked(headers@, keyed_lines(headers@, 0)));
    assert(qm.options.max_retries == q.options.max_retries);
    match outcome {
        NackOutcome::Requeue => {
            let mut msg = msg;
            msg.delivery_count = n;
            msg.redelivered = true;
            let ghost msg2 = msg;
            let new_id = broker.alloc_msg_id();
            proof {
                q.messages.lemma_wf_shape();
                assert(qs[qp as int].1.messages.len_spec() + 1 < usize::MAX);
                assert(qs[qp as int].1.next_listener + qs[qp as int].1.listeners@.len() <= usize::MAX);
            }
            let to = requeue_nacked(&mut q, msg, new_id, live);
            assert(q@ == requeued(q0, msg2, new_id, live@).0);
            assert(to == requeued(q0, msg2, new_id, live@).1);
            let queue = qname.clone();
            broker.queues.insert(qp, (qname, q));
            assert(queues_model(broker.queues@) =~= m.update(qp as int, (m[qp as int].0, q@)));
            assert(new_id == b0.next_msg_id);
            assert(msg2 == Message { delivery_count: n, redelivered: true, ..qm.inflight[ip as int].1 });
            assert(n == nack_outcome_spec(asked, qm.inflight[ip as int].1.delivery_count, qm.options.max_retries).1);
            assert(queue@ == m[qp as int].0);
            assert(*broker == (BrokerState {
                queues: broker.queues,
                next_msg_id: if b0.next_msg_id == u64::MAX { 0 } else { (b0.next_msg_id + 1) as u64 },
                ..b0
            }));
            NackResult::Requeued { queue, redelivered_to: to }
        },
        NackOutcome::DeadLetter => {
            broker.queues.insert(qp, (qname, q));
            let ghost mid = *broker;
            assert(queues_model(broker.queues@) =~= m.update(qp as int, (m[qp as int].0, q0)));
            assert(mid == (BrokerState { queues: mid.queues, ..b0 }));
            assert forall|i: int| 0 <= i < broker.queues@.len() implies (#[trigger] broker.queues@[i]).1.messages.wf()
                && broker.queues@[i].1.messages.len_spec() + 0 < usize::MAX by {
                if i != qp {
                    assert(broker.queues@[i] == qs[i]);
                }
            }
            let queue = broker.queues[qp].0.clone();
            let to = dead_letter(broker, queue.as_str(), &msg);
            assert(queue@ == m[qp as int].0);
            assert(dead_lettered(mid, *broker, m[qp as int].0, msg.id, msg.headers@, msg.body@, names_model(to@)));
            let r = NackResult::DeadLettered { queue, to };
            proof {
                lemma_nack_dead_letter(*old(broker), mid, *broker, headers@, live@, r, id, qp as int, ip as int);
            }
            r
        },
    }
}

} // verus!
