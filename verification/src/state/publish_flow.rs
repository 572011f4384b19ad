//! What a publish does to the queues it was routed to, before and after
//! the log is written: the schema check of every target queue, then each
//! queue taking its message.

use vstd::prelude::*;
use crate::amqp::publish::{admit_message, excess, without_oldest_n};
use crate::queue::message::QueueMessage;
use crate::queue::priority::total;
use crate::queue::state::QueueModel;
use crate::schema::fields::{fields_view, json_verdict, mismatches_view, texts_view, validate_json_fields, JsonVerdict};
use crate::schema::proto::{decode_refuses, protobuf_decode, validate_protobuf, verdict_matches, QueueSchema};
use crate::schema::validate::SchemaValidationError;
use crate::routing::exchange::routed_queues;
use crate::state::place::route_to_queues;
use crate::state::broker::{exchange_pos, find_queue, lemma_name_pos, name_pos, names_model, queues_model, stores_fit, BrokerState};

verus! {

/// Whether a body is checked as JSON: it starts with `{`.
pub open spec fn json_body(body: Seq<u8>) -> bool {
    body.len() > 0 && body[0] == 123u8
}

/// Whether target `name` refuses `body`: the queue exists and has a
/// schema, and the body does not fit it — a JSON body (one starting with
/// `{`) by the schema's fields, any other body by how decoding it against
/// the schema's descriptor set goes.
pub open spec fn target_refuses(qs: Seq<(Seq<char>, QueueModel)>, name: Seq<char>, body: Seq<u8>) -> bool {
    let p = name_pos(qs, name, 0);
    &&& p < qs.len()
    &&& qs[p].1.schema is Some
    &&& if json_body(body) {
        json_verdict(fields_view(qs[p].1.schema->Some_0.fields@), body) != JsonVerdict::Fits
    } else {
        decode_refuses(protobuf_decode(qs[p].1.schema->Some_0.descriptors@, qs[p].1.schema->Some_0.message@, body))
    }
}

/// Whether `e` is the reason schema `s` refuses `body`: for a JSON body,
/// what the field check finds; for any other body, the verdict on how
/// decoding it goes.
pub open spec fn refusal_is(e: SchemaValidationError, s: QueueSchema, body: Seq<u8>) -> bool {
    if json_body(body) {
        match json_verdict(fields_view(s.fields@), body) {
            JsonVerdict::InvalidJson(msg) => e matches SchemaValidationError::InvalidJson(t) && t@ == msg,
            JsonVerdict::Missing(names) => e matches SchemaValidationError::MissingFields { fields: f }
                && texts_view(f@) == names,
            JsonVerdict::Mismatched(ms) => e matches SchemaValidationError::TypeMismatch { errors }
                && mismatches_view(errors@) == ms,
            JsonVerdict::Fits => false,
        }
    } else {
        verdict_matches(Err(e), protobuf_decode(s.descriptors@, s.message@, body), body.len())
    }
}

/// The first target, by position, that refuses `body`, if any.
pub open spec fn first_refusal(qs: Seq<(Seq<char>, QueueModel)>, targets: Seq<Seq<char>>, body: Seq<u8>, i: int) -> int
    decreases targets.len() - i,
{
    if i < 0 || i >= targets.len() {
        targets.len() as int
    } else if target_refuses(qs, targets[i], body) {
        i
    } else {
        first_refusal(qs, targets, body, i + 1)
    }
}

/// Checks a published body against the schema of every target queue, in
/// order, and stops at the first that refuses it (see
/// [`target_refuses`]): the target's position and why.
pub fn check_targets(broker: &BrokerState, targets: &Vec<String>, body: &[u8]) -> (r: Option<(usize, SchemaValidationError)>)
    ensures
        ({
            let m = queues_model(broker.queues@);
            let k = first_refusal(m, names_model(targets@), body@, 0);
            &&& k >= targets@.len() ==> r is None
            &&& k < targets@.len() ==> (r matches Some((i, e)) && i == k && refusal_is(
                e,
                m[name_pos(m, targets@[k]@, 0)].1.schema->Some_0,
                body@,
            ))
        }),
{
    let ghost m = queues_model(broker.queues@);
    let ghost ts = names_model(targets@);
    let is_json = body.len() > 0 && body[0] == 123u8;
    let mut i: usize = 0;
    while i < targets.len()
        invariant
            i <= targets@.len(),
            m == queues_model(broker.queues@),
            ts == names_model(targets@),
            is_json == json_body(body@),
            first_refusal(m, ts, body@, 0) == first_refusal(m, ts, body@, i as int),
        decreases targets@.len() - i,
    {
        assert(ts[i as int] == targets@[i as int]@);
        let p = find_queue(&broker.queues, targets[i].as_str());
        proof {
            lemma_name_pos(m, ts[i as int], 0);
        }
        if p < broker.queues.len() {
            assert(m[p as int].1.schema == broker.queues@[p as int].1.schema);
            match &broker.queues[p].1.schema {
                Some(schema) => {
                    let verdict = if is_json {
                        validate_json_fields(schema.fields.as_slice(), body)
                    } else {
                        validate_protobuf(schema.descriptors.as_slice(), schema.message.as_str(), body)
                    };
                    match verdict {
                        Err(e) => {
                            return Some((i, e));
                        },
                        Ok(()) => {},
                    }
                },
                None => {},
            }
        }
        i = i + 1;
    }
    None
}

/// The first queue named `name` takes a published message: its oldest
/// messages leave until the message fits under the length limit, then it
/// goes to the back of its priority level. Returns whether there was such
/// a queue (without one nothing changes).
pub fn enqueue_published(broker: &mut BrokerState, name: &str, msg: QueueMessage) -> (r: bool)
    requires
        stores_fit(old(broker).queues@, 1),
    ensures
        ({
            let m = queues_model(old(broker).queues@);
            let p = name_pos(m, name@, 0);
            &&& r == (p < m.len())
            &&& !r ==> *final(broker) == *old(broker)
            &&& r ==> {
                let q = m[p].1;
                let trimmed = without_oldest_n(q.messages, excess(total(q.messages), q.options.max_length));
                &&& queues_model(final(broker).queues@) == m.update(
                    p,
                    (
                        m[p].0,
                        QueueModel {
                            messages: trimmed.update(msg.priority_spec() as int, trimmed[msg.priority_spec() as int].push(msg)),
                            ..q
                        },
                    ),
                )
                &&& *final(broker) == (BrokerState { queues: final(broker).queues, ..*old(broker) })
            }
        }),
        stores_fit(final(broker).queues@, 0),
{
    let ghost m = queues_model(broker.queues@);
    let ghost b0 = broker.queues@;
    let p = find_queue(&broker.queues, name);
    proof {
        lemma_name_pos(m, name@, 0);
    }
    if p >= broker.queues.len() {
        return false;
    }
    let (qname, mut q) = broker.queues.remove(p);
    assert(b0[p as int] == (qname, q));
    let ghost q0 = q@;
    proof {
        q.messages.lemma_wf_shape();
    }
    let max_length = q.options.max_length;
    admit_message(&mut q.messages, max_length, msg);
    broker.queues.insert(p, (qname, q));
    assert(queues_model(broker.queues@) =~= m.update(p as int, (m[p as int].0, q@)));
    assert forall|i: int| 0 <= i < broker.queues@.len() implies (#[trigger] broker.queues@[i]).1.messages.wf()
        && broker.queues@[i].1.messages.len_spec() + 0 < usize::MAX by {
        if i != p {
            assert(broker.queues@[i] == b0[i]);
        }
    }
    true
}

/// Where an AMQP publish goes before anything is written.
pub enum PublishRoute {
    /// The channel is in a transaction: the publish is buffered.
    Buffer,
    /// No exchange has the name the publish gives.
    NoExchange,
    /// The exchange routes it nowhere; with `mandatory` it goes back to
    /// the publisher.
    Unroutable { return_to_publisher: bool },
    /// The schema of the target at position `target`, queue `queue`,
    /// refuses the body.
    Refused { target: usize, queue: String, error: SchemaValidationError },
    /// Every target accepts it: the queues it goes to, in routing order.
    Deliver { targets: Vec<String> },
}

/// Decides where an AMQP publish goes: buffered in a transaction;
/// otherwise routed through `exchange` with `routing_key` and `headers`,
/// and, when it reaches queues, checked against each target's schema in
/// order (see [`check_targets`]).
pub fn route_publish(
    broker: &BrokerState,
    tx_mode: bool,
    exchange: &str,
    routing_key: &str,
    headers: &[(String, String)],
    mandatory: bool,
    body: &[u8],
) -> (r: PublishRoute)
    ensures
        tx_mode ==> r is Buffer,
        !tx_mode ==> ({
            let p = exchange_pos(broker.exchanges@, exchange@, 0);
            let m = queues_model(broker.queues@);
            &&& p >= broker.exchanges@.len() ==> r is NoExchange
            &&& p < broker.exchanges@.len() ==> ({
                let ts = routed_queues(broker.exchanges@[p].kind, broker.exchanges@[p].bindings@, routing_key@, headers@);
                let k = first_refusal(m, ts, body@, 0);
                &&& ts.len() == 0 ==> r == PublishRoute::Unroutable { return_to_publisher: mandatory }
                &&& ts.len() > 0 ==> (r is Deliver || r is Refused)
                &&& r matches PublishRoute::Deliver { targets } ==> names_model(targets@) == ts
                &&& ts.len() > 0 ==> (r is Refused <==> k < ts.len())
                &&& r matches PublishRoute::Refused { target, queue, error } ==> target == k && queue@ == ts[k] && refusal_is(
                    error,
                    m[name_pos(m, ts[k], 0)].1.schema->Some_0,
                    body@,
                )
            })
        }),
{
    if tx_mode {
        return PublishRoute::Buffer;
    }
    let targets = match route_to_queues(broker, exchange, routing_key, headers) {
        None => {
            return PublishRoute::NoExchange;
        },
        Some(t) => t,
    };
    if targets.len() == 0 {
        return PublishRoute::Unroutable { return_to_publisher: mandatory };
    }
    match check_targets(broker, &targets, body) {
        Some((target, error)) => {
            let queue = targets[target].clone();
            PublishRoute::Refused { target, queue, error }
        },
        None => PublishRoute::Deliver { targets },
    }
}

/// Checks `body` against the schema of the first queue named `name` (see
/// [`target_refuses`]): why it refuses the body, if it does.
pub fn check_target(broker: &BrokerState, name: &str, body: &[u8]) -> (r: Option<SchemaValidationError>)
    ensures
        r is Some <==> target_refuses(queues_model(broker.queues@), name@, body@),
        r matches Some(e) ==> refusal_is(
            e,
            queues_model(broker.queues@)[name_pos(queues_model(broker.queues@), name@, 0)].1.schema->Some_0,
            body@,
        ),
{
    let ghost m = queues_model(broker.queues@);
    let p = find_queue(&broker.queues, name);
    proof {
        lemma_name_pos(m, name@, 0);
    }
    if p >= broker.queues.len() {
        return None;
    }
    assert(m[p as int].1.schema == broker.queues@[p as int].1.schema);
    match &broker.queues[p].1.schema {
        Some(schema) => {
            let verdict = if body.len() > 0 && body[0] == 123u8 {
                validate_json_fields(schema.fields.as_slice(), body)
            } else {
                validate_protobuf(schema.descriptors.as_slice(), schema.message.as_str(), body)
            };
            match verdict {
                Err(e) => Some(e),
                Ok(()) => None,
            }
        },
        None => None,
    }
}

} // verus!
