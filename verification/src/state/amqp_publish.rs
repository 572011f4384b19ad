//! Completing an AMQP publish once its content has arrived: the confirm
//! tag is taken, a publish in a transaction is buffered, and otherwise
//! the message is routed, checked against the targets' schemas and put on
//! each target queue with its properties, priority and deadline; the
//! frames the publisher is answered with come back.

use vstd::prelude::*;
use vstd::utf8::*;
use vstd::string::*;
use crate::amqp::content::ContentState;
use crate::amqp::properties::{encode_properties, BasicProperties};
use crate::amqp::publish::{effective_priority, effective_priority_spec, excess, message_deadline, next_confirm_tag, per_message_ttl, published_entry, without_oldest_n};
use crate::amqp::session::{ChannelState, ConnectionState, PendingOp};
use crate::amqp::table::{FieldTable, FieldValue, FieldValueView};
use crate::amqp::types::{lossy_string, utf8_lossy};
use crate::queue::message::{Message, QueueMessage};
use crate::queue::priority::total;
use crate::queue::state::QueueModel;
use crate::routing::exchange::{header_texts, routed_queues};
use crate::schema::validate::SchemaValidationError;
use crate::state::broker::{exchange_pos, find_queue, lemma_name_pos, name_pos, names_model, queues_model, stores_fit, BrokerState};
use crate::state::place::{deadline, deadlines_fit};
use crate::state::publish_flow::{enqueue_published, first_refusal, refusal_is, route_publish, PublishRoute};
use crate::state::settle::bumped;
use crate::state::replies::{close_frame, confirm, confirm_frame, encode_channel_close, publish_reply, return_frames};
use crate::amqp::method::{CLASS_BASIC, METHOD_BASIC_PUBLISH, PRECONDITION_FAILED};
use crate::storage::stream::parse_u64_spec;

verus! {

// ─── Headers a headers exchange matches on ────────────────────────────

/// The text a header value is matched by: `true` or `false` for a
/// boolean, otherwise its bytes read as UTF-8 (invalid sequences replaced).
pub open spec fn value_text(v: FieldValueView) -> Seq<char> {
    match v {
        FieldValueView::Boolean(b) => if b {
            "true"@
        } else {
            "false"@
        },
        FieldValueView::LongString(s) => utf8_lossy(s),
        FieldValueView::Table(c) => utf8_lossy(c),
        FieldValueView::Other(_, raw) => utf8_lossy(raw),
    }
}

/// The headers a publish is routed with: each entry of its `headers`
/// property, in order, as its key and value texts; none without the
/// property.
pub open spec fn header_pairs(t: Option<FieldTable>) -> Seq<(Seq<char>, Seq<char>)> {
    match t {
        None => Seq::empty(),
        Some(es) => es@.map_values(|e: (String, FieldValue)| (e.0@, value_text(e.1@))),
    }
}

/// The headers a publish is routed with (see [`header_pairs`]).
pub fn routing_headers(t: &Option<FieldTable>) -> (r: Vec<(String, String)>)
    ensures
        header_texts(r@) == header_pairs(*t),
{
    let mut out: Vec<(String, String)> = Vec::new();
    match t {
        None => {
            assert(header_texts(out@) =~= header_pairs(*t));
        },
        Some(es) => {
            let ghost want = header_pairs(*t);
            let mut i: usize = 0;
            while i < es.len()
                invariant
                    i <= es@.len(),
                    want == es@.map_values(|e: (String, FieldValue)| (e.0@, value_text(e.1@))),
                    header_texts(out@) == want.take(i as int),
                decreases es@.len() - i,
            {
                let (k, v) = &es[i];
                let text = match v {
                    FieldValue::Boolean(b) => if *b {
                        String::from_str("true")
                    } else {
                        String::from_str("false")
                    },
                    FieldValue::LongString(s) => lossy_string(s.as_slice()),
                    FieldValue::Table(c) => lossy_string(c.as_slice()),
                    FieldValue::Other(_, raw) => lossy_string(raw.as_slice()),
                };
                assert(text@ == value_text(v@));
                let ghost before = out@;
                let pair = (k.clone(), text);
                assert(pair.0@ == es@[i as int].0@);
                out.push(pair);
                assert(header_texts(out@) =~= want.take(i + 1)) by {
                    assert(out@ =~= before.push(pair));
                    assert(want[i as int] == (es@[i as int].0@, value_text(es@[i as int].1@)));
                    assert(header_texts(out@) =~= header_texts(before).push((pair.0@, pair.1@)));
                }
                i = i + 1;
            }
            assert(want.take(es@.len() as int) =~= want);
        },
    }
    out
}

// ─── Putting the message on one target ────────────────────────────────

/// Whether `m` is the message an AMQP publish puts on a queue: its id,
/// the encoded properties as headers, the body, the priority and deadline
/// the queue gives it, the exchange and routing key it came by, not yet
/// delivered.
pub open spec fn routed_as(
    m: Message,
    id: u64,
    headers: Seq<u8>,
    body: Seq<u8>,
    priority: u8,
    expiration: Option<u64>,
    exchange: Seq<char>,
    routing_key: Seq<char>,
) -> bool {
    &&& m.id == id
    &&& m.headers@ == headers
    &&& m.body@ == body
    &&& m.priority == priority
    &&& m.expiration == expiration
    &&& !m.redelivered
    &&& m.delivery_count == 0
    &&& m.exchange@ == exchange
    &&& m.routing_key@ == routing_key
}

/// The broker's message id after `id`.
pub open spec fn id_after(id: u64) -> u64 {
    if id == u64::MAX {
        0
    } else {
        (id + 1) as u64
    }
}

/// What putting a published message on the routed queue `name` does,
/// from broker `b0` to `b1`: the message takes the broker's next id (also
/// when no queue has that name); on the first queue of that name the
/// oldest messages leave until it fits under the length limit, and it goes
/// to the back of the level of the priority the queue gives it, with the
/// deadline of the shorter of the queue's and its own time to live from
/// `now`; the queue counts one more published message (wrapping at the
/// end of the counter's range) and was last active at `now`.
pub open spec fn placed_routed(
    b0: BrokerState,
    b1: BrokerState,
    name: Seq<char>,
    headers: Seq<u8>,
    body: Seq<u8>,
    priority: Option<u8>,
    ttl: Option<u64>,
    now: u64,
    exchange: Seq<char>,
    routing_key: Seq<char>,
) -> bool {
    let m = queues_model(b0.queues@);
    let p = name_pos(m, name, 0);
    &&& b1 == (BrokerState { queues: b1.queues, next_msg_id: id_after(b0.next_msg_id), ..b0 })
    &&& p >= m.len() ==> b1.queues == b0.queues
    &&& p < m.len() ==> exists|msg: Message|
        #![trigger routed_as(msg, b0.next_msg_id, headers, body, effective_priority_spec(priority, m[p].1.options.max_priority), deadline(now, m[p].1.options.message_ttl, ttl), exchange, routing_key)]
        routed_as(
            msg,
            b0.next_msg_id,
            headers,
            body,
            effective_priority_spec(priority, m[p].1.options.max_priority),
            deadline(now, m[p].1.options.message_ttl, ttl),
            exchange,
            routing_key,
        ) && ({
            let q = m[p].1;
            let trimmed = without_oldest_n(q.messages, excess(total(q.messages), q.options.max_length));
            queues_model(b1.queues@) == m.update(
                p,
                (
                    m[p].0,
                    QueueModel {
                        messages: trimmed.update(
                            msg.priority as int,
                            trimmed[msg.priority as int].push(QueueMessage::Full(msg)),
                        ),
                        stat_published: bumped(q.stat_published),
                        last_activity: now,
                        ..q
                    },
                ),
            )
        })
}

/// Counts one more published message on the queue at `p` and records
/// `now` as its last activity.
fn note_published(broker: &mut BrokerState, p: usize, now: u64)
    requires
        p < old(broker).queues@.len(),
        stores_fit(old(broker).queues@, 0),
    ensures
        ({
            let m = queues_model(old(broker).queues@);
            queues_model(final(broker).queues@) == m.update(
                p as int,
                (m[p as int].0, QueueModel { stat_published: bumped(m[p as int].1.stat_published), last_activity: now, ..m[p as int].1 }),
            )
        }),
        final(broker).queues@.len() == old(broker).queues@.len(),
        forall|i: int| 0 <= i < old(broker).queues@.len() ==> (#[trigger] final(broker).queues@[i]).1.options == old(broker).queues@[i].1.options,
        stores_fit(final(broker).queues@, 0),
        *final(broker) == (BrokerState { queues: final(broker).queues, ..*old(broker) }),
{
    let ghost qs = broker.queues@;
    let ghost m = queues_model(qs);
    let (name, mut q) = broker.queues.remove(p);
    assert(qs[p as int] == (name, q));
    let ghost q0 = q@;
    q.stat_published = if q.stat_published == u64::MAX { 0 } else { q.stat_published + 1 };
    q.last_activity = now;
    assert(q@ =~= QueueModel { stat_published: bumped(q0.stat_published), last_activity: now, ..q0 });
    broker.queues.insert(p, (name, q));
    assert(queues_model(broker.queues@) =~= m.update(p as int, (m[p as int].0, q@)));
    assert forall|i: int| 0 <= i < broker.queues@.len() implies (#[trigger] broker.queues@[i]).1.messages.wf()
        && broker.queues@[i].1.messages.len_spec() + 0 < usize::MAX by {
        if i != p {
            assert(broker.queues@[i] == qs[i]);
        }
    }
    assert forall|i: int| 0 <= i < qs.len() implies (#[trigger] broker.queues@[i]).1.options == qs[i].1.options by {
        if i != p {
            assert(broker.queues@[i] == qs[i]);
        }
    }
}

/// Whether the first queue named `name` exists and is durable.
pub open spec fn durable_target(m: Seq<(Seq<char>, QueueModel)>, name: Seq<char>) -> bool {
    let p = name_pos(m, name, 0);
    p < m.len() && m[p].1.options.durable
}

/// Queue names and message ids seen as character sequences and ids.
pub open spec fn id_pairs(v: Seq<(String, u64)>) -> Seq<(Seq<char>, u64)> {
    v.map_values(|e: (String, u64)| (e.0@, e.1))
}

/// The placements among the first `n` of a publish that go to the
/// write-ahead log: when the message is `persistent`, each placement on
/// a durable queue, in order, as the queue's name and the message's id.
pub open spec fn logged_placements(states: Seq<BrokerState>, ts: Seq<Seq<char>>, persistent: bool, n: nat) -> Seq<
    (Seq<char>, u64),
>
    decreases n,
{
    if n == 0 {
        Seq::empty()
    } else {
        let before = logged_placements(states, ts, persistent, (n - 1) as nat);
        let j = n - 1;
        if persistent && durable_target(queues_model(states[j].queues@), ts[j]) {
            before.push((ts[j], states[j].next_msg_id))
        } else {
            before
        }
    }
}

/// The placements logged among the first `n` depend only on the states
/// before them.
proof fn lemma_logged_prefix(a: Seq<BrokerState>, b: Seq<BrokerState>, ts: Seq<Seq<char>>, persistent: bool, n: nat)
    requires
        n <= a.len(),
        n <= b.len(),
        forall|j: int| 0 <= j < n ==> a[j] == b[j],
    ensures
        logged_placements(a, ts, persistent, n) == logged_placements(b, ts, persistent, n),
    decreases n,
{
    if n > 0 {
        lemma_logged_prefix(a, b, ts, persistent, (n - 1) as nat);
        assert(a[n - 1] == b[n - 1]);
    }
}

/// Whether a message is persistent: its delivery mode is 2.
pub open spec fn persistent(p: BasicProperties) -> bool {
    p.delivery_mode == Some(2u8)
}

/// Puts a published message on the routed queue `name`, as
/// [`placed_routed`] says.
fn place_routed(
    broker: &mut BrokerState,
    name: &str,
    headers: &Vec<u8>,
    body: &Vec<u8>,
    priority: Option<u8>,
    ttl: Option<u64>,
    now: u64,
    exchange: &String,
    routing_key: &String,
) -> (r: (u64, bool))
    requires
        stores_fit(old(broker).queues@, 1),
        deadlines_fit(old(broker).queues@, now, ttl),
    ensures
        r.0 == old(broker).next_msg_id,
        r.1 == durable_target(queues_model(old(broker).queues@), name@),
        placed_routed(*old(broker), *final(broker), name@, headers@, body@, priority, ttl, now, exchange@, routing_key@),
        stores_fit(final(broker).queues@, 0),
        deadlines_fit(final(broker).queues@, now, ttl),
{
    let ghost b0 = *broker;
    let id = broker.alloc_msg_id();
    let ghost m = queues_model(broker.queues@);
    let p = find_queue(&broker.queues, name);
    proof {
        lemma_name_pos(m, name@, 0);
    }
    if p >= broker.queues.len() {
        assert forall|i: int| 0 <= i < broker.queues@.len() implies (#[trigger] broker.queues@[i]).1.messages.wf()
            && broker.queues@[i].1.messages.len_spec() + 0 < usize::MAX by {
        }
        return (id, false);
    }
    let q = &broker.queues[p].1;
    let durable = q.options.durable;
    assert(m[p as int].1.options == q.options@);
    let prio = effective_priority(priority, q.options.max_priority);
    let expiration = message_deadline(now, q.options.message_ttl, ttl);
    let entry = published_entry(id, headers.clone(), body.clone(), prio, expiration, None, exchange.clone(), routing_key.clone());
    let ghost msg = entry->Full_0;
    assert(routed_as(
        msg,
        b0.next_msg_id,
        headers@,
        body@,
        effective_priority_spec(priority, m[p as int].1.options.max_priority),
        deadline(now, m[p as int].1.options.message_ttl, ttl),
        exchange@,
        routing_key@,
    ));
    let ghost bq = broker.queues@;
    enqueue_published(broker, name, entry);
    let ghost m1 = queues_model(broker.queues@);
    assert(m1.len() == m.len());
    assert(broker.queues@.len() == m1.len());
    note_published(broker, p, now);
    proof {
        let q = m[p as int].1;
        let trimmed = without_oldest_n(q.messages, excess(total(q.messages), q.options.max_length));
        let placed = QueueModel {
            messages: trimmed.update(msg.priority as int, trimmed[msg.priority as int].push(QueueMessage::Full(msg))),
            stat_published: bumped(q.stat_published),
            last_activity: now,
            ..q
        };
        assert(m1[p as int] == (m[p as int].0, QueueModel {
            messages: trimmed.update(msg.priority as int, trimmed[msg.priority as int].push(QueueMessage::Full(msg))),
            ..q
        }));
        assert(queues_model(broker.queues@) =~= m.update(p as int, (m[p as int].0, placed)));
    }
    assert forall|i: int| 0 <= i < broker.queues@.len() implies ((#[trigger] broker.queues@[i]).1.options.message_ttl
        matches Some(t) ==> now + t <= u64::MAX) by {
        let fm = queues_model(broker.queues@);
        assert(fm.len() == broker.queues@.len());
        assert(m.len() == bq.len());
        assert(fm.len() == m.len());
        assert(fm[i].1.options == broker.queues@[i].1.options@);
        assert(m[i] == (bq[i].0@, bq[i].1@));
        assert(m[i].1.options == bq[i].1.options@);
        assert(fm[i].1.options == m[i].1.options);
    }
    (id, durable)
}

// ─── The whole step ───────────────────────────────────────────────────

/// The bytes a message's properties encode to; none when they do not
/// encode.
pub open spec fn properties_bytes(p: BasicProperties) -> Seq<u8> {
    match encode_properties(p.slots()) {
        Ok(b) => b,
        Err(_) => Seq::empty(),
    }
}

/// The time to live a message's `expiration` property asks for.
pub open spec fn message_ttl_of(p: BasicProperties) -> Option<u64> {
    match p.expiration {
        Some(s) => parse_u64_spec(encode_utf8(s@)),
        None => None,
    }
}

/// The publisher-confirm tag a channel gives its next publish.
pub open spec fn confirm_tag_of(ch: ChannelState) -> Option<u64> {
    if ch.confirm_mode {
        Some(ch.next_delivery_tag)
    } else {
        None
    }
}

/// Whether `states` go through the placements of publish `c` on the
/// first `states.len() - 1` of the `targets`, in order (see
/// [`placed_routed`]).
pub open spec fn placements(states: Seq<BrokerState>, targets: Seq<Seq<char>>, c: ContentState, now: u64) -> bool {
    &&& 1 <= states.len() <= targets.len() + 1
    &&& forall|j: int|
        0 <= j < states.len() - 1 ==> placed_routed(
            states[j],
            states[j + 1],
            #[trigger] targets[j],
            properties_bytes(c.properties),
            c.body_received@,
            c.properties.priority,
            message_ttl_of(c.properties),
            now,
            c.exchange@,
            c.routing_key@,
        )
}

/// How completing a publish ended.
pub enum PublishCompletion {
    /// Answered with `frames`. `complete` is false only when a queue ran
    /// out of room for one more message and the targets from there on
    /// were left out. `persisted` are the placements to write to the log
    /// (see [`logged_placements`]).
    Answered { frames: Vec<u8>, complete: bool, persisted: Vec<(String, u64)> },
    /// The schema of target `queue` refuses the body: nothing was put on
    /// any queue; the channel is to be closed with the error's JSON text
    /// and the publish confirmed negatively with `tag` (see
    /// [`publish_refusal_reply`]).
    Refused { queue: String, error: SchemaValidationError, tag: Option<u64> },
}

/// What completing publish `c` outside a transaction does, from broker
/// `b0` to `b1`, answering `r`, with `hs` the headers it is routed with
/// and `tag` its confirm tag: no exchange of that name — a positive
/// confirm; routed nowhere — returned to the publisher when mandatory,
/// then confirmed; refused by a target's schema — nothing changes; else
/// placed on each target in order, then confirmed.
pub open spec fn publish_completed(
    b0: BrokerState,
    b1: BrokerState,
    c: ContentState,
    hs: Seq<(String, String)>,
    tag: Option<u64>,
    now: u64,
    r: PublishCompletion,
) -> bool {
    let p = exchange_pos(b0.exchanges@, c.exchange@, 0);
    let m = queues_model(b0.queues@);
    if p >= b0.exchanges@.len() {
        b1 == b0 && (r matches PublishCompletion::Answered { frames, complete, persisted } && complete
            && persisted@.len() == 0 && frames@ == confirm_frame(c.channel, tag, true))
    } else {
        let ts = routed_queues(b0.exchanges@[p].kind, b0.exchanges@[p].bindings@, c.routing_key@, hs);
        let k = first_refusal(m, ts, c.body_received@, 0);
        if ts.len() == 0 {
            b1 == b0 && (r matches PublishCompletion::Answered { frames, complete, persisted } && complete
                && persisted@.len() == 0 && frames@ == (if c.mandatory {
                return_frames(
                    c.channel,
                    encode_utf8(c.exchange@),
                    encode_utf8(c.routing_key@),
                    encode_properties(c.properties.slots())->Ok_0,
                    c.body_received@,
                )
            } else {
                Seq::empty()
            }) + confirm_frame(c.channel, tag, true))
        } else if k < ts.len() {
            b1 == b0 && (r matches PublishCompletion::Refused { queue, error, tag: t } && t == tag && queue@ == ts[k]
                && refusal_is(error, m[name_pos(m, ts[k], 0)].1.schema->Some_0, c.body_received@))
        } else {
            r matches PublishCompletion::Answered { frames, complete, persisted } && frames@ == confirm_frame(
                c.channel,
                tag,
                true,
            ) && exists|states: Seq<BrokerState>|
                #[trigger] placements(states, ts, c, now) && states[0] == b0 && states.last() == b1 && (complete
                    <==> states.len() == ts.len() + 1) && (!complete ==> !stores_fit(b1.queues@, 1)) && id_pairs(
                    persisted@,
                ) == logged_placements(states, ts, persistent(c.properties), (states.len() - 1) as nat)
        }
    }
}

/// Whether every queue can take one more message.
fn room_for_one(broker: &BrokerState) -> (r: bool)
    requires
        stores_fit(broker.queues@, 0),
    ensures
        r == stores_fit(broker.queues@, 1),
{
    let ghost qs = broker.queues@;
    let mut i: usize = 0;
    while i < broker.queues.len()
        invariant
            i <= qs.len(),
            qs == broker.queues@,
            stores_fit(qs, 0),
            forall|j: int| 0 <= j < i ==> (#[trigger] qs[j]).1.messages.len_spec() + 1 < usize::MAX,
        decreases qs.len() - i,
    {
        if broker.queues[i].1.messages.len() >= usize::MAX - 1 {
            assert(!(qs[i as int].1.messages.len_spec() + 1 < usize::MAX));
            return false;
        }
        i = i + 1;
    }
    true
}

/// Completes an AMQP publish whose content `c` has arrived on channel
/// `chan` of connection `cs`: the channel's next confirm tag is taken; in
/// a transaction the publish is buffered with its encoded properties and
/// nothing is answered; otherwise it goes as [`publish_completed`] says,
/// routed with the headers of its `headers` property.
pub fn complete_publish(
    broker: &mut BrokerState,
    cs: &mut ConnectionState,
    chan: &mut ChannelState,
    c: ContentState,
    now: u64,
) -> (r: PublishCompletion)
    requires
        old(cs).wf(),
        stores_fit(old(broker).queues@, 0),
        old(chan).confirm_mode ==> old(chan).next_delivery_tag < u64::MAX,
        deadlines_fit(old(broker).queues@, now, message_ttl_of(c.properties)),
        c.mandatory ==> {
            &&& encode_utf8(c.exchange@).len() <= 255
            &&& encode_utf8(c.routing_key@).len() <= 255
            &&& encode_properties(c.properties.slots()) is Ok
            &&& encode_properties(c.properties.slots())->Ok_0.len() + 12 <= u32::MAX
            &&& c.body_received@.len() <= u32::MAX
        },
    ensures
        final(cs).wf(),
        *final(chan) == (ChannelState {
            next_delivery_tag: if old(chan).confirm_mode {
                (old(chan).next_delivery_tag + 1) as u64
            } else {
                old(chan).next_delivery_tag
            },
            ..*old(chan)
        }),
        stores_fit(final(broker).queues@, 0),
        old(cs).tx_mode ==> *final(broker) == *old(broker) && *final(cs) == (ConnectionState {
            tx_buffer: final(cs).tx_buffer,
            ..*old(cs)
        }) && final(cs).tx_buffer@.len() == old(cs).tx_buffer@.len() + 1 && final(cs).tx_buffer@.take(
            old(cs).tx_buffer@.len() as int,
        ) == old(cs).tx_buffer@ && (final(cs).tx_buffer@.last() matches PendingOp::Publish {
            exchange,
            routing_key,
            headers,
            body,
        } && exchange@ == c.exchange@ && routing_key@ == c.routing_key@ && headers@ == properties_bytes(c.properties)
            && body@ == c.body_received@) && (r matches PublishCompletion::Answered { frames, complete, persisted } && complete
            && frames@.len() == 0 && persisted@.len() == 0),
        !old(cs).tx_mode ==> *final(cs) == *old(cs) && exists|hs: Seq<(String, String)>|
            #![trigger publish_completed(*old(broker), *final(broker), c, hs, confirm_tag_of(*old(chan)), now, r)]
            header_texts(hs) == header_pairs(c.properties.headers) && publish_completed(
                *old(broker),
                *final(broker),
                c,
                hs,
                confirm_tag_of(*old(chan)),
                now,
                r,
            ),
{
    let tag = next_confirm_tag(chan);
    if cs.tx_mode {
        let mut props: Vec<u8> = Vec::new();
        let _ = c.properties.encode(&mut props);
        let ghost before = cs.tx_buffer@;
        let op = PendingOp::Publish { exchange: c.exchange, routing_key: c.routing_key, headers: props, body: c.body_received };
        cs.tx_buffer.push(op);
        assert(cs.tx_buffer@.take(before.len() as int) =~= before);
        return PublishCompletion::Answered { frames: Vec::new(), complete: true, persisted: Vec::new() };
    }
    let hs = routing_headers(&c.properties.headers);
    let route = route_publish(
        broker,
        false,
        c.exchange.as_str(),
        c.routing_key.as_str(),
        hs.as_slice(),
        c.mandatory,
        c.body_received.as_slice(),
    );
    let ghost b0 = *broker;
    let ghost m = queues_model(broker.queues@);
    match route {
        PublishRoute::Refused { queue, error, .. } => {
            let res = PublishCompletion::Refused { queue, error, tag };
            assert(publish_completed(b0, *broker, c, hs@, tag, now, res));
            res
        },
        PublishRoute::Deliver { targets } => {
            let ghost ts = names_model(targets@);
            let mut props: Vec<u8> = Vec::new();
            let _ = c.properties.encode(&mut props);
            let ttl = per_message_ttl(&c.properties.expiration);
            let ghost mut states: Seq<BrokerState> = seq![b0];
            let persist = match c.properties.delivery_mode {
                Some(d) => d == 2,
                None => false,
            };
            let mut persisted: Vec<(String, u64)> = Vec::new();
            let mut complete = true;
            let mut i: usize = 0;
            while i < targets.len() && complete
                invariant
                    i <= targets@.len(),
                    !complete ==> i < targets@.len() && !stores_fit(broker.queues@, 1),
                    ts == names_model(targets@),
                    props@ == properties_bytes(c.properties),
                    ttl == message_ttl_of(c.properties),
                    stores_fit(broker.queues@, 0),
                    deadlines_fit(broker.queues@, now, ttl),
                    states.len() == i + 1,
                    states[0] == b0,
                    states.last() == *broker,
                    placements(states, ts, c, now),
                    persist == persistent(c.properties),
                    id_pairs(persisted@) == logged_placements(states, ts, persist, i as nat),
                decreases targets@.len() - i + (if complete { 1int } else { 0int }),
            {
                if !room_for_one(broker) {
                    complete = false;
                } else {
                let ghost before = *broker;
                let ghost logged_before = persisted@;
                let (id, durable) = place_routed(
                    broker,
                    targets[i].as_str(),
                    &props,
                    &c.body_received,
                    c.properties.priority,
                    ttl,
                    now,
                    &c.exchange,
                    &c.routing_key,
                );
                if persist && durable {
                    persisted.push((targets[i].clone(), id));
                }
                proof {
                    let s2 = states.push(*broker);
                    lemma_logged_prefix(states, s2, ts, persist, i as nat);
                    assert(s2[i as int] == before);
                    if persist && durable {
                        assert(id_pairs(persisted@) =~= id_pairs(logged_before).push((ts[i as int], before.next_msg_id)));
                    } else {
                        assert(id_pairs(persisted@) =~= id_pairs(logged_before));
                    }
                    assert(ts[i as int] == targets@[i as int]@);
                    assert forall|j: int| 0 <= j < s2.len() - 1 implies placed_routed(
                        s2[j],
                        s2[j + 1],
                        #[trigger] ts[j],
                        properties_bytes(c.properties),
                        c.body_received@,
                        c.properties.priority,
                        message_ttl_of(c.properties),
                        now,
                        c.exchange@,
                        c.routing_key@,
                    ) by {
                        if j < i {
                            assert(s2[j] == states[j]);
                            assert(s2[j + 1] == states[j + 1]);
                        } else {
                            assert(s2[j] == before);
                        }
                    }
                    states = s2;
                }
                i = i + 1;
                }
            }
            assert(placements(states, ts, c, now));
            let frames = confirm(c.channel, tag, true);
            let res = PublishCompletion::Answered { frames, complete, persisted };
            assert(publish_completed(b0, *broker, c, hs@, tag, now, res));
            res
        },
        other => {
            proof {
                reveal_strlit("");
            }
            let frames = publish_reply(
                c.channel,
                &other,
                tag,
                "",
                c.exchange.as_str(),
                c.routing_key.as_str(),
                &c.properties,
                c.body_received.as_slice(),
            );
            let res = PublishCompletion::Answered { frames, complete: true, persisted: Vec::new() };
            assert(publish_completed(b0, *broker, c, hs@, tag, now, res));
            res
        },
    }
}

/// The frames a publish refused by a target's schema is answered with:
/// the channel closed with 406 and `schema_text` for Basic.Publish, then a
/// negative confirm with `tag`.
pub fn publish_refusal_reply(channel: u16, tag: Option<u64>, schema_text: &str) -> (r: Vec<u8>)
    requires
        schema_text.spec_bytes().len() <= 255,
    ensures
        r@ == close_frame(channel, PRECONDITION_FAILED, schema_text.spec_bytes(), CLASS_BASIC, METHOD_BASIC_PUBLISH)
            + confirm_frame(channel, tag, false),
{
    let mut out = encode_channel_close(channel, PRECONDITION_FAILED, schema_text, CLASS_BASIC, METHOD_BASIC_PUBLISH);
    let mut n = confirm(channel, tag, false);
    out.append(&mut n);
    out
}

} // verus!
