//! `Basic.Publish` decisions: what becomes of a published message, what it
//! is stamped with in each queue, and the replies a publisher receives.

use vstd::prelude::*;
use vstd::string::*;
use vstd::utf8::*;
use crate::amqp::types::{be16, be64, shortstr_bytes, write_longlong, write_octet, write_short, write_shortstr};
use crate::amqp::session::ChannelState;
use crate::queue::message::{Message, MessageRef, QueueMessage};
use crate::queue::priority::{is_lowest, PriorityQueue};
use crate::storage::stream::{parse_u64, parse_u64_spec};

verus! {

// ─── What happens to a publish ────────────────────────────────────────

/// The course a publish takes.
#[derive(Debug, Clone, Copy, PartialEq, Eq, Structural)]
pub enum PublishPlan {
    /// The channel is in a transaction: the publish is buffered until
    /// commit.
    Buffer,
    /// The exchange does not exist: the message is dropped (and confirmed).
    NoExchange,
    /// No queue is bound for the routing key: the message is dropped,
    /// returned to the publisher first when `mandatory` is set.
    Unroutable { return_to_publisher: bool },
    /// The message goes to each routed queue.
    Deliver,
}

/// The course of a publish, given the channel's transaction mode, whether
/// the exchange exists, how many queues it routes to, and `mandatory`.
pub open spec fn publish_plan(
    tx_mode: bool,
    exchange_found: bool,
    routed: nat,
    mandatory: bool,
) -> PublishPlan {
    if tx_mode {
        PublishPlan::Buffer
    } else if !exchange_found {
        PublishPlan::NoExchange
    } else if routed == 0 {
        PublishPlan::Unroutable { return_to_publisher: mandatory }
    } else {
        PublishPlan::Deliver
    }
}

/// Decides the course of a publish.
pub fn plan_publish(tx_mode: bool, exchange_found: bool, routed: usize, mandatory: bool) -> (r:
    PublishPlan)
    ensures
        r == publish_plan(tx_mode, exchange_found, routed as nat, mandatory),
{
    if tx_mode {
        PublishPlan::Buffer
    } else if !exchange_found {
        PublishPlan::NoExchange
    } else if routed == 0 {
        PublishPlan::Unroutable { return_to_publisher: mandatory }
    } else {
        PublishPlan::Deliver
    }
}

/// Takes the next publisher-confirm tag of a channel in confirm mode:
/// the channel's next delivery tag, which then advances; `None` (and the
/// channel unchanged) outside confirm mode.
pub fn next_confirm_tag(ch: &mut ChannelState) -> (r: Option<u64>)
    requires
        old(ch).confirm_mode ==> old(ch).next_delivery_tag < u64::MAX,
    ensures
        old(ch).confirm_mode ==> r == Some(old(ch).next_delivery_tag) && final(ch).next_delivery_tag
            == old(ch).next_delivery_tag + 1,
        !old(ch).confirm_mode ==> r is None && final(ch).next_delivery_tag
            == old(ch).next_delivery_tag,
        final(ch).id == old(ch).id,
        final(ch).prefetch_count == old(ch).prefetch_count,
        final(ch).unacked_count == old(ch).unacked_count,
        final(ch).confirm_mode == old(ch).confirm_mode,
        final(ch).flow_active == old(ch).flow_active,
{
    if !ch.confirm_mode {
        return None;
    }
    let tag = ch.next_delivery_tag;
    ch.next_delivery_tag = tag + 1;
    Some(tag)
}

// ─── Stamping the message ─────────────────────────────────────────────

/// The time to live a message's `expiration` property gives: its decimal
/// milliseconds, or none when it does not read as a `u64`.
pub fn per_message_ttl(expiration: &Option<String>) -> (r: Option<u64>)
    ensures
        r == match expiration {
            Some(s) => parse_u64_spec(encode_utf8(s@)),
            None => None,
        },
{
    match expiration {
        Some(s) => parse_u64(s.as_str()),
        None => None,
    }
}

/// The time to live of a message in a queue: the shorter of the queue's
/// and the message's own, whichever are set.
pub open spec fn effective_ttl_spec(queue_ttl: Option<u64>, message_ttl: Option<u64>) -> Option<u64> {
    match (queue_ttl, message_ttl) {
        (Some(q), Some(m)) => Some(if q <= m { q } else { m }),
        (Some(t), None) => Some(t),
        (None, Some(t)) => Some(t),
        (None, None) => None,
    }
}

/// Combines a queue's and a message's time to live.
pub fn effective_ttl(queue_ttl: Option<u64>, message_ttl: Option<u64>) -> (r: Option<u64>)
    ensures
        r == effective_ttl_spec(queue_ttl, message_ttl),
{
    match (queue_ttl, message_ttl) {
        (Some(q), Some(m)) => Some(if q <= m { q } else { m }),
        (Some(t), None) => Some(t),
        (None, Some(t)) => Some(t),
        (None, None) => None,
    }
}

/// When a message published at `now` expires in a queue, if ever.
pub fn message_deadline(now: u64, queue_ttl: Option<u64>, message_ttl: Option<u64>) -> (r: Option<
    u64,
>)
    requires
        effective_ttl_spec(queue_ttl, message_ttl) matches Some(t) ==> now + t <= u64::MAX,
    ensures
        r == match effective_ttl_spec(queue_ttl, message_ttl) {
            Some(t) => Some((now + t) as u64),
            None => None,
        },
{
    match effective_ttl(queue_ttl, message_ttl) {
        Some(t) => Some(now + t),
        None => None,
    }
}

/// The priority a message keeps in a queue: its own (0 when unset),
/// capped at the queue's maximum; always 0 in a queue without priorities.
pub open spec fn effective_priority_spec(priority: Option<u8>, max_priority: u8) -> u8 {
    if max_priority > 0 {
        let p: u8 = match priority {
            Some(p) => p,
            None => 0,
        };
        if p <= max_priority { p } else { max_priority }
    } else {
        0
    }
}

/// The priority a message keeps in a queue.
pub fn effective_priority(priority: Option<u8>, max_priority: u8) -> (r: u8)
    ensures
        r == effective_priority_spec(priority, max_priority),
{
    if max_priority > 0 {
        let p: u8 = match priority {
            Some(p) => p,
            None => 0,
        };
        if p <= max_priority { p } else { max_priority }
    } else {
        0
    }
}

/// Whether a message is written to disk: a persistent message (delivery
/// mode 2) in a durable queue.
pub fn stored_on_disk(queue_durable: bool, delivery_mode: Option<u8>) -> (r: bool)
    ensures
        r == (queue_durable && delivery_mode == Some(2u8)),
{
    queue_durable && match delivery_mode {
        Some(m) => m == 2,
        None => false,
    }
}

/// The entry a queue holds for a published message: a reference to its
/// place on disk when it was written there, else the whole message. It is
/// not yet redelivered and has not been delivered.
pub fn published_entry(
    id: u64,
    headers: Vec<u8>,
    body: Vec<u8>,
    priority: u8,
    expiration: Option<u64>,
    disk: Option<(u64, u64, u32)>,
    exchange: String,
    routing_key: String,
) -> (r: QueueMessage)
    ensures
        r.id_spec() == id,
        r.priority_spec() == priority,
        r.expiration_spec() == expiration,
        !r.redelivered_spec(),
        r.delivery_count_spec() == 0,
        match disk {
            Some((seg, off, len)) => r matches QueueMessage::Ref(m) && m.segment_id == seg
                && m.offset == off && m.length == len && m.exchange == exchange && m.routing_key
                == routing_key,
            None => r matches QueueMessage::Full(m) && m.headers@ == headers@ && m.body@ == body@
                && m.exchange == exchange && m.routing_key == routing_key,
        },
{
    match disk {
        Some((segment_id, offset, length)) => QueueMessage::Ref(
            MessageRef {
                id,
                segment_id,
                offset,
                length,
                priority,
                expiration,
                redelivered: false,
                delivery_count: 0,
                exchange,
                routing_key,
            },
        ),
        None => QueueMessage::Full(
            Message {
                id,
                headers,
                body,
                priority,
                expiration,
                redelivered: false,
                delivery_count: 0,
                exchange,
                routing_key,
            },
        ),
    }
}

// ─── Making room ──────────────────────────────────────────────────────

/// The store after its oldest message (front of the lowest non-empty
/// level) is removed; unchanged when empty.
pub open spec fn without_oldest(v: Seq<Seq<QueueMessage>>) -> Seq<Seq<QueueMessage>> {
    if exists|p: int| is_lowest(v, p) {
        let p = choose|p: int| is_lowest(v, p);
        v.update(p, v[p].drop_first())
    } else {
        v
    }
}

/// The store after `n` removals of the oldest message.
pub open spec fn without_oldest_n(v: Seq<Seq<QueueMessage>>, n: nat) -> Seq<Seq<QueueMessage>>
    decreases n,
{
    if n == 0 {
        v
    } else {
        without_oldest(without_oldest_n(v, (n - 1) as nat))
    }
}

/// How many messages leave a queue of `len` so that one more fits under
/// `max_length`: none without a limit; all of them under a limit of 0.
pub open spec fn excess(len: nat, max_length: Option<usize>) -> nat {
    match max_length {
        Some(m) => if len < m {
            0
        } else if m == 0 {
            len
        } else {
            (len - m + 1) as nat
        },
        None => 0,
    }
}

/// Only one level is the lowest non-empty one.
proof fn lemma_lowest_unique(v: Seq<Seq<QueueMessage>>, p: int, q: int)
    requires
        is_lowest(v, p),
        is_lowest(v, q),
    ensures
        p == q,
{
    if p < q {
        assert(v[p].len() == 0);
    } else if q < p {
        assert(v[q].len() == 0);
    }
}

/// Drops the oldest messages of a queue until one more message fits under
/// its maximum length.
pub fn make_room(store: &mut PriorityQueue, max_length: Option<usize>)
    requires
        old(store).wf(),
    ensures
        final(store).wf(),
        final(store).view() == without_oldest_n(
            old(store).view(),
            excess(old(store).len_spec(), max_length),
        ),
        final(store).len_spec() == old(store).len_spec() - excess(
            old(store).len_spec(),
            max_length,
        ),
{
    let m = match max_length {
        Some(m) => m,
        None => {
            return;
        },
    };
    let ghost v0 = store.view();
    let ghost len0 = store.len_spec();
    let ghost mut k: nat = 0;
    while store.len() >= m && store.len() > 0
        invariant
            store.wf(),
            max_length == Some(m),
            v0 == old(store).view(),
            len0 == old(store).len_spec(),
            store.view() == without_oldest_n(v0, k),
            store.len_spec() == len0 - k,
            k <= len0,
            k > 0 ==> len0 - k + 1 >= m,
        decreases store.len_spec(),
    {
        let ghost before = store.view();
        let popped = store.pop_oldest();
        proof {
            let p = choose|p: int|
                #[trigger] is_lowest(before, p) && popped == Some(before[p][0])
                    && store.view() == before.update(p, before[p].drop_first());
            let q = choose|q: int| is_lowest(before, q);
            lemma_lowest_unique(before, p, q);
            assert(store.view() == without_oldest(before));
            k = k + 1;
        }
    }
    proof {
        assert(k == excess(len0, max_length));
    }
}

/// The message `pop_oldest` takes: the oldest of the lowest non-empty
/// level.
pub open spec fn oldest_head(v: Seq<Seq<QueueMessage>>) -> QueueMessage {
    let p = choose|p: int| is_lowest(v, p);
    v[p][0]
}

/// The messages `n` removals of the oldest message take, in order.
pub open spec fn oldest_n(v: Seq<Seq<QueueMessage>>, n: nat) -> Seq<QueueMessage>
    decreases n,
{
    if n == 0 {
        Seq::empty()
    } else {
        oldest_n(v, (n - 1) as nat).push(oldest_head(without_oldest_n(v, (n - 1) as nat)))
    }
}

/// Drops the oldest messages of a queue until one more message fits under
/// its maximum length, as [`make_room`] does; the messages dropped, in the
/// order they left.
pub fn evict_for(store: &mut PriorityQueue, max_length: Option<usize>) -> (r: Vec<QueueMessage>)
    requires
        old(store).wf(),
    ensures
        final(store).wf(),
        final(store).view() == without_oldest_n(
            old(store).view(),
            excess(old(store).len_spec(), max_length),
        ),
        final(store).len_spec() == old(store).len_spec() - excess(
            old(store).len_spec(),
            max_length,
        ),
        r@ == oldest_n(old(store).view(), excess(old(store).len_spec(), max_length)),
{
    let mut out: Vec<QueueMessage> = Vec::new();
    let m = match max_length {
        Some(m) => m,
        None => {
            return out;
        },
    };
    let ghost v0 = store.view();
    let ghost len0 = store.len_spec();
    let ghost mut k: nat = 0;
    while store.len() >= m && store.len() > 0
        invariant
            store.wf(),
            max_length == Some(m),
            v0 == old(store).view(),
            len0 == old(store).len_spec(),
            store.view() == without_oldest_n(v0, k),
            store.len_spec() == len0 - k,
            k <= len0,
            k > 0 ==> len0 - k + 1 >= m,
            out@ == oldest_n(v0, k),
        decreases store.len_spec(),
    {
        let ghost before = store.view();
        let popped = store.pop_oldest();
        proof {
            let p = choose|p: int|
                #[trigger] is_lowest(before, p) && popped == Some(before[p][0])
                    && store.view() == before.update(p, before[p].drop_first());
            let q = choose|q: int| is_lowest(before, q);
            lemma_lowest_unique(before, p, q);
            assert(store.view() == without_oldest(before));
            assert(popped == Some(oldest_head(before)));
        }
        match popped {
            Some(x) => out.push(x),
            None => {},
        }
        proof {
            k = k + 1;
        }
    }
    proof {
        assert(k == excess(len0, max_length));
    }
    out
}

/// Admits a message to a queue: drops the oldest messages until it fits
/// under `max_length`, then appends it at the back of its level.
pub fn admit_message(store: &mut PriorityQueue, max_length: Option<usize>, msg: QueueMessage)
    requires
        old(store).wf(),
        old(store).len_spec() < usize::MAX,
    ensures
        final(store).wf(),
        ({
            let trimmed = without_oldest_n(
                old(store).view(),
                excess(old(store).len_spec(), max_length),
            );
            final(store).view() == trimmed.update(
                msg.priority_spec() as int,
                trimmed[msg.priority_spec() as int].push(msg),
            )
        }),
        final(store).len_spec() == old(store).len_spec() - excess(
            old(store).len_spec(),
            max_length,
        ) + 1,
{
    make_room(store, max_length);
    store.push_back(msg);
}

/// A queue with a maximum length never holds more than that many
/// messages once a message is admitted.
pub proof fn lemma_admitted_within_max_length(len: nat, max_length: usize)
    requires
        max_length > 0,
    ensures
        len - excess(len, Some(max_length)) + 1 <= max_length,
        excess(len, Some(max_length)) <= len,
{
}

// ─── Replies ──────────────────────────────────────────────────────────

/// Builds the arguments of a publisher-confirm `Basic.Ack`: the tag, not
/// multiple.
pub fn build_confirm_ack(delivery_tag: u64) -> (r: Vec<u8>)
    ensures
        r@ == be64(delivery_tag).push(0u8),
{
    let mut args: Vec<u8> = Vec::new();
    write_longlong(&mut args, delivery_tag);
    write_octet(&mut args, 0);
    assert(args@ =~= be64(delivery_tag).push(0u8));
    args
}

/// Builds the arguments of a publisher-confirm `Basic.Nack`: the tag, not
/// multiple, not requeued.
pub fn build_confirm_nack(delivery_tag: u64) -> (r: Vec<u8>)
    ensures
        r@ == be64(delivery_tag).push(0u8).push(0u8),
{
    let mut args: Vec<u8> = Vec::new();
    write_longlong(&mut args, delivery_tag);
    write_octet(&mut args, 0);
    write_octet(&mut args, 0);
    assert(args@ =~= be64(delivery_tag).push(0u8).push(0u8));
    args
}

/// Builds the arguments of `Basic.Return`: reply code and text, exchange
/// and routing key.
pub fn build_basic_return(code: u16, text: &str, exchange: &str, routing_key: &str) -> (r: Vec<u8>)
    requires
        text.spec_bytes().len() <= 255,
        exchange.spec_bytes().len() <= 255,
        routing_key.spec_bytes().len() <= 255,
    ensures
        r@ == be16(code) + shortstr_bytes(text.spec_bytes()) + shortstr_bytes(exchange.spec_bytes())
            + shortstr_bytes(routing_key.spec_bytes()),
{
    let mut args: Vec<u8> = Vec::new();
    write_short(&mut args, code);
    let _ = write_shortstr(&mut args, text);
    let _ = write_shortstr(&mut args, exchange);
    let _ = write_shortstr(&mut args, routing_key);
    assert(args@ =~= be16(code) + shortstr_bytes(text.spec_bytes()) + shortstr_bytes(
        exchange.spec_bytes(),
    ) + shortstr_bytes(routing_key.spec_bytes()));
    args
}

/// The time to live a message gets is the shorter of the queue's and its
/// own, whichever are set: never longer than either, equal to one of them,
/// and unset only when both are.
pub proof fn lemma_effective_ttl_is_shorter(queue_ttl: Option<u64>, message_ttl: Option<u64>)
    ensures
        effective_ttl_spec(queue_ttl, message_ttl) is None <==> (queue_ttl is None && message_ttl is None),
        effective_ttl_spec(queue_ttl, message_ttl) matches Some(t) ==> {
            &&& (queue_ttl matches Some(q) ==> t <= q)
            &&& (message_ttl matches Some(m) ==> t <= m)
            &&& (queue_ttl == Some(t) || message_ttl == Some(t))
        },
{
}

/// The priority a queue keeps for a message: 0 in a queue without
/// priorities; otherwise the message's priority (0 when it has none),
/// lowered to the queue's highest when above it.
pub proof fn lemma_effective_priority_capped(priority: Option<u8>, max_priority: u8)
    ensures
        max_priority == 0 ==> effective_priority_spec(priority, max_priority) == 0,
        effective_priority_spec(priority, max_priority) <= max_priority,
        max_priority > 0 && priority is None ==> effective_priority_spec(priority, max_priority) == 0,
        max_priority > 0 ==> (priority matches Some(p) ==> effective_priority_spec(priority, max_priority) == if p
            <= max_priority {
            p
        } else {
            max_priority
        }),
        max_priority > 0 ==> (priority matches Some(p) ==> effective_priority_spec(priority, max_priority) <= p),
{
}

/// Making room under a length limit removes the fewest messages it must:
/// nothing without a limit or below it; otherwise exactly enough that the
/// queue holds one less than the limit before the new message (all of
/// them under a limit of 0).
pub proof fn lemma_excess_is_fewest(len: nat, max_length: Option<usize>)
    ensures
        excess(len, max_length) <= len,
        max_length is None ==> excess(len, max_length) == 0,
        max_length matches Some(m) ==> {
            &&& len < m ==> excess(len, max_length) == 0
            &&& m > 0 && len >= m ==> len - excess(len, max_length) + 1 == m
            &&& m == 0 ==> excess(len, max_length) == len
        },
{
}

} // verus!
