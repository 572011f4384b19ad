//! The frames a channel is answered with once a declaration, a
//! subscription or a transaction has been decided; and the transaction
//! commands themselves. Refusals close the channel with a reply code, a
//! text and the class and method refused; a refusal for a schema carries
//! the JSON error text the caller renders (see `to_broker_error`).

use vstd::prelude::*;
use vstd::string::*;
use vstd::utf8::*;
use crate::amqp::args::build_channel_close;
use crate::amqp::basic_class::build_consume_ok;
use crate::amqp::codec::{
    encode_body_frame, encode_content_header, encode_method_frame, frame_bytes, header_payload, method_payload, FRAME_BODY,
    FRAME_HEADER, FRAME_METHOD,
};
use crate::amqp::properties::{encode_properties, BasicProperties};
use crate::amqp::publish::{build_basic_return, build_confirm_ack, build_confirm_nack};
use crate::amqp::types::be64;
use crate::state::publish_flow::PublishRoute;
use crate::amqp::method::{
    ACCESS_REFUSED, CLASS_BASIC, METHOD_BASIC_ACK, METHOD_BASIC_NACK, METHOD_BASIC_PUBLISH, METHOD_BASIC_RETURN, NO_ROUTE, CLASS_CHANNEL, CLASS_QUEUE, CLASS_TX, METHOD_BASIC_CONSUME, METHOD_BASIC_CONSUME_OK,
    METHOD_CHANNEL_CLOSE, METHOD_QUEUE_DECLARE, METHOD_QUEUE_DECLARE_OK, METHOD_TX_COMMIT, METHOD_TX_COMMIT_OK,
    METHOD_TX_ROLLBACK, METHOD_TX_ROLLBACK_OK, NOT_FOUND, PRECONDITION_FAILED,
};
use crate::amqp::queue_class::{build_declare_ok, refusal_reply, refusal_reply_spec};
use crate::amqp::session::{ConnectionState, PendingOp};
use crate::amqp::types::{be16, be32, shortstr_bytes};
use crate::schema::proto::QueueSchema;
use crate::schema::validate::SchemaValidationError;
use crate::state::broker::{name_pos, queues_model, stores_fit, BrokerState};
use crate::state::consume::ConsumeOutcome;
use crate::state::declare::DeclareOutcome;
use crate::queue::state::QueueModel;
use crate::state::publish_flow::{check_target, refusal_is, target_refuses};
use crate::state::tx::{apply_tx_ops, tx_apply, tx_model, tx_state};

verus! {

/// The bytes of a Channel.Close frame on `channel` closing it with
/// `code` and `text` for method `method_id` of class `class_id`.
pub open spec fn close_frame(channel: u16, code: u16, text: Seq<u8>, class_id: u16, method_id: u16) -> Seq<u8> {
    frame_bytes(
        FRAME_METHOD,
        channel,
        method_payload(CLASS_CHANNEL, METHOD_CHANNEL_CLOSE, be16(code) + shortstr_bytes(text) + be16(class_id) + be16(method_id)),
    )
}

/// The bytes of a method frame on `channel` with no arguments.
pub open spec fn bare_method_frame(channel: u16, class_id: u16, method_id: u16) -> Seq<u8> {
    frame_bytes(FRAME_METHOD, channel, method_payload(class_id, method_id, Seq::empty()))
}

/// Encodes a Channel.Close frame (see [`close_frame`]).
pub fn encode_channel_close(channel: u16, code: u16, text: &str, class_id: u16, method_id: u16) -> (r: Vec<u8>)
    requires
        text.spec_bytes().len() <= 255,
    ensures
        r@ == close_frame(channel, code, text.spec_bytes(), class_id, method_id),
{
    let args = build_channel_close(code, text, class_id, method_id);
    encode_method_frame(channel, CLASS_CHANNEL, METHOD_CHANNEL_CLOSE, args.as_slice())
}

/// The reply text when a transaction command comes outside transaction
/// mode.
pub open spec fn not_in_tx_text() -> Seq<u8> {
    "PRECONDITION_FAILED - not in tx mode".spec_bytes()
}

proof fn lemma_reply_texts()
    ensures
        "PRECONDITION_FAILED - not in tx mode".spec_bytes().len() <= 255,
        "ACCESS_REFUSED - exclusive consumer exists".spec_bytes().len() <= 255,
        "PRECONDITION_FAILED - x-consumer-schema-message required with x-consumer-schema".spec_bytes().len() <= 255,
        "NOT_FOUND - no such queue".spec_bytes().len() <= 255,
{
    reveal_strlit("PRECONDITION_FAILED - not in tx mode");
    reveal_strlit("ACCESS_REFUSED - exclusive consumer exists");
    reveal_strlit("PRECONDITION_FAILED - x-consumer-schema-message required with x-consumer-schema");
    reveal_strlit("NOT_FOUND - no such queue");
    crate::amqp::connection::lemma_ascii_len("PRECONDITION_FAILED - not in tx mode");
    crate::amqp::connection::lemma_ascii_len("ACCESS_REFUSED - exclusive consumer exists");
    crate::amqp::connection::lemma_ascii_len(
        "PRECONDITION_FAILED - x-consumer-schema-message required with x-consumer-schema",
    );
    crate::amqp::connection::lemma_ascii_len("NOT_FOUND - no such queue");
}

// ─── Queue.Declare ────────────────────────────────────────────────────

/// What a declaration on `channel` is answered with: a refusal closes the
/// channel with its code and text for Queue.Declare; a schema refusal
/// with 406 and `schema_text`; a declared queue gets Declare-Ok with its
/// name and its message and consumer counts (as 32-bit numbers), unless
/// no reply was wanted.
pub fn declare_reply(channel: u16, o: &DeclareOutcome, schema_text: &str) -> (r: Option<Vec<u8>>)
    requires
        schema_text.spec_bytes().len() <= 255,
        o matches DeclareOutcome::Declared { name, .. } ==> encode_utf8(name@).len() <= 255,
    ensures
        match o {
            DeclareOutcome::Refused(q) => r matches Some(f) && f@ == close_frame(
                channel,
                refusal_reply_spec(*q).0,
                encode_utf8(refusal_reply_spec(*q).1),
                CLASS_QUEUE,
                METHOD_QUEUE_DECLARE,
            ),
            DeclareOutcome::SchemaError(_) => r matches Some(f) && f@ == close_frame(
                channel,
                PRECONDITION_FAILED,
                schema_text.spec_bytes(),
                CLASS_QUEUE,
                METHOD_QUEUE_DECLARE,
            ),
            DeclareOutcome::Declared { name, message_count, consumer_count, no_wait, .. } => if *no_wait {
                r is None
            } else {
                r matches Some(f) && f@ == frame_bytes(
                    FRAME_METHOD,
                    channel,
                    method_payload(
                        CLASS_QUEUE,
                        METHOD_QUEUE_DECLARE_OK,
                        shortstr_bytes(encode_utf8(name@)) + be32(*message_count as u32) + be32(*consumer_count as u32),
                    ),
                )
            },
        },
{
    match o {
        DeclareOutcome::Refused(q) => {
            let (code, text) = refusal_reply(*q);
            Some(encode_channel_close(channel, code, text, CLASS_QUEUE, METHOD_QUEUE_DECLARE))
        },
        DeclareOutcome::SchemaError(_) => Some(
            encode_channel_close(channel, PRECONDITION_FAILED, schema_text, CLASS_QUEUE, METHOD_QUEUE_DECLARE),
        ),
        DeclareOutcome::Declared { name, message_count, consumer_count, no_wait, .. } => {
            if *no_wait {
                None
            } else {
                let args = build_declare_ok(name.as_str(), *message_count as u32, *consumer_count as u32);
                Some(encode_method_frame(channel, CLASS_QUEUE, METHOD_QUEUE_DECLARE_OK, args.as_slice()))
            }
        },
    }
}

// ─── Basic.Consume ────────────────────────────────────────────────────

/// What a subscription request on `channel` is answered with: a refusal
/// closes the channel for Basic.Consume — 403 for an exclusive consumer
/// on a queue in use, 406 for a schema without message name or, with
/// `schema_text`, one that did not compile or asks for fields the queue
/// lacks, 404 for a missing queue; a subscription gets Consume-Ok with its
/// tag unless no reply was wanted.
pub fn consume_reply(channel: u16, o: &ConsumeOutcome, schema_text: &str) -> (r: Option<Vec<u8>>)
    requires
        schema_text.spec_bytes().len() <= 255,
        o matches ConsumeOutcome::Consuming { tag, .. } ==> encode_utf8(tag@).len() <= 255,
    ensures
        match o {
            ConsumeOutcome::ExclusiveRefused => r matches Some(f) && f@ == close_frame(
                channel,
                ACCESS_REFUSED,
                "ACCESS_REFUSED - exclusive consumer exists".spec_bytes(),
                CLASS_BASIC,
                METHOD_BASIC_CONSUME,
            ),
            ConsumeOutcome::SchemaMessageMissing => r matches Some(f) && f@ == close_frame(
                channel,
                PRECONDITION_FAILED,
                "PRECONDITION_FAILED - x-consumer-schema-message required with x-consumer-schema".spec_bytes(),
                CLASS_BASIC,
                METHOD_BASIC_CONSUME,
            ),
            ConsumeOutcome::SchemaCompileFailed => r matches Some(f) && f@ == close_frame(
                channel,
                PRECONDITION_FAILED,
                schema_text.spec_bytes(),
                CLASS_BASIC,
                METHOD_BASIC_CONSUME,
            ),
            ConsumeOutcome::SchemaRejected(_) => r matches Some(f) && f@ == close_frame(
                channel,
                PRECONDITION_FAILED,
                schema_text.spec_bytes(),
                CLASS_BASIC,
                METHOD_BASIC_CONSUME,
            ),
            ConsumeOutcome::NotFound => r matches Some(f) && f@ == close_frame(
                channel,
                NOT_FOUND,
                "NOT_FOUND - no such queue".spec_bytes(),
                CLASS_BASIC,
                METHOD_BASIC_CONSUME,
            ),
            ConsumeOutcome::Consuming { tag, no_wait } => if *no_wait {
                r is None
            } else {
                r matches Some(f) && f@ == frame_bytes(
                    FRAME_METHOD,
                    channel,
                    method_payload(CLASS_BASIC, METHOD_BASIC_CONSUME_OK, shortstr_bytes(encode_utf8(tag@))),
                )
            },
        },
{
    proof {
        lemma_reply_texts();
    }
    match o {
        ConsumeOutcome::ExclusiveRefused => Some(
            encode_channel_close(
                channel,
                ACCESS_REFUSED,
                "ACCESS_REFUSED - exclusive consumer exists",
                CLASS_BASIC,
                METHOD_BASIC_CONSUME,
            ),
        ),
        ConsumeOutcome::SchemaMessageMissing => Some(
            encode_channel_close(
                channel,
                PRECONDITION_FAILED,
                "PRECONDITION_FAILED - x-consumer-schema-message required with x-consumer-schema",
                CLASS_BASIC,
                METHOD_BASIC_CONSUME,
            ),
        ),
        ConsumeOutcome::SchemaCompileFailed => Some(
            encode_channel_close(channel, PRECONDITION_FAILED, schema_text, CLASS_BASIC, METHOD_BASIC_CONSUME),
        ),
        ConsumeOutcome::SchemaRejected(_) => Some(
            encode_channel_close(channel, PRECONDITION_FAILED, schema_text, CLASS_BASIC, METHOD_BASIC_CONSUME),
        ),
        ConsumeOutcome::NotFound => Some(
            encode_channel_close(channel, NOT_FOUND, "NOT_FOUND - no such queue", CLASS_BASIC, METHOD_BASIC_CONSUME),
        ),
        ConsumeOutcome::Consuming { tag, no_wait } => {
            if *no_wait {
                None
            } else {
                let args = build_consume_ok(tag.as_str());
                Some(encode_method_frame(channel, CLASS_BASIC, METHOD_BASIC_CONSUME_OK, args.as_slice()))
            }
        },
    }
}

// ─── Tx.Commit and Tx.Rollback ────────────────────────────────────────

/// The position of the first buffered publish, from `i` on, whose queue's
/// schema refuses its body (see [`target_refuses`]), or the length.
pub open spec fn first_tx_refusal(m: Seq<(Seq<char>, QueueModel)>, ops: Seq<PendingOp>, i: int) -> int
    decreases ops.len() - i,
{
    if i < 0 || i >= ops.len() {
        ops.len() as int
    } else if (ops[i] matches PendingOp::Publish { routing_key, body, .. } && target_refuses(m, routing_key@, body@)) {
        i
    } else {
        first_tx_refusal(m, ops, i + 1)
    }
}

/// Checks every buffered publish against the schema of the queue its
/// routing key names, in order, and stops at the first refused: its
/// position and why.
fn tx_schema_check(broker: &BrokerState, ops: &Vec<PendingOp>) -> (r: Option<(usize, SchemaValidationError)>)
    ensures
        ({
            let m = queues_model(broker.queues@);
            let k = first_tx_refusal(m, ops@, 0);
            &&& k >= ops@.len() ==> r is None
            &&& k < ops@.len() ==> (r matches Some((i, e)) && i == k && (ops@[k] matches PendingOp::Publish {
                routing_key,
                body,
                ..
            } && refusal_is(e, m[name_pos(m, routing_key@, 0)].1.schema->Some_0, body@)))
        }),
{
    let ghost m = queues_model(broker.queues@);
    let mut i: usize = 0;
    while i < ops.len()
        invariant
            i <= ops@.len(),
            m == queues_model(broker.queues@),
            first_tx_refusal(m, ops@, 0) == first_tx_refusal(m, ops@, i as int),
        decreases ops@.len() - i,
    {
        match &ops[i] {
            PendingOp::Publish { routing_key, body, .. } => {
                match check_target(broker, routing_key.as_str(), body.as_slice()) {
                    Some(e) => {
                        return Some((i, e));
                    },
                    None => {},
                }
            },
            PendingOp::Ack { .. } => {},
        }
        i = i + 1;
    }
    None
}

/// How a Tx.Commit went.
pub enum TxCommitOutcome {
    /// The connection is not in transaction mode: nothing changed.
    NotInTx,
    /// The buffered publish at position `op` was refused by the schema of
    /// `queue`; the buffer is emptied and nothing applied.
    Refused { op: usize, queue: String, error: SchemaValidationError },
    /// Applied in order; the acknowledgements to log.
    Committed { logged: Vec<u64> },
}

/// Commits a connection's transaction: outside transaction mode nothing
/// changes; otherwise the buffer is emptied, its publishes are checked
/// against their queues' schemas, and, when none is refused, its
/// operations are applied in order (see [`tx_apply`]).
pub fn tx_commit(cs: &mut ConnectionState, broker: &mut BrokerState, conn_id: u64) -> (r: TxCommitOutcome)
    requires
        old(cs).wf(),
        stores_fit(old(broker).queues@, old(cs).tx_buffer@.len() as int),
    ensures
        final(cs).wf(),
        !old(cs).tx_mode ==> r is NotInTx && *final(cs) == *old(cs) && *final(broker) == *old(broker),
        old(cs).tx_mode ==> *final(cs) == (ConnectionState { tx_buffer: final(cs).tx_buffer, ..*old(cs) })
            && final(cs).tx_buffer@.len() == 0,
        old(cs).tx_mode ==> ({
            let m = queues_model(old(broker).queues@);
            let ops = old(cs).tx_buffer@;
            let k = first_tx_refusal(m, ops, 0);
            &&& k < ops.len() ==> *final(broker) == *old(broker) && (r matches TxCommitOutcome::Refused {
                op,
                queue,
                error,
            } && op == k && (ops[k] matches PendingOp::Publish { routing_key, body, .. } && queue@ == routing_key@
                && refusal_is(error, m[name_pos(m, routing_key@, 0)].1.schema->Some_0, body@)))
            &&& k >= ops.len() ==> (r matches TxCommitOutcome::Committed { logged } && tx_state(
                *final(broker),
                logged@,
            ) == tx_apply(tx_model(*old(broker)), ops, conn_id))
        }),
{
    let ops = match cs.take_tx_buffer() {
        None => {
            return TxCommitOutcome::NotInTx;
        },
        Some(o) => o,
    };
    match tx_schema_check(broker, &ops) {
        Some((op, error)) => {
            let queue = match &ops[op] {
                PendingOp::Publish { routing_key, .. } => routing_key.clone(),
                PendingOp::Ack { .. } => String::new(),
            };
            TxCommitOutcome::Refused { op, queue, error }
        },
        None => {
            let logged = apply_tx_ops(broker, conn_id, ops);
            TxCommitOutcome::Committed { logged }
        },
    }
}

/// What a Tx.Commit on `channel` is answered with: outside transaction
/// mode the channel is closed with 406 for Tx.Commit; a refused publish
/// closes it with 406 and `schema_text`; a commit gets Commit-Ok.
pub fn tx_commit_reply(channel: u16, o: &TxCommitOutcome, schema_text: &str) -> (r: Vec<u8>)
    requires
        schema_text.spec_bytes().len() <= 255,
    ensures
        match o {
            TxCommitOutcome::NotInTx => r@ == close_frame(
                channel,
                PRECONDITION_FAILED,
                not_in_tx_text(),
                CLASS_TX,
                METHOD_TX_COMMIT,
            ),
            TxCommitOutcome::Refused { .. } => r@ == close_frame(
                channel,
                PRECONDITION_FAILED,
                schema_text.spec_bytes(),
                CLASS_TX,
                METHOD_TX_COMMIT,
            ),
            TxCommitOutcome::Committed { .. } => r@ == bare_method_frame(channel, CLASS_TX, METHOD_TX_COMMIT_OK),
        },
{
    proof {
        lemma_reply_texts();
    }
    match o {
        TxCommitOutcome::NotInTx => encode_channel_close(
            channel,
            PRECONDITION_FAILED,
            "PRECONDITION_FAILED - not in tx mode",
            CLASS_TX,
            METHOD_TX_COMMIT,
        ),
        TxCommitOutcome::Refused { .. } => encode_channel_close(
            channel,
            PRECONDITION_FAILED,
            schema_text,
            CLASS_TX,
            METHOD_TX_COMMIT,
        ),
        TxCommitOutcome::Committed { .. } => {
            let none: Vec<u8> = Vec::new();
            encode_method_frame(channel, CLASS_TX, METHOD_TX_COMMIT_OK, none.as_slice())
        },
    }
}

/// Rolls a connection's transaction back: outside transaction mode
/// nothing changes; otherwise the buffer is emptied and the connection
/// stays in transaction mode. Returns whether it was in transaction mode.
pub fn tx_rollback(cs: &mut ConnectionState) -> (r: bool)
    requires
        old(cs).wf(),
    ensures
        final(cs).wf(),
        r == old(cs).tx_mode,
        !r ==> *final(cs) == *old(cs),
        r ==> *final(cs) == (ConnectionState { tx_buffer: final(cs).tx_buffer, ..*old(cs) }),
        r ==> final(cs).tx_buffer@.len() == 0,
{
    cs.take_tx_buffer().is_some()
}

/// What a Tx.Rollback on `channel` is answered with: Rollback-Ok in
/// transaction mode; otherwise the channel is closed with 406 for
/// Tx.Rollback.
pub fn tx_rollback_reply(channel: u16, in_tx: bool) -> (r: Vec<u8>)
    ensures
        in_tx ==> r@ == bare_method_frame(channel, CLASS_TX, METHOD_TX_ROLLBACK_OK),
        !in_tx ==> r@ == close_frame(channel, PRECONDITION_FAILED, not_in_tx_text(), CLASS_TX, METHOD_TX_ROLLBACK),
{
    proof {
        lemma_reply_texts();
    }
    if in_tx {
        let none: Vec<u8> = Vec::new();
        encode_method_frame(channel, CLASS_TX, METHOD_TX_ROLLBACK_OK, none.as_slice())
    } else {
        encode_channel_close(
            channel,
            PRECONDITION_FAILED,
            "PRECONDITION_FAILED - not in tx mode",
            CLASS_TX,
            METHOD_TX_ROLLBACK,
        )
    }
}

// ─── Basic.Publish ────────────────────────────────────────────────────

/// The publisher-confirm frame for `tag`, if the channel is in confirm
/// mode: a positive (Basic.Ack) or negative (Basic.Nack) one.
pub open spec fn confirm_frame(channel: u16, tag: Option<u64>, positive: bool) -> Seq<u8> {
    match tag {
        None => Seq::empty(),
        Some(t) => if positive {
            frame_bytes(FRAME_METHOD, channel, method_payload(CLASS_BASIC, METHOD_BASIC_ACK, be64(t).push(0u8)))
        } else {
            frame_bytes(
                FRAME_METHOD,
                channel,
                method_payload(CLASS_BASIC, METHOD_BASIC_NACK, be64(t).push(0u8).push(0u8)),
            )
        },
    }
}

/// The frames that return an unroutable message to its publisher:
/// Basic.Return with 312 `NO_ROUTE`, the exchange and routing key, then
/// the content header and, unless the body is empty, one body frame.
pub open spec fn return_frames(channel: u16, exchange: Seq<u8>, routing_key: Seq<u8>, props: Seq<u8>, body: Seq<u8>) -> Seq<u8> {
    frame_bytes(
        FRAME_METHOD,
        channel,
        method_payload(
            CLASS_BASIC,
            METHOD_BASIC_RETURN,
            be16(NO_ROUTE) + shortstr_bytes("NO_ROUTE".spec_bytes()) + shortstr_bytes(exchange) + shortstr_bytes(
                routing_key,
            ),
        ),
    ) + frame_bytes(FRAME_HEADER, channel, header_payload(CLASS_BASIC, body.len() as u64, props)) + if body.len()
        == 0 {
        Seq::empty()
    } else {
        frame_bytes(FRAME_BODY, channel, body)
    }
}

/// Encodes the publisher-confirm frame for `tag` (see [`confirm_frame`]).
pub fn confirm(channel: u16, tag: Option<u64>, positive: bool) -> (r: Vec<u8>)
    ensures
        r@ == confirm_frame(channel, tag, positive),
{
    match tag {
        None => Vec::new(),
        Some(t) => if positive {
            let args = build_confirm_ack(t);
            encode_method_frame(channel, CLASS_BASIC, METHOD_BASIC_ACK, args.as_slice())
        } else {
            let args = build_confirm_nack(t);
            encode_method_frame(channel, CLASS_BASIC, METHOD_BASIC_NACK, args.as_slice())
        },
    }
}

/// What a publish on `channel` is answered with, once routed (see
/// [`crate::state::publish_flow::route_publish`]) and, when delivered,
/// enqueued; `tag` is its publisher-confirm tag, if the channel confirms.
/// A buffered publish gets nothing; a missing exchange a positive
/// confirm; an unroutable one is first returned to the publisher when it
/// asked for that, then confirmed; one a schema refuses closes the
/// channel with 406 and `schema_text` for Basic.Publish, then gets a
/// negative confirm; a delivered one a positive confirm.
pub fn publish_reply(
    channel: u16,
    route: &PublishRoute,
    tag: Option<u64>,
    schema_text: &str,
    exchange: &str,
    routing_key: &str,
    properties: &BasicProperties,
    body: &[u8],
) -> (r: Vec<u8>)
    requires
        schema_text.spec_bytes().len() <= 255,
        route matches PublishRoute::Unroutable { return_to_publisher } && *return_to_publisher ==> {
            &&& exchange.spec_bytes().len() <= 255
            &&& routing_key.spec_bytes().len() <= 255
            &&& encode_properties(properties.slots()) is Ok
            &&& encode_properties(properties.slots())->Ok_0.len() + 12 <= u32::MAX
            &&& body@.len() <= u32::MAX
        },
    ensures
        match route {
            PublishRoute::Buffer => r@.len() == 0,
            PublishRoute::NoExchange => r@ == confirm_frame(channel, tag, true),
            PublishRoute::Unroutable { return_to_publisher } => r@ == (if *return_to_publisher {
                return_frames(
                    channel,
                    exchange.spec_bytes(),
                    routing_key.spec_bytes(),
                    encode_properties(properties.slots())->Ok_0,
                    body@,
                )
            } else {
                Seq::empty()
            }) + confirm_frame(channel, tag, true),
            PublishRoute::Refused { .. } => r@ == close_frame(
                channel,
                PRECONDITION_FAILED,
                schema_text.spec_bytes(),
                CLASS_BASIC,
                METHOD_BASIC_PUBLISH,
            ) + confirm_frame(channel, tag, false),
            PublishRoute::Deliver { .. } => r@ == confirm_frame(channel, tag, true),
        },
{
    match route {
        PublishRoute::Buffer => Vec::new(),
        PublishRoute::NoExchange => confirm(channel, tag, true),
        PublishRoute::Unroutable { return_to_publisher } => {
            let mut out: Vec<u8> = Vec::new();
            if *return_to_publisher {
                proof {
                    reveal_strlit("NO_ROUTE");
                    crate::amqp::connection::lemma_ascii_len("NO_ROUTE");
                }
                let args = build_basic_return(NO_ROUTE, "NO_ROUTE", exchange, routing_key);
                out = encode_method_frame(channel, CLASS_BASIC, METHOD_BASIC_RETURN, args.as_slice());
                let mut header = encode_content_header(channel, CLASS_BASIC, body.len() as u64, properties);
                out.append(&mut header);
                if body.len() > 0 {
                    let mut frame = encode_body_frame(channel, body);
                    out.append(&mut frame);
                }
            }
            let mut c = confirm(channel, tag, true);
            out.append(&mut c);
            out
        },
        PublishRoute::Refused { .. } => {
            let mut out = encode_channel_close(
                channel,
                PRECONDITION_FAILED,
                schema_text,
                CLASS_BASIC,
                METHOD_BASIC_PUBLISH,
            );
            let mut c = confirm(channel, tag, false);
            out.append(&mut c);
            out
        },
        PublishRoute::Deliver { .. } => confirm(channel, tag, true),
    }
}

} // verus!
