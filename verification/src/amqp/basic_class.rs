//! The Basic class besides publishing: reading Consume, Cancel, Get, Ack,
//! Reject, Nack and Qos, the checks made on a consumer, and the replies.

use vstd::prelude::*;
use vstd::utf8::*;
use vstd::string::*;
use crate::amqp::types::{
    be32, be64, from_be16, from_be64, shortstr_bytes, utf8_lossy, write_long, write_longlong,
    write_octet, write_shortstr, WireReader,
};
use crate::amqp::queue_class::{
    after_ticket, long_string_arg, octet_field, octet_or_zero, skip_ticket, str_field,
    str_or_empty, table_field, table_or_empty, text_value,
};
use crate::amqp::session::{channel_pos, ChannelState, ConnectionState};
use crate::amqp::table::{table_get, table_view, FieldTable, FieldValue, FieldValueView};

verus! {

// ─── Reading the arguments ────────────────────────────────────────────

/// The fields of `Basic.Consume`.
pub struct BasicConsume {
    pub queue: String,
    /// The tag the client asked for; `None` when empty, for the server to
    /// choose.
    pub consumer_tag: Option<String>,
    pub no_local: bool,
    pub no_ack: bool,
    pub exclusive: bool,
    pub no_wait: bool,
    pub arguments: FieldTable,
}

/// The queue, tag, flag octet and table position of `Basic.Consume`.
pub open spec fn consume_layout(s: Seq<u8>) -> (Seq<u8>, Seq<u8>, u8, int) {
    let (q, p1) = str_field(s, after_ticket(s));
    let (tag, p2) = str_field(s, p1);
    let (flags, p3) = octet_field(s, p2);
    (q, tag, flags, p3)
}

/// Reads `Basic.Consume`: ticket, queue, consumer tag, the no-local,
/// no-ack, exclusive and no-wait bits (0 to 3), and the arguments.
pub fn parse_basic_consume(args: &[u8]) -> (r: BasicConsume)
    ensures
        ({
            let (q, tag, flags, p) = consume_layout(args@);
            &&& encode_utf8(r.queue@) == q
            &&& (tag.len() == 0 <==> r.consumer_tag is None)
            &&& (r.consumer_tag matches Some(t) ==> encode_utf8(t@) == tag)
            &&& r.no_local == (flags % 2 == 1)
            &&& r.no_ack == ((flags / 2) % 2 == 1)
            &&& r.exclusive == ((flags / 4) % 2 == 1)
            &&& r.no_wait == ((flags / 8) % 2 == 1)
            &&& table_view(r.arguments@) == table_field(args@, p)
        }),
{
    let mut rd = WireReader::new(args);
    skip_ticket(&mut rd);
    let queue = str_or_empty(&mut rd);
    let tag = str_or_empty(&mut rd);
    let flags = octet_or_zero(&mut rd);
    let arguments = table_or_empty(&mut rd);
    let n = tag.as_str().unicode_len();
    proof {
        if n == 0 {
            assert(tag@ =~= Seq::<char>::empty());
            assert(encode_utf8(tag@) =~= Seq::<u8>::empty()) by {
                reveal_with_fuel(encode_utf8, 1);
            }
        } else {
            assert(encode_utf8(tag@).len() > 0) by {
                reveal_with_fuel(encode_utf8, 1);
                vstd::utf8::encode_utf8_first_scalar(tag@);
            }
        }
    }
    BasicConsume {
        queue,
        consumer_tag: if n == 0 { None } else { Some(tag) },
        no_local: flags % 2 == 1,
        no_ack: (flags / 2) % 2 == 1,
        exclusive: (flags / 4) % 2 == 1,
        no_wait: (flags / 8) % 2 == 1,
        arguments,
    }
}

/// Reads `Basic.Cancel`: consumer tag and the no-wait bit (0).
pub fn parse_basic_cancel(args: &[u8]) -> (r: (String, bool))
    ensures
        ({
            let (tag, p) = str_field(args@, 0);
            &&& encode_utf8(r.0@) == tag
            &&& r.1 == (octet_field(args@, p).0 % 2 == 1)
        }),
{
    let mut rd = WireReader::new(args);
    let tag = str_or_empty(&mut rd);
    let flags = octet_or_zero(&mut rd);
    (tag, flags % 2 == 1)
}

/// Reads `Basic.Get`: ticket, queue and the no-ack bit (0).
pub fn parse_basic_get(args: &[u8]) -> (r: (String, bool))
    ensures
        ({
            let (q, p) = str_field(args@, after_ticket(args@));
            &&& encode_utf8(r.0@) == q
            &&& r.1 == (octet_field(args@, p).0 % 2 == 1)
        }),
{
    let mut rd = WireReader::new(args);
    skip_ticket(&mut rd);
    let queue = str_or_empty(&mut rd);
    let flags = octet_or_zero(&mut rd);
    (queue, flags % 2 == 1)
}

/// The delivery tag (0 when cut short) and flag octet of `Basic.Ack`,
/// `Basic.Reject` and `Basic.Nack`.
pub open spec fn tag_flags(s: Seq<u8>) -> (u64, u8) {
    if s.len() >= 8 {
        (from_be64(s.subrange(0, 8)), octet_field(s, 8).0)
    } else {
        (0, octet_field(s, 0).0)
    }
}

/// Reads the delivery tag and flag octet of an acknowledgement.
pub fn parse_tag_flags(args: &[u8]) -> (r: (u64, u8))
    ensures
        r == tag_flags(args@),
{
    let mut rd = WireReader::new(args);
    assert(rd.rest() =~= args@);
    let tag = match rd.read_longlong() {
        Ok(t) => t,
        Err(_) => 0,
    };
    let flags = octet_or_zero(&mut rd);
    (tag, flags)
}

/// Reads `Basic.Ack`: delivery tag and the multiple bit (0).
pub fn parse_basic_ack(args: &[u8]) -> (r: (u64, bool))
    ensures
        r.0 == tag_flags(args@).0,
        r.1 == (tag_flags(args@).1 % 2 == 1),
{
    let (tag, flags) = parse_tag_flags(args);
    (tag, flags % 2 == 1)
}

/// Reads `Basic.Reject`: delivery tag and the requeue bit (0).
pub fn parse_basic_reject(args: &[u8]) -> (r: (u64, bool))
    ensures
        r.0 == tag_flags(args@).0,
        r.1 == (tag_flags(args@).1 % 2 == 1),
{
    let (tag, flags) = parse_tag_flags(args);
    (tag, flags % 2 == 1)
}

/// Reads `Basic.Nack`: delivery tag, the multiple bit (0) and the requeue
/// bit (1).
pub fn parse_basic_nack(args: &[u8]) -> (r: (u64, bool, bool))
    ensures
        r.0 == tag_flags(args@).0,
        r.1 == (tag_flags(args@).1 % 2 == 1),
        r.2 == ((tag_flags(args@).1 / 2) % 2 == 1),
{
    let (tag, flags) = parse_tag_flags(args);
    (tag, flags % 2 == 1, (flags / 2) % 2 == 1)
}

/// The prefetch count (0 when cut short) and global bit of `Basic.Qos`;
/// the prefetch size before them is skipped when present.
pub open spec fn qos_fields(s: Seq<u8>) -> (u16, bool) {
    let p0: int = if s.len() >= 4 { 4 } else { 0 };
    let (count, p1) = if s.len() >= p0 + 2 {
        (from_be16(s.subrange(p0, p0 + 2)), p0 + 2)
    } else {
        (0u16, p0)
    };
    (count, octet_field(s, p1).0 % 2 == 1)
}

/// Reads `Basic.Qos`: prefetch count and the global bit (0).
pub fn parse_basic_qos(args: &[u8]) -> (r: (u16, bool))
    ensures
        r == qos_fields(args@),
{
    let mut rd = WireReader::new(args);
    assert(rd.rest() =~= args@);
    let _ = rd.read_long();
    assert(rd.rest() =~= args@.subrange(rd.pos as int, args@.len() as int));
    let count = match rd.read_short() {
        Ok(c) => c,
        Err(_) => 0,
    };
    let flags = octet_or_zero(&mut rd);
    (count, flags % 2 == 1)
}

// ─── Consumers ────────────────────────────────────────────────────────

/// Whether an exclusive consume is refused: the queue already has
/// consumers.
pub fn exclusive_consumer_refused(exclusive: bool, existing_consumers: usize) -> (r: bool)
    ensures
        r == (exclusive && existing_consumers > 0),
{
    exclusive && existing_consumers > 0
}

/// A consumer's own schema, when it sends one: `x-consumer-schema` must
/// come with `x-consumer-schema-message` (both long strings), and is then
/// the proto text and the message name; the error when the name is
/// missing.
pub open spec fn consumer_schema_spec(t: Seq<(Seq<u8>, FieldValueView)>) -> Result<
    Option<(Seq<u8>, Seq<char>)>,
    (),
> {
    match long_string_arg(t, "x-consumer-schema"@) {
        None => Ok(None),
        Some(raw) => match long_string_arg(t, "x-consumer-schema-message"@) {
            Some(m) => Ok(Some((raw, utf8_lossy(m)))),
            None => Err(()),
        },
    }
}

/// The refusal text when a consumer schema comes without its message name.
pub open spec fn consumer_schema_refusal() -> Seq<char> {
    "PRECONDITION_FAILED - x-consumer-schema-message required with x-consumer-schema"@
}

/// Reads a consumer's own schema from its arguments.
pub fn consumer_schema(arguments: &[(String, FieldValue)]) -> (r: Result<Option<(Vec<u8>, String)>, ()>)
    ensures
        match consumer_schema_spec(table_view(arguments@)) {
            Ok(None) => r matches Ok(None),
            Ok(Some((raw, m))) => r matches Ok(Some((b, s))) && b@ == raw && s@ == m,
            Err(()) => r is Err,
        },
{
    match table_get(arguments, "x-consumer-schema") {
        Some(FieldValue::LongString(raw)) => match text_value(
            table_get(arguments, "x-consumer-schema-message"),
        ) {
            Some(m) => Ok(Some((raw.clone(), m))),
            None => Err(()),
        },
        _ => Ok(None),
    }
}

// ─── Prefetch ─────────────────────────────────────────────────────────

/// Sets the prefetch count of one channel, or of every channel of the
/// connection when `global`; an unknown channel changes nothing.
pub fn apply_qos(cs: &mut ConnectionState, channel: u16, prefetch_count: u16, global: bool)
    requires
        old(cs).wf(),
    ensures
        final(cs).wf(),
        final(cs).channels@.len() == old(cs).channels@.len(),
        forall|i: int|
            0 <= i < old(cs).channels@.len() ==> {
                let o = #[trigger] old(cs).channels@[i];
                let n = final(cs).channels@[i];
                &&& n.id == o.id
                &&& n.unacked_count == o.unacked_count
                &&& n.confirm_mode == o.confirm_mode
                &&& n.next_delivery_tag == o.next_delivery_tag
                &&& n.flow_active == o.flow_active
                &&& n.prefetch_count == if global || i == channel_pos(old(cs).channels@, channel) {
                    prefetch_count
                } else {
                    o.prefetch_count
                }
            },
        final(cs).tx_mode == old(cs).tx_mode,
        final(cs).tx_buffer@ == old(cs).tx_buffer@,
{
    let ghost pos = channel_pos(cs.channels@, channel);
    let ghost before = cs.channels@;
    let mut i: usize = 0;
    while i < cs.channels.len()
        invariant
            i <= cs.channels@.len(),
            cs.channels@.len() == before.len(),
            before == old(cs).channels@,
            pos == channel_pos(before, channel),
            crate::amqp::session::distinct_channels(before),
            cs.tx_mode == old(cs).tx_mode,
            cs.tx_buffer@ == old(cs).tx_buffer@,
            forall|j: int|
                0 <= j < before.len() ==> {
                    let o = #[trigger] before[j];
                    let n = cs.channels@[j];
                    &&& n.id == o.id
                    &&& n.unacked_count == o.unacked_count
                    &&& n.confirm_mode == o.confirm_mode
                    &&& n.next_delivery_tag == o.next_delivery_tag
                    &&& n.flow_active == o.flow_active
                    &&& n.prefetch_count == if j < i && (global || j == pos) {
                        prefetch_count
                    } else {
                        o.prefetch_count
                    }
                },
        decreases before.len() - i,
    {
        proof {
            crate::amqp::session::lemma_channel_pos(before, channel);
            assert(before[i as int].id == cs.channels@[i as int].id);
            if before[i as int].id == channel && i as int != pos {
                if (i as int) < pos {
                    assert(before[i as int].id != channel);
                } else {
                    assert(before[pos].id == channel);
                    assert(before[pos].id != before[i as int].id);
                }
            }
        }
        let c = &cs.channels[i];
        let hit = global || c.id == channel;
        let ghost prev = cs.channels@;
        assert(hit == (global || i as int == pos));
        if hit {
            let updated = ChannelState {
                id: c.id,
                prefetch_count,
                unacked_count: c.unacked_count,
                confirm_mode: c.confirm_mode,
                next_delivery_tag: c.next_delivery_tag,
                flow_active: c.flow_active,
            };
            cs.channels.set(i, updated);
        }
        assert forall|j: int| 0 <= j < before.len() && j != i implies cs.channels@[j] == prev[j] by {}
        i = i + 1;
    }
    proof {
        assert forall|a: int, b: int| 0 <= a < b < cs.channels@.len() implies cs.channels@[a].id
            != cs.channels@[b].id by {
            assert(before[a].id != before[b].id);
        }
    }
}

// ─── Replies ──────────────────────────────────────────────────────────

/// Builds `Basic.Consume-Ok`: the consumer tag.
pub fn build_consume_ok(tag: &str) -> (r: Vec<u8>)
    requires
        tag.spec_bytes().len() <= 255,
    ensures
        r@ == shortstr_bytes(tag.spec_bytes()),
{
    let mut args: Vec<u8> = Vec::new();
    let _ = write_shortstr(&mut args, tag);
    assert(args@ =~= shortstr_bytes(tag.spec_bytes()));
    args
}

/// Builds `Basic.Get-Ok`: delivery tag, redelivered, exchange, routing
/// key and the messages left in the queue.
pub fn build_get_ok(
    delivery_tag: u64,
    redelivered: bool,
    exchange: &str,
    routing_key: &str,
    message_count: u32,
) -> (r: Vec<u8>)
    requires
        exchange.spec_bytes().len() <= 255,
        routing_key.spec_bytes().len() <= 255,
    ensures
        r@ == be64(delivery_tag) + seq![if redelivered { 1u8 } else { 0u8 }] + shortstr_bytes(
            exchange.spec_bytes(),
        ) + shortstr_bytes(routing_key.spec_bytes()) + be32(message_count),
{
    let mut args: Vec<u8> = Vec::new();
    write_longlong(&mut args, delivery_tag);
    write_octet(&mut args, if redelivered { 1 } else { 0 });
    let _ = write_shortstr(&mut args, exchange);
    let _ = write_shortstr(&mut args, routing_key);
    write_long(&mut args, message_count);
    assert(args@ =~= be64(delivery_tag) + seq![if redelivered { 1u8 } else { 0u8 }]
        + shortstr_bytes(exchange.spec_bytes()) + shortstr_bytes(routing_key.spec_bytes()) + be32(
        message_count,
    ));
    args
}

/// Builds `Basic.Get-Empty`: an empty (deprecated) cluster id.
pub fn build_get_empty() -> (r: Vec<u8>)
    ensures
        r@ == seq![0u8],
{
    let mut args: Vec<u8> = Vec::new();
    write_octet(&mut args, 0);
    assert(args@ =~= seq![0u8]);
    args
}

} // verus!
