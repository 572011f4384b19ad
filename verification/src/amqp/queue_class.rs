//! The Queue class: reading Declare, Delete, Purge, Bind and Unbind, the
//! options a declaration asks for, and the checks made before acting.

use vstd::prelude::*;
use vstd::utf8::*;
use vstd::string::*;
use crate::amqp::types::{
    from_be32, get_u32, lossy_string, utf8_lossy, write_long, write_shortstr, be32,
    shortstr_bytes, WireReader,
};
use crate::amqp::args::{shortstr_at, shortstr_or_empty};
use crate::amqp::table::{
    parse_table, read_field_table, table_get, table_lookup, table_view, FieldTable, FieldValue,
    FieldValueView, TAG_LONG_INT,
};
use crate::amqp::method::{ACCESS_REFUSED, NOT_FOUND, PRECONDITION_FAILED, RESOURCE_LOCKED};
use crate::queue::options::{default_options, queue_type_of, QueueOptions, QueueOptionsView, QueueType};
use crate::routing::topic::str_eq;
use crate::schema::error::ErrorCode;
use crate::text::decimal::{decimal_chars, decimal_string};
use crate::text::slices::{starts_with_chars, str_starts_with};

verus! {

// ─── Reading the arguments ────────────────────────────────────────────

/// Where the fields after the ticket start: past it when the ticket is
/// there, else at the start.
pub open spec fn after_ticket(s: Seq<u8>) -> int {
    if s.len() >= 2 { 2 } else { 0 }
}

/// The short string at `p` and the position after it, or the empty string
/// and `p` when it cannot be read.
pub open spec fn str_field(s: Seq<u8>, p: int) -> (Seq<u8>, int) {
    match shortstr_at(s, p) {
        Some(x) => x,
        None => (Seq::empty(), p),
    }
}

/// The octet at `p` and the position after it, or 0 and `p` past the end.
pub open spec fn octet_field(s: Seq<u8>, p: int) -> (u8, int) {
    if 0 <= p < s.len() {
        (s[p], p + 1)
    } else {
        (0, p)
    }
}

/// The table at `p`, or no entries when it cannot be read.
pub open spec fn table_field(s: Seq<u8>, p: int) -> Seq<(Seq<u8>, FieldValueView)> {
    match parse_table(s.subrange(p, s.len() as int)) {
        Ok((es, _)) => es,
        Err(_) => Seq::empty(),
    }
}

/// Whether bit `i` (0 for the lowest) of `flags` is set.
pub open spec fn flag_bit(flags: u8, i: nat) -> bool {
    if i == 0 {
        flags % 2 == 1
    } else if i == 1 {
        (flags / 2) % 2 == 1
    } else if i == 2 {
        (flags / 4) % 2 == 1
    } else if i == 3 {
        (flags / 8) % 2 == 1
    } else {
        (flags / 16) % 2 == 1
    }
}

/// Skips the ticket.
pub(crate) fn skip_ticket(rd: &mut WireReader)
    requires
        old(rd).pos == 0,
        old(rd).pos <= old(rd).data@.len(),
    ensures
        final(rd).data == old(rd).data,
        final(rd).pos == after_ticket(old(rd).data@),
{
    let _ = rd.read_short();
}

/// Reads a short string, or the empty string where it cannot.
pub(crate) fn str_or_empty(rd: &mut WireReader) -> (r: String)
    requires
        old(rd).pos <= old(rd).data@.len(),
    ensures
        final(rd).data == old(rd).data,
        final(rd).pos <= final(rd).data@.len(),
        encode_utf8(r@) == str_field(old(rd).data@, old(rd).pos as int).0,
        final(rd).pos == str_field(old(rd).data@, old(rd).pos as int).1,
{
    let r = shortstr_or_empty(rd);
    proof {
        if shortstr_at(old(rd).data@, old(rd).pos as int) is None {
            assert(encode_utf8(Seq::<char>::empty()) =~= Seq::<u8>::empty()) by {
                reveal_with_fuel(encode_utf8, 1);
            }
        }
    }
    r
}

/// Reads an octet, or 0 where there is none.
pub(crate) fn octet_or_zero(rd: &mut WireReader) -> (r: u8)
    requires
        old(rd).pos <= old(rd).data@.len(),
    ensures
        final(rd).data == old(rd).data,
        final(rd).pos <= final(rd).data@.len(),
        r == octet_field(old(rd).data@, old(rd).pos as int).0,
        final(rd).pos == octet_field(old(rd).data@, old(rd).pos as int).1,
{
    match rd.read_octet() {
        Ok(b) => b,
        Err(_) => 0,
    }
}

/// Reads a field table, or no entries where it cannot.
pub(crate) fn table_or_empty(rd: &mut WireReader) -> (r: FieldTable)
    requires
        old(rd).pos <= old(rd).data@.len(),
    ensures
        table_view(r@) == table_field(old(rd).data@, old(rd).pos as int),
{
    match read_field_table(rd) {
        Ok(t) => t,
        Err(_) => {
            let t: FieldTable = Vec::new();
            assert(table_view(t@) =~= Seq::<(Seq<u8>, FieldValueView)>::empty());
            t
        },
    }
}

/// The name, flag octet and table position of `Queue.Declare`.
pub open spec fn declare_layout(s: Seq<u8>) -> (Seq<u8>, u8, int) {
    let (name, p1) = str_field(s, after_ticket(s));
    let (flags, p2) = octet_field(s, p1);
    (name, flags, p2)
}

/// The fields of `Queue.Declare`.
pub struct QueueDeclare {
    pub name: String,
    pub passive: bool,
    pub durable: bool,
    pub exclusive: bool,
    pub auto_delete: bool,
    pub no_wait: bool,
    pub arguments: FieldTable,
}

/// Reads `Queue.Declare`: ticket, queue name, the passive, durable,
/// exclusive, auto-delete and no-wait bits (0 to 4) of the flag octet,
/// and the arguments table. A field that cannot be read counts as empty
/// (or zero) and the next is read from the same place.
pub fn parse_queue_declare(args: &[u8]) -> (r: QueueDeclare)
    ensures
        ({
            let (name, flags, p) = declare_layout(args@);
            &&& encode_utf8(r.name@) == name
            &&& r.passive == flag_bit(flags, 0)
            &&& r.durable == flag_bit(flags, 1)
            &&& r.exclusive == flag_bit(flags, 2)
            &&& r.auto_delete == flag_bit(flags, 3)
            &&& r.no_wait == flag_bit(flags, 4)
            &&& table_view(r.arguments@) == table_field(args@, p)
        }),
{
    let mut rd = WireReader::new(args);
    skip_ticket(&mut rd);
    let name = str_or_empty(&mut rd);
    let flags = octet_or_zero(&mut rd);
    let arguments = table_or_empty(&mut rd);
    QueueDeclare {
        name,
        passive: flags % 2 == 1,
        durable: (flags / 2) % 2 == 1,
        exclusive: (flags / 4) % 2 == 1,
        auto_delete: (flags / 8) % 2 == 1,
        no_wait: (flags / 16) % 2 == 1,
        arguments,
    }
}

/// The name and flag octet of `Queue.Delete` and `Queue.Purge`.
pub open spec fn name_flags_layout(s: Seq<u8>) -> (Seq<u8>, u8) {
    let (name, p1) = str_field(s, after_ticket(s));
    (name, octet_field(s, p1).0)
}

/// Reads `Queue.Delete`: ticket, queue name, and the if-unused, if-empty
/// and no-wait bits (0 to 2) of the flag octet.
pub fn parse_queue_delete(args: &[u8]) -> (r: (String, bool, bool, bool))
    ensures
        ({
            let (name, flags) = name_flags_layout(args@);
            &&& encode_utf8(r.0@) == name
            &&& r.1 == flag_bit(flags, 0)
            &&& r.2 == flag_bit(flags, 1)
            &&& r.3 == flag_bit(flags, 2)
        }),
{
    let mut rd = WireReader::new(args);
    skip_ticket(&mut rd);
    let name = str_or_empty(&mut rd);
    let flags = octet_or_zero(&mut rd);
    (name, flags % 2 == 1, (flags / 2) % 2 == 1, (flags / 4) % 2 == 1)
}

/// Reads `Queue.Purge`: ticket, queue name, and the no-wait bit (0).
pub fn parse_queue_purge(args: &[u8]) -> (r: (String, bool))
    ensures
        ({
            let (name, flags) = name_flags_layout(args@);
            &&& encode_utf8(r.0@) == name
            &&& r.1 == flag_bit(flags, 0)
        }),
{
    let mut rd = WireReader::new(args);
    skip_ticket(&mut rd);
    let name = str_or_empty(&mut rd);
    let flags = octet_or_zero(&mut rd);
    (name, flags % 2 == 1)
}

/// The queue, exchange, routing key and following position of
/// `Queue.Bind` and `Queue.Unbind`.
pub open spec fn bind_layout(s: Seq<u8>) -> (Seq<u8>, Seq<u8>, Seq<u8>, int) {
    let (q, p1) = str_field(s, after_ticket(s));
    let (ex, p2) = str_field(s, p1);
    let (rk, p3) = str_field(s, p2);
    (q, ex, rk, p3)
}

/// Reads `Queue.Bind`: ticket, queue, exchange, routing key and the
/// no-wait bit (0) of the flag octet.
pub fn parse_queue_bind(args: &[u8]) -> (r: (String, String, String, bool))
    ensures
        ({
            let (q, ex, rk, p) = bind_layout(args@);
            &&& encode_utf8(r.0@) == q
            &&& encode_utf8(r.1@) == ex
            &&& encode_utf8(r.2@) == rk
            &&& r.3 == flag_bit(octet_field(args@, p).0, 0)
        }),
{
    let mut rd = WireReader::new(args);
    skip_ticket(&mut rd);
    let queue = str_or_empty(&mut rd);
    let exchange = str_or_empty(&mut rd);
    let routing_key = str_or_empty(&mut rd);
    let flags = octet_or_zero(&mut rd);
    (queue, exchange, routing_key, flags % 2 == 1)
}

/// Reads `Queue.Unbind`: ticket, queue, exchange and routing key.
pub fn parse_queue_unbind(args: &[u8]) -> (r: (String, String, String))
    ensures
        ({
            let (q, ex, rk, _) = bind_layout(args@);
            &&& encode_utf8(r.0@) == q
            &&& encode_utf8(r.1@) == ex
            &&& encode_utf8(r.2@) == rk
        }),
{
    let mut rd = WireReader::new(args);
    skip_ticket(&mut rd);
    let queue = str_or_empty(&mut rd);
    let exchange = str_or_empty(&mut rd);
    let routing_key = str_or_empty(&mut rd);
    (queue, exchange, routing_key)
}

// ─── Names ────────────────────────────────────────────────────────────

/// Whether a declaration of `name` is refused: names starting with `amq.`
/// are reserved to the server (except generated `amq.gen-` names), unless
/// the declaration only checks that the queue exists.
pub open spec fn reserved_name_refused(name: Seq<char>, passive: bool) -> bool {
    !passive && starts_with_chars(name, "amq."@) && !starts_with_chars(name, "amq.gen-"@)
}

/// Tests whether declaring `name` is refused as a reserved name.
pub fn is_reserved_queue_name(name: &str, passive: bool) -> (r: bool)
    ensures
        r == reserved_name_refused(name@, passive),
{
    !passive && str_starts_with(name, "amq.") && !str_starts_with(name, "amq.gen-")
}

/// The name the server gives a queue declared without one.
pub open spec fn generated_name(id: u64) -> Seq<char> {
    "amq.gen-"@ + decimal_chars(id as nat)
}

/// Builds the name `amq.gen-<id>`.
pub fn generated_queue_name(id: u64) -> (r: String)
    ensures
        r@ == generated_name(id),
{
    let mut s = String::from_str("amq.gen-");
    let digits = decimal_string(id);
    s.append(digits.as_str());
    s
}

// ─── Options from arguments ───────────────────────────────────────────

/// The value of `key` when it is a 32-bit signed integer, as its bits.
pub open spec fn long_int_arg(t: Seq<(Seq<u8>, FieldValueView)>, key: Seq<char>) -> Option<u32> {
    match table_lookup(t, encode_utf8(key)) {
        Some(FieldValueView::Other(tag, raw)) => if tag == TAG_LONG_INT && raw.len() == 4 {
            Some(from_be32(raw))
        } else {
            None
        },
        _ => None,
    }
}

/// The value of `key` when it is a long string.
pub open spec fn long_string_arg(t: Seq<(Seq<u8>, FieldValueView)>, key: Seq<char>) -> Option<
    Seq<u8>,
> {
    match table_lookup(t, encode_utf8(key)) {
        Some(FieldValueView::LongString(v)) => Some(v),
        _ => None,
    }
}

/// The value of `key` when it is a long string, read as text.
pub open spec fn text_arg(t: Seq<(Seq<u8>, FieldValueView)>, key: Seq<char>) -> Option<Seq<char>> {
    match long_string_arg(t, key) {
        Some(v) => Some(utf8_lossy(v)),
        None => None,
    }
}

/// A signed 32-bit value (given by its bits) widened to 64 bits.
pub open spec fn widen_signed(x: u32) -> u64 {
    if x < 0x8000_0000 {
        x as u64
    } else {
        (x as u64 + 0xFFFF_FFFF_0000_0000u64) as u64
    }
}

/// The options a `Queue.Declare` asks for: its durable, exclusive and
/// auto-delete flags and the `x-queue-type`,
/// `x-quorum-initial-group-size`, `x-message-ttl`, `x-max-length`,
/// `x-dead-letter-exchange`, `x-schema`, `x-schema-type` and
/// `x-schema-message` arguments (each taken only with its expected type);
/// a quorum queue is always durable.
pub open spec fn declared_options(
    durable: bool,
    exclusive: bool,
    auto_delete: bool,
    t: Seq<(Seq<u8>, FieldValueView)>,
) -> QueueOptionsView {
    let qt = text_arg(t, "x-queue-type"@);
    let queue_type = match qt {
        Some(s) => queue_type_of(Some(s)),
        None => QueueType::Classic,
    };
    QueueOptionsView {
        durable: durable || queue_type == QueueType::Quorum,
        exclusive: exclusive,
        auto_delete: auto_delete,
        queue_type: queue_type,
        stream_mode: qt == Some("stream"@),
        quorum_group_size: match long_int_arg(t, "x-quorum-initial-group-size"@) {
            Some(x) => x,
            None => 0,
        },
        message_ttl: match long_int_arg(t, "x-message-ttl"@) {
            Some(x) => Some(widen_signed(x)),
            None => None,
        },
        max_length: match long_int_arg(t, "x-max-length"@) {
            Some(x) => Some(widen_signed(x) as usize),
            None => None,
        },
        dead_letter_exchange: text_arg(t, "x-dead-letter-exchange"@),
        schema: long_string_arg(t, "x-schema"@),
        schema_type: text_arg(t, "x-schema-type"@),
        schema_message: text_arg(t, "x-schema-message"@),
        ..default_options()
    }
}

/// The 32-bit signed integer in `v`, as its bits.
fn long_int_value(v: Option<&FieldValue>) -> (r: Option<u32>)
    ensures
        r == match v {
            Some(x) => match x@ {
                FieldValueView::Other(tag, raw) => if tag == TAG_LONG_INT && raw.len() == 4 {
                    Some(from_be32(raw))
                } else {
                    None
                },
                _ => None,
            },
            None => None,
        },
{
    match v {
        Some(FieldValue::Other(tag, raw)) => {
            if *tag == TAG_LONG_INT && raw.len() == 4 {
                let x = get_u32(raw.as_slice(), 0);
                assert(raw@.subrange(0, 4) =~= raw@);
                Some(x)
            } else {
                None
            }
        },
        _ => None,
    }
}

/// The text in `v` when it is a long string.
pub(crate) fn text_value(v: Option<&FieldValue>) -> (r: Option<String>)
    ensures
        match v {
            Some(x) => match x@ {
                FieldValueView::LongString(b) => r matches Some(s) && s@ == utf8_lossy(b),
                _ => r is None,
            },
            None => r is None,
        },
{
    match v {
        Some(FieldValue::LongString(b)) => Some(lossy_string(b.as_slice())),
        _ => None,
    }
}

/// Widens a signed 32-bit value given by its bits.
fn widen_signed_exec(x: u32) -> (r: u64)
    ensures
        r == widen_signed(x),
{
    if x < 0x8000_0000 {
        x as u64
    } else {
        x as u64 + 0xFFFF_FFFF_0000_0000u64
    }
}

/// Builds the options a `Queue.Declare` asks for.
pub fn declared_queue_options(
    durable: bool,
    exclusive: bool,
    auto_delete: bool,
    arguments: &[(String, FieldValue)],
) -> (r: QueueOptions)
    ensures
        r@ == declared_options(durable, exclusive, auto_delete, table_view(arguments@)),
{
    let ghost t = table_view(arguments@);
    let mut opts = QueueOptions::default();
    opts.durable = durable;
    opts.exclusive = exclusive;
    opts.auto_delete = auto_delete;
    let qt = text_value(table_get(arguments, "x-queue-type"));
    match qt {
        Some(s) => {
            opts.queue_type = QueueType::from_amqp_arg(Some(s.as_str()));
            if str_eq(s.as_str(), "stream") {
                opts.stream_mode = true;
            }
        },
        None => {},
    }
    match long_int_value(table_get(arguments, "x-quorum-initial-group-size")) {
        Some(x) => opts.quorum_group_size = x,
        None => {},
    }
    if opts.queue_type == QueueType::Quorum {
        opts.durable = true;
    }
    match long_int_value(table_get(arguments, "x-message-ttl")) {
        Some(x) => opts.message_ttl = Some(widen_signed_exec(x)),
        None => {},
    }
    match long_int_value(table_get(arguments, "x-max-length")) {
        Some(x) => opts.max_length = Some(widen_signed_exec(x) as usize),
        None => {},
    }
    opts.dead_letter_exchange = text_value(table_get(arguments, "x-dead-letter-exchange"));
    match table_get(arguments, "x-schema") {
        Some(FieldValue::LongString(v)) => opts.schema = Some(v.clone()),
        _ => {},
    }
    opts.schema_type = text_value(table_get(arguments, "x-schema-type"));
    opts.schema_message = text_value(table_get(arguments, "x-schema-message"));
    assert(opts@ =~= declared_options(durable, exclusive, auto_delete, t));
    opts
}

/// Tests whether `key` is among the arguments, whatever its value.
pub fn has_argument(arguments: &[(String, FieldValue)], key: &str) -> (r: bool)
    ensures
        r == (table_lookup(table_view(arguments@), key.spec_bytes()) is Some),
{
    table_get(arguments, key).is_some()
}

// ─── Checks ───────────────────────────────────────────────────────────

/// What a declaration with a schema must also carry: a `protobuf` schema
/// type (else the type is unsupported, or missing) and a message name
/// (else missing). Without a schema nothing is asked; with one, the
/// message name to compile is the result.
pub open spec fn schema_requirement(o: QueueOptionsView) -> Result<Option<Seq<char>>, ErrorCode> {
    match o.schema {
        None => Ok(None),
        Some(_) => match o.schema_type {
            Some(t) => if t == "protobuf"@ {
                match o.schema_message {
                    Some(m) => Ok(Some(m)),
                    None => Err(ErrorCode::MissingArgument),
                }
            } else {
                Err(ErrorCode::SchemaUnsupportedType)
            },
            None => Err(ErrorCode::MissingArgument),
        },
    }
}

/// Checks the schema arguments of a declaration.
pub fn check_schema_arguments(opts: &QueueOptions) -> (r: Result<Option<String>, ErrorCode>)
    ensures
        match schema_requirement(opts@) {
            Ok(Some(m)) => r matches Ok(Some(s)) && s@ == m,
            Ok(None) => r matches Ok(None),
            Err(e) => r == Err::<Option<String>, ErrorCode>(e),
        },
{
    match &opts.schema {
        None => Ok(None),
        Some(_) => match &opts.schema_type {
            Some(t) => if str_eq(t.as_str(), "protobuf") {
                match &opts.schema_message {
                    Some(m) => Ok(Some(m.clone())),
                    None => Err(ErrorCode::MissingArgument),
                }
            } else {
                Err(ErrorCode::SchemaUnsupportedType)
            },
            None => Err(ErrorCode::MissingArgument),
        },
    }
}

/// Why a queue method is refused.
#[derive(Debug, Clone, Copy, PartialEq, Eq, Structural)]
pub enum QueueRefusal {
    /// A reserved `amq.` name.
    ReservedName,
    /// No queue of that name.
    NotFound,
    /// An exclusive queue of another connection.
    Locked,
    /// Delete with if-unused on a queue that has consumers.
    InUse,
    /// Delete with if-empty on a queue that holds messages.
    NotEmpty,
}

/// The reply code and text of a refusal.
pub open spec fn refusal_reply_spec(r: QueueRefusal) -> (u16, Seq<char>) {
    match r {
        QueueRefusal::ReservedName => (
            ACCESS_REFUSED,
            "ACCESS_REFUSED - queue names starting with 'amq.' are reserved"@,
        ),
        QueueRefusal::NotFound => (NOT_FOUND, "NOT_FOUND - no such queue"@),
        QueueRefusal::Locked => (RESOURCE_LOCKED, "RESOURCE_LOCKED - exclusive queue"@),
        QueueRefusal::InUse => (PRECONDITION_FAILED, "PRECONDITION_FAILED - queue in use"@),
        QueueRefusal::NotEmpty => (PRECONDITION_FAILED, "PRECONDITION_FAILED - queue not empty"@),
    }
}

/// The reply code and text sent on the channel for a refusal.
pub fn refusal_reply(r: QueueRefusal) -> (out: (u16, &'static str))
    ensures
        out.0 == refusal_reply_spec(r).0,
        out.1@ == refusal_reply_spec(r).1,
        out.1.spec_bytes().len() <= 255,
{
    proof {
        reveal_strlit("ACCESS_REFUSED - queue names starting with 'amq.' are reserved");
        reveal_strlit("NOT_FOUND - no such queue");
        reveal_strlit("RESOURCE_LOCKED - exclusive queue");
        reveal_strlit("PRECONDITION_FAILED - queue in use");
        reveal_strlit("PRECONDITION_FAILED - queue not empty");
        crate::amqp::connection::lemma_ascii_len("ACCESS_REFUSED - queue names starting with 'amq.' are reserved");
        crate::amqp::connection::lemma_ascii_len("NOT_FOUND - no such queue");
        crate::amqp::connection::lemma_ascii_len("RESOURCE_LOCKED - exclusive queue");
        crate::amqp::connection::lemma_ascii_len("PRECONDITION_FAILED - queue in use");
        crate::amqp::connection::lemma_ascii_len("PRECONDITION_FAILED - queue not empty");
    }
    match r {
        QueueRefusal::ReservedName => (
            ACCESS_REFUSED,
            "ACCESS_REFUSED - queue names starting with 'amq.' are reserved",
        ),
        QueueRefusal::NotFound => (NOT_FOUND, "NOT_FOUND - no such queue"),
        QueueRefusal::Locked => (RESOURCE_LOCKED, "RESOURCE_LOCKED - exclusive queue"),
        QueueRefusal::InUse => (PRECONDITION_FAILED, "PRECONDITION_FAILED - queue in use"),
        QueueRefusal::NotEmpty => (PRECONDITION_FAILED, "PRECONDITION_FAILED - queue not empty"),
    }
}

/// Whether a non-passive declaration is refused because the queue is
/// exclusive to another connection.
pub open spec fn locked_for(exists: bool, exclusive: bool, owner: Option<u64>, conn_id: u64) -> bool {
    exists && exclusive && owner != Some(conn_id)
}

/// Checks whether a declaration by `conn_id` may touch an existing queue.
pub fn exclusive_lock_check(exists: bool, exclusive: bool, owner: Option<u64>, conn_id: u64) -> (r:
    Result<(), QueueRefusal>)
    ensures
        r is Ok <==> !locked_for(exists, exclusive, owner, conn_id),
        r is Err ==> r == Err::<(), QueueRefusal>(QueueRefusal::Locked),
{
    let owned = match owner {
        Some(o) => o == conn_id,
        None => false,
    };
    if exists && exclusive && !owned {
        Err(QueueRefusal::Locked)
    } else {
        Ok(())
    }
}

/// Why `Queue.Delete` is refused: no such queue; if-unused and consumers
/// remain; if-empty and messages remain (checked in that order).
pub open spec fn delete_refusal(
    exists: bool,
    if_unused: bool,
    consumers: nat,
    if_empty: bool,
    messages: nat,
) -> Option<QueueRefusal> {
    if !exists {
        Some(QueueRefusal::NotFound)
    } else if if_unused && consumers > 0 {
        Some(QueueRefusal::InUse)
    } else if if_empty && messages > 0 {
        Some(QueueRefusal::NotEmpty)
    } else {
        None
    }
}

/// Checks whether `Queue.Delete` may go ahead.
pub fn delete_check(
    exists: bool,
    if_unused: bool,
    consumers: usize,
    if_empty: bool,
    messages: usize,
) -> (r: Result<(), QueueRefusal>)
    ensures
        match delete_refusal(exists, if_unused, consumers as nat, if_empty, messages as nat) {
            Some(e) => r == Err::<(), QueueRefusal>(e),
            None => r is Ok,
        },
{
    if !exists {
        Err(QueueRefusal::NotFound)
    } else if if_unused && consumers > 0 {
        Err(QueueRefusal::InUse)
    } else if if_empty && messages > 0 {
        Err(QueueRefusal::NotEmpty)
    } else {
        Ok(())
    }
}

// ─── Replies ──────────────────────────────────────────────────────────

/// Builds `Queue.Declare-Ok`: queue name, message count, consumer count.
pub fn build_declare_ok(name: &str, message_count: u32, consumer_count: u32) -> (r: Vec<u8>)
    requires
        name.spec_bytes().len() <= 255,
    ensures
        r@ == shortstr_bytes(name.spec_bytes()) + be32(message_count) + be32(consumer_count),
{
    let mut args: Vec<u8> = Vec::new();
    let _ = write_shortstr(&mut args, name);
    write_long(&mut args, message_count);
    write_long(&mut args, consumer_count);
    assert(args@ =~= shortstr_bytes(name.spec_bytes()) + be32(message_count) + be32(
        consumer_count,
    ));
    args
}

/// Builds `Queue.Delete-Ok` or `Queue.Purge-Ok`: the message count.
pub fn build_message_count(message_count: u32) -> (r: Vec<u8>)
    ensures
        r@ == be32(message_count),
{
    let mut args: Vec<u8> = Vec::new();
    write_long(&mut args, message_count);
    assert(args@ =~= be32(message_count));
    args
}

/// Adding an argument to a table changes what is looked up under its key
/// only: the later entry wins.
pub proof fn lemma_lookup_after_push(
    t: Seq<(Seq<u8>, FieldValueView)>,
    kb: Seq<u8>,
    val: FieldValueView,
    key: Seq<u8>,
)
    ensures
        table_lookup(t.push((kb, val)), key) == if kb == key {
            Some(val)
        } else {
            table_lookup(t, key)
        },
{
    assert(t.push((kb, val)).drop_last() =~= t);
}

/// Each schema and dead-letter argument of `Queue.Declare` sets its own
/// option only: appending an argument under another key leaves the option
/// as it was, and appending a long string under its key sets it to that
/// string (read as text, or kept as bytes for the schema source).
pub proof fn lemma_declare_arguments_set_own_option(
    durable: bool,
    exclusive: bool,
    auto_delete: bool,
    t: Seq<(Seq<u8>, FieldValueView)>,
    kb: Seq<u8>,
    val: FieldValueView,
    v: Seq<u8>,
)
    ensures
        kb != encode_utf8("x-schema-message"@) ==> declared_options(durable, exclusive, auto_delete, t.push((kb, val))).schema_message
            == declared_options(durable, exclusive, auto_delete, t).schema_message,
        declared_options(durable, exclusive, auto_delete, t.push((encode_utf8("x-schema-message"@), FieldValueView::LongString(v)))).schema_message
            == Some(utf8_lossy(v)),
        kb != encode_utf8("x-schema-type"@) ==> declared_options(durable, exclusive, auto_delete, t.push((kb, val))).schema_type
            == declared_options(durable, exclusive, auto_delete, t).schema_type,
        declared_options(durable, exclusive, auto_delete, t.push((encode_utf8("x-schema-type"@), FieldValueView::LongString(v)))).schema_type
            == Some(utf8_lossy(v)),
        kb != encode_utf8("x-dead-letter-exchange"@) ==> declared_options(durable, exclusive, auto_delete, t.push((kb, val))).dead_letter_exchange
            == declared_options(durable, exclusive, auto_delete, t).dead_letter_exchange,
        declared_options(durable, exclusive, auto_delete, t.push((encode_utf8("x-dead-letter-exchange"@), FieldValueView::LongString(v)))).dead_letter_exchange
            == Some(utf8_lossy(v)),
        kb != encode_utf8("x-schema"@) ==> declared_options(durable, exclusive, auto_delete, t.push((kb, val))).schema
            == declared_options(durable, exclusive, auto_delete, t).schema,
        declared_options(durable, exclusive, auto_delete, t.push((encode_utf8("x-schema"@), FieldValueView::LongString(v)))).schema
            == Some(v),
{
    lemma_lookup_after_push(t, kb, val, encode_utf8("x-schema-message"@));
    lemma_lookup_after_push(t, encode_utf8("x-schema-message"@), FieldValueView::LongString(v), encode_utf8("x-schema-message"@));
    lemma_lookup_after_push(t, kb, val, encode_utf8("x-schema-type"@));
    lemma_lookup_after_push(t, encode_utf8("x-schema-type"@), FieldValueView::LongString(v), encode_utf8("x-schema-type"@));
    lemma_lookup_after_push(t, kb, val, encode_utf8("x-dead-letter-exchange"@));
    lemma_lookup_after_push(t, encode_utf8("x-dead-letter-exchange"@), FieldValueView::LongString(v), encode_utf8("x-dead-letter-exchange"@));
    lemma_lookup_after_push(t, kb, val, encode_utf8("x-schema"@));
    lemma_lookup_after_push(t, encode_utf8("x-schema"@), FieldValueView::LongString(v), encode_utf8("x-schema"@));
}

} // verus!
