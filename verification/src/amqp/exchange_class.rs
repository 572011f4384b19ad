//! The Exchange class: reading Declare, Delete, Bind and Unbind, and the
//! checks made before acting.

use vstd::prelude::*;
use vstd::utf8::*;
use vstd::string::*;
use crate::amqp::types::WireReader;
use crate::amqp::queue_class::{
    after_ticket, octet_field, octet_or_zero, skip_ticket, str_field, str_or_empty, table_field,
    table_or_empty,
};
use crate::amqp::method::{ACCESS_REFUSED, COMMAND_INVALID, NOT_FOUND};
use crate::amqp::table::{table_view, FieldTable};
use crate::routing::exchange::{exchange_type_of, ExchangeType};
use crate::text::slices::{starts_with_chars, str_starts_with};

verus! {

/// The fields of `Exchange.Declare`.
pub struct ExchangeDeclare {
    pub name: String,
    /// The exchange type as sent.
    pub kind: String,
    pub passive: bool,
    pub durable: bool,
    pub auto_delete: bool,
    pub internal: bool,
    pub no_wait: bool,
    pub arguments: FieldTable,
}

/// The name, type, flag octet and table position of `Exchange.Declare`.
pub open spec fn exchange_declare_layout(s: Seq<u8>) -> (Seq<u8>, Seq<u8>, u8, int) {
    let (name, p1) = str_field(s, after_ticket(s));
    let (kind, p2) = str_field(s, p1);
    let (flags, p3) = octet_field(s, p2);
    (name, kind, flags, p3)
}

/// Reads `Exchange.Declare`: ticket, name, type, the passive, durable,
/// auto-delete, internal and no-wait bits (0 to 4), and the arguments.
pub fn parse_exchange_declare(args: &[u8]) -> (r: ExchangeDeclare)
    ensures
        ({
            let (name, kind, flags, p) = exchange_declare_layout(args@);
            &&& encode_utf8(r.name@) == name
            &&& encode_utf8(r.kind@) == kind
            &&& r.passive == (flags % 2 == 1)
            &&& r.durable == ((flags / 2) % 2 == 1)
            &&& r.auto_delete == ((flags / 4) % 2 == 1)
            &&& r.internal == ((flags / 8) % 2 == 1)
            &&& r.no_wait == ((flags / 16) % 2 == 1)
            &&& table_view(r.arguments@) == table_field(args@, p)
        }),
{
    let mut rd = WireReader::new(args);
    skip_ticket(&mut rd);
    let name = str_or_empty(&mut rd);
    let kind = str_or_empty(&mut rd);
    let flags = octet_or_zero(&mut rd);
    let arguments = table_or_empty(&mut rd);
    ExchangeDeclare {
        name,
        kind,
        passive: flags % 2 == 1,
        durable: (flags / 2) % 2 == 1,
        auto_delete: (flags / 4) % 2 == 1,
        internal: (flags / 8) % 2 == 1,
        no_wait: (flags / 16) % 2 == 1,
        arguments,
    }
}

/// Reads `Exchange.Delete`: ticket, name, and the if-unused and no-wait
/// bits (0 and 1).
pub fn parse_exchange_delete(args: &[u8]) -> (r: (String, bool, bool))
    ensures
        ({
            let (name, p1) = str_field(args@, after_ticket(args@));
            let flags = octet_field(args@, p1).0;
            &&& encode_utf8(r.0@) == name
            &&& r.1 == (flags % 2 == 1)
            &&& r.2 == ((flags / 2) % 2 == 1)
        }),
{
    let mut rd = WireReader::new(args);
    skip_ticket(&mut rd);
    let name = str_or_empty(&mut rd);
    let flags = octet_or_zero(&mut rd);
    (name, flags % 2 == 1, (flags / 2) % 2 == 1)
}

/// The destination, source, routing key and following position of
/// `Exchange.Bind` and `Exchange.Unbind`.
pub open spec fn exchange_bind_layout(s: Seq<u8>) -> (Seq<u8>, Seq<u8>, Seq<u8>, int) {
    let (dest, p1) = str_field(s, after_ticket(s));
    let (src, p2) = str_field(s, p1);
    let (rk, p3) = str_field(s, p2);
    (dest, src, rk, p3)
}

/// Reads `Exchange.Bind`: ticket, destination, source, routing key and
/// the no-wait bit (0).
pub fn parse_exchange_bind(args: &[u8]) -> (r: (String, String, String, bool))
    ensures
        ({
            let (dest, src, rk, p) = exchange_bind_layout(args@);
            &&& encode_utf8(r.0@) == dest
            &&& encode_utf8(r.1@) == src
            &&& encode_utf8(r.2@) == rk
            &&& r.3 == (octet_field(args@, p).0 % 2 == 1)
        }),
{
    let mut rd = WireReader::new(args);
    skip_ticket(&mut rd);
    let destination = str_or_empty(&mut rd);
    let source = str_or_empty(&mut rd);
    let routing_key = str_or_empty(&mut rd);
    let flags = octet_or_zero(&mut rd);
    (destination, source, routing_key, flags % 2 == 1)
}

/// Reads `Exchange.Unbind`: ticket, destination, source and routing key.
pub fn parse_exchange_unbind(args: &[u8]) -> (r: (String, String, String))
    ensures
        ({
            let (dest, src, rk, _) = exchange_bind_layout(args@);
            &&& encode_utf8(r.0@) == dest
            &&& encode_utf8(r.1@) == src
            &&& encode_utf8(r.2@) == rk
        }),
{
    let mut rd = WireReader::new(args);
    skip_ticket(&mut rd);
    let destination = str_or_empty(&mut rd);
    let source = str_or_empty(&mut rd);
    let routing_key = str_or_empty(&mut rd);
    (destination, source, routing_key)
}

/// Why an exchange method is refused.
#[derive(Debug, Clone, Copy, PartialEq, Eq, Structural)]
pub enum ExchangeRefusal {
    /// A passive declaration of an exchange that does not exist.
    NotFound,
    /// Declaring a name in the reserved `amq.` namespace.
    ReservedName,
    /// A type other than direct, fanout, topic or headers.
    UnsupportedType,
    /// Deleting one of the built-in `amq.` exchanges.
    BuiltIn,
}

/// The outcome of checking a declaration (before permissions are
/// checked): a passive one asserts the exchange exists; an active one may
/// not use the `amq.` namespace. The type is checked after permissions.
pub open spec fn exchange_declare_refusal(name: Seq<char>, passive: bool, exists: bool) -> Option<
    ExchangeRefusal,
> {
    if passive {
        if exists {
            None
        } else {
            Some(ExchangeRefusal::NotFound)
        }
    } else if starts_with_chars(name, "amq."@) {
        Some(ExchangeRefusal::ReservedName)
    } else {
        None
    }
}

/// Checks a declaration before permissions.
pub fn check_exchange_declare(name: &str, passive: bool, exists: bool) -> (r: Option<ExchangeRefusal>)
    ensures
        r == exchange_declare_refusal(name@, passive, exists),
{
    if passive {
        if exists {
            None
        } else {
            Some(ExchangeRefusal::NotFound)
        }
    } else if str_starts_with(name, "amq.") {
        Some(ExchangeRefusal::ReservedName)
    } else {
        None
    }
}

/// Reads the type of an active declaration.
pub fn declared_exchange_type(kind: &str) -> (r: Result<ExchangeType, ExchangeRefusal>)
    ensures
        match exchange_type_of(kind@) {
            Some(t) => r == Ok::<ExchangeType, ExchangeRefusal>(t),
            None => r == Err::<ExchangeType, ExchangeRefusal>(ExchangeRefusal::UnsupportedType),
        },
{
    match ExchangeType::from_str(kind) {
        Some(t) => Ok(t),
        None => Err(ExchangeRefusal::UnsupportedType),
    }
}

/// Whether deleting `name` is refused: the `amq.` exchanges stay.
pub fn check_exchange_delete(name: &str) -> (r: Option<ExchangeRefusal>)
    ensures
        r == if starts_with_chars(name@, "amq."@) {
            Some(ExchangeRefusal::BuiltIn)
        } else {
            None
        },
{
    if str_starts_with(name, "amq.") {
        Some(ExchangeRefusal::BuiltIn)
    } else {
        None
    }
}

/// The reply code and text of a refusal.
pub open spec fn exchange_refusal_reply_spec(r: ExchangeRefusal) -> (u16, Seq<char>) {
    match r {
        ExchangeRefusal::NotFound => (NOT_FOUND, "NOT_FOUND - no such exchange"@),
        ExchangeRefusal::ReservedName => (
            ACCESS_REFUSED,
            "ACCESS_REFUSED - exchange names starting with 'amq.' are reserved"@,
        ),
        ExchangeRefusal::UnsupportedType => (
            COMMAND_INVALID,
            "COMMAND_INVALID - unsupported exchange type"@,
        ),
        ExchangeRefusal::BuiltIn => (ACCESS_REFUSED, "ACCESS_REFUSED - cannot delete default exchange"@),
    }
}

/// The reply code and text sent on the channel for a refusal.
pub fn exchange_refusal_reply(r: ExchangeRefusal) -> (out: (u16, &'static str))
    ensures
        out.0 == exchange_refusal_reply_spec(r).0,
        out.1@ == exchange_refusal_reply_spec(r).1,
{
    match r {
        ExchangeRefusal::NotFound => (NOT_FOUND, "NOT_FOUND - no such exchange"),
        ExchangeRefusal::ReservedName => (
            ACCESS_REFUSED,
            "ACCESS_REFUSED - exchange names starting with 'amq.' are reserved",
        ),
        ExchangeRefusal::UnsupportedType => (
            COMMAND_INVALID,
            "COMMAND_INVALID - unsupported exchange type",
        ),
        ExchangeRefusal::BuiltIn => (ACCESS_REFUSED, "ACCESS_REFUSED - cannot delete default exchange"),
    }
}

} // verus!
