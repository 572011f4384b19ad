//! The ways a payload can fail its queue's schema, and the content-type
//! test for protobuf payloads.

use vstd::prelude::*;
use vstd::string::*;
use crate::text::decimal::{append_decimal, decimal_chars, contains_bytes, str_contains};

verus! {

/// A field whose value has another type than the queue's schema gives it;
/// the types are proto kind names such as `double` or `string`.
#[derive(Debug, Clone)]
pub struct FieldTypeMismatch {
    pub field_name: String,
    pub queue_kind: String,
    pub got_kind: String,
}

/// Why a message does not pass its queue's schema.
#[derive(Debug, Clone)]
pub enum SchemaValidationError {
    /// Decoding the binary payload against the message type failed.
    DecodeFailed(String),
    /// The payload has bytes left over after the message.
    TrailingBytes { unconsumed_len: usize },
    /// The content type does not name protobuf.
    WrongContentType { got: Option<String> },
    /// A JSON payload lacks fields of the schema.
    MissingFields { fields: Vec<String> },
    /// The payload is not JSON.
    InvalidJson(String),
    /// A consumer's schema has fields the queue's schema lacks.
    ConsumerExtraFields { fields: Vec<String> },
    /// JSON values whose types do not fit the schema.
    TypeMismatch { errors: Vec<FieldTypeMismatch> },
    /// A re-declaration's schema differs from the queue's.
    SchemaConflict { differences: Vec<String> },
}

/// Whether a content type names protobuf encoding: it contains `protobuf`,
/// as in `application/x-protobuf` or `application/vnd.acme+protobuf`.
pub fn is_protobuf_content(content_type: &Option<String>) -> (r: bool)
    ensures
        r == match content_type {
            Some(ct) => contains_bytes(vstd::utf8::encode_utf8(ct@), "protobuf".spec_bytes()),
            None => false,
        },
{
    match content_type {
        Some(ct) => str_contains(ct.as_str(), "protobuf"),
        None => false,
    }
}

/// The strings of `items` joined with `sep` between them.
pub open spec fn joined(items: Seq<Seq<char>>, sep: Seq<char>) -> Seq<char>
    decreases items.len(),
{
    if items.len() == 0 {
        Seq::empty()
    } else if items.len() == 1 {
        items[0]
    } else {
        joined(items.drop_last(), sep) + sep + items.last()
    }
}

/// Appends the strings of `items` joined with `sep`.
fn append_joined(s: &mut String, items: &[String], sep: &str)
    ensures
        final(s)@ == old(s)@ + joined(items@.map_values(|x: String| x@), sep@),
{
    let ghost v = items@.map_values(|x: String| x@);
    let mut i: usize = 0;
    while i < items.len()
        invariant
            i <= items@.len(),
            v == items@.map_values(|x: String| x@),
            s@ == old(s)@ + joined(v.subrange(0, i as int), sep@),
        decreases items@.len() - i,
    {
        let ghost before = s@;
        if i > 0 {
            s.append(sep);
        }
        s.append(items[i].as_str());
        proof {
            let pre = v.subrange(0, i + 1);
            assert(pre.drop_last() =~= v.subrange(0, i as int));
            assert(pre.last() == items@[i as int]@);
            if i == 0 {
                assert(v.subrange(0, 0) =~= Seq::<Seq<char>>::empty());
                assert(s@ =~= old(s)@ + joined(pre, sep@));
            } else {
                assert(s@ =~= old(s)@ + joined(pre, sep@));
            }
        }
        i = i + 1;
    }
    assert(v.subrange(0, i as int) =~= v);
}

/// How a mismatched field is described.
pub open spec fn mismatch_text(m: FieldTypeMismatch) -> Seq<char> {
    m.field_name@ + ": expected "@ + m.queue_kind@ + ", got "@ + m.got_kind@
}

fn mismatch_string(m: &FieldTypeMismatch) -> (r: String)
    ensures
        r@ == mismatch_text(*m),
{
    let mut s = String::new();
    s.append(m.field_name.as_str());
    s.append(": expected ");
    s.append(m.queue_kind.as_str());
    s.append(", got ");
    s.append(m.got_kind.as_str());
    assert(s@ =~= mismatch_text(*m));
    s
}

/// What `format!("{:?}", ..)` gives for an optional string: `None`, or
/// `Some(` with the string quoted and escaped, then `)`.
pub uninterp spec fn option_debug_text(o: Option<Seq<char>>) -> Seq<char>;

/// An optional string seen as its characters.
pub open spec fn opt_chars_of(o: Option<String>) -> Option<Seq<char>> {
    match o {
        Some(s) => Some(s@),
        None => None,
    }
}

/// Formats an optional string as Rust's `Debug` does.
///
/// Calls `format!("{:?}", ..)`, whose text depends on the value alone:
/// the contract names it, and states the `None` case outright.
#[verifier::external_body]
fn debug_option(o: &Option<String>) -> (r: String)
    ensures
        r@ == option_debug_text(opt_chars_of(*o)),
        o is None ==> r@ == "None"@,
{
    format!("{:?}", o)
}

impl SchemaValidationError {
    /// The human-readable description of the error.
    pub fn message(&self) -> (r: String)
        ensures
            match self {
                SchemaValidationError::DecodeFailed(e) => r@ == "Protobuf decode failed: "@ + e@,
                SchemaValidationError::TrailingBytes { unconsumed_len } => r@
                    == "Protobuf payload contains "@ + decimal_chars(*unconsumed_len as nat)
                    + " trailing, unconsumed bytes"@,
                SchemaValidationError::WrongContentType { got } => r@
                    == "Message properties have invalid content_type: '"@ + option_debug_text(
                    opt_chars_of(*got),
                ) + "'. Must contain 'protobuf'."@,
                SchemaValidationError::MissingFields { fields } => r@
                    == "JSON payload missing required schema fields: ["@ + joined(
                    fields@.map_values(|x: String| x@),
                    ", "@,
                ) + "]"@,
                SchemaValidationError::InvalidJson(e) => r@ == "Payload is not valid JSON: "@ + e@,
                SchemaValidationError::ConsumerExtraFields { fields } => r@
                    == "Consumer schema has fields not in queue schema: ["@ + joined(
                    fields@.map_values(|x: String| x@),
                    ", "@,
                ) + "]"@,
                SchemaValidationError::TypeMismatch { errors } => r@
                    == "JSON field type mismatches: ["@ + joined(
                    errors@.map_values(|m: FieldTypeMismatch| mismatch_text(m)),
                    "; "@,
                ) + "]"@,
                SchemaValidationError::SchemaConflict { differences } => r@
                    == "Schema conflicts with the queue's schema: ["@ + joined(
                    differences@.map_values(|x: String| x@),
                    "; "@,
                ) + "]"@,
            },
    {
        let mut s = String::new();
        match self {
            SchemaValidationError::DecodeFailed(e) => {
                s.append("Protobuf decode failed: ");
                s.append(e.as_str());
            },
            SchemaValidationError::TrailingBytes { unconsumed_len } => {
                s.append("Protobuf payload contains ");
                append_decimal(&mut s, *unconsumed_len as u64);
                s.append(" trailing, unconsumed bytes");
            },
            SchemaValidationError::WrongContentType { got } => {
                s.append("Message properties have invalid content_type: '");
                let d = debug_option(got);
                s.append(d.as_str());
                s.append("'. Must contain 'protobuf'.");
            },
            SchemaValidationError::MissingFields { fields } => {
                s.append("JSON payload missing required schema fields: [");
                append_joined(&mut s, fields.as_slice(), ", ");
                s.append("]");
            },
            SchemaValidationError::InvalidJson(e) => {
                s.append("Payload is not valid JSON: ");
                s.append(e.as_str());
            },
            SchemaValidationError::ConsumerExtraFields { fields } => {
                s.append("Consumer schema has fields not in queue schema: [");
                append_joined(&mut s, fields.as_slice(), ", ");
                s.append("]");
            },
            SchemaValidationError::TypeMismatch { errors } => {
                s.append("JSON field type mismatches: [");
                let mut texts: Vec<String> = Vec::new();
                let mut i: usize = 0;
                while i < errors.len()
                    invariant
                        i <= errors@.len(),
                        texts@.len() == i,
                        forall|j: int| 0 <= j < i ==> #[trigger] texts@[j]@ == mismatch_text(errors@[j]),
                    decreases errors@.len() - i,
                {
                    texts.push(mismatch_string(&errors[i]));
                    i = i + 1;
                }
                append_joined(&mut s, texts.as_slice(), "; ");
                assert(texts@.map_values(|x: String| x@) =~= errors@.map_values(
                    |m: FieldTypeMismatch| mismatch_text(m),
                ));
                s.append("]");
            },
            SchemaValidationError::SchemaConflict { differences } => {
                s.append("Schema conflicts with the queue's schema: [");
                append_joined(&mut s, differences.as_slice(), "; ");
                s.append("]");
            },
        }
        s
    }
}

} // verus!
