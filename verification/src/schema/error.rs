//! Machine-readable errors sent to clients in the reply text of a
//! `Channel.Close`: an error code, the queue, and per-field details.
//!
//! The reply text is a short string, so it holds at most 255 bytes; when
//! the serialized error would be longer, fields are dropped from the end
//! and the error is marked truncated.

use vstd::prelude::*;
use crate::schema::validate::{FieldTypeMismatch, SchemaValidationError};

verus! {

/// The longest reply text an AMQP short string can carry.
pub const MAX_REPLY_TEXT_LEN: usize = 255;

/// Machine-readable error codes shared with clients.
#[derive(Debug, Clone, Copy, PartialEq, Eq, Structural)]
pub enum ErrorCode {
    /// A field's type differs from the queue's schema.
    SchemaTypeMismatch,
    /// A consumer has fields the queue's schema lacks.
    SchemaExtraFields,
    /// A JSON payload lacks fields of the schema.
    SchemaMissingFields,
    /// A re-declaration's schema differs from the queue's.
    SchemaConflict,
    /// The proto did not compile.
    SchemaCompileFailed,
    /// The schema type is not supported.
    SchemaUnsupportedType,
    /// A published payload does not fit the schema.
    ValidationTypeMismatch,
    /// A published payload is not JSON.
    ValidationInvalidJson,
    /// A required AMQP argument is missing.
    MissingArgument,
}

/// One field's detail: its name, the type the schema expects and what
/// was received (raw proto kind names).
#[derive(Debug, Clone, PartialEq, Eq)]
pub struct FieldError {
    pub name: String,
    pub expected: String,
    pub got: String,
}

/// The error sent to a client.
#[derive(Debug, Clone)]
pub struct BrokerError {
    pub code: ErrorCode,
    pub queue: String,
    pub fields: Vec<FieldError>,
    pub truncated: bool,
}

/// The error code a validation error is reported with.
pub open spec fn code_of(err: SchemaValidationError) -> ErrorCode {
    match err {
        SchemaValidationError::TypeMismatch { .. } => ErrorCode::SchemaTypeMismatch,
        SchemaValidationError::ConsumerExtraFields { .. } => ErrorCode::SchemaExtraFields,
        SchemaValidationError::MissingFields { .. } => ErrorCode::SchemaMissingFields,
        SchemaValidationError::SchemaConflict { .. } => ErrorCode::SchemaConflict,
        SchemaValidationError::InvalidJson(_) => ErrorCode::ValidationInvalidJson,
        SchemaValidationError::DecodeFailed(_) => ErrorCode::ValidationTypeMismatch,
        SchemaValidationError::TrailingBytes { .. } => ErrorCode::ValidationTypeMismatch,
        SchemaValidationError::WrongContentType { .. } => ErrorCode::ValidationTypeMismatch,
    }
}

/// The field details a validation error is reported with, as
/// `(name, expected, got)`.
pub open spec fn details_of(err: SchemaValidationError) -> Seq<(Seq<char>, Seq<char>, Seq<char>)> {
    match err {
        SchemaValidationError::TypeMismatch { errors } => errors@.map_values(
            |m: FieldTypeMismatch| (m.field_name@, m.queue_kind@, m.got_kind@),
        ),
        SchemaValidationError::ConsumerExtraFields { fields } => fields@.map_values(
            |f: String| (f@, "undefined"@, "declared"@),
        ),
        SchemaValidationError::MissingFields { fields } => fields@.map_values(
            |f: String| (f@, "required"@, "missing"@),
        ),
        _ => Seq::empty(),
    }
}

/// A field error with the given parts.
fn field_error(name: &String, expected: &str, got: &str) -> (r: FieldError)
    ensures
        r.name@ == name@,
        r.expected@ == expected@,
        r.got@ == got@,
{
    FieldError { name: name.clone(), expected: expected.to_owned(), got: got.to_owned() }
}

/// Field errors for a list of names, all with the same expected and got.
fn name_errors(names: &Vec<String>, expected: &str, got: &str) -> (r: Vec<FieldError>)
    ensures
        r@.len() == names@.len(),
        forall|i: int| 0 <= i < r@.len() ==> (#[trigger] r@[i]).name@ == names@[i]@ && r@[i].expected@ == expected@ && r@[i].got@ == got@,
{
    let mut out: Vec<FieldError> = Vec::new();
    let mut i: usize = 0;
    while i < names.len()
        invariant
            i <= names@.len(),
            out@.len() == i,
            forall|j: int| 0 <= j < i ==> (#[trigger] out@[j]).name@ == names@[j]@ && out@[j].expected@ == expected@ && out@[j].got@ == got@,
        decreases names@.len() - i,
    {
        out.push(field_error(&names[i], expected, got));
        i = i + 1;
    }
    out
}

/// Reports a validation error on `queue` to a client: its code, the queue
/// and the field details, not truncated.
pub fn to_broker_error(queue: &str, err: &SchemaValidationError) -> (r: BrokerError)
    ensures
        r.code == code_of(*err),
        r.queue@ == queue@,
        !r.truncated,
        r.fields@.len() == details_of(*err).len(),
        forall|i: int| 0 <= i < r.fields@.len() ==> ((#[trigger] r.fields@[i]).name@, r.fields@[i].expected@, r.fields@[i].got@) == details_of(*err)[i],
{
    let code = match err {
        SchemaValidationError::TypeMismatch { .. } => ErrorCode::SchemaTypeMismatch,
        SchemaValidationError::ConsumerExtraFields { .. } => ErrorCode::SchemaExtraFields,
        SchemaValidationError::MissingFields { .. } => ErrorCode::SchemaMissingFields,
        SchemaValidationError::SchemaConflict { .. } => ErrorCode::SchemaConflict,
        SchemaValidationError::InvalidJson(_) => ErrorCode::ValidationInvalidJson,
        SchemaValidationError::DecodeFailed(_) => ErrorCode::ValidationTypeMismatch,
        SchemaValidationError::TrailingBytes { .. } => ErrorCode::ValidationTypeMismatch,
        SchemaValidationError::WrongContentType { .. } => ErrorCode::ValidationTypeMismatch,
    };
    let fields = match err {
        SchemaValidationError::TypeMismatch { errors } => {
            let mut out: Vec<FieldError> = Vec::new();
            let mut i: usize = 0;
            while i < errors.len()
                invariant
                    i <= errors@.len(),
                    out@.len() == i,
                    forall|j: int| 0 <= j < i ==> (#[trigger] out@[j]).name@ == errors@[j].field_name@
                        && out@[j].expected@ == errors@[j].queue_kind@ && out@[j].got@
                        == errors@[j].got_kind@,
                decreases errors@.len() - i,
            {
                let e = &errors[i];
                out.push(field_error(&e.field_name, e.queue_kind.as_str(), e.got_kind.as_str()));
                i = i + 1;
            }
            out
        },
        SchemaValidationError::ConsumerExtraFields { fields } => name_errors(fields, "undefined", "declared"),
        SchemaValidationError::MissingFields { fields } => name_errors(fields, "required", "missing"),
        _ => Vec::new(),
    };
    BrokerError { code, queue: queue.to_owned(), fields, truncated: false }
}

/// How many fields to keep so that the reply text fits: `lens[k]` is the
/// length of the serialized error when the first `k` fields are kept (with
/// `truncated` set for every `k` below the full count). All fields if that
/// fits, else the most fields, at least one, that fit, else none.
pub open spec fn kept_fields(lens: Seq<usize>, k: int) -> int
    decreases k,
{
    if k < 1 {
        0
    } else if lens[k] <= MAX_REPLY_TEXT_LEN {
        k
    } else {
        kept_fields(lens, k - 1)
    }
}

/// Decides how many fields a reply text keeps (see [`kept_fields`]).
pub fn reply_fields_kept(lens: &[usize]) -> (r: usize)
    requires
        lens@.len() >= 1,
    ensures
        r == kept_fields(lens@, lens@.len() - 1),
        r < lens@.len(),
        r >= 1 ==> lens@[r as int] <= MAX_REPLY_TEXT_LEN,
{
    let mut k: usize = lens.len() - 1;
    while k >= 1
        invariant
            k < lens@.len(),
            kept_fields(lens@, lens@.len() - 1) == kept_fields(lens@, k as int),
        decreases k,
    {
        if lens[k] <= MAX_REPLY_TEXT_LEN {
            return k;
        }
        k = k - 1;
    }
    0
}

} // verus!
