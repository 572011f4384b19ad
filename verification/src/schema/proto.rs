//! Protobuf schemas: reading a queue's schema back from its compiled
//! descriptor set, and checking a payload against it — JSON payloads
//! (those starting with `{`) against the schema's fields, binary ones by
//! decoding them with prost-reflect, refusing undecodable payloads and
//! those carrying bytes the message type does not describe.

use vstd::prelude::*;
use prost_reflect::{DescriptorPool, DynamicMessage};
use crate::routing::topic::str_eq;
use crate::schema::catalog::{SchemaCompileError, SchemaFormat};
use crate::schema::fields::{
    fields_view, json_verdict, mismatches_view, texts_view, validate_json_fields, JsonVerdict, ProtoKind,
    SchemaField,
};
use crate::schema::validate::SchemaValidationError;

verus! {

/// A queue's compiled schema: the fields of its message type, the encoded
/// descriptor set it was compiled to, and the message type's full name.
pub struct QueueSchema {
    pub fields: Vec<SchemaField>,
    pub descriptors: Vec<u8>,
    pub message: String,
}

/// A compiled schema as the registry and the log keep it: its id, format,
/// proto source, and the queue schema read from its descriptor set.
pub struct CompiledSchema {
    pub id: u64,
    pub format: SchemaFormat,
    pub raw: Vec<u8>,
    pub schema: QueueSchema,
}

// ─── Names for what prost-reflect computes ────────────────────────────

/// What `DescriptorPool::decode` reports on `bytes`: `None` when they
/// decode to a valid descriptor set, else the text of its error.
pub uninterp spec fn descriptor_set_error(bytes: Seq<u8>) -> Option<Seq<char>>;

/// The fields of message type `message` in the descriptor set
/// `descriptors`, in declaration order, each as its name, the `Debug`
/// text of its kind, and whether the kind is a message or an enum;
/// `None` when the set has no such message type.
pub uninterp spec fn message_fields(descriptors: Seq<u8>, message: Seq<char>) -> Option<
    Seq<(Seq<char>, Seq<char>, bool, bool)>,
>;

/// The full names of all message types in the descriptor set, in the
/// pool's order.
pub uninterp spec fn message_names(descriptors: Seq<u8>) -> Seq<Seq<char>>;

/// How decoding `body` as message type `message` of the descriptor set
/// `descriptors` goes: the error text, or whether fields the type does not
/// describe were found, how many bytes were left over, and the length the
/// message encodes to once those fields are dropped.
pub uninterp spec fn protobuf_decode(descriptors: Seq<u8>, message: Seq<char>, body: Seq<u8>) -> Result<
    (bool, nat, nat),
    Seq<char>,
>;

/// Whether `t` is the `Debug` text prost-reflect gives a scalar kind.
pub open spec fn scalar_kind_text(t: Seq<char>) -> bool {
    ||| t == "double"@
    ||| t == "float"@
    ||| t == "int32"@
    ||| t == "int64"@
    ||| t == "uint32"@
    ||| t == "uint64"@
    ||| t == "sint32"@
    ||| t == "sint64"@
    ||| t == "fixed32"@
    ||| t == "fixed64"@
    ||| t == "sfixed32"@
    ||| t == "sfixed64"@
    ||| t == "bool"@
    ||| t == "string"@
    ||| t == "bytes"@
}

/// Field parts seen as texts.
pub open spec fn parts_view(v: Seq<(String, String, bool, bool)>) -> Seq<(Seq<char>, Seq<char>, bool, bool)> {
    v.map_values(|p: (String, String, bool, bool)| (p.0@, p.1@, p.2, p.3))
}

/// Checks that `bytes` decode to a descriptor set.
///
/// Calls prost-reflect's `DescriptorPool::decode`, whose outcome depends on
/// the bytes alone; claims that it fails exactly as
/// [`descriptor_set_error`] says, with that text.
#[verifier::external_body]
fn check_descriptors(bytes: &[u8]) -> (r: Result<(), String>)
    ensures
        match r {
            Ok(_) => descriptor_set_error(bytes@) is None,
            Err(e) => descriptor_set_error(bytes@) == Some(e@),
        },
{
    DescriptorPool::decode(bytes).map(|_| ()).map_err(|e| e.to_string())
}

/// The fields of message type `message` of a valid descriptor set.
///
/// Decodes the set with `DescriptorPool::decode`, then calls
/// `get_message_by_name` and `MessageDescriptor::fields`, taking each
/// field's name, the `Debug` text of its `kind()`, and whether the kind is
/// a message or an enum. Claims the result is [`message_fields`] and, as
/// `Kind`'s `Debug` impl shows, that a kind that is neither a message nor
/// an enum is written as one of the scalar names.
#[verifier::external_body]
fn fields_in(descriptors: &[u8], message: &str) -> (r: Option<Vec<(String, String, bool, bool)>>)
    requires
        descriptor_set_error(descriptors@) is None,
    ensures
        match r {
            None => message_fields(descriptors@, message@) is None,
            Some(v) => message_fields(descriptors@, message@) == Some(parts_view(v@)),
        },
        r matches Some(v) ==> forall|i: int|
            0 <= i < v@.len() ==> !(#[trigger] v@[i]).2 && !v@[i].3 ==> scalar_kind_text(v@[i].1@),
        r matches Some(v) ==> forall|i: int| 0 <= i < v@.len() ==> !((#[trigger] v@[i]).2 && v@[i].3),
{
    let pool = DescriptorPool::decode(descriptors).ok()?;
    let desc = pool.get_message_by_name(message)?;
    Some(desc.fields().map(|f| {
        let k = f.kind();
        (f.name().to_string(), format!("{:?}", k), k.as_message().is_some(), k.as_enum().is_some())
    }).collect())
}

/// The full names of the message types of a valid descriptor set.
///
/// Decodes the set with `DescriptorPool::decode` and calls `all_messages`,
/// taking each type's `full_name`; claims the result is [`message_names`].
#[verifier::external_body]
fn message_names_in(descriptors: &[u8]) -> (r: Vec<String>)
    requires
        descriptor_set_error(descriptors@) is None,
    ensures
        texts_view(r@) == message_names(descriptors@),
{
    match DescriptorPool::decode(descriptors) {
        Ok(pool) => pool.all_messages().map(|m| m.full_name().to_string()).collect(),
        Err(_) => Vec::new(),
    }
}

/// Decodes `body` as message type `message` of the descriptor set
/// `descriptors`.
///
/// Decodes the set with `DescriptorPool::decode` and looks the type up with
/// `get_message_by_name`, then calls `DynamicMessage::decode` on the body,
/// `unknown_fields`, `take_unknown_fields` and prost's `encoded_len`.
/// Claims the result is [`protobuf_decode`] and that what is left over is
/// part of the body.
#[verifier::external_body]
fn decode_outcome(descriptors: &[u8], message: &str, body: &[u8]) -> (r: Result<(bool, usize, usize), String>)
    ensures
        protobuf_decode(descriptors@, message@, body@) == decode_view(r),
        r matches Ok((_, rest, _)) ==> rest <= body@.len(),
{
    let pool = DescriptorPool::decode(descriptors).map_err(|e| e.to_string())?;
    let desc = pool.get_message_by_name(message).ok_or_else(|| format!("message type not found: {}", message))?;
    let mut buf = body;
    let mut msg = DynamicMessage::decode(desc, &mut buf).map_err(|e| e.to_string())?;
    let unknown = msg.unknown_fields().next().is_some();
    let _ = msg.take_unknown_fields().count();
    Ok((unknown, buf.len(), prost::Message::encoded_len(&msg)))
}

// ─── Reading a schema back from its descriptor set ────────────────────

/// The kind a field part stands for: a message or an enum by its flags,
/// else the scalar its text names.
pub open spec fn kind_of_parts(t: Seq<char>, is_message: bool, is_enum: bool) -> ProtoKind {
    if is_message {
        ProtoKind::Message
    } else if is_enum {
        ProtoKind::Enum
    } else if t == "double"@ {
        ProtoKind::Double
    } else if t == "float"@ {
        ProtoKind::Float
    } else if t == "int32"@ {
        ProtoKind::Int32
    } else if t == "int64"@ {
        ProtoKind::Int64
    } else if t == "uint32"@ {
        ProtoKind::Uint32
    } else if t == "uint64"@ {
        ProtoKind::Uint64
    } else if t == "sint32"@ {
        ProtoKind::Sint32
    } else if t == "sint64"@ {
        ProtoKind::Sint64
    } else if t == "fixed32"@ {
        ProtoKind::Fixed32
    } else if t == "fixed64"@ {
        ProtoKind::Fixed64
    } else if t == "sfixed32"@ {
        ProtoKind::Sfixed32
    } else if t == "sfixed64"@ {
        ProtoKind::Sfixed64
    } else if t == "bool"@ {
        ProtoKind::Bool
    } else if t == "string"@ {
        ProtoKind::String
    } else {
        ProtoKind::Bytes
    }
}

/// Schema fields from field parts.
pub open spec fn fields_from_parts(ps: Seq<(Seq<char>, Seq<char>, bool, bool)>) -> Seq<(Seq<char>, ProtoKind)> {
    ps.map_values(|p: (Seq<char>, Seq<char>, bool, bool)| (p.0, kind_of_parts(p.1, p.2, p.3)))
}

/// The kind one field part stands for (see [`kind_of_parts`]).
pub fn kind_from_parts(t: &str, is_message: bool, is_enum: bool) -> (r: ProtoKind)
    ensures
        r == kind_of_parts(t@, is_message, is_enum),
{
    if is_message {
        ProtoKind::Message
    } else if is_enum {
        ProtoKind::Enum
    } else if str_eq(t, "double") {
        ProtoKind::Double
    } else if str_eq(t, "float") {
        ProtoKind::Float
    } else if str_eq(t, "int32") {
        ProtoKind::Int32
    } else if str_eq(t, "int64") {
        ProtoKind::Int64
    } else if str_eq(t, "uint32") {
        ProtoKind::Uint32
    } else if str_eq(t, "uint64") {
        ProtoKind::Uint64
    } else if str_eq(t, "sint32") {
        ProtoKind::Sint32
    } else if str_eq(t, "sint64") {
        ProtoKind::Sint64
    } else if str_eq(t, "fixed32") {
        ProtoKind::Fixed32
    } else if str_eq(t, "fixed64") {
        ProtoKind::Fixed64
    } else if str_eq(t, "sfixed32") {
        ProtoKind::Sfixed32
    } else if str_eq(t, "sfixed64") {
        ProtoKind::Sfixed64
    } else if str_eq(t, "bool") {
        ProtoKind::Bool
    } else if str_eq(t, "string") {
        ProtoKind::String
    } else {
        ProtoKind::Bytes
    }
}

/// Reads a queue schema back from the encoded descriptor set
/// `descriptors`: refused as an invalid proto when the set does not
/// decode, as a missing message (with the names of those there are) when
/// it lacks type `message_name`; otherwise that type's fields.
pub fn schema_from_descriptors(descriptors: Vec<u8>, message_name: &str) -> (r: Result<QueueSchema, SchemaCompileError>)
    ensures
        descriptor_set_error(descriptors@) matches Some(e) ==> r matches Err(SchemaCompileError::InvalidProto(s))
            && s@ == e,
        descriptor_set_error(descriptors@) is None ==> match message_fields(descriptors@, message_name@) {
            None => r matches Err(SchemaCompileError::MessageNotFound { requested, available })
                && requested@ == message_name@ && texts_view(available@) == message_names(descriptors@),
            Some(ps) => r matches Ok(q) && q.descriptors@ == descriptors@ && q.message@ == message_name@
                && fields_view(q.fields@) == fields_from_parts(ps),
        },
{
    match check_descriptors(descriptors.as_slice()) {
        Err(e) => {
            return Err(SchemaCompileError::InvalidProto(e));
        },
        Ok(()) => {},
    }
    let parts = match fields_in(descriptors.as_slice(), message_name) {
        None => {
            let available = message_names_in(descriptors.as_slice());
            return Err(SchemaCompileError::MessageNotFound { requested: message_name.to_string(), available });
        },
        Some(p) => p,
    };
    let ghost pv = parts_view(parts@);
    let mut fields: Vec<SchemaField> = Vec::new();
    let mut i: usize = 0;
    while i < parts.len()
        invariant
            i <= parts@.len(),
            pv == parts_view(parts@),
            fields_view(fields@) == fields_from_parts(pv).take(i as int),
        decreases parts@.len() - i,
    {
        let (name, text, is_message, is_enum) = &parts[i];
        let kind = kind_from_parts(text.as_str(), *is_message, *is_enum);
        let ghost before = fields@;
        let f = SchemaField { name: name.clone(), kind };
        assert(pv[i as int] == (name@, text@, *is_message, *is_enum));
        assert(f.name@ == pv[i as int].0);
        fields.push(f);
        assert(fields_view(fields@) =~= fields_from_parts(pv).take(i + 1)) by {
            assert(fields@ =~= before.push(f));
            assert(fields_view(fields@) =~= fields_view(before).push((f.name@, f.kind)));
            assert(fields_from_parts(pv)[i as int] == (pv[i as int].0, kind_of_parts(pv[i as int].1, pv[i as int].2, pv[i as int].3)));
        }
        i = i + 1;
    }
    assert(fields_from_parts(pv).take(parts@.len() as int) =~= fields_from_parts(pv));
    Ok(QueueSchema { fields, descriptors, message: message_name.to_string() })
}

/// Rebuilds a compiled schema from the descriptor set it was compiled to,
/// as the log keeps it, without compiling the proto source again; fails as
/// [`schema_from_descriptors`] does.
pub fn reconstruct_schema(schema_id: u64, raw_proto: Vec<u8>, descriptor_set_bytes: Vec<u8>, message_name: &str) -> (r:
    Result<CompiledSchema, SchemaCompileError>)
    ensures
        descriptor_set_error(descriptor_set_bytes@) matches Some(e) ==> r matches Err(
            SchemaCompileError::InvalidProto(s),
        ) && s@ == e,
        descriptor_set_error(descriptor_set_bytes@) is None ==> match message_fields(
            descriptor_set_bytes@,
            message_name@,
        ) {
            None => r matches Err(SchemaCompileError::MessageNotFound { requested, available })
                && requested@ == message_name@ && texts_view(available@) == message_names(descriptor_set_bytes@),
            Some(ps) => r matches Ok(c) && c.id == schema_id && c.format == SchemaFormat::Protobuf && c.raw@
                == raw_proto@ && c.schema.descriptors@ == descriptor_set_bytes@ && c.schema.message@ == message_name@
                && fields_view(c.schema.fields@) == fields_from_parts(ps),
        },
{
    match schema_from_descriptors(descriptor_set_bytes, message_name) {
        Err(e) => Err(e),
        Ok(schema) => Ok(CompiledSchema { id: schema_id, format: SchemaFormat::Protobuf, raw: raw_proto, schema }),
    }
}

// ─── Checking payloads ────────────────────────────────────────────────

/// A decode outcome seen as texts and mathematical integers.
pub open spec fn decode_view(d: Result<(bool, usize, usize), String>) -> Result<(bool, nat, nat), Seq<char>> {
    match d {
        Ok((u, rest, clean)) => Ok((u, rest as nat, clean as nat)),
        Err(e) => Err(e@),
    }
}

/// Whether a decode outcome refuses the payload.
pub open spec fn decode_refuses(d: Result<(bool, nat, nat), Seq<char>>) -> bool {
    match d {
        Err(_) => true,
        Ok((u, rest, _)) => u || rest > 0,
    }
}

/// Whether `r` is the verdict on a binary payload of `body_len` bytes whose
/// decoding went as `d`: an error is `DecodeFailed` with its text; fields
/// the type does not describe, or bytes left over, refuse it with the
/// bytes beyond its clean encoding (none when the clean encoding is not
/// shorter); otherwise it passes.
pub open spec fn verdict_matches(r: Result<(), SchemaValidationError>, d: Result<(bool, nat, nat), Seq<char>>, body_len: nat) -> bool {
    match d {
        Err(e) => r matches Err(SchemaValidationError::DecodeFailed(s)) && s@ == e,
        Ok((u, rest, clean)) => if u || rest > 0 {
            r matches Err(SchemaValidationError::TrailingBytes { unconsumed_len }) && unconsumed_len == if body_len
                >= clean {
                body_len - clean
            } else {
                0
            }
        } else {
            r is Ok
        },
    }
}

/// The verdict on a binary payload of `body_len` bytes from how decoding
/// it went (see [`verdict_matches`]).
pub fn protobuf_verdict(decoded: Result<(bool, usize, usize), String>, body_len: usize) -> (r: Result<
    (),
    SchemaValidationError,
>)
    ensures
        verdict_matches(r, decode_view(decoded), body_len as nat),
{
    match decoded {
        Err(e) => Err(SchemaValidationError::DecodeFailed(e)),
        Ok((unknown, rest, clean)) => {
            if unknown || rest > 0 {
                let unconsumed_len = if body_len >= clean {
                    body_len - clean
                } else {
                    0
                };
                Err(SchemaValidationError::TrailingBytes { unconsumed_len })
            } else {
                Ok(())
            }
        },
    }
}

/// Checks a binary payload against message type `message` of the encoded
/// descriptor set `descriptors`: the verdict on how decoding it goes, as
/// [`protobuf_decode`] names it (see [`verdict_matches`]).
pub fn validate_protobuf(descriptors: &[u8], message: &str, body: &[u8]) -> (r: Result<(), SchemaValidationError>)
    ensures
        verdict_matches(r, protobuf_decode(descriptors@, message@, body@), body@.len()),
{
    let d = decode_outcome(descriptors, message, body);
    protobuf_verdict(d, body.len())
}

/// Checks a payload against a queue's schema: a payload starting with `{`
/// is checked as JSON against the schema's `fields` (exactly as
/// [`validate_json_fields`] says); any other payload as protobuf against
/// message type `message` of the encoded descriptor set `descriptors`
/// (see [`validate_protobuf`]).
pub fn validate_message(fields: &[SchemaField], descriptors: &[u8], message: &str, body: &[u8]) -> (r: Result<
    (),
    SchemaValidationError,
>)
    ensures
        body@.len() > 0 && body@[0] == 123u8 ==> match json_verdict(fields_view(fields@), body@) {
            JsonVerdict::Fits => r is Ok,
            JsonVerdict::InvalidJson(msg) => r matches Err(SchemaValidationError::InvalidJson(s)) && s@ == msg,
            JsonVerdict::Missing(names) => r matches Err(SchemaValidationError::MissingFields { fields: f })
                && texts_view(f@) == names,
            JsonVerdict::Mismatched(ms) => r matches Err(SchemaValidationError::TypeMismatch { errors })
                && mismatches_view(errors@) == ms,
        },
        !(body@.len() > 0 && body@[0] == 123u8) ==> verdict_matches(
            r,
            protobuf_decode(descriptors@, message@, body@),
            body@.len(),
        ),
{
    if body.len() > 0 && body[0] == 123u8 {
        validate_json_fields(fields, body)
    } else {
        validate_protobuf(descriptors, message, body)
    }
}

} // verus!
