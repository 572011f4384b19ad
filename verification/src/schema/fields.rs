//! Checking payloads and consumer schemas against a queue schema's fields:
//! a JSON payload must carry every field with a value of a fitting type,
//! and a consumer may only ask for fields the queue's schema has.

use vstd::prelude::*;
use vstd::utf8::*;
use vstd::string::*;
use crate::amqp::types::utf8_str;
use crate::routing::topic::str_eq;
use crate::schema::validate::{FieldTypeMismatch, SchemaValidationError};

verus! {

/// The kind of a proto field.
#[derive(Debug, Clone, Copy, PartialEq, Eq, Structural)]
pub enum ProtoKind {
    Double,
    Float,
    Int32,
    Int64,
    Uint32,
    Uint64,
    Sint32,
    Sint64,
    Fixed32,
    Fixed64,
    Sfixed32,
    Sfixed64,
    Bool,
    String,
    Bytes,
    Enum,
    Message,
}

/// The proto3 name of a field kind, in lowercase.
pub open spec fn proto_kind_text(kind: ProtoKind) -> Seq<char> {
    match kind {
        ProtoKind::Double => "double"@,
        ProtoKind::Float => "float"@,
        ProtoKind::Int32 => "int32"@,
        ProtoKind::Int64 => "int64"@,
        ProtoKind::Uint32 => "uint32"@,
        ProtoKind::Uint64 => "uint64"@,
        ProtoKind::Sint32 => "sint32"@,
        ProtoKind::Sint64 => "sint64"@,
        ProtoKind::Fixed32 => "fixed32"@,
        ProtoKind::Fixed64 => "fixed64"@,
        ProtoKind::Sfixed32 => "sfixed32"@,
        ProtoKind::Sfixed64 => "sfixed64"@,
        ProtoKind::Bool => "bool"@,
        ProtoKind::String => "string"@,
        ProtoKind::Bytes => "bytes"@,
        ProtoKind::Enum => "enum"@,
        ProtoKind::Message => "message"@,
    }
}

/// The lowercase proto3 name of a field kind; clients map it to their
/// own language's type names.
pub fn proto_kind_name(kind: ProtoKind) -> (r: &'static str)
    ensures
        r@ == proto_kind_text(kind),
{
    match kind {
        ProtoKind::Double => "double",
        ProtoKind::Float => "float",
        ProtoKind::Int32 => "int32",
        ProtoKind::Int64 => "int64",
        ProtoKind::Uint32 => "uint32",
        ProtoKind::Uint64 => "uint64",
        ProtoKind::Sint32 => "sint32",
        ProtoKind::Sint64 => "sint64",
        ProtoKind::Fixed32 => "fixed32",
        ProtoKind::Fixed64 => "fixed64",
        ProtoKind::Sfixed32 => "sfixed32",
        ProtoKind::Sfixed64 => "sfixed64",
        ProtoKind::Bool => "bool",
        ProtoKind::String => "string",
        ProtoKind::Bytes => "bytes",
        ProtoKind::Enum => "enum",
        ProtoKind::Message => "message",
    }
}

/// The type of a JSON value.
#[derive(Debug, Clone, Copy, PartialEq, Eq, Structural)]
pub enum JsonType {
    Null,
    Boolean,
    Number,
    String,
    Array,
    Object,
}

/// The name a JSON value's type is reported with.
pub open spec fn json_type_text(t: JsonType) -> Seq<char> {
    match t {
        JsonType::Null => "null"@,
        JsonType::Boolean => "boolean"@,
        JsonType::Number => "number"@,
        JsonType::String => "string"@,
        JsonType::Array => "array"@,
        JsonType::Object => "object"@,
    }
}

/// Names the type of a JSON value.
pub fn json_type_name(t: JsonType) -> (r: &'static str)
    ensures
        r@ == json_type_text(t),
{
    match t {
        JsonType::Null => "null",
        JsonType::Boolean => "boolean",
        JsonType::Number => "number",
        JsonType::String => "string",
        JsonType::Array => "array",
        JsonType::Object => "object",
    }
}

/// Whether a JSON value of type `t` fits a field of kind `kind`: strings
/// and bytes take strings, bools booleans, the numeric kinds numbers,
/// enums numbers or strings, messages objects.
pub open spec fn kind_accepts(kind: ProtoKind, t: JsonType) -> bool {
    match kind {
        ProtoKind::String | ProtoKind::Bytes => t == JsonType::String,
        ProtoKind::Bool => t == JsonType::Boolean,
        ProtoKind::Enum => t == JsonType::Number || t == JsonType::String,
        ProtoKind::Message => t == JsonType::Object,
        _ => t == JsonType::Number,
    }
}

/// Tests whether a JSON value fits a field.
pub fn accepts(kind: ProtoKind, t: JsonType) -> (r: bool)
    ensures
        r == kind_accepts(kind, t),
{
    match kind {
        ProtoKind::String | ProtoKind::Bytes => t == JsonType::String,
        ProtoKind::Bool => t == JsonType::Boolean,
        ProtoKind::Enum => t == JsonType::Number || t == JsonType::String,
        ProtoKind::Message => t == JsonType::Object,
        _ => t == JsonType::Number,
    }
}

/// A field of a message schema, in declaration order.
#[derive(Debug, Clone)]
pub struct SchemaField {
    pub name: String,
    pub kind: ProtoKind,
}

/// A JSON object's members, by name and value type.
pub type JsonMembers = Vec<(String, JsonType)>;

/// Members seen as names and types.
pub open spec fn members_view(m: Seq<(String, JsonType)>) -> Seq<(Seq<char>, JsonType)> {
    m.map_values(|p: (String, JsonType)| (p.0@, p.1))
}

/// What `serde_json` reads from a text as a JSON value: the members of
/// an object, no members for another value, or the parse error's text.
pub uninterp spec fn json_top_level(text: Seq<char>) -> Result<Option<Seq<(Seq<char>, JsonType)>>, Seq<char>>;

/// The text of the error `std::str::from_utf8` reports for bytes.
pub uninterp spec fn utf8_error_text(bytes: Seq<u8>) -> Seq<char>;

/// Reads a text as a JSON value and lists the members of an object.
///
/// Calls `serde_json::from_str::<serde_json::Value>`, whose outcome
/// depends on the text alone: the contract names it and says no more.
#[verifier::external_body]
fn parse_json_members(text: &str) -> (r: Result<Option<JsonMembers>, String>)
    ensures
        json_top_level(text@) == match r {
            Ok(Some(m)) => Ok(Some(members_view(m@))),
            Ok(None) => Ok(None),
            Err(e) => Err(e@),
        },
{
    match serde_json::from_str::<serde_json::Value>(text) {
        Err(e) => Err(e.to_string()),
        Ok(serde_json::Value::Object(map)) => Ok(Some(map.iter().map(|(k, v)| (k.clone(), match v {
            serde_json::Value::Null => JsonType::Null,
            serde_json::Value::Bool(_) => JsonType::Boolean,
            serde_json::Value::Number(_) => JsonType::Number,
            serde_json::Value::String(_) => JsonType::String,
            serde_json::Value::Array(_) => JsonType::Array,
            serde_json::Value::Object(_) => JsonType::Object,
        })).collect())),
        Ok(_) => Ok(None),
    }
}

/// The text of the error that `std::str::from_utf8` reports.
///
/// Calls `std::str::from_utf8` and formats its error, which depends on
/// the bytes alone; the contract names that text and says no more.
#[verifier::external_body]
fn utf8_error_string(bytes: &[u8]) -> (r: String)
    ensures
        r@ == utf8_error_text(bytes@),
{
    match std::str::from_utf8(bytes) {
        Ok(_) => String::new(),
        Err(e) => e.to_string(),
    }
}

/// The type of the first member named `k`.
pub open spec fn member_type(m: Seq<(Seq<char>, JsonType)>, k: Seq<char>) -> Option<JsonType>
    decreases m.len(),
{
    if m.len() == 0 {
        None
    } else if m[0].0 == k {
        Some(m[0].1)
    } else {
        member_type(m.drop_first(), k)
    }
}

/// Schema fields seen as names and kinds.
pub open spec fn fields_view(fs: Seq<SchemaField>) -> Seq<(Seq<char>, ProtoKind)> {
    fs.map_values(|f: SchemaField| (f.name@, f.kind))
}

/// The names of the fields, in order, that the object lacks.
pub open spec fn missing_names(fs: Seq<(Seq<char>, ProtoKind)>, m: Seq<(Seq<char>, JsonType)>) -> Seq<Seq<char>>
    decreases fs.len(),
{
    if fs.len() == 0 {
        Seq::empty()
    } else {
        let prev = missing_names(fs.drop_last(), m);
        if member_type(m, fs.last().0) is None {
            prev.push(fs.last().0)
        } else {
            prev
        }
    }
}

/// The fields, in order, whose value does not fit: name, expected kind
/// name and the JSON type's name.
pub open spec fn mismatched(fs: Seq<(Seq<char>, ProtoKind)>, m: Seq<(Seq<char>, JsonType)>) -> Seq<
    (Seq<char>, Seq<char>, Seq<char>),
>
    decreases fs.len(),
{
    if fs.len() == 0 {
        Seq::empty()
    } else {
        let prev = mismatched(fs.drop_last(), m);
        let f = fs.last();
        match member_type(m, f.0) {
            Some(t) => if kind_accepts(f.1, t) {
                prev
            } else {
                prev.push((f.0, proto_kind_text(f.1), json_type_text(t)))
            },
            None => prev,
        }
    }
}

/// The outcome of checking a JSON payload.
pub enum JsonVerdict {
    Fits,
    InvalidJson(Seq<char>),
    Missing(Seq<Seq<char>>),
    Mismatched(Seq<(Seq<char>, Seq<char>, Seq<char>)>),
}

/// Checks a JSON payload against the fields of a schema: it must be UTF-8
/// and a JSON object (else it is invalid, with the parser's message),
/// carry every field (else the missing ones are named), and give each a
/// value of a fitting type (else the mismatches are named).
pub open spec fn json_verdict(fs: Seq<(Seq<char>, ProtoKind)>, body: Seq<u8>) -> JsonVerdict {
    if !valid_utf8(body) {
        JsonVerdict::InvalidJson(utf8_error_text(body))
    } else {
        match json_top_level(decode_utf8(body)) {
            Err(e) => JsonVerdict::InvalidJson(e),
            Ok(None) => JsonVerdict::InvalidJson("expected a JSON object, got other type"@),
            Ok(Some(m)) => if missing_names(fs, m).len() > 0 {
                JsonVerdict::Missing(missing_names(fs, m))
            } else if mismatched(fs, m).len() > 0 {
                JsonVerdict::Mismatched(mismatched(fs, m))
            } else {
                JsonVerdict::Fits
            },
        }
    }
}

/// A list of strings seen as character sequences.
pub open spec fn texts_view(v: Seq<String>) -> Seq<Seq<char>> {
    v.map_values(|s: String| s@)
}

/// Mismatches seen as triples of texts.
pub open spec fn mismatches_view(v: Seq<FieldTypeMismatch>) -> Seq<(Seq<char>, Seq<char>, Seq<char>)> {
    v.map_values(|x: FieldTypeMismatch| (x.field_name@, x.queue_kind@, x.got_kind@))
}

/// Finds the type of member `k`.
fn find_member(m: &[(String, JsonType)], k: &str) -> (r: Option<JsonType>)
    ensures
        r == member_type(members_view(m@), k@),
{
    let ghost v = members_view(m@);
    assert(v.subrange(0, v.len() as int) =~= v);
    let mut i: usize = 0;
    while i < m.len()
        invariant
            i <= m@.len(),
            v == members_view(m@),
            member_type(v, k@) == member_type(v.subrange(i as int, v.len() as int), k@),
        decreases m@.len() - i,
    {
        let ghost rest = v.subrange(i as int, v.len() as int);
        assert(rest.drop_first() =~= v.subrange(i + 1, v.len() as int));
        assert(rest[0] == (m@[i as int].0@, m@[i as int].1));
        if str_eq(m[i].0.as_str(), k) {
            return Some(m[i].1);
        }
        i = i + 1;
    }
    assert(v.subrange(i as int, v.len() as int) =~= Seq::<(Seq<char>, JsonType)>::empty());
    None
}

/// Checks a JSON payload against a schema's fields (see [`json_verdict`]).
pub fn validate_json_fields(fields: &[SchemaField], body: &[u8]) -> (r: Result<(), SchemaValidationError>)
    ensures
        match json_verdict(fields_view(fields@), body@) {
            JsonVerdict::Fits => r is Ok,
            JsonVerdict::InvalidJson(msg) => r matches Err(SchemaValidationError::InvalidJson(s)) && s@ == msg,
            JsonVerdict::Missing(names) => r matches Err(SchemaValidationError::MissingFields { fields: f })
                && texts_view(f@) == names,
            JsonVerdict::Mismatched(ms) => r matches Err(SchemaValidationError::TypeMismatch { errors })
                && mismatches_view(errors@) == ms,
        },
{
    let ghost fv = fields_view(fields@);
    let text = match utf8_str(body) {
        Some(t) => t,
        None => {
            return Err(SchemaValidationError::InvalidJson(utf8_error_string(body)));
        },
    };
    proof {
        encode_utf8_decode_utf8(text@);
        assert(decode_utf8(body@) == text@);
    }
    let members = match parse_json_members(text) {
        Err(e) => {
            return Err(SchemaValidationError::InvalidJson(e));
        },
        Ok(None) => {
            return Err(SchemaValidationError::InvalidJson(String::from_str("expected a JSON object, got other type")));
        },
        Ok(Some(m)) => m,
    };
    check_json_members(fields, &members)
}

/// Checks the members of a JSON object against a schema's fields: the
/// fields it lacks, in field order, if any; else the fields whose value
/// has a type their kind does not accept, if any.
pub fn check_json_members(fields: &[SchemaField], members: &Vec<(String, JsonType)>) -> (r: Result<
    (),
    SchemaValidationError,
>)
    ensures
        ({
            let fv = fields_view(fields@);
            let mv = members_view(members@);
            if missing_names(fv, mv).len() > 0 {
                r matches Err(SchemaValidationError::MissingFields { fields: f }) && texts_view(f@) == missing_names(
                    fv,
                    mv,
                )
            } else if mismatched(fv, mv).len() > 0 {
                r matches Err(SchemaValidationError::TypeMismatch { errors }) && mismatches_view(errors@)
                    == mismatched(fv, mv)
            } else {
                r is Ok
            }
        }),
{
    let ghost fv = fields_view(fields@);
    let ghost mv = members_view(members@);
    let mut missing: Vec<String> = Vec::new();
    let mut i: usize = 0;
    while i < fields.len()
        invariant
            i <= fields@.len(),
            fv == fields_view(fields@),
            mv == members_view(members@),
            texts_view(missing@) == missing_names(fv.subrange(0, i as int), mv),
        decreases fields@.len() - i,
    {
        proof {
            let pre = fv.subrange(0, i + 1);
            assert(pre.drop_last() =~= fv.subrange(0, i as int));
            assert(pre.last() == (fields@[i as int].name@, fields@[i as int].kind));
        }
        let ghost before = missing@;
        if find_member(members.as_slice(), fields[i].name.as_str()).is_none() {
            missing.push(fields[i].name.clone());
            proof {
                assert(texts_view(missing@) =~= texts_view(before).push(fields@[i as int].name@));
            }
        }
        i = i + 1;
    }
    assert(fv.subrange(0, fields@.len() as int) =~= fv);
    if missing.len() > 0 {
        return Err(SchemaValidationError::MissingFields { fields: missing });
    }
    let mut errors: Vec<FieldTypeMismatch> = Vec::new();
    let mut j: usize = 0;
    while j < fields.len()
        invariant
            j <= fields@.len(),
            fv == fields_view(fields@),
            mv == members_view(members@),
            mismatches_view(errors@) == mismatched(fv.subrange(0, j as int), mv),
        decreases fields@.len() - j,
    {
        proof {
            let pre = fv.subrange(0, j + 1);
            assert(pre.drop_last() =~= fv.subrange(0, j as int));
            assert(pre.last() == (fields@[j as int].name@, fields@[j as int].kind));
        }
        let ghost before = errors@;
        match find_member(members.as_slice(), fields[j].name.as_str()) {
            Some(t) => {
                if !accepts(fields[j].kind, t) {
                    let m = FieldTypeMismatch {
                        field_name: fields[j].name.clone(),
                        queue_kind: String::from_str(proto_kind_name(fields[j].kind)),
                        got_kind: String::from_str(json_type_name(t)),
                    };
                    errors.push(m);
                    proof {
                        assert(mismatches_view(errors@) =~= mismatches_view(before).push(
                            (fields@[j as int].name@, proto_kind_text(fields@[j as int].kind), json_type_text(t)),
                        ));
                    }
                }
            },
            None => {},
        }
        j = j + 1;
    }
    assert(fv.subrange(0, fields@.len() as int) =~= fv);
    if errors.len() > 0 {
        return Err(SchemaValidationError::TypeMismatch { errors });
    }
    Ok(())
}

/// Whether a name is among the fields.
pub open spec fn has_field(fs: Seq<(Seq<char>, ProtoKind)>, name: Seq<char>) -> bool {
    exists|i: int| 0 <= i < fs.len() && (#[trigger] fs[i]).0 == name
}

/// The consumer's fields, in order, that the queue's schema lacks.
pub open spec fn extra_names(queue: Seq<(Seq<char>, ProtoKind)>, consumer: Seq<(Seq<char>, ProtoKind)>) -> Seq<
    Seq<char>,
>
    decreases consumer.len(),
{
    if consumer.len() == 0 {
        Seq::empty()
    } else {
        let prev = extra_names(queue, consumer.drop_last());
        if has_field(queue, consumer.last().0) {
            prev
        } else {
            prev.push(consumer.last().0)
        }
    }
}

/// Tests whether a name is among the fields.
fn field_named(fs: &[SchemaField], name: &str) -> (r: bool)
    ensures
        r == has_field(fields_view(fs@), name@),
{
    let ghost v = fields_view(fs@);
    let mut i: usize = 0;
    while i < fs.len()
        invariant
            i <= fs@.len(),
            v == fields_view(fs@),
            forall|j: int| 0 <= j < i ==> (#[trigger] v[j]).0 != name@,
        decreases fs@.len() - i,
    {
        assert(v[i as int].0 == fs@[i as int].name@);
        if str_eq(fs[i].name.as_str(), name) {
            return true;
        }
        i = i + 1;
    }
    false
}

/// Checks that a consumer's schema asks only for fields of the queue's
/// schema (matched by name); the others are named in the error.
pub fn check_consumer_subset(queue_fields: &[SchemaField], consumer_fields: &[SchemaField]) -> (r: Result<
    (),
    SchemaValidationError,
>)
    ensures
        ({
            let extra = extra_names(fields_view(queue_fields@), fields_view(consumer_fields@));
            &&& extra.len() == 0 ==> r is Ok
            &&& extra.len() > 0 ==> (r matches Err(SchemaValidationError::ConsumerExtraFields { fields })
                && texts_view(fields@) == extra)
        }),
{
    let ghost qv = fields_view(queue_fields@);
    let ghost cv = fields_view(consumer_fields@);
    let mut extra: Vec<String> = Vec::new();
    let mut i: usize = 0;
    while i < consumer_fields.len()
        invariant
            i <= consumer_fields@.len(),
            qv == fields_view(queue_fields@),
            cv == fields_view(consumer_fields@),
            texts_view(extra@) == extra_names(qv, cv.subrange(0, i as int)),
        decreases consumer_fields@.len() - i,
    {
        proof {
            let pre = cv.subrange(0, i + 1);
            assert(pre.drop_last() =~= cv.subrange(0, i as int));
            assert(pre.last() == (consumer_fields@[i as int].name@, consumer_fields@[i as int].kind));
        }
        let ghost before = extra@;
        if !field_named(queue_fields, consumer_fields[i].name.as_str()) {
            extra.push(consumer_fields[i].name.clone());
            proof {
                assert(texts_view(extra@) =~= texts_view(before).push(consumer_fields@[i as int].name@));
            }
        }
        i = i + 1;
    }
    assert(cv.subrange(0, consumer_fields@.len() as int) =~= cv);
    if extra.len() > 0 {
        Err(SchemaValidationError::ConsumerExtraFields { fields: extra })
    } else {
        Ok(())
    }
}

/// Which JSON values each field kind takes: a `bool` field exactly JSON
/// booleans; a `string` or `bytes` field exactly JSON strings; every
/// numeric kind exactly JSON numbers; an enum numbers or strings (its
/// value's number or name); a message field exactly JSON objects. No kind
/// takes `null` or an array.
pub proof fn lemma_json_value_kinds(t: JsonType)
    ensures
        kind_accepts(ProtoKind::Bool, t) <==> t == JsonType::Boolean,
        kind_accepts(ProtoKind::String, t) <==> t == JsonType::String,
        kind_accepts(ProtoKind::Bytes, t) <==> t == JsonType::String,
        kind_accepts(ProtoKind::Double, t) <==> t == JsonType::Number,
        kind_accepts(ProtoKind::Float, t) <==> t == JsonType::Number,
        kind_accepts(ProtoKind::Int32, t) <==> t == JsonType::Number,
        kind_accepts(ProtoKind::Int64, t) <==> t == JsonType::Number,
        kind_accepts(ProtoKind::Uint32, t) <==> t == JsonType::Number,
        kind_accepts(ProtoKind::Uint64, t) <==> t == JsonType::Number,
        kind_accepts(ProtoKind::Sint32, t) <==> t == JsonType::Number,
        kind_accepts(ProtoKind::Sint64, t) <==> t == JsonType::Number,
        kind_accepts(ProtoKind::Fixed32, t) <==> t == JsonType::Number,
        kind_accepts(ProtoKind::Fixed64, t) <==> t == JsonType::Number,
        kind_accepts(ProtoKind::Sfixed32, t) <==> t == JsonType::Number,
        kind_accepts(ProtoKind::Sfixed64, t) <==> t == JsonType::Number,
        kind_accepts(ProtoKind::Enum, t) <==> (t == JsonType::Number || t == JsonType::String),
        kind_accepts(ProtoKind::Message, t) <==> t == JsonType::Object,
        t == JsonType::Null || t == JsonType::Array ==> forall|k: ProtoKind| !#[trigger] kind_accepts(k, t),
{
}

/// A JSON object carries every field exactly when none is reported
/// missing, and every field it carries has a fitting value exactly when
/// no mismatch is reported.
pub proof fn lemma_object_fits_fields(fs: Seq<(Seq<char>, ProtoKind)>, m: Seq<(Seq<char>, JsonType)>)
    ensures
        missing_names(fs, m).len() == 0 <==> forall|i: int| 0 <= i < fs.len() ==> (#[trigger] member_type(m, fs[i].0)) is Some,
        mismatched(fs, m).len() == 0 <==> forall|i: int|
            0 <= i < fs.len() ==> (#[trigger] member_type(m, fs[i].0) matches Some(t) ==> kind_accepts(fs[i].1, t)),
    decreases fs.len(),
{
    if fs.len() > 0 {
        let init = fs.drop_last();
        lemma_object_fits_fields(init, m);
        assert forall|i: int| 0 <= i < init.len() implies init[i] == fs[i] by {}
        if forall|i: int| 0 <= i < fs.len() ==> (#[trigger] member_type(m, fs[i].0)) is Some {
            assert(member_type(m, fs[fs.len() - 1].0) is Some);
            assert forall|i: int| 0 <= i < init.len() implies (#[trigger] member_type(m, init[i].0)) is Some by {
                assert(member_type(m, fs[i].0) is Some);
            }
        }
        if missing_names(fs, m).len() == 0 {
            assert forall|i: int| 0 <= i < fs.len() implies (#[trigger] member_type(m, fs[i].0)) is Some by {
                if i < init.len() {
                    assert(member_type(m, init[i].0) is Some);
                }
            }
        }
        if forall|i: int|
            0 <= i < fs.len() ==> (#[trigger] member_type(m, fs[i].0) matches Some(t) ==> kind_accepts(fs[i].1, t)) {
            assert(member_type(m, fs[fs.len() - 1].0) matches Some(t) ==> kind_accepts(fs[fs.len() - 1].1, t));
            assert forall|i: int| 0 <= i < init.len() implies (#[trigger] member_type(m, init[i].0) matches Some(t)
                ==> kind_accepts(init[i].1, t)) by {
                assert(member_type(m, fs[i].0) matches Some(t) ==> kind_accepts(fs[i].1, t));
            }
        }
        if mismatched(fs, m).len() == 0 {
            assert forall|i: int| 0 <= i < fs.len() implies (#[trigger] member_type(m, fs[i].0) matches Some(t)
                ==> kind_accepts(fs[i].1, t)) by {
                if i < init.len() {
                    assert(member_type(m, init[i].0) matches Some(t) ==> kind_accepts(init[i].1, t));
                }
            }
        }
    }
}

/// A consumer's schema asks for no field the queue's lacks exactly when
/// each of its fields is one of the queue's.
pub proof fn lemma_no_extra_names(queue: Seq<(Seq<char>, ProtoKind)>, consumer: Seq<(Seq<char>, ProtoKind)>)
    ensures
        extra_names(queue, consumer).len() == 0 <==> forall|i: int|
            0 <= i < consumer.len() ==> exists|j: int| 0 <= j < queue.len() && queue[j].0 == (#[trigger] consumer[i]).0,
    decreases consumer.len(),
{
    if consumer.len() > 0 {
        let init = consumer.drop_last();
        lemma_no_extra_names(queue, init);
        if extra_names(queue, consumer).len() == 0 {
            assert(has_field(queue, consumer.last().0));
            assert forall|i: int| 0 <= i < consumer.len() implies exists|j: int|
                0 <= j < queue.len() && queue[j].0 == (#[trigger] consumer[i]).0 by {
                if i < init.len() {
                    assert(init[i] == consumer[i]);
                } else {
                    let j = choose|j: int| 0 <= j < queue.len() && (#[trigger] queue[j]).0 == consumer.last().0;
                    assert(queue[j].0 == consumer[i].0);
                }
            }
        }
        if forall|i: int|
            0 <= i < consumer.len() ==> exists|j: int| 0 <= j < queue.len() && queue[j].0 == (#[trigger] consumer[i]).0 {
            assert(exists|j: int| 0 <= j < queue.len() && queue[j].0 == consumer[consumer.len() - 1].0);
            let j = choose|j: int| 0 <= j < queue.len() && queue[j].0 == consumer[consumer.len() - 1].0;
            assert(queue[j].0 == consumer.last().0);
            assert(has_field(queue, consumer.last().0));
            assert forall|i: int| 0 <= i < init.len() implies exists|j: int|
                0 <= j < queue.len() && queue[j].0 == (#[trigger] init[i]).0 by {
                assert(init[i] == consumer[i]);
                assert(exists|j: int| 0 <= j < queue.len() && queue[j].0 == consumer[i].0);
            }
        }
    }
}

} // verus!
