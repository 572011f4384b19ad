//! Schema identifiers, formats, compatibility levels and the records the
//! registry hands out.

use vstd::prelude::*;

verus! {

/// Supported schema formats.
#[derive(Clone, Copy, Debug, PartialEq, Eq, Structural)]
pub enum SchemaFormat {
    /// Protobuf (`.proto`) schema definition.
    Protobuf,
}

impl SchemaFormat {
    /// The upper-case name the registry reports for the format.
    pub fn format_name(&self) -> (r: &'static str)
        ensures
            r@ == "PROTOBUF"@,
    {
        "PROTOBUF"
    }
}

/// Why a schema could not be compiled.
#[derive(Debug, Clone)]
pub enum SchemaCompileError {
    /// The raw schema is not valid UTF-8.
    InvalidProto(String),
    /// Compiling the proto source failed.
    CompilationFailed(String),
    /// The requested message type is not among those the schema defines.
    MessageNotFound { requested: String, available: Vec<String> },
}

/// Schema compatibility enforcement level: `NoCheck` (`NONE` in the registry API) checks nothing,
/// `Backward` lets a new schema read data of the previous version,
/// `Forward` the other way round, `Full` both.
#[derive(Clone, Copy, Debug, PartialEq, Eq, Structural)]
pub enum CompatibilityLevel {
    NoCheck,
    Backward,
    Forward,
    Full,
}

impl Default for CompatibilityLevel {
    fn default() -> (r: Self)
        ensures
            r == CompatibilityLevel::Backward,
    {
        CompatibilityLevel::Backward
    }
}

/// A registered schema version as the REST API reports it.
#[derive(Clone, Debug)]
pub struct SchemaResponse {
    pub id: u64,
    pub subject: String,
    pub version: u32,
    pub schema_type: String,
    pub schema: String,
    pub message_name: String,
}

impl SchemaResponse {
    /// The report of schema `id`, version `version` of `subject`.
    pub fn new(
        id: u64,
        subject: String,
        version: u32,
        format: SchemaFormat,
        schema: String,
        message_name: String,
    ) -> (r: Self)
        ensures
            r.id == id,
            r.subject == subject,
            r.version == version,
            r.schema_type@ == "PROTOBUF"@,
            r.schema == schema,
            r.message_name == message_name,
    {
        SchemaResponse {
            id,
            subject,
            version,
            schema_type: format.format_name().to_owned(),
            schema,
            message_name,
        }
    }
}

/// The versions registered under a subject.
#[derive(Clone, Debug)]
pub struct SubjectVersions {
    pub subject: String,
    pub versions: Vec<u32>,
}

/// Why a registry operation failed.
#[derive(Debug, Clone)]
pub enum SchemaRegistryError {
    CompileError(SchemaCompileError),
    IncompatibleSchema(String),
    NotFound(String),
}

// ─── Schema ids ───────────────────────────────────────────────────────

/// The source of schema ids: each allocation hands out the next value.
pub struct SchemaIdCounter {
    pub next: u64,
}

impl SchemaIdCounter {
    /// A counter whose first id is 1.
    pub fn new() -> (r: Self)
        ensures
            r.next == 1,
    {
        SchemaIdCounter { next: 1 }
    }
}

/// Allocates the next schema id: the counter's value, which then moves
/// on by one (wrapping at the top of the range).
pub fn alloc_schema_id(counter: &mut SchemaIdCounter) -> (r: u64)
    ensures
        r == old(counter).next,
        final(counter).next == if old(counter).next == u64::MAX { 0 } else { (old(counter).next + 1) as u64 },
{
    let r = counter.next;
    counter.next = if r == u64::MAX { 0 } else { r + 1 };
    r
}

/// The registry's id allocator, with the same behaviour.
pub fn alloc_id(counter: &mut SchemaIdCounter) -> (r: u64)
    ensures
        r == old(counter).next,
        final(counter).next == if old(counter).next == u64::MAX { 0 } else { (old(counter).next + 1) as u64 },
{
    alloc_schema_id(counter)
}

/// Moves the counter up to at least `min_next`, as recovery does after
/// reading back the ids already used; it never moves down.
pub fn advance_id_counter(counter: &mut SchemaIdCounter, min_next: u64)
    ensures
        final(counter).next == if old(counter).next >= min_next { old(counter).next } else { min_next },
{
    if counter.next < min_next {
        counter.next = min_next;
    }
}

/// Two ids allocated one after the other increase, unless the counter
/// was at the top of its range.
pub proof fn lemma_ids_increase(first: u64, next_after_first: u64, second: u64)
    requires
        first < u64::MAX,
        next_after_first == first + 1,
        second == next_after_first,
    ensures
        second > first,
{
}

} // verus!
