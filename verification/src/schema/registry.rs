//! The schema registry: versions of message schemas under subjects, with
//! ids, deduplication, compatibility checks and soft deletion.

use vstd::prelude::*;
use vstd::string::*;
use crate::routing::topic::str_eq;
use crate::schema::catalog::{
    advance_id_counter, alloc_id, CompatibilityLevel, SchemaCompileError, SchemaFormat,
    SchemaIdCounter, SchemaRegistryError,
};
use crate::schema::compat::{check_compat, compat_problem, field_model, fields_model, FieldModel, RegisteredField};

verus! {

/// A registered version of a schema.
#[derive(Debug, Clone)]
pub struct SchemaEntry {
    pub id: u64,
    pub subject: String,
    pub version: u32,
    pub format: SchemaFormat,
    pub schema_str: String,
    pub message_name: String,
    /// The fields of the message type, as compatibility judges them.
    pub fields: Vec<RegisteredField>,
    /// Soft-deleted versions stay known but are no longer listed.
    pub deleted: bool,
}

/// The model of a [`SchemaEntry`].
pub struct EntryModel {
    pub id: u64,
    pub subject: Seq<char>,
    pub version: u32,
    pub schema_str: Seq<char>,
    pub message_name: Seq<char>,
    pub fields: Seq<FieldModel>,
    pub deleted: bool,
}

/// An entry seen as its model.
pub open spec fn entry_model(e: SchemaEntry) -> EntryModel {
    EntryModel {
        id: e.id,
        subject: e.subject@,
        version: e.version,
        schema_str: e.schema_str@,
        message_name: e.message_name@,
        fields: fields_model(e.fields@),
        deleted: e.deleted,
    }
}

/// Entries seen as their models.
pub open spec fn entries_model(es: Seq<SchemaEntry>) -> Seq<EntryModel> {
    es.map_values(|e: SchemaEntry| entry_model(e))
}

/// Whether an entry is a live version of `subject`.
pub open spec fn live_of(e: EntryModel, subject: Seq<char>) -> bool {
    e.subject == subject && !e.deleted
}

/// The newest live version of `subject`.
pub open spec fn latest_live(es: Seq<EntryModel>, subject: Seq<char>) -> Option<EntryModel>
    decreases es.len(),
{
    if es.len() == 0 {
        None
    } else if live_of(es.last(), subject) {
        Some(es.last())
    } else {
        latest_live(es.drop_last(), subject)
    }
}

/// The id of the first live version of `subject` with this schema text
/// and message name.
pub open spec fn existing_id(es: Seq<EntryModel>, subject: Seq<char>, schema: Seq<char>, message: Seq<char>) -> Option<u64>
    decreases es.len(),
{
    if es.len() == 0 {
        None
    } else if live_of(es[0], subject) && es[0].schema_str == schema && es[0].message_name == message {
        Some(es[0].id)
    } else {
        existing_id(es.drop_first(), subject, schema, message)
    }
}

/// The highest version of `subject` ever registered, deleted or not.
pub open spec fn top_version(es: Seq<EntryModel>, subject: Seq<char>) -> Option<u32>
    decreases es.len(),
{
    if es.len() == 0 {
        None
    } else {
        let prev = top_version(es.drop_last(), subject);
        if es.last().subject == subject {
            match prev {
                Some(v) => Some(if v >= es.last().version { v } else { es.last().version }),
                None => Some(es.last().version),
            }
        } else {
            prev
        }
    }
}

/// The version a new registration of `subject` gets: one above the
/// highest, or 1 for a new subject.
pub open spec fn next_version(es: Seq<EntryModel>, subject: Seq<char>) -> u32 {
    match top_version(es, subject) {
        Some(v) => (v + 1) as u32,
        None => 1,
    }
}

/// The compatibility level set for `subject`, the latest setting.
pub open spec fn subject_level(ls: Seq<(Seq<char>, CompatibilityLevel)>, subject: Seq<char>) -> Option<
    CompatibilityLevel,
>
    decreases ls.len(),
{
    if ls.len() == 0 {
        None
    } else if ls.last().0 == subject {
        Some(ls.last().1)
    } else {
        subject_level(ls.drop_last(), subject)
    }
}

/// The problem that keeps `fields` from being registered under
/// `subject` at `level`: an incompatibility with the newest live version.
pub open spec fn registration_problem(
    es: Seq<EntryModel>,
    subject: Seq<char>,
    fields: Seq<FieldModel>,
    level: CompatibilityLevel,
) -> Option<Seq<char>> {
    match latest_live(es, subject) {
        Some(l) => compat_problem(l.fields, fields, level),
        None => None,
    }
}

/// The live versions of `subject`, in registration order.
pub open spec fn live_versions(es: Seq<EntryModel>, subject: Seq<char>) -> Seq<u32>
    decreases es.len(),
{
    if es.len() == 0 {
        Seq::empty()
    } else {
        let prev = live_versions(es.drop_last(), subject);
        if live_of(es.last(), subject) {
            prev.push(es.last().version)
        } else {
            prev
        }
    }
}

/// Whether `subject` was ever registered.
pub open spec fn subject_known(es: Seq<EntryModel>, subject: Seq<char>) -> bool {
    exists|i: int| 0 <= i < es.len() && (#[trigger] es[i]).subject == subject
}

/// The subjects with a live version, each once, in order of first
/// registration of a live version.
pub open spec fn live_subjects(es: Seq<EntryModel>) -> Seq<Seq<char>>
    decreases es.len(),
{
    if es.len() == 0 {
        Seq::empty()
    } else {
        let prev = live_subjects(es.drop_last());
        if !es.last().deleted && !prev.contains(es.last().subject) {
            prev.push(es.last().subject)
        } else {
            prev
        }
    }
}

/// The first live version `version` of `subject`.
pub open spec fn live_version(es: Seq<EntryModel>, subject: Seq<char>, version: u32) -> Option<EntryModel>
    decreases es.len(),
{
    if es.len() == 0 {
        None
    } else if live_of(es[0], subject) && es[0].version == version {
        Some(es[0])
    } else {
        live_version(es.drop_first(), subject, version)
    }
}

/// The last entry with `id` (a later registration under the same id
/// replaces an earlier one).
pub open spec fn entry_with_id(es: Seq<EntryModel>, id: u64) -> Option<EntryModel>
    decreases es.len(),
{
    if es.len() == 0 {
        None
    } else if es.last().id == id {
        Some(es.last())
    } else {
        entry_with_id(es.drop_last(), id)
    }
}

/// The live entries, in order.
pub open spec fn live_entries(es: Seq<EntryModel>) -> Seq<EntryModel>
    decreases es.len(),
{
    if es.len() == 0 {
        Seq::empty()
    } else {
        let prev = live_entries(es.drop_last());
        if !es.last().deleted {
            prev.push(es.last())
        } else {
            prev
        }
    }
}

/// An entry, deleted.
pub open spec fn deleted(e: EntryModel) -> EntryModel {
    EntryModel { deleted: true, ..e }
}

/// The entries after every live version of `subject` is deleted.
pub open spec fn without_subject(es: Seq<EntryModel>, subject: Seq<char>) -> Seq<EntryModel> {
    Seq::new(es.len(), |i: int| if live_of(es[i], subject) { deleted(es[i]) } else { es[i] })
}

/// The position of the first entry of `subject` with `version`, deleted
/// or not, or `es.len()`.
pub open spec fn version_pos(es: Seq<EntryModel>, subject: Seq<char>, version: u32, i: int) -> int
    decreases es.len() - i,
{
    if i < 0 || i >= es.len() {
        es.len() as int
    } else if es[i].subject == subject && es[i].version == version {
        i
    } else {
        version_pos(es, subject, version, i + 1)
    }
}

/// The schema registry.
pub struct SchemaRegistry {
    entries: Vec<SchemaEntry>,
    global_compat: CompatibilityLevel,
    subject_compat: Vec<(String, CompatibilityLevel)>,
    ids: SchemaIdCounter,
}

/// Levels seen as subjects and levels.
pub open spec fn levels_model(ls: Seq<(String, CompatibilityLevel)>) -> Seq<(Seq<char>, CompatibilityLevel)> {
    ls.map_values(|p: (String, CompatibilityLevel)| (p.0@, p.1))
}

/// A copy of an entry.
fn copy_entry(e: &SchemaEntry) -> (r: SchemaEntry)
    ensures
        entry_model(r) == entry_model(*e),
        r.format == e.format,
{
    let mut fields: Vec<RegisteredField> = Vec::new();
    let mut i: usize = 0;
    while i < e.fields.len()
        invariant
            i <= e.fields@.len(),
            fields@.len() == i,
            forall|j: int| 0 <= j < i ==> field_model(#[trigger] fields@[j]) == field_model(e.fields@[j]),
        decreases e.fields@.len() - i,
    {
        let f = &e.fields[i];
        fields.push(
            RegisteredField {
                number: f.number,
                name: f.name.clone(),
                kind: f.kind,
                message_type: f.message_type.clone(),
                kind_label: f.kind_label.clone(),
            },
        );
        i = i + 1;
    }
    assert(fields_model(fields@) =~= fields_model(e.fields@));
    SchemaEntry {
        id: e.id,
        subject: e.subject.clone(),
        version: e.version,
        format: e.format,
        schema_str: e.schema_str.clone(),
        message_name: e.message_name.clone(),
        fields,
        deleted: e.deleted,
    }
}

impl SchemaRegistry {
    /// The registered versions, in registration order.
    pub closed spec fn entries_spec(&self) -> Seq<EntryModel> {
        entries_model(self.entries@)
    }

    /// The level applied to subjects without their own.
    pub closed spec fn global_spec(&self) -> CompatibilityLevel {
        self.global_compat
    }

    /// The levels set for subjects, in the order they were set.
    pub closed spec fn levels_spec(&self) -> Seq<(Seq<char>, CompatibilityLevel)> {
        levels_model(self.subject_compat@)
    }

    /// The id the next registration gets.
    pub closed spec fn next_id_spec(&self) -> u64 {
        self.ids.next
    }

    /// The level that applies to `subject`.
    pub open spec fn effective_spec(&self, subject: Seq<char>) -> CompatibilityLevel {
        match subject_level(self.levels_spec(), subject) {
            Some(l) => l,
            None => self.global_spec(),
        }
    }

    /// An empty registry checking `Backward` compatibility, whose first id
    /// is 1.
    pub fn new() -> (r: Self)
        ensures
            r.entries_spec() == Seq::<EntryModel>::empty(),
            r.global_spec() == CompatibilityLevel::Backward,
            r.levels_spec() == Seq::<(Seq<char>, CompatibilityLevel)>::empty(),
            r.next_id_spec() == 1,
    {
        let r = SchemaRegistry {
            entries: Vec::new(),
            global_compat: CompatibilityLevel::Backward,
            subject_compat: Vec::new(),
            ids: SchemaIdCounter::new(),
        };
        assert(r.entries_spec() =~= Seq::<EntryModel>::empty());
        assert(r.levels_spec() =~= Seq::<(Seq<char>, CompatibilityLevel)>::empty());
        r
    }

    /// The level applied to subjects without their own.
    pub fn global_compat(&self) -> (r: CompatibilityLevel)
        ensures
            r == self.global_spec(),
    {
        self.global_compat
    }

    /// Sets the level applied to subjects without their own.
    pub fn set_global_compat(&mut self, level: CompatibilityLevel)
        ensures
            final(self).global_spec() == level,
            final(self).entries_spec() == old(self).entries_spec(),
            final(self).levels_spec() == old(self).levels_spec(),
            final(self).next_id_spec() == old(self).next_id_spec(),
    {
        self.global_compat = level;
    }

    /// The level set for `subject`, if any.
    pub fn subject_compat(&self, subject: &str) -> (r: Option<CompatibilityLevel>)
        ensures
            r == subject_level(self.levels_spec(), subject@),
    {
        let ghost v = self.levels_spec();
        let mut i: usize = self.subject_compat.len();
        assert(v.subrange(0, i as int) =~= v);
        while i > 0
            invariant
                i <= self.subject_compat@.len(),
                v == self.levels_spec(),
                subject_level(v, subject@) == subject_level(v.subrange(0, i as int), subject@),
            decreases i,
        {
            let ghost pre = v.subrange(0, i as int);
            assert(pre.drop_last() =~= v.subrange(0, i - 1));
            assert(pre.last() == (self.subject_compat@[i - 1].0@, self.subject_compat@[i - 1].1));
            if str_eq(self.subject_compat[i - 1].0.as_str(), subject) {
                return Some(self.subject_compat[i - 1].1);
            }
            i = i - 1;
        }
        assert(v.subrange(0, 0) =~= Seq::<(Seq<char>, CompatibilityLevel)>::empty());
        None
    }

    /// Sets the level of `subject`, replacing an earlier setting.
    pub fn set_subject_compat(&mut self, subject: &str, level: CompatibilityLevel)
        ensures
            subject_level(final(self).levels_spec(), subject@) == Some(level),
            forall|s: Seq<char>| s != subject@ ==> subject_level(final(self).levels_spec(), s) == subject_level(
                old(self).levels_spec(),
                s,
            ),
            final(self).global_spec() == old(self).global_spec(),
            final(self).entries_spec() == old(self).entries_spec(),
            final(self).next_id_spec() == old(self).next_id_spec(),
    {
        let ghost before = self.levels_spec();
        self.subject_compat.push((subject.to_owned(), level));
        assert(self.levels_spec() =~= before.push((subject@, level)));
        assert(self.levels_spec().drop_last() =~= before);
    }

    /// The level that applies to `subject`: its own, else the global one.
    pub fn effective_compat(&self, subject: &str) -> (r: CompatibilityLevel)
        ensures
            r == self.effective_spec(subject@),
    {
        match self.subject_compat(subject) {
            Some(l) => l,
            None => self.global_compat,
        }
    }

    /// The id of a live version of `subject` with this schema text and
    /// message name, if one was registered.
    pub fn find_existing(&self, subject: &str, schema_str: &str, message_name: &str) -> (r: Option<u64>)
        ensures
            r == existing_id(self.entries_spec(), subject@, schema_str@, message_name@),
    {
        let ghost v = self.entries_spec();
        assert(v.subrange(0, v.len() as int) =~= v);
        let mut i: usize = 0;
        while i < self.entries.len()
            invariant
                i <= self.entries@.len(),
                v == self.entries_spec(),
                existing_id(v, subject@, schema_str@, message_name@) == existing_id(
                    v.subrange(i as int, v.len() as int),
                    subject@,
                    schema_str@,
                    message_name@,
                ),
            decreases self.entries@.len() - i,
        {
            let ghost rest = v.subrange(i as int, v.len() as int);
            assert(rest.drop_first() =~= v.subrange(i + 1, v.len() as int));
            assert(rest[0] == entry_model(self.entries@[i as int]));
            let e = &self.entries[i];
            if !e.deleted && str_eq(e.subject.as_str(), subject) && str_eq(e.schema_str.as_str(), schema_str)
                && str_eq(e.message_name.as_str(), message_name) {
                return Some(e.id);
            }
            i = i + 1;
        }
        assert(v.subrange(i as int, v.len() as int) =~= Seq::<EntryModel>::empty());
        None
    }

    /// The position of the newest live version of `subject`.
    fn latest_pos(&self, subject: &str) -> (r: Option<usize>)
        ensures
            match latest_live(self.entries_spec(), subject@) {
                Some(l) => r matches Some(p) && p < self.entries@.len() && entry_model(self.entries@[p as int]) == l,
                None => r is None,
            },
    {
        let ghost v = self.entries_spec();
        let mut i: usize = self.entries.len();
        assert(v.subrange(0, i as int) =~= v);
        while i > 0
            invariant
                i <= self.entries@.len(),
                v == self.entries_spec(),
                latest_live(v, subject@) == latest_live(v.subrange(0, i as int), subject@),
            decreases i,
        {
            let ghost pre = v.subrange(0, i as int);
            assert(pre.drop_last() =~= v.subrange(0, i - 1));
            assert(pre.last() == entry_model(self.entries@[i - 1]));
            let e = &self.entries[i - 1];
            if !e.deleted && str_eq(e.subject.as_str(), subject) {
                return Some(i - 1);
            }
            i = i - 1;
        }
        assert(v.subrange(0, 0) =~= Seq::<EntryModel>::empty());
        None
    }

    /// The newest live version of `subject`.
    pub fn get_latest(&self, subject: &str) -> (r: Option<SchemaEntry>)
        ensures
            match latest_live(self.entries_spec(), subject@) {
                Some(l) => r matches Some(e) && entry_model(e) == l,
                None => r is None,
            },
    {
        match self.latest_pos(subject) {
            Some(p) => Some(copy_entry(&self.entries[p])),
            None => None,
        }
    }

    /// The highest version of `subject` registered.
    fn top_version_of(&self, subject: &str) -> (r: Option<u32>)
        ensures
            r == top_version(self.entries_spec(), subject@),
    {
        let ghost v = self.entries_spec();
        let mut top: Option<u32> = None;
        let mut i: usize = 0;
        assert(v.subrange(0, 0) =~= Seq::<EntryModel>::empty());
        while i < self.entries.len()
            invariant
                i <= self.entries@.len(),
                v == self.entries_spec(),
                top == top_version(v.subrange(0, i as int), subject@),
            decreases self.entries@.len() - i,
        {
            let ghost pre = v.subrange(0, i + 1);
            assert(pre.drop_last() =~= v.subrange(0, i as int));
            assert(pre.last() == entry_model(self.entries@[i as int]));
            let e = &self.entries[i];
            if str_eq(e.subject.as_str(), subject) {
                top = match top {
                    Some(t) => Some(if t >= e.version { t } else { e.version }),
                    None => Some(e.version),
                };
            }
            i = i + 1;
        }
        assert(v.subrange(0, i as int) =~= v);
        top
    }

    /// Registers a schema version under `subject`, given what compiling
    /// it gave. A live version with the same text and message name is
    /// returned as it is; a compile error is reported; under a level other
    /// than `NoCheck` the new fields must be compatible with the newest
    /// live version. Otherwise the version gets the next id and the next
    /// version number of the subject.
    pub fn register(
        &mut self,
        subject: &str,
        schema_str: &str,
        message_name: &str,
        compiled: Result<Vec<RegisteredField>, SchemaCompileError>,
    ) -> (r: Result<u64, SchemaRegistryError>)
        requires
            top_version(old(self).entries_spec(), subject@) matches Some(v) ==> v < u32::MAX,
        ensures
            final(self).global_spec() == old(self).global_spec(),
            final(self).levels_spec() == old(self).levels_spec(),
            match existing_id(old(self).entries_spec(), subject@, schema_str@, message_name@) {
                Some(id) => r == Ok::<u64, SchemaRegistryError>(id) && final(self).entries_spec() == old(
                    self,
                ).entries_spec() && final(self).next_id_spec() == old(self).next_id_spec(),
                None => match compiled {
                    Err(_) => (r matches Err(SchemaRegistryError::CompileError(_))) && final(self).entries_spec()
                        == old(self).entries_spec() && final(self).next_id_spec() == old(self).next_id_spec(),
                    Ok(fs) => match registration_problem(
                        old(self).entries_spec(),
                        subject@,
                        fields_model(fs@),
                        old(self).effective_spec(subject@),
                    ) {
                        Some(m) => (r matches Err(SchemaRegistryError::IncompatibleSchema(s)) && s@ == m)
                            && final(self).entries_spec() == old(self).entries_spec() && final(self).next_id_spec()
                            == old(self).next_id_spec(),
                        None => r == Ok::<u64, SchemaRegistryError>(old(self).next_id_spec())
                            && final(self).entries_spec() == old(self).entries_spec().push(
                            EntryModel {
                                id: old(self).next_id_spec(),
                                subject: subject@,
                                version: next_version(old(self).entries_spec(), subject@),
                                schema_str: schema_str@,
                                message_name: message_name@,
                                fields: fields_model(fs@),
                                deleted: false,
                            },
                        ) && final(self).next_id_spec() == if old(self).next_id_spec() == u64::MAX {
                            0
                        } else {
                            (old(self).next_id_spec() + 1) as u64
                        },
                    },
                },
            },
    {
        if let Some(id) = self.find_existing(subject, schema_str, message_name) {
            return Ok(id);
        }
        let fields = match compiled {
            Ok(fs) => fs,
            Err(e) => {
                return Err(SchemaRegistryError::CompileError(e));
            },
        };
        let level = self.effective_compat(subject);
        match self.latest_pos(subject) {
            Some(p) => {
                match check_compat(self.entries[p].fields.as_slice(), fields.as_slice(), level) {
                    Err(m) => {
                        return Err(SchemaRegistryError::IncompatibleSchema(m));
                    },
                    Ok(()) => {},
                }
            },
            None => {},
        }
        let version = match self.top_version_of(subject) {
            Some(v) => v + 1,
            None => 1,
        };
        let id = alloc_id(&mut self.ids);
        let ghost before = self.entries_spec();
        let entry = SchemaEntry {
            id,
            subject: subject.to_owned(),
            version,
            format: SchemaFormat::Protobuf,
            schema_str: schema_str.to_owned(),
            message_name: message_name.to_owned(),
            fields,
            deleted: false,
        };
        self.entries.push(entry);
        assert(self.entries_spec() =~= before.push(entry_model(entry)));
        Ok(id)
    }

    /// Puts back a version read from the log, with its id and version,
    /// and keeps later ids above it.
    pub fn register_recovered(
        &mut self,
        id: u64,
        subject: &str,
        version: u32,
        schema_str: String,
        message_name: String,
        fields: Vec<RegisteredField>,
    )
        requires
            id < u64::MAX,
        ensures
            final(self).entries_spec() == old(self).entries_spec().push(
                EntryModel {
                    id,
                    subject: subject@,
                    version,
                    schema_str: schema_str@,
                    message_name: message_name@,
                    fields: fields_model(fields@),
                    deleted: false,
                },
            ),
            final(self).next_id_spec() == if old(self).next_id_spec() >= id + 1 {
                old(self).next_id_spec()
            } else {
                (id + 1) as u64
            },
            final(self).global_spec() == old(self).global_spec(),
            final(self).levels_spec() == old(self).levels_spec(),
    {
        let ghost before = self.entries_spec();
        let entry = SchemaEntry {
            id,
            subject: subject.to_owned(),
            version,
            format: SchemaFormat::Protobuf,
            schema_str,
            message_name,
            fields,
            deleted: false,
        };
        self.entries.push(entry);
        assert(self.entries_spec() =~= before.push(entry_model(entry)));
        advance_id_counter(&mut self.ids, id + 1);
    }

    /// The version registered under `id`, deleted or not.
    pub fn get_by_id(&self, id: u64) -> (r: Option<SchemaEntry>)
        ensures
            match entry_with_id(self.entries_spec(), id) {
                Some(m) => r matches Some(e) && entry_model(e) == m,
                None => r is None,
            },
    {
        let ghost v = self.entries_spec();
        let mut i: usize = self.entries.len();
        assert(v.subrange(0, i as int) =~= v);
        while i > 0
            invariant
                i <= self.entries@.len(),
                v == self.entries_spec(),
                entry_with_id(v, id) == entry_with_id(v.subrange(0, i as int), id),
            decreases i,
        {
            let ghost pre = v.subrange(0, i as int);
            assert(pre.drop_last() =~= v.subrange(0, i - 1));
            assert(pre.last() == entry_model(self.entries@[i - 1]));
            if self.entries[i - 1].id == id {
                return Some(copy_entry(&self.entries[i - 1]));
            }
            i = i - 1;
        }
        assert(v.subrange(0, 0) =~= Seq::<EntryModel>::empty());
        None
    }

    /// The subjects with a live version, each once.
    pub fn list_subjects(&self) -> (r: Vec<String>)
        ensures
            r@.map_values(|s: String| s@) == live_subjects(self.entries_spec()),
    {
        let ghost v = self.entries_spec();
        let mut out: Vec<String> = Vec::new();
        let mut i: usize = 0;
        assert(v.subrange(0, 0) =~= Seq::<EntryModel>::empty());
        while i < self.entries.len()
            invariant
                i <= self.entries@.len(),
                v == self.entries_spec(),
                out@.map_values(|s: String| s@) == live_subjects(v.subrange(0, i as int)),
            decreases self.entries@.len() - i,
        {
            let ghost pre = v.subrange(0, i + 1);
            assert(pre.drop_last() =~= v.subrange(0, i as int));
            assert(pre.last() == entry_model(self.entries@[i as int]));
            let ghost before = out@.map_values(|s: String| s@);
            let e = &self.entries[i];
            if !e.deleted {
                let mut seen = false;
                let mut j: usize = 0;
                while j < out.len()
                    invariant
                        j <= out@.len(),
                        before == out@.map_values(|s: String| s@),
                        seen == exists|k: int| 0 <= k < j && #[trigger] before[k] == e.subject@,
                    decreases out@.len() - j,
                {
                    assert(before[j as int] == out@[j as int]@);
                    if str_eq(out[j].as_str(), e.subject.as_str()) {
                        seen = true;
                    }
                    j = j + 1;
                }
                if !seen {
                    out.push(e.subject.clone());
                    assert(out@.map_values(|s: String| s@) =~= before.push(e.subject@));
                }
            }
            i = i + 1;
        }
        assert(v.subrange(0, i as int) =~= v);
        out
    }

    /// The live versions of `subject`, or `None` if it was never
    /// registered.
    pub fn list_versions(&self, subject: &str) -> (r: Option<Vec<u32>>)
        ensures
            subject_known(self.entries_spec(), subject@) ==> (r matches Some(vs) && vs@ == live_versions(
                self.entries_spec(),
                subject@,
            )),
            !subject_known(self.entries_spec(), subject@) ==> r is None,
    {
        let ghost v = self.entries_spec();
        let mut out: Vec<u32> = Vec::new();
        let mut known = false;
        let mut i: usize = 0;
        assert(v.subrange(0, 0) =~= Seq::<EntryModel>::empty());
        while i < self.entries.len()
            invariant
                i <= self.entries@.len(),
                v == self.entries_spec(),
                out@ == live_versions(v.subrange(0, i as int), subject@),
                known == exists|k: int| 0 <= k < i && (#[trigger] v[k]).subject == subject@,
            decreases self.entries@.len() - i,
        {
            let ghost pre = v.subrange(0, i + 1);
            assert(pre.drop_last() =~= v.subrange(0, i as int));
            assert(pre.last() == entry_model(self.entries@[i as int]));
            assert(v[i as int] == entry_model(self.entries@[i as int]));
            let e = &self.entries[i];
            if str_eq(e.subject.as_str(), subject) {
                known = true;
                if !e.deleted {
                    out.push(e.version);
                }
            }
            i = i + 1;
        }
        assert(v.subrange(0, i as int) =~= v);
        if known {
            Some(out)
        } else {
            None
        }
    }

    /// The live version `version` of `subject`.
    pub fn get_version(&self, subject: &str, version: u32) -> (r: Option<SchemaEntry>)
        ensures
            match live_version(self.entries_spec(), subject@, version) {
                Some(m) => r matches Some(e) && entry_model(e) == m,
                None => r is None,
            },
    {
        let ghost v = self.entries_spec();
        assert(v.subrange(0, v.len() as int) =~= v);
        let mut i: usize = 0;
        while i < self.entries.len()
            invariant
                i <= self.entries@.len(),
                v == self.entries_spec(),
                live_version(v, subject@, version) == live_version(
                    v.subrange(i as int, v.len() as int),
                    subject@,
                    version,
                ),
            decreases self.entries@.len() - i,
        {
            let ghost rest = v.subrange(i as int, v.len() as int);
            assert(rest.drop_first() =~= v.subrange(i + 1, v.len() as int));
            assert(rest[0] == entry_model(self.entries@[i as int]));
            let e = &self.entries[i];
            if !e.deleted && e.version == version && str_eq(e.subject.as_str(), subject) {
                return Some(copy_entry(e));
            }
            i = i + 1;
        }
        assert(v.subrange(i as int, v.len() as int) =~= Seq::<EntryModel>::empty());
        None
    }

    /// Every live version, in registration order.
    pub fn list_all(&self) -> (r: Vec<SchemaEntry>)
        ensures
            r@.map_values(|e: SchemaEntry| entry_model(e)) == live_entries(self.entries_spec()),
    {
        let ghost v = self.entries_spec();
        let mut out: Vec<SchemaEntry> = Vec::new();
        let mut i: usize = 0;
        assert(v.subrange(0, 0) =~= Seq::<EntryModel>::empty());
        while i < self.entries.len()
            invariant
                i <= self.entries@.len(),
                v == self.entries_spec(),
                out@.map_values(|e: SchemaEntry| entry_model(e)) == live_entries(v.subrange(0, i as int)),
            decreases self.entries@.len() - i,
        {
            let ghost pre = v.subrange(0, i + 1);
            assert(pre.drop_last() =~= v.subrange(0, i as int));
            assert(pre.last() == entry_model(self.entries@[i as int]));
            let ghost before = out@.map_values(|e: SchemaEntry| entry_model(e));
            if !self.entries[i].deleted {
                let c = copy_entry(&self.entries[i]);
                out.push(c);
                assert(out@.map_values(|e: SchemaEntry| entry_model(e)) =~= before.push(
                    entry_model(self.entries@[i as int]),
                ));
            }
            i = i + 1;
        }
        assert(v.subrange(0, i as int) =~= v);
        out
    }

    /// Soft-deletes every live version of `subject`; their versions, in
    /// order.
    pub fn delete_subject(&mut self, subject: &str) -> (r: Vec<u32>)
        ensures
            r@ == live_versions(old(self).entries_spec(), subject@),
            final(self).entries_spec() == without_subject(old(self).entries_spec(), subject@),
            final(self).global_spec() == old(self).global_spec(),
            final(self).levels_spec() == old(self).levels_spec(),
            final(self).next_id_spec() == old(self).next_id_spec(),
    {
        let ghost v = self.entries_spec();
        let mut out: Vec<u32> = Vec::new();
        let mut i: usize = 0;
        assert(v.subrange(0, 0) =~= Seq::<EntryModel>::empty());
        while i < self.entries.len()
            invariant
                i <= self.entries@.len(),
                self.entries@.len() == v.len(),
                v == old(self).entries_spec(),
                self.global_compat == old(self).global_compat,
                self.subject_compat == old(self).subject_compat,
                self.ids == old(self).ids,
                out@ == live_versions(v.subrange(0, i as int), subject@),
                forall|k: int| 0 <= k < v.len() ==> #[trigger] entry_model(self.entries@[k]) == if k < i
                    && live_of(v[k], subject@) {
                    deleted(v[k])
                } else {
                    v[k]
                },
            decreases self.entries@.len() - i,
        {
            let ghost pre = v.subrange(0, i + 1);
            assert(pre.drop_last() =~= v.subrange(0, i as int));
            assert(entry_model(self.entries@[i as int]) == v[i as int]);
            assert(pre.last() == v[i as int]);
            if !self.entries[i].deleted && str_eq(self.entries[i].subject.as_str(), subject) {
                out.push(self.entries[i].version);
                let mut e = copy_entry(&self.entries[i]);
                e.deleted = true;
                let ghost others = self.entries@;
                self.entries.set(i, e);
                assert forall|k: int| 0 <= k < v.len() && k != i implies self.entries@[k] == others[k] by {}
            }
            i = i + 1;
        }
        assert(v.subrange(0, i as int) =~= v);
        assert(self.entries_spec() =~= without_subject(v, subject@));
        out
    }

    /// Soft-deletes the first version `version` of `subject`, whether or
    /// not it is already deleted; whether there was one.
    pub fn delete_version(&mut self, subject: &str, version: u32) -> (r: bool)
        ensures
            ({
                let p = version_pos(old(self).entries_spec(), subject@, version, 0);
                &&& r == (p < old(self).entries_spec().len())
                &&& r ==> final(self).entries_spec() == old(self).entries_spec().update(
                    p,
                    deleted(old(self).entries_spec()[p]),
                )
                &&& !r ==> final(self).entries_spec() == old(self).entries_spec()
            }),
            final(self).global_spec() == old(self).global_spec(),
            final(self).levels_spec() == old(self).levels_spec(),
            final(self).next_id_spec() == old(self).next_id_spec(),
    {
        let ghost v = self.entries_spec();
        let mut i: usize = 0;
        while i < self.entries.len()
            invariant
                i <= self.entries@.len(),
                v == self.entries_spec(),
                v == old(self).entries_spec(),
                self.global_compat == old(self).global_compat,
                self.subject_compat == old(self).subject_compat,
                self.ids == old(self).ids,
                version_pos(v, subject@, version, 0) == version_pos(v, subject@, version, i as int),
            decreases self.entries@.len() - i,
        {
            assert(v[i as int] == entry_model(self.entries@[i as int]));
            if self.entries[i].version == version && str_eq(self.entries[i].subject.as_str(), subject) {
                let mut e = copy_entry(&self.entries[i]);
                e.deleted = true;
                self.entries.set(i, e);
                assert(self.entries_spec() =~= v.update(i as int, deleted(v[i as int])));
                return true;
            }
            i = i + 1;
        }
        assert(version_pos(v, subject@, version, i as int) == v.len());
        false
    }
}

/// Deduplication: once a version is registered under a subject, asking
/// again for the same text and message name finds a live version, the
/// one that was already there before it or else the new one.
pub proof fn lemma_registered_version_is_found(es: Seq<EntryModel>, e: EntryModel)
    requires
        !e.deleted,
    ensures
        existing_id(es.push(e), e.subject, e.schema_str, e.message_name) == Some(
            match existing_id(es, e.subject, e.schema_str, e.message_name) {
                Some(id) => id,
                None => e.id,
            },
        ),
    decreases es.len(),
{
    let es2 = es.push(e);
    if es.len() == 0 {
        assert(es2.drop_first() =~= Seq::<EntryModel>::empty());
    } else {
        assert(es2[0] == es[0]);
        assert(es2.drop_first() =~= es.drop_first().push(e));
        lemma_registered_version_is_found(es.drop_first(), e);
    }
}

/// A new registration's version is above every version the subject ever
/// had (deleted ones too) and is one of them plus one, or 1 for a subject
/// never registered.
pub proof fn lemma_next_version_above_all(es: Seq<EntryModel>, subject: Seq<char>)
    requires
        top_version(es, subject) matches Some(v) ==> v < u32::MAX,
    ensures
        forall|i: int| 0 <= i < es.len() && (#[trigger] es[i]).subject == subject ==> es[i].version < next_version(es, subject),
        (forall|i: int| 0 <= i < es.len() ==> (#[trigger] es[i]).subject != subject) ==> next_version(es, subject) == 1,
        (exists|i: int| 0 <= i < es.len() && (#[trigger] es[i]).subject == subject) ==> exists|i: int|
            0 <= i < es.len() && (#[trigger] es[i]).subject == subject && next_version(es, subject) == es[i].version + 1,
{
    lemma_top_version(es, subject);
}

/// `top_version` is the largest version among the subject's entries, and
/// absent exactly when it has none.
proof fn lemma_top_version(es: Seq<EntryModel>, subject: Seq<char>)
    ensures
        top_version(es, subject) is None <==> forall|i: int| 0 <= i < es.len() ==> (#[trigger] es[i]).subject != subject,
        top_version(es, subject) matches Some(v) ==> {
            &&& forall|i: int| 0 <= i < es.len() && (#[trigger] es[i]).subject == subject ==> es[i].version <= v
            &&& exists|i: int| 0 <= i < es.len() && (#[trigger] es[i]).subject == subject && es[i].version == v
        },
    decreases es.len(),
{
    if es.len() > 0 {
        let init = es.drop_last();
        lemma_top_version(init, subject);
        assert forall|i: int| 0 <= i < init.len() implies init[i] == es[i] by {}
        let last = es.len() - 1;
        if top_version(es, subject) is None {
            assert forall|i: int| 0 <= i < es.len() implies (#[trigger] es[i]).subject != subject by {
                if i < last {
                    assert(init[i] == es[i]);
                }
            }
        }
        if forall|i: int| 0 <= i < es.len() ==> (#[trigger] es[i]).subject != subject {
            assert(es[last].subject != subject);
            assert forall|i: int| 0 <= i < init.len() implies (#[trigger] init[i]).subject != subject by {
                assert(es[i].subject != subject);
            }
        }
        if top_version(es, subject) is Some {
            let v = top_version(es, subject)->Some_0;
            assert forall|i: int| 0 <= i < es.len() && (#[trigger] es[i]).subject == subject implies es[i].version <= v by {
                if i < last {
                    assert(init[i] == es[i]);
                }
            }
            if es.last().subject == subject && (top_version(init, subject) is None || es.last().version >= top_version(init, subject)->Some_0) {
                assert(es[last].version == v);
            } else {
                let j = choose|j: int| 0 <= j < init.len() && (#[trigger] init[j]).subject == subject && init[j].version == top_version(init, subject)->Some_0;
                assert(es[j] == init[j]);
            }
        }
    }
}

/// The latest level set for a subject is the one that applies to it;
/// setting one subject's level leaves every other subject's as it was.
pub proof fn lemma_latest_level_applies(
    ls: Seq<(Seq<char>, CompatibilityLevel)>,
    subject: Seq<char>,
    level: CompatibilityLevel,
    other: Seq<char>,
)
    ensures
        subject_level(ls.push((subject, level)), subject) == Some(level),
        other != subject ==> subject_level(ls.push((subject, level)), other) == subject_level(ls, other),
{
    assert(ls.push((subject, level)).drop_last() =~= ls);
}

} // verus!
