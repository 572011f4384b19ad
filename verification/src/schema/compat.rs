//! Compatibility between versions of a message schema: under `Backward`
//! a new version must keep every field of the old one, by number, with
//! the same type; `Forward` asks the same the other way round, `Full`
//! both, `NoCheck` nothing.

use vstd::prelude::*;
use vstd::string::*;
use crate::routing::topic::str_eq;
use crate::schema::catalog::CompatibilityLevel;
use crate::schema::fields::ProtoKind;
use crate::text::decimal::{decimal_chars, decimal_string};

verus! {

/// A field of a registered message type, as compatibility judges it.
#[derive(Debug, Clone)]
pub struct RegisteredField {
    /// The field number.
    pub number: u32,
    pub name: String,
    pub kind: ProtoKind,
    /// The full name of the message or enum type, empty for scalars.
    pub message_type: String,
    /// How the field's type is shown in messages (its `Debug` form).
    pub kind_label: String,
}

/// The model of a [`RegisteredField`].
pub struct FieldModel {
    pub number: u32,
    pub name: Seq<char>,
    pub kind: ProtoKind,
    pub message_type: Seq<char>,
    pub label: Seq<char>,
}

/// A field seen as its model.
pub open spec fn field_model(f: RegisteredField) -> FieldModel {
    FieldModel { number: f.number, name: f.name@, kind: f.kind, message_type: f.message_type@, label: f.kind_label@ }
}

/// Fields seen as their models.
pub open spec fn fields_model(fs: Seq<RegisteredField>) -> Seq<FieldModel> {
    fs.map_values(|f: RegisteredField| field_model(f))
}

/// The first field numbered `n`.
pub open spec fn field_numbered(fs: Seq<FieldModel>, n: u32) -> Option<FieldModel>
    decreases fs.len(),
{
    if fs.len() == 0 {
        None
    } else if fs[0].number == n {
        Some(fs[0])
    } else {
        field_numbered(fs.drop_first(), n)
    }
}

/// Whether two fields have the same type.
pub open spec fn same_type(a: FieldModel, b: FieldModel) -> bool {
    a.kind == b.kind && a.message_type == b.message_type
}

/// How a message names a field: `Field '<name>' (number <n>)`.
pub open spec fn field_intro_text(f: FieldModel) -> Seq<char> {
    "Field '"@ + f.name + "' (number "@ + decimal_chars(f.number as nat) + ")"@
}

/// The message for a field that changed type.
pub open spec fn changed_text(f: FieldModel, to: FieldModel) -> Seq<char> {
    field_intro_text(f) + " changed type from "@ + f.label + " to "@ + to.label
}

/// The message for a field that was removed.
pub open spec fn removed_text(f: FieldModel) -> Seq<char> {
    field_intro_text(f) + " was removed"@
}

/// The first field of `old`, in order, that `new` does not keep (removed,
/// or under its number with another type), as a message.
pub open spec fn backward_problem(old: Seq<FieldModel>, new: Seq<FieldModel>) -> Option<Seq<char>>
    decreases old.len(),
{
    if old.len() == 0 {
        None
    } else {
        match field_numbered(new, old[0].number) {
            Some(nf) => if !same_type(old[0], nf) {
                Some(changed_text(old[0], nf))
            } else {
                backward_problem(old.drop_first(), new)
            },
            None => Some(removed_text(old[0])),
        }
    }
}

/// What makes `new` incompatible with `old` under `level`, if anything.
pub open spec fn compat_problem(old: Seq<FieldModel>, new: Seq<FieldModel>, level: CompatibilityLevel) -> Option<
    Seq<char>,
> {
    match level {
        CompatibilityLevel::NoCheck => None,
        CompatibilityLevel::Backward => backward_problem(old, new),
        CompatibilityLevel::Forward => backward_problem(new, old),
        CompatibilityLevel::Full => match backward_problem(old, new) {
            Some(m) => Some(m),
            None => backward_problem(new, old),
        },
    }
}

/// Finds the first field numbered `n`.
fn find_field(fs: &[RegisteredField], n: u32) -> (r: Option<&RegisteredField>)
    ensures
        match field_numbered(fields_model(fs@), n) {
            Some(f) => r matches Some(x) && field_model(*x) == f,
            None => r is None,
        },
{
    let ghost v = fields_model(fs@);
    assert(v.subrange(0, v.len() as int) =~= v);
    let mut i: usize = 0;
    while i < fs.len()
        invariant
            i <= fs@.len(),
            v == fields_model(fs@),
            field_numbered(v, n) == field_numbered(v.subrange(i as int, v.len() as int), n),
        decreases fs@.len() - i,
    {
        let ghost rest = v.subrange(i as int, v.len() as int);
        assert(rest.drop_first() =~= v.subrange(i + 1, v.len() as int));
        assert(rest[0] == field_model(fs@[i as int]));
        if fs[i].number == n {
            return Some(&fs[i]);
        }
        i = i + 1;
    }
    assert(v.subrange(i as int, v.len() as int) =~= Seq::<FieldModel>::empty());
    None
}

/// Builds the start of a message about a field: `Field '<name>' (number <n>)`.
fn field_intro(f: &RegisteredField) -> (r: String)
    ensures
        r@ == field_intro_text(field_model(*f)),
{
    let mut s = String::from_str("Field '");
    s.append(f.name.as_str());
    s.append("' (number ");
    let n = decimal_string(f.number as u64);
    s.append(n.as_str());
    s.append(")");
    assert(s@ =~= field_intro_text(field_model(*f)));
    s
}

/// Checks that `new` keeps every field of `old` with its type.
pub fn check_backward(old: &[RegisteredField], new: &[RegisteredField]) -> (r: Result<(), String>)
    ensures
        match backward_problem(fields_model(old@), fields_model(new@)) {
            None => r is Ok,
            Some(m) => r matches Err(s) && s@ == m,
        },
{
    let ghost ov = fields_model(old@);
    let ghost nv = fields_model(new@);
    assert(ov.subrange(0, ov.len() as int) =~= ov);
    let mut i: usize = 0;
    while i < old.len()
        invariant
            i <= old@.len(),
            ov == fields_model(old@),
            nv == fields_model(new@),
            backward_problem(ov, nv) == backward_problem(ov.subrange(i as int, ov.len() as int), nv),
        decreases old@.len() - i,
    {
        let ghost rest = ov.subrange(i as int, ov.len() as int);
        assert(rest.drop_first() =~= ov.subrange(i + 1, ov.len() as int));
        assert(rest[0] == field_model(old@[i as int]));
        let f = &old[i];
        match find_field(new, f.number) {
            Some(nf) => {
                if nf.kind != f.kind || !str_eq(nf.message_type.as_str(), f.message_type.as_str()) {
                    let mut s = field_intro(f);
                    s.append(" changed type from ");
                    s.append(f.kind_label.as_str());
                    s.append(" to ");
                    s.append(nf.kind_label.as_str());
                    assert(s@ =~= changed_text(field_model(*f), field_model(*nf)));
                    return Err(s);
                }
            },
            None => {
                let mut s = field_intro(f);
                s.append(" was removed");
                assert(s@ =~= removed_text(field_model(*f)));
                return Err(s);
            },
        }
        i = i + 1;
    }
    assert(ov.subrange(i as int, ov.len() as int) =~= Seq::<FieldModel>::empty());
    Ok(())
}

/// Checks `new` against `old` under `level`.
pub fn check_compat(old: &[RegisteredField], new: &[RegisteredField], level: CompatibilityLevel) -> (r: Result<
    (),
    String,
>)
    ensures
        match compat_problem(fields_model(old@), fields_model(new@), level) {
            None => r is Ok,
            Some(m) => r matches Err(s) && s@ == m,
        },
{
    match level {
        CompatibilityLevel::NoCheck => Ok(()),
        CompatibilityLevel::Backward => check_backward(old, new),
        CompatibilityLevel::Forward => check_backward(new, old),
        CompatibilityLevel::Full => {
            match check_backward(old, new) {
                Err(m) => Err(m),
                Ok(()) => check_backward(new, old),
            }
        },
    }
}

/// A schema is always compatible with itself.
pub proof fn lemma_self_compatible(fs: Seq<FieldModel>, level: CompatibilityLevel)
    requires
        forall|i: int, j: int| 0 <= i < j < fs.len() ==> fs[i].number != fs[j].number,
    ensures
        compat_problem(fs, fs, level) is None,
{
    lemma_backward_sub(fs, fs, 0);
    assert(fs.subrange(0, fs.len() as int) =~= fs);
}

/// Every field of `old` from `k` on, when it is the field of `new`
/// under its number, leaves no problem.
proof fn lemma_backward_sub(old: Seq<FieldModel>, new: Seq<FieldModel>, k: int)
    requires
        0 <= k <= old.len(),
        old == new,
        forall|i: int, j: int| 0 <= i < j < new.len() ==> new[i].number != new[j].number,
    ensures
        backward_problem(old.subrange(k, old.len() as int), new) is None,
    decreases old.len() - k,
{
    let rest = old.subrange(k, old.len() as int);
    if k < old.len() {
        lemma_backward_sub(old, new, k + 1);
        assert(rest.drop_first() =~= old.subrange(k + 1, old.len() as int));
        lemma_numbered_finds(new, k);
    } else {
        assert(rest.len() == 0);
    }
    if k == 0 {
        assert(rest =~= old);
    }
}

/// In fields with distinct numbers, looking up the number of field `k`
/// finds field `k`.
proof fn lemma_numbered_finds(fs: Seq<FieldModel>, k: int)
    requires
        0 <= k < fs.len(),
        forall|i: int, j: int| 0 <= i < j < fs.len() ==> fs[i].number != fs[j].number,
    ensures
        field_numbered(fs, fs[k].number) == Some(fs[k]),
    decreases fs.len(),
{
    if k > 0 {
        let t = fs.drop_first();
        assert forall|i: int, j: int| 0 <= i < j < t.len() implies t[i].number != t[j].number by {
            assert(t[i] == fs[i + 1] && t[j] == fs[j + 1]);
        }
        assert(fs[0].number != fs[k].number);
        lemma_numbered_finds(t, k - 1);
        assert(t[k - 1] == fs[k]);
    }
}

/// Whether `new` keeps every field of `old`: a field under the same
/// number (the first one) with the same type.
pub open spec fn keeps_all(old: Seq<FieldModel>, new: Seq<FieldModel>) -> bool {
    forall|i: int|
        0 <= i < old.len() ==> (#[trigger] field_numbered(new, old[i].number) matches Some(g) && same_type(old[i], g))
}

/// The backward check finds nothing exactly when the new fields keep
/// every old one.
pub proof fn lemma_backward_ok_iff_keeps_all(old: Seq<FieldModel>, new: Seq<FieldModel>)
    ensures
        backward_problem(old, new) is None <==> keeps_all(old, new),
    decreases old.len(),
{
    if old.len() > 0 {
        lemma_backward_ok_iff_keeps_all(old.drop_first(), new);
        let rest = old.drop_first();
        if keeps_all(old, new) {
            assert(field_numbered(new, old[0].number) matches Some(g) && same_type(old[0], g));
            assert forall|i: int| 0 <= i < rest.len() implies (#[trigger] field_numbered(new, rest[i].number) matches Some(
                g,
            ) && same_type(rest[i], g)) by {
                assert(rest[i] == old[i + 1]);
                assert(field_numbered(new, old[i + 1].number) matches Some(g) && same_type(old[i + 1], g));
            }
        }
        if backward_problem(old, new) is None {
            assert forall|i: int| 0 <= i < old.len() implies (#[trigger] field_numbered(new, old[i].number) matches Some(
                g,
            ) && same_type(old[i], g)) by {
                if i > 0 {
                    assert(old[i] == rest[i - 1]);
                    assert(field_numbered(new, rest[i - 1].number) matches Some(g) && same_type(rest[i - 1], g));
                }
            }
        }
    }
}

/// What each level asks of a new version: nothing under `NoCheck`; under
/// `Backward` that it keep every old field, under `Forward` that the old
/// version keep every new field, and under `Full` both.
pub proof fn lemma_compat_levels(old: Seq<FieldModel>, new: Seq<FieldModel>)
    ensures
        compat_problem(old, new, CompatibilityLevel::NoCheck) is None,
        compat_problem(old, new, CompatibilityLevel::Backward) is None <==> keeps_all(old, new),
        compat_problem(old, new, CompatibilityLevel::Forward) is None <==> keeps_all(new, old),
        compat_problem(old, new, CompatibilityLevel::Full) is None <==> keeps_all(old, new) && keeps_all(new, old),
        compat_problem(old, new, CompatibilityLevel::Full) is None <==> (compat_problem(
            old,
            new,
            CompatibilityLevel::Backward,
        ) is None && compat_problem(old, new, CompatibilityLevel::Forward) is None),
{
    lemma_backward_ok_iff_keeps_all(old, new);
    lemma_backward_ok_iff_keeps_all(new, old);
}

} // verus!
