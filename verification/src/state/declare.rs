//! The flow of `Queue.Declare` once its arguments are read: naming, the
//! refusals in the order the broker applies them, the queue it creates or
//! finds, and the schema it ends up with.
//!
//! The flow runs in two steps: [`declare_prepare`] settles the name, then
//! [`declare_apply`] decides and changes the broker. Per-virtual-host
//! permissions are not modelled here; nothing between the two steps
//! refuses a declaration. Compiling a schema reads and writes files, so
//! the caller compiles (when the options carry a schema) and hands over
//! what that gave.
//!
//! A queue that has a schema keeps it when it is declared again with a
//! schema whose fields differ, unless the declaration carries
//! `x-schema-override`: such a declaration is refused with a schema
//! conflict. Two schemas conflict exactly when their field lists, by name
//! and kind in declaration order, differ.

use vstd::prelude::*;
use crate::amqp::queue_class::{
    check_schema_arguments, declared_options, declared_queue_options, exclusive_lock_check, generated_name,
    generated_queue_name, has_argument, is_reserved_queue_name, locked_for, reserved_name_refused,
    schema_requirement, QueueDeclare, QueueRefusal,
};
use crate::amqp::table::{table_lookup, table_view};
use crate::queue::options::QueueOptionsView;
use crate::queue::priority::total;
use crate::queue::state::QueueModel;
use crate::schema::catalog::SchemaCompileError;
use crate::schema::error::ErrorCode;
use crate::schema::fields::{fields_view, ProtoKind};
use crate::schema::proto::QueueSchema;
use crate::routing::topic::str_eq;
use crate::state::broker::{
    default_bound, exclusive_recorded, find_queue, fresh_queue, lemma_name_pos, name_pos, queues_model,
    stores_fit, BrokerState,
};
use vstd::string::*;
use vstd::utf8::*;

verus! {

/// The id counter one up, wrapping at the end of its range.
pub open spec fn next_id(n: u64) -> u64 {
    if n == u64::MAX {
        0
    } else {
        (n + 1) as u64
    }
}

/// Settles the name of a declaration: an empty name becomes
/// `amq.gen-<id>` with the broker's next message id; a non-passive
/// declaration of a reserved `amq.` name is refused. Nothing else changes.
pub fn declare_prepare(broker: &mut BrokerState, decl: QueueDeclare) -> (r: Result<QueueDeclare, QueueRefusal>)
    ensures
        decl.name@.len() == 0 ==> (r matches Ok(d) && d.name@ == generated_name(old(broker).next_msg_id)
            && d.passive == decl.passive && d.durable == decl.durable && d.exclusive == decl.exclusive
            && d.auto_delete == decl.auto_delete && d.no_wait == decl.no_wait && d.arguments == decl.arguments)
            && *final(broker) == (BrokerState { next_msg_id: next_id(old(broker).next_msg_id), ..*old(broker) }),
        decl.name@.len() > 0 ==> *final(broker) == *old(broker) && r == if reserved_name_refused(
            decl.name@,
            decl.passive,
        ) {
            Err::<QueueDeclare, QueueRefusal>(QueueRefusal::ReservedName)
        } else {
            Ok::<QueueDeclare, QueueRefusal>(decl)
        },
{
    if decl.name.as_str().unicode_len() == 0 {
        let id = broker.alloc_msg_id();
        let name = generated_queue_name(id);
        return Ok(QueueDeclare { name, ..decl });
    }
    if is_reserved_queue_name(decl.name.as_str(), decl.passive) {
        return Err(QueueRefusal::ReservedName);
    }
    Ok(decl)
}

/// How a declaration ends.
pub enum DeclareOutcome {
    /// Refused with a channel error.
    Refused(QueueRefusal),
    /// Refused for its schema arguments.
    SchemaError(ErrorCode),
    /// The queue exists: its name, message and consumer counts, whether
    /// no reply is wanted, and whether it was created now.
    Declared { name: String, message_count: usize, consumer_count: usize, no_wait: bool, created: bool },
}

/// The schema a declaration brings: none without schema arguments; with
/// them, what compiling gave, or why it is refused.
pub open spec fn declared_schema(
    req: Result<Option<Seq<char>>, ErrorCode>,
    compiled: Option<Result<QueueSchema, SchemaCompileError>>,
) -> Result<Option<QueueSchema>, ErrorCode> {
    match req {
        Err(e) => Err(e),
        Ok(None) => Ok(None),
        Ok(Some(_)) => match compiled {
            Some(Ok(fs)) => Ok(Some(fs)),
            _ => Err(ErrorCode::SchemaCompileFailed),
        },
    }
}

/// A queue's schema after a declaration: dropped by `x-schema-delete`,
/// else replaced by a declared one, else kept.
pub open spec fn schema_after(old: Option<QueueSchema>, delete: bool, new: Option<QueueSchema>) -> Option<
    QueueSchema,
> {
    if delete {
        None
    } else if new is Some {
        new
    } else {
        old
    }
}

/// Whether a schema declared for a queue conflicts with the one it has:
/// their field lists differ.
pub open spec fn schemas_conflict(existing: QueueSchema, declared: QueueSchema) -> bool {
    fields_view(existing.fields@) != fields_view(declared.fields@)
}

/// Tells whether `declared` conflicts with `existing` (see
/// [`schemas_conflict`]).
pub fn schema_conflicts(existing: &QueueSchema, declared: &QueueSchema) -> (r: bool)
    ensures
        r == schemas_conflict(*existing, *declared),
{
    let a = &existing.fields;
    let b = &declared.fields;
    if a.len() != b.len() {
        assert(fields_view(existing.fields@).len() != fields_view(declared.fields@).len());
        return true;
    }
    let mut i: usize = 0;
    while i < a.len()
        invariant
            a@.len() == b@.len(),
            i <= a@.len(),
            a@ == existing.fields@,
            b@ == declared.fields@,
            forall|j: int| 0 <= j < i ==> (#[trigger] fields_view(existing.fields@)[j]) == fields_view(declared.fields@)[j],
        decreases a@.len() - i,
    {
        let same_kind = match (a[i].kind, b[i].kind) {
            (ProtoKind::Double, ProtoKind::Double) | (ProtoKind::Float, ProtoKind::Float) | (
                ProtoKind::Int32,
                ProtoKind::Int32,
            ) | (ProtoKind::Int64, ProtoKind::Int64) | (ProtoKind::Uint32, ProtoKind::Uint32) | (
                ProtoKind::Uint64,
                ProtoKind::Uint64,
            ) | (ProtoKind::Sint32, ProtoKind::Sint32) | (ProtoKind::Sint64, ProtoKind::Sint64) | (
                ProtoKind::Fixed32,
                ProtoKind::Fixed32,
            ) | (ProtoKind::Fixed64, ProtoKind::Fixed64) | (ProtoKind::Sfixed32, ProtoKind::Sfixed32) | (
                ProtoKind::Sfixed64,
                ProtoKind::Sfixed64,
            ) | (ProtoKind::Bool, ProtoKind::Bool) | (ProtoKind::String, ProtoKind::String) | (
                ProtoKind::Bytes,
                ProtoKind::Bytes,
            ) | (ProtoKind::Enum, ProtoKind::Enum) | (ProtoKind::Message, ProtoKind::Message) => true,
            _ => false,
        };
        if !same_kind || !str_eq(a[i].name.as_str(), b[i].name.as_str()) {
            assert(fields_view(existing.fields@)[i as int] != fields_view(declared.fields@)[i as int]);
            return true;
        }
        assert(fields_view(existing.fields@)[i as int] == fields_view(declared.fields@)[i as int]);
        i = i + 1;
    }
    assert(fields_view(existing.fields@) =~= fields_view(declared.fields@));
    false
}

/// Whether the declaration carries `x-schema-override`.
pub open spec fn decl_overrides_schema(d: QueueDeclare) -> bool {
    table_lookup(table_view(d.arguments@), encode_utf8("x-schema-override"@)) is Some
}

/// Whether a declaration is refused for a schema conflict: the queue at
/// `p` exists with a schema, the declaration brings one that conflicts
/// with it, and neither removes nor overrides the schema.
pub open spec fn conflict_refused(
    m: Seq<(Seq<char>, QueueModel)>,
    p: int,
    d: QueueDeclare,
    new: Option<QueueSchema>,
) -> bool {
    &&& p < m.len()
    &&& !decl_deletes_schema(d)
    &&& !decl_overrides_schema(d)
    &&& new matches Some(ns) && m[p].1.schema matches Some(os) && schemas_conflict(os, ns)
}

/// The options a declaration asks for.
pub open spec fn decl_options(d: QueueDeclare) -> QueueOptionsView {
    declared_options(d.durable, d.exclusive, d.auto_delete, table_view(d.arguments@))
}

/// Whether the declaration carries `x-schema-delete`.
pub open spec fn decl_deletes_schema(d: QueueDeclare) -> bool {
    table_lookup(table_view(d.arguments@), encode_utf8("x-schema-delete"@)) is Some
}

/// The queues after a declaration that is not refused: the queue named
/// `name` is created last when missing (owned by `conn_id` when
/// exclusive), and its schema follows [`schema_after`].
pub open spec fn declared_queues(
    qs: Seq<(Seq<char>, QueueModel)>,
    name: Seq<char>,
    opts: QueueOptionsView,
    conn_id: u64,
    delete: bool,
    new: Option<QueueSchema>,
) -> Seq<(Seq<char>, QueueModel)> {
    let p = name_pos(qs, name, 0);
    let qs1 = if p < qs.len() {
        qs
    } else {
        qs.push((name, fresh_queue(opts, name, if opts.exclusive { Some(conn_id) } else { None })))
    };
    let q = qs1[p].1;
    qs1.update(p, (qs1[p].0, QueueModel { schema: schema_after(q.schema, delete, new), ..q }))
}

/// Sets the schema of the first queue named `name` as [`schema_after`]
/// says; its message and consumer counts.
fn set_schema_of(broker: &mut BrokerState, name: &str, delete: bool, new: Option<QueueSchema>) -> (r: (usize, usize))
    requires
        stores_fit(old(broker).queues@, 0),
        name_pos(queues_model(old(broker).queues@), name@, 0) < old(broker).queues@.len(),
    ensures
        ({
            let m = queues_model(old(broker).queues@);
            let p = name_pos(m, name@, 0);
            &&& queues_model(final(broker).queues@) == m.update(
                p,
                (m[p].0, QueueModel { schema: schema_after(m[p].1.schema, delete, new), ..m[p].1 }),
            )
            &&& r.0 == total(m[p].1.messages)
            &&& r.1 == m[p].1.consumer_tags.len()
        }),
        stores_fit(final(broker).queues@, 0),
        *final(broker) == (BrokerState { queues: final(broker).queues, ..*old(broker) }),
{
    let ghost m = queues_model(broker.queues@);
    let ghost b1 = broker.queues@;
    let p1 = find_queue(&broker.queues, name);
    proof {
        lemma_name_pos(m, name@, 0);
    }
    let (qname, mut q) = broker.queues.remove(p1);
    assert(b1[p1 as int] == (qname, q));
    let ghost qm = q@;
    if delete {
        q.schema = None;
    } else if new.is_some() {
        q.schema = new;
    }
    assert(q@ =~= QueueModel { schema: schema_after(qm.schema, delete, new), ..qm });
    proof {
        q.messages.lemma_wf_shape();
    }
    let message_count = q.messages.len();
    let consumer_count = q.consumer_tags.len();
    broker.queues.insert(p1, (qname, q));
    assert(queues_model(broker.queues@) =~= m.update(p1 as int, (m[p1 as int].0, q@)));
    assert forall|i: int| 0 <= i < broker.queues@.len() implies (#[trigger] broker.queues@[i]).1.messages.wf()
        && broker.queues@[i].1.messages.len_spec() + 0 < usize::MAX by {
        if i != p1 {
            assert(broker.queues@[i] == b1[i]);
        }
    }
    (message_count, consumer_count)
}

/// Decides a declaration whose name is settled, for connection `conn_id`,
/// and carries it out. In order: a passive declaration only reports the
/// queue, or refuses a missing one; an exclusive queue of another
/// connection is refused; schema arguments must be complete and
/// supported, and a schema must have compiled (`compiled` is what
/// compiling gave); then the queue is declared as
/// [`BrokerState::declare_queue`] does and its schema set. The counts
/// reported are those of the queue afterwards.
#[verifier::spinoff_prover]
#[verifier::rlimit(60)]
pub fn declare_apply(
    broker: &mut BrokerState,
    conn_id: u64,
    decl: QueueDeclare,
    compiled: Option<Result<QueueSchema, SchemaCompileError>>,
) -> (r: DeclareOutcome)
    requires
        stores_fit(old(broker).queues@, 0),
    ensures
        stores_fit(final(broker).queues@, 0),
        ({
            let m = queues_model(old(broker).queues@);
            let p = name_pos(m, decl.name@, 0);
            let opts = decl_options(decl);
            let schema = declared_schema(schema_requirement(opts), compiled);
            if decl.passive {
                *final(broker) == *old(broker) && if p < m.len() {
                    r matches DeclareOutcome::Declared { name, message_count, consumer_count, no_wait, created }
                        && name@ == decl.name@ && message_count == total(m[p].1.messages)
                        && consumer_count == m[p].1.consumer_tags.len() && no_wait == decl.no_wait && !created
                } else {
                    r matches DeclareOutcome::Refused(QueueRefusal::NotFound)
                }
            } else if p < m.len() && locked_for(true, m[p].1.options.exclusive, m[p].1.owner_conn_id, conn_id) {
                *final(broker) == *old(broker) && r matches DeclareOutcome::Refused(QueueRefusal::Locked)
            } else if schema is Err {
                *final(broker) == *old(broker) && r == DeclareOutcome::SchemaError(schema->Err_0)
            } else if conflict_refused(m, p, decl, schema->Ok_0) {
                *final(broker) == *old(broker) && r == DeclareOutcome::SchemaError(ErrorCode::SchemaConflict)
            } else {
                let after = declared_queues(m, decl.name@, opts, conn_id, decl_deletes_schema(decl), schema->Ok_0);
                let q = after[p].1;
                &&& queues_model(final(broker).queues@) == after
                &&& default_bound(old(broker).exchanges@, final(broker).exchanges@, decl.name@)
                &&& (p >= m.len() && opts.exclusive) ==> exclusive_recorded(
                    old(broker).conn_exclusive_queues@,
                    final(broker).conn_exclusive_queues@,
                    conn_id,
                    decl.name@,
                )
                &&& !(p >= m.len() && opts.exclusive) ==> final(broker).conn_exclusive_queues@
                    == old(broker).conn_exclusive_queues@
                &&& *final(broker) == (BrokerState {
                    queues: final(broker).queues,
                    conn_exclusive_queues: final(broker).conn_exclusive_queues,
                    exchanges: final(broker).exchanges,
                    ..*old(broker)
                })
                &&& r matches DeclareOutcome::Declared { name, message_count, consumer_count, no_wait, created }
                    && name@ == decl.name@ && message_count == total(q.messages)
                    && consumer_count == q.consumer_tags.len() && no_wait == decl.no_wait && created == (p >= m.len())
            }
        }),
{
    let ghost m = queues_model(broker.queues@);
    let ghost q0 = broker.queues@;
    let p = find_queue(&broker.queues, decl.name.as_str());
    proof {
        lemma_name_pos(m, decl.name@, 0);
    }
    if decl.passive {
        if p >= broker.queues.len() {
            return DeclareOutcome::Refused(QueueRefusal::NotFound);
        }
        let q = &broker.queues[p].1;
        proof {
            q.messages.lemma_wf_shape();
        }
        let message_count = q.messages.len();
        let consumer_count = q.consumer_tags.len();
        return DeclareOutcome::Declared { name: decl.name, message_count, consumer_count, no_wait: decl.no_wait, created: false };
    }
    if p < broker.queues.len() {
        let q = &broker.queues[p].1;
        if exclusive_lock_check(true, q.options.exclusive, q.owner_conn_id, conn_id).is_err() {
            return DeclareOutcome::Refused(QueueRefusal::Locked);
        }
    }
    let opts = declared_queue_options(decl.durable, decl.exclusive, decl.auto_delete, decl.arguments.as_slice());
    let new_schema: Option<QueueSchema> = match check_schema_arguments(&opts) {
        Err(e) => {
            return DeclareOutcome::SchemaError(e);
        },
        Ok(None) => None,
        Ok(Some(_)) => match compiled {
            Some(Ok(fs)) => Some(fs),
            _ => {
                return DeclareOutcome::SchemaError(ErrorCode::SchemaCompileFailed);
            },
        },
    };
    let delete = has_argument(decl.arguments.as_slice(), "x-schema-delete");
    let overrides = has_argument(decl.arguments.as_slice(), "x-schema-override");
    proof {
        reveal_strlit("x-schema-delete");
        reveal_strlit("x-schema-override");
    }
    if !delete && !overrides && p < broker.queues.len() {
        assert(m[p as int].1.schema == broker.queues@[p as int].1.schema);
        match (&new_schema, &broker.queues[p].1.schema) {
            (Some(ns), Some(os)) => {
                if schema_conflicts(os, ns) {
                    return DeclareOutcome::SchemaError(ErrorCode::SchemaConflict);
                }
            },
            _ => {},
        }
    }
    let ghost opts_v = opts@;
    let created = broker.declare_queue(conn_id, decl.name.as_str(), opts);
    let ghost m1 = queues_model(broker.queues@);
    proof {
        if created {
            lemma_name_pos(m, decl.name@, 0);
            assert forall|k: int| 0 <= k < m.len() implies (#[trigger] m1[k]).0 != decl.name@ by {
                assert(m1[k] == m[k]);
            }
            crate::state::broker::lemma_name_pos_is(m1, decl.name@, 0, m.len() as int);
        } else {
            assert(m1 == m);
        }
    }
    let (message_count, consumer_count) = set_schema_of(broker, decl.name.as_str(), delete, new_schema);
    assert(queues_model(broker.queues@) =~= declared_queues(m, decl.name@, opts_v, conn_id, delete, new_schema));
    assert(opts_v == decl_options(decl));
    assert(delete == decl_deletes_schema(decl));
    assert(declared_schema(schema_requirement(opts_v), compiled) == Ok::<Option<QueueSchema>, ErrorCode>(new_schema));
    assert(created == (p >= m.len()));
    assert(default_bound(old(broker).exchanges@, broker.exchanges@, decl.name@));
    assert((p >= m.len() && opts_v.exclusive) ==> exclusive_recorded(
        old(broker).conn_exclusive_queues@,
        broker.conn_exclusive_queues@,
        conn_id,
        decl.name@,
    ));
    assert(!(p >= m.len() && opts_v.exclusive) ==> broker.conn_exclusive_queues@ == old(broker).conn_exclusive_queues@);
    assert(*broker == (BrokerState {
        queues: broker.queues,
        conn_exclusive_queues: broker.conn_exclusive_queues,
        exchanges: broker.exchanges,
        ..*old(broker)
    }));
    let ghost after = declared_queues(m, decl.name@, opts_v, conn_id, delete, new_schema);
    let ghost pp = name_pos(m, decl.name@, 0);
    assert(name_pos(m1, decl.name@, 0) == pp);
    assert(message_count == total(after[pp].1.messages));
    assert(consumer_count == after[pp].1.consumer_tags.len());
    DeclareOutcome::Declared { name: decl.name, message_count, consumer_count, no_wait: decl.no_wait, created }
}

} // verus!
