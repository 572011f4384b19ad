//! The flow of `Basic.Consume` once its arguments are read: the refusals
//! in the order the broker applies them, then the subscription.
//!
//! Compiling a consumer's own schema reads and writes files, so the caller
//! compiles (when the arguments carry one) and hands over what that gave.

use vstd::prelude::*;
use crate::amqp::basic_class::{consumer_schema, consumer_schema_spec, exclusive_consumer_refused, BasicConsume};
use crate::amqp::table::table_view;
use crate::queue::state::{generated_tag, tags_insert, QueueModel};
use crate::schema::catalog::SchemaCompileError;
use crate::schema::proto::QueueSchema;
use crate::schema::fields::{check_consumer_subset, extra_names, fields_view, texts_view, SchemaField};
use crate::schema::validate::SchemaValidationError;
use crate::state::broker::{
    consumer_recorded, find_queue, index_insert, index_model, lemma_name_pos, name_pos, queues_model, stores_fit,
    BrokerState,
};

verus! {

/// How a subscription request ends.
pub enum ConsumeOutcome {
    /// An exclusive consumer was asked for on a queue that has consumers.
    ExclusiveRefused,
    /// A consumer schema came without its message name.
    SchemaMessageMissing,
    /// The consumer's schema did not compile.
    SchemaCompileFailed,
    /// The consumer's schema asks for fields the queue's schema lacks.
    SchemaRejected(SchemaValidationError),
    /// No queue of that name.
    NotFound,
    /// Subscribed under `tag`; whether no reply is wanted.
    Consuming { tag: String, no_wait: bool },
}

/// `after` is `before` with channel `channel_id` of `conn_id` subscribed
/// under `tag`: the tag asked for, or a generated one (and the tag
/// counter then one up); the channel listens once; the consumer count
/// follows the listeners; nothing else changes.
pub open spec fn consumer_added(
    before: QueueModel,
    after: QueueModel,
    conn_id: u64,
    channel_id: u16,
    requested: Option<Seq<char>>,
    tag: Seq<char>,
) -> bool {
    let listeners = if before.listeners.contains((conn_id, channel_id)) {
        before.listeners
    } else {
        before.listeners.push((conn_id, channel_id))
    };
    &&& tag == match requested {
        Some(t) => t,
        None => generated_tag(conn_id, before.next_tag_seq),
    }
    &&& after == QueueModel {
        listeners,
        consumer_count: listeners.len() as usize,
        consumer_tags: tags_insert(before.consumer_tags, tag, conn_id, channel_id),
        next_tag_seq: if requested is Some {
            before.next_tag_seq
        } else if before.next_tag_seq == u64::MAX {
            0
        } else {
            (before.next_tag_seq + 1) as u64
        },
        ..before
    }
}

/// The checks of a subscription request, in order.
pub enum ConsumeCheck {
    Exclusive,
    MissingMessage,
    CompileFailed,
    Rejected,
    Proceed,
}

/// Which check a subscription request fails first, if any: an exclusive
/// consumer on a queue with consumers; a consumer schema without message
/// name; one that did not compile; one asking for fields the queue's
/// schema lacks.
pub open spec fn consume_check(
    exclusive_taken: bool,
    schema_args: Result<Option<(Seq<u8>, Seq<char>)>, ()>,
    compiled: Option<Result<Vec<SchemaField>, SchemaCompileError>>,
    queue_schema: Option<QueueSchema>,
) -> ConsumeCheck {
    if exclusive_taken {
        ConsumeCheck::Exclusive
    } else {
        match schema_args {
            Err(_) => ConsumeCheck::MissingMessage,
            Ok(None) => ConsumeCheck::Proceed,
            Ok(Some(_)) => match compiled {
                Some(Ok(fs)) => match queue_schema {
                    Some(qs) => if extra_names(fields_view(qs.fields@), fields_view(fs@)).len() > 0 {
                        ConsumeCheck::Rejected
                    } else {
                        ConsumeCheck::Proceed
                    },
                    None => ConsumeCheck::Proceed,
                },
                _ => ConsumeCheck::CompileFailed,
            },
        }
    }
}

/// The tag a consume request asks for, if any.
pub open spec fn requested_tag(c: BasicConsume) -> Option<Seq<char>> {
    match c.consumer_tag {
        Some(t) => Some(t@),
        None => None,
    }
}

/// Decides a subscription request of channel `channel_id` of connection
/// `conn_id` and carries it out. In order: an exclusive consumer is
/// refused on a queue that has consumers; a consumer schema needs its
/// message name, must have compiled (`compiled` is what compiling gave)
/// and, when the queue has a schema, may ask only for its fields; the
/// queue must exist. Then the channel subscribes as
/// `QueueState::add_consumer` does, without a group, and the consumer is
/// recorded for the connection and indexed by tag.
#[verifier::spinoff_prover]
#[verifier::rlimit(60)]
pub fn consume_apply(
    broker: &mut BrokerState,
    conn_id: u64,
    channel_id: u16,
    c: BasicConsume,
    compiled: Option<Result<Vec<SchemaField>, SchemaCompileError>>,
) -> (r: ConsumeOutcome)
    requires
        stores_fit(old(broker).queues@, 0),
    ensures
        stores_fit(final(broker).queues@, 0),
        ({
            let m = queues_model(old(broker).queues@);
            let p = name_pos(m, c.queue@, 0);
            let queue_schema = if p < m.len() { m[p].1.schema } else { None };
            let check = consume_check(
                c.exclusive && p < m.len() && m[p].1.consumer_tags.len() > 0,
                consumer_schema_spec(table_view(c.arguments@)),
                compiled,
                queue_schema,
            );
            match check {
                ConsumeCheck::Rejected => *final(broker) == *old(broker)
                    && (r matches ConsumeOutcome::SchemaRejected(SchemaValidationError::ConsumerExtraFields { fields })
                    && texts_view(fields@) == extra_names(
                        fields_view(queue_schema->Some_0.fields@),
                        fields_view(compiled->Some_0->Ok_0@),
                    )),
                ConsumeCheck::Exclusive => *final(broker) == *old(broker) && r is ExclusiveRefused,
                ConsumeCheck::MissingMessage => *final(broker) == *old(broker) && r is SchemaMessageMissing,
                ConsumeCheck::CompileFailed => *final(broker) == *old(broker) && r is SchemaCompileFailed,
                ConsumeCheck::Proceed => if p >= m.len() {
                    *final(broker) == *old(broker) && r is NotFound
                } else {
                    let fm = queues_model(final(broker).queues@);
                    &&& r matches ConsumeOutcome::Consuming { tag, no_wait } && no_wait == c.no_wait
                        && consumer_added(m[p].1, fm[p].1, conn_id, channel_id, requested_tag(c), tag@)
                        && consumer_recorded(
                        old(broker).conn_consumers@,
                        final(broker).conn_consumers@,
                        conn_id,
                        (c.queue@, tag@, channel_id),
                    ) && index_model(final(broker).consumer_index@) == index_insert(
                        index_model(old(broker).consumer_index@),
                        tag@,
                        c.queue@,
                    )
                    &&& fm.len() == m.len()
                    &&& fm[p].0 == m[p].0
                    &&& forall|i: int| 0 <= i < m.len() && i != p ==> #[trigger] fm[i] == m[i]
                    &&& *final(broker) == (BrokerState {
                        queues: final(broker).queues,
                        conn_consumers: final(broker).conn_consumers,
                        consumer_index: final(broker).consumer_index,
                        ..*old(broker)
                    })
                },
            }
        }),
{
    let ghost m = queues_model(broker.queues@);
    let ghost b0 = broker.queues@;
    let p = find_queue(&broker.queues, c.queue.as_str());
    proof {
        lemma_name_pos(m, c.queue@, 0);
    }
    let existing = if p < broker.queues.len() {
        broker.queues[p].1.consumer_tags.len()
    } else {
        0
    };
    if exclusive_consumer_refused(c.exclusive, existing) {
        return ConsumeOutcome::ExclusiveRefused;
    }
    match consumer_schema(c.arguments.as_slice()) {
        Err(_) => {
            return ConsumeOutcome::SchemaMessageMissing;
        },
        Ok(None) => {},
        Ok(Some(_)) => match compiled {
            Some(Ok(fs)) => {
                if p < broker.queues.len() {
                    match &broker.queues[p].1.schema {
                        Some(qs) => match check_consumer_subset(qs.fields.as_slice(), fs.as_slice()) {
                            Err(e) => {
                                return ConsumeOutcome::SchemaRejected(e);
                            },
                            Ok(()) => {},
                        },
                        None => {},
                    }
                }
            },
            _ => {
                return ConsumeOutcome::SchemaCompileFailed;
            },
        },
    }
    if p >= broker.queues.len() {
        return ConsumeOutcome::NotFound;
    }
    let (name, mut q) = broker.queues.remove(p);
    assert(b0[p as int] == (name, q));
    let ghost q0 = q@;
    let tag = q.add_consumer(conn_id, channel_id, c.consumer_tag, None);
    assert(q@ =~= QueueModel {
        listeners: q.listeners@,
        consumer_count: q.consumer_count,
        consumer_tags: q@.consumer_tags,
        next_tag_seq: q.next_tag_seq,
        ..q0
    });
    broker.queues.insert(p, (name, q));
    let ghost fm = queues_model(broker.queues@);
    assert(fm =~= m.update(p as int, (m[p as int].0, q@)));
    assert forall|i: int| 0 <= i < broker.queues@.len() implies (#[trigger] broker.queues@[i]).1.messages.wf()
        && broker.queues@[i].1.messages.len_spec() + 0 < usize::MAX by {
        if i != p {
            assert(broker.queues@[i] == b0[i]);
        }
    }
    broker.register_consumer(conn_id, channel_id, c.queue.as_str(), tag.as_str());
    ConsumeOutcome::Consuming { tag, no_wait: c.no_wait }
}

} // verus!
