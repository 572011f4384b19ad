//! Transactions of the native protocol. Select turns transaction mode on
//! with an empty buffer and is always answered; rollback empties the
//! buffer (see [`crate::state::replies::tx_rollback`]); commit applies
//! the buffer as this module says. Outside transaction mode commit and
//! rollback change nothing and are not answered.
//!
//! A native commit checks no schema: each buffered publish takes the next
//! message id and, when a queue is named by its routing key, goes to the
//! back of that queue's lowest level as a bare message (no headers,
//! exchange or routing key); each buffered acknowledgement takes the
//! message of that id out of flight in the first queue that holds it, and
//! is logged.

use vstd::prelude::*;
use crate::amqp::session::{ConnectionState, PendingOp};
use crate::queue::message::{Message, QueueMessage};
use crate::queue::state::{inflight_pos, QueueModel, QueueState};
use crate::state::amqp_publish::id_after;
use crate::state::broker::{find_queue, lemma_name_pos, name_pos, queues_model, stores_fit, BrokerState};
use crate::state::tx::find_inflight;

verus! {

/// What a native commit changes: the queues, the next message id, and the
/// acknowledged ids to log.
#[verifier::ext_equal]
pub struct NativeTxModel {
    pub queues: Seq<(Seq<char>, QueueModel)>,
    pub next_msg_id: u64,
    pub logged: Seq<u64>,
}

/// The broker seen as what a native commit changes.
pub open spec fn native_model(b: BrokerState, logged: Seq<u64>) -> NativeTxModel {
    NativeTxModel { queues: queues_model(b.queues@), next_msg_id: b.next_msg_id, logged }
}

/// Whether `m` is the bare message a native commit publishes: id `id`,
/// body `body`, no headers, exchange or routing key, priority 0, no
/// deadline, not yet delivered.
pub open spec fn bare_message(m: Message, id: u64, body: Seq<u8>) -> bool {
    &&& m.id == id
    &&& m.headers@.len() == 0
    &&& m.body@ == body
    &&& m.priority == 0
    &&& m.expiration is None
    &&& !m.redelivered
    &&& m.delivery_count == 0
    &&& m.exchange@.len() == 0
    &&& m.routing_key@.len() == 0
}

/// The position of the first queue, from `i` on, that holds message `id`
/// in flight, or the length.
pub open spec fn holder_pos(qs: Seq<(Seq<char>, QueueModel)>, id: u64, i: int) -> int
    decreases qs.len() - i,
{
    if i < 0 || i >= qs.len() {
        qs.len() as int
    } else if inflight_pos(qs[i].1.inflight, id, 0) < qs[i].1.inflight.len() {
        i
    } else {
        holder_pos(qs, id, i + 1)
    }
}

/// Whether `s1` is what one buffered operation `op` leaves of `s0`.
pub open spec fn native_stepped(s0: NativeTxModel, s1: NativeTxModel, op: PendingOp) -> bool {
    match op {
        PendingOp::Publish { routing_key, body, .. } => {
            let p = name_pos(s0.queues, routing_key@, 0);
            &&& s1.next_msg_id == id_after(s0.next_msg_id)
            &&& s1.logged == s0.logged
            &&& p >= s0.queues.len() ==> s1.queues == s0.queues
            &&& p < s0.queues.len() ==> exists|m: Message|
                #[trigger] bare_message(m, s0.next_msg_id, body@) && s1.queues == s0.queues.update(
                    p,
                    (
                        s0.queues[p].0,
                        QueueModel {
                            messages: s0.queues[p].1.messages.update(
                                0,
                                s0.queues[p].1.messages[0].push(QueueMessage::Full(m)),
                            ),
                            ..s0.queues[p].1
                        },
                    ),
                )
        },
        PendingOp::Ack { msg_id } => {
            let h = holder_pos(s0.queues, msg_id, 0);
            &&& h >= s0.queues.len() ==> s1 == s0
            &&& h < s0.queues.len() ==> s1 == (NativeTxModel {
                queues: s0.queues.update(
                    h,
                    (
                        s0.queues[h].0,
                        QueueModel {
                            inflight: s0.queues[h].1.inflight.remove(inflight_pos(s0.queues[h].1.inflight, msg_id, 0)),
                            ..s0.queues[h].1
                        },
                    ),
                ),
                logged: s0.logged.push(msg_id),
                ..s0
            })
        },
    }
}

/// Whether `states` go through the operations `ops` in order, one state
/// before each and one after the last.
pub open spec fn native_history(states: Seq<NativeTxModel>, ops: Seq<PendingOp>) -> bool {
    &&& states.len() == ops.len() + 1
    &&& forall|i: int| 0 <= i < ops.len() ==> native_stepped(states[i], states[i + 1], #[trigger] ops[i])
}

/// `holder_pos` from `i` is a position at or after `i`, and a queue it
/// finds holds the message in flight.
proof fn lemma_holder_pos(qs: Seq<(Seq<char>, QueueModel)>, id: u64, i: int)
    requires
        0 <= i <= qs.len(),
    ensures
        i <= holder_pos(qs, id, i) <= qs.len(),
        holder_pos(qs, id, i) < qs.len() ==> inflight_pos(qs[holder_pos(qs, id, i)].1.inflight, id, 0)
            < qs[holder_pos(qs, id, i)].1.inflight.len(),
    decreases qs.len() - i,
{
    if i < qs.len() && !(inflight_pos(qs[i].1.inflight, id, 0) < qs[i].1.inflight.len()) {
        lemma_holder_pos(qs, id, i + 1);
    }
}

/// Finds the first queue that holds message `id` in flight.
fn find_holder(qs: &Vec<(String, QueueState)>, id: u64) -> (r: usize)
    ensures
        r as int == holder_pos(queues_model(qs@), id, 0),
{
    let ghost m = queues_model(qs@);
    let mut i: usize = 0;
    while i < qs.len()
        invariant
            i <= qs@.len(),
            m == queues_model(qs@),
            holder_pos(m, id, 0) == holder_pos(m, id, i as int),
        decreases qs@.len() - i,
    {
        assert(m[i as int].1.inflight == qs@[i as int].1.inflight@);
        let ip = find_inflight(&qs[i].1.inflight, id);
        if ip < qs[i].1.inflight.len() {
            return i;
        }
        i = i + 1;
    }
    i
}

/// Applies one buffered operation of a native commit, as
/// [`native_stepped`] says.
fn commit_op(broker: &mut BrokerState, op: PendingOp, logged: &mut Vec<u64>, Ghost(extra): Ghost<int>)
    requires
        extra >= 0,
        stores_fit(old(broker).queues@, extra + 1),
    ensures
        native_stepped(native_model(*old(broker), old(logged)@), native_model(*final(broker), final(logged)@), op),
        stores_fit(final(broker).queues@, extra),
        *final(broker) == (BrokerState { queues: final(broker).queues, next_msg_id: final(broker).next_msg_id, ..*old(broker) }),
{
    let ghost s0 = native_model(*broker, logged@);
    let ghost op0 = op;
    match op {
        PendingOp::Publish { routing_key, body, .. } => {
            let id = broker.alloc_msg_id();
            let ghost qs = broker.queues@;
            let ghost m = queues_model(qs);
            let p = find_queue(&broker.queues, routing_key.as_str());
            proof {
                lemma_name_pos(m, routing_key@, 0);
            }
            if p < broker.queues.len() {
                let msg = Message::new(id, Vec::new(), body);
                assert(qs[p as int].1.messages.wf() && qs[p as int].1.messages.len_spec() + extra + 1 < usize::MAX);
                let (name, mut q) = broker.queues.remove(p);
                assert(qs[p as int] == (name, q));
                let ghost q0 = q@;
                q.messages.push_back(QueueMessage::Full(msg));
                assert(q@ =~= QueueModel {
                    messages: q0.messages.update(0, q0.messages[0].push(QueueMessage::Full(msg))),
                    ..q0
                });
                broker.queues.insert(p, (name, q));
                assert(queues_model(broker.queues@) =~= m.update(p as int, (m[p as int].0, q@)));
                assert(bare_message(msg, s0.next_msg_id, body@));
                assert forall|i: int| 0 <= i < broker.queues@.len() implies (#[trigger] broker.queues@[i]).1.messages.wf()
                    && broker.queues@[i].1.messages.len_spec() + extra < usize::MAX by {
                    if i != p {
                        assert(broker.queues@[i] == qs[i]);
                    }
                }
            } else {
                assert(stores_fit(broker.queues@, extra));
            }
        },
        PendingOp::Ack { msg_id } => {
            let ghost qs = broker.queues@;
            let ghost m = queues_model(qs);
            let h = find_holder(&broker.queues, msg_id);
            proof {
                lemma_holder_pos(m, msg_id, 0);
            }
            if h < broker.queues.len() {
                let (name, mut q) = broker.queues.remove(h);
                assert(qs[h as int] == (name, q));
                let ghost q0 = q@;
                let ip = find_inflight(&q.inflight, msg_id);
                let _ = q.inflight.remove(ip);
                assert(q@ =~= QueueModel { inflight: q0.inflight.remove(ip as int), ..q0 });
                broker.queues.insert(h, (name, q));
                logged.push(msg_id);
                assert(queues_model(broker.queues@) =~= m.update(h as int, (m[h as int].0, q@)));
                assert forall|i: int| 0 <= i < broker.queues@.len() implies (#[trigger] broker.queues@[i]).1.messages.wf()
                    && broker.queues@[i].1.messages.len_spec() + extra < usize::MAX by {
                    if i != h {
                        assert(broker.queues@[i] == qs[i]);
                    } else {
                        assert(qs[i].1.messages == broker.queues@[i].1.messages);
                    }
                }
                assert(native_model(*broker, logged@) =~= NativeTxModel {
                    queues: m.update(h as int, (m[h as int].0, QueueModel { inflight: m[h as int].1.inflight.remove(ip as int), ..m[h as int].1 })),
                    logged: s0.logged.push(msg_id),
                    ..s0
                });
            } else {
                assert(native_model(*broker, logged@) =~= s0);
            }
        },
    }
}

/// Commits a connection's transaction over the native protocol: outside
/// transaction mode nothing changes and nothing is answered (`None`);
/// otherwise the buffer is emptied and its operations applied in order as
/// [`native_stepped`] says, and the acknowledged ids to log are given
/// (the commit is then answered).
pub fn native_commit(cs: &mut ConnectionState, broker: &mut BrokerState) -> (r: Option<Vec<u64>>)
    requires
        old(cs).wf(),
        stores_fit(old(broker).queues@, old(cs).tx_buffer@.len() as int),
    ensures
        final(cs).wf(),
        !old(cs).tx_mode ==> r is None && *final(cs) == *old(cs) && *final(broker) == *old(broker),
        old(cs).tx_mode ==> *final(cs) == (ConnectionState { tx_buffer: final(cs).tx_buffer, ..*old(cs) })
            && final(cs).tx_buffer@.len() == 0 && (r matches Some(logged) && exists|states: Seq<NativeTxModel>|
            #[trigger] native_history(states, old(cs).tx_buffer@) && states[0] == native_model(*old(broker), Seq::empty())
                && states.last() == native_model(*final(broker), logged@)),
        *final(broker) == (BrokerState { queues: final(broker).queues, next_msg_id: final(broker).next_msg_id, ..*old(broker) }),
        stores_fit(final(broker).queues@, 0),
{
    let mut ops = match cs.take_tx_buffer() {
        None => {
            return None;
        },
        Some(o) => o,
    };
    let ghost all = ops@;
    let mut logged: Vec<u64> = Vec::new();
    let ghost mut states: Seq<NativeTxModel> = seq![native_model(*broker, Seq::empty())];
    let ghost mut done: int = 0;
    while ops.len() > 0
        invariant
            0 <= done <= all.len(),
            ops@ == all.skip(done),
            states.len() == done + 1,
            states[0] == native_model(*old(broker), Seq::empty()),
            states.last() == native_model(*broker, logged@),
            forall|j: int| 0 <= j < done ==> native_stepped(states[j], states[j + 1], #[trigger] all[j]),
            stores_fit(broker.queues@, all.len() - done),
            *broker == (BrokerState { queues: broker.queues, next_msg_id: broker.next_msg_id, ..*old(broker) }),
        decreases all.len() - done,
    {
        let ghost before = native_model(*broker, logged@);
        let op = ops.remove(0);
        assert(op == all[done]);
        commit_op(broker, op, &mut logged, Ghost(all.len() - done - 1));
        proof {
            let s2 = states.push(native_model(*broker, logged@));
            assert forall|j: int| 0 <= j < done + 1 implies native_stepped(s2[j], s2[j + 1], #[trigger] all[j]) by {
                if j < done {
                    assert(s2[j] == states[j]);
                    assert(s2[j + 1] == states[j + 1]);
                } else {
                    assert(s2[j] == before);
                }
            }
            states = s2;
            done = done + 1;
            assert(all.skip(done) =~= all.skip(done - 1).drop_first());
        }
    }
    assert(done == all.len());
    assert(native_history(states, all));
    Some(logged)
}

} // verus!
