//! Settling deliveries: a consumer's acknowledgement, rejection or
//! negative acknowledgement of a message it was sent.

use vstd::prelude::*;
use crate::queue::message::{Message, QueueMessage};
use crate::queue::state::{inflight_pos, QueueModel};
use crate::state::broker::{conn_pos, lemma_name_pos, queues_model, stores_fit, BrokerState};
use crate::state::tx::{take_delivery, take_inflight, tx_state, TxModel};

verus! {

/// A counter one up, wrapping at the end of its range.
pub open spec fn bumped(n: u64) -> u64 {
    if n == u64::MAX {
        0
    } else {
        (n + 1) as u64
    }
}

/// The queue at `qp` with one more acknowledgement counted.
pub open spec fn count_ack(s: TxModel, qp: int) -> TxModel {
    let q = s.queues[qp].1;
    TxModel { queues: s.queues.update(qp, (s.queues[qp].0, QueueModel { stat_acked: bumped(q.stat_acked), ..q })), ..s }
}

/// A message sent again: marked redelivered, its delivery count one up
/// (wrapping at the end of its range).
pub open spec fn redelivered(m: Message) -> Message {
    Message {
        redelivered: true,
        delivery_count: if m.delivery_count == u32::MAX { 0 } else { (m.delivery_count + 1) as u32 },
        ..m
    }
}

/// The queue at `qp` with `m` back at the front of its priority level.
pub open spec fn put_back(s: TxModel, qp: int, m: Message) -> TxModel {
    let q = s.queues[qp].1;
    TxModel {
        queues: s.queues.update(
            qp,
            (s.queues[qp].0, QueueModel { messages: q.messages.update(m.priority as int, seq![QueueMessage::Full(m)] + q.messages[m.priority as int]), ..q }),
        ),
        ..s
    }
}

/// Acknowledges delivery `tag` for connection `conn_id`: the delivery is
/// taken back as [`take_delivery`] says and, when it was in flight, its
/// queue counts one more acknowledgement. Returns whether it was in flight
/// (and so must be logged as acknowledged).
pub fn ack_delivery(broker: &mut BrokerState, conn_id: u64, tag: u64) -> (r: bool)
    requires
        stores_fit(old(broker).queues@, 0),
    ensures
        ({
            let t = take_delivery(tx_state(*old(broker), Seq::empty()), tag, conn_id);
            &&& r == t.1 is Some
            &&& tx_state(*final(broker), Seq::empty()) == match t.1 {
                Some((qp, _)) => count_ack(t.0, qp),
                None => t.0,
            }
        }),
        stores_fit(final(broker).queues@, 0),
        final(broker).exchanges == old(broker).exchanges,
        final(broker).connections == old(broker).connections,
        final(broker).conn_consumers == old(broker).conn_consumers,
        final(broker).conn_exclusive_queues == old(broker).conn_exclusive_queues,
        final(broker).consumer_index == old(broker).consumer_index,
        final(broker).next_conn_id == old(broker).next_conn_id,
        final(broker).next_msg_id == old(broker).next_msg_id,
{
    match take_inflight(broker, conn_id, tag, Ghost(0)) {
        Some((qp, _)) => {
            let ghost s = tx_state(*broker, Seq::empty());
            let ghost qs = broker.queues@;
            let (name, mut q) = broker.queues.remove(qp);
            assert(qs[qp as int] == (name, q));
            let ghost q0 = q@;
            q.stat_acked = if q.stat_acked == u64::MAX { 0 } else { q.stat_acked + 1 };
            assert(q@ =~= QueueModel { stat_acked: bumped(q0.stat_acked), ..q0 });
            broker.queues.insert(qp, (name, q));
            assert(tx_state(*broker, Seq::empty()) =~= count_ack(s, qp as int));
            assert forall|i: int| 0 <= i < broker.queues@.len() implies (#[trigger] broker.queues@[i]).1.messages.wf()
                && broker.queues@[i].1.messages.len_spec() + 0 < usize::MAX by {
                if i != qp {
                    assert(broker.queues@[i] == qs[i]);
                }
            }
            true
        },
        None => false,
    }
}

/// Rejects, or negatively acknowledges, delivery `tag` for connection
/// `conn_id`: the delivery is taken back as [`take_delivery`] says and,
/// when it was in flight and `requeue` is set, goes back to the front of
/// its priority level marked redelivered, with its delivery count one up;
/// without `requeue` it is discarded. Returns whether it was in flight.
pub fn resolve_negative_delivery(broker: &mut BrokerState, conn_id: u64, tag: u64, requeue: bool) -> (r: bool)
    requires
        stores_fit(old(broker).queues@, 1),
    ensures
        ({
            let t = take_delivery(tx_state(*old(broker), Seq::empty()), tag, conn_id);
            &&& r == t.1 is Some
            &&& tx_state(*final(broker), Seq::empty()) == match t.1 {
                Some((qp, m)) => if requeue {
                    put_back(t.0, qp, redelivered(m))
                } else {
                    t.0
                },
                None => t.0,
            }
        }),
        stores_fit(final(broker).queues@, 0),
        final(broker).exchanges == old(broker).exchanges,
        final(broker).connections == old(broker).connections,
        final(broker).conn_consumers == old(broker).conn_consumers,
        final(broker).conn_exclusive_queues == old(broker).conn_exclusive_queues,
        final(broker).consumer_index == old(broker).consumer_index,
        final(broker).next_conn_id == old(broker).next_conn_id,
        final(broker).next_msg_id == old(broker).next_msg_id,
{
    match take_inflight(broker, conn_id, tag, Ghost(1)) {
        Some((qp, msg)) => {
            if requeue {
                let ghost s = tx_state(*broker, Seq::empty());
                let ghost qs = broker.queues@;
                let mut msg = msg;
                msg.redelivered = true;
                msg.delivery_count = if msg.delivery_count == u32::MAX { 0 } else { msg.delivery_count + 1 };
                let (name, mut q) = broker.queues.remove(qp);
                assert(qs[qp as int] == (name, q));
                let ghost q0 = q@;
                q.messages.push_front(QueueMessage::Full(msg));
                broker.queues.insert(qp, (name, q));
                assert(tx_state(*broker, Seq::empty()) =~= put_back(s, qp as int, msg));
                assert forall|i: int| 0 <= i < broker.queues@.len() implies (#[trigger] broker.queues@[i]).1.messages.wf()
                    && broker.queues@[i].1.messages.len_spec() + 0 < usize::MAX by {
                    if i != qp {
                        assert(broker.queues@[i] == qs[i]);
                    }
                }
            }
            true
        },
        None => false,
    }
}

/// A requeued message goes back to the front of its priority level: after
/// a rejection or negative acknowledgement with requeue of an in-flight
/// message `m` taken from the queue at `qp`, that level is the message,
/// marked redelivered with its delivery count one up, followed by exactly
/// what the level held before; the other levels and queues are unchanged.
pub proof fn lemma_requeue_goes_first(s: TxModel, qp: int, m: Message)
    requires
        0 <= qp < s.queues.len(),
        m.priority < s.queues[qp].1.messages.len(),
    ensures
        ({
            let before = s.queues[qp].1.messages;
            let after = put_back(s, qp, redelivered(m)).queues[qp].1.messages;
            let p = m.priority as int;
            &&& after.len() == before.len()
            &&& after[p].len() == before[p].len() + 1
            &&& after[p][0] == QueueMessage::Full(redelivered(m))
            &&& after[p].drop_first() == before[p]
            &&& after[p][0].redelivered_spec()
            &&& m.delivery_count < u32::MAX ==> after[p][0].delivery_count_spec() == m.delivery_count + 1
            &&& forall|l: int| 0 <= l < before.len() && l != p ==> #[trigger] after[l] == before[l]
        }),
        put_back(s, qp, redelivered(m)).queues.len() == s.queues.len(),
        forall|i: int|
            0 <= i < s.queues.len() && i != qp ==> #[trigger] put_back(s, qp, redelivered(m)).queues[i] == s.queues[i],
        put_back(s, qp, redelivered(m)).queues[qp].1.inflight == s.queues[qp].1.inflight,
{
    let p = m.priority as int;
    let after = put_back(s, qp, redelivered(m)).queues[qp].1.messages;
    assert(after[p].drop_first() =~= s.queues[qp].1.messages[p]);
}

/// Seen through the contract of [`resolve_negative_delivery`] with
/// `requeue`: when the delivery `tag` of `conn_id` was in flight, its
/// message `m` is afterwards the first of its priority level in its
/// queue, marked redelivered, ahead of everything that level held before.
pub proof fn lemma_rejected_requeue_is_first(b0: BrokerState, b1: BrokerState, conn_id: u64, tag: u64)
    requires
        stores_fit(b0.queues@, 0),
        ({
            let t = take_delivery(tx_state(b0, Seq::empty()), tag, conn_id);
            t.1 is Some ==> tx_state(b1, Seq::empty()) == put_back(t.0, t.1->Some_0.0, redelivered(t.1->Some_0.1))
        }),
    ensures
        ({
            let t = take_delivery(tx_state(b0, Seq::empty()), tag, conn_id);
            t.1 matches Some((qp, m)) ==> {
                let level0 = queues_model(b0.queues@)[qp].1.messages[m.priority as int];
                let level1 = queues_model(b1.queues@)[qp].1.messages[m.priority as int];
                &&& level1[0] == QueueMessage::Full(redelivered(m))
                &&& level1.drop_first() == level0
            }
        }),
{
    let s = tx_state(b0, Seq::empty());
    let t = take_delivery(s, tag, conn_id);
    if t.1 is Some {
        let qp = t.1->Some_0.0;
        let m = t.1->Some_0.1;
        let ip = conn_pos(s.index, tag, 0);
        lemma_name_pos(s.queues, s.index[ip].1, 0);
        assert(0 <= qp < s.queues.len());
        assert(t.0.queues[qp].1.messages == s.queues[qp].1.messages);
        assert(b0.queues@[qp].1.messages.wf());
        b0.queues@[qp].1.messages.lemma_wf_shape();
        assert(s.queues[qp].1.messages == b0.queues@[qp].1.messages@);
        lemma_requeue_goes_first(t.0, qp, m);
    }
}

/// `inflight_pos` from `i` lies between `i` and the length.
proof fn lemma_inflight_pos_bounds(v: Seq<(u64, Message)>, tag: u64, i: int)
    requires
        0 <= i <= v.len(),
    ensures
        i <= inflight_pos(v, tag, i) <= v.len(),
    decreases v.len() - i,
{
    if i < v.len() && v[i].0 != tag {
        lemma_inflight_pos_bounds(v, tag, i + 1);
    }
}

/// Seen through the contract of [`ack_delivery`]: when the delivery `tag`
/// of `conn_id` was in flight, its queue counts one more acknowledgement
/// and keeps its messages; the delivery is no longer in flight there.
pub proof fn lemma_ack_counts_once(b0: BrokerState, b1: BrokerState, conn_id: u64, tag: u64)
    requires
        ({
            let t = take_delivery(tx_state(b0, Seq::empty()), tag, conn_id);
            tx_state(b1, Seq::empty()) == match t.1 {
                Some((qp, _)) => count_ack(t.0, qp),
                None => t.0,
            }
        }),
    ensures
        ({
            let t = take_delivery(tx_state(b0, Seq::empty()), tag, conn_id);
            t.1 matches Some((qp, m)) ==> {
                let q0 = queues_model(b0.queues@)[qp].1;
                let q1 = queues_model(b1.queues@)[qp].1;
                &&& q0.stat_acked < u64::MAX ==> q1.stat_acked == q0.stat_acked + 1
                &&& q1.messages == q0.messages
                &&& q1.inflight.len() + 1 == q0.inflight.len()
            }
        }),
{
    let s = tx_state(b0, Seq::empty());
    let t = take_delivery(s, tag, conn_id);
    if t.1 is Some {
        let ip = conn_pos(s.index, tag, 0);
        lemma_name_pos(s.queues, s.index[ip].1, 0);
        let qp = t.1->Some_0.0;
        let q = s.queues[qp].1;
        lemma_inflight_pos_bounds(q.inflight, tag, 0);
    }
}

/// Seen through the contract of [`resolve_negative_delivery`] without
/// `requeue`: an in-flight delivery is dropped — its queue's messages are
/// what they were and it is no longer in flight there.
pub proof fn lemma_reject_without_requeue_discards(b0: BrokerState, b1: BrokerState, conn_id: u64, tag: u64)
    requires
        ({
            let t = take_delivery(tx_state(b0, Seq::empty()), tag, conn_id);
            tx_state(b1, Seq::empty()) == t.0
        }),
    ensures
        ({
            let t = take_delivery(tx_state(b0, Seq::empty()), tag, conn_id);
            t.1 matches Some((qp, m)) ==> {
                let q0 = queues_model(b0.queues@)[qp].1;
                let q1 = queues_model(b1.queues@)[qp].1;
                &&& q1.messages == q0.messages
                &&& q1.inflight.len() + 1 == q0.inflight.len()
            }
        }),
{
    let s = tx_state(b0, Seq::empty());
    let t = take_delivery(s, tag, conn_id);
    if t.1 is Some {
        let ip = conn_pos(s.index, tag, 0);
        lemma_name_pos(s.queues, s.index[ip].1, 0);
        let qp = t.1->Some_0.0;
        let q = s.queues[qp].1;
        lemma_inflight_pos_bounds(q.inflight, tag, 0);
    }
}

} // verus!
