//! Applying a committed transaction: buffered publishes go to the queue
//! named by their routing key, buffered acknowledgements settle their
//! deliveries.

use vstd::prelude::*;
use crate::amqp::session::PendingOp;
use crate::queue::message::{routed_message, Message, QueueMessage};
use crate::queue::state::{inflight_pos, QueueModel, QueueState};
use crate::state::broker::{
    conn_pos, deliveries_model, find_conn, find_queue, lemma_conn_pos, name_pos, queues_model, stores_fit,
    BrokerState,
};

verus! {

/// What a transaction commit changes: the queues, the delivery index
/// (delivery tag to queue name), each connection's deliveries, the next
/// message id, and the acknowledged ids that must be logged.
#[verifier::ext_equal]
pub struct TxModel {
    pub queues: Seq<(Seq<char>, QueueModel)>,
    pub index: Seq<(u64, Seq<char>)>,
    pub deliveries: Seq<(u64, Seq<(Seq<char>, u64)>)>,
    pub next_msg_id: u64,
    pub logged: Seq<u64>,
}

/// The delivery index seen as tags and queue names.
pub open spec fn dindex_model(ix: Seq<(u64, String)>) -> Seq<(u64, Seq<char>)> {
    ix.map_values(|e: (u64, String)| (e.0, e.1@))
}

/// Each connection's deliveries seen as queue names and tags.
pub open spec fn conn_deliveries_model(cd: Seq<(u64, Vec<(String, u64)>)>) -> Seq<(u64, Seq<(Seq<char>, u64)>)> {
    cd.map_values(|e: (u64, Vec<(String, u64)>)| (e.0, deliveries_model(e.1@)))
}

/// The broker seen as what a commit changes, with nothing logged yet.
pub open spec fn tx_model(b: BrokerState) -> TxModel {
    TxModel {
        queues: queues_model(b.queues@),
        index: dindex_model(b.delivery_index@),
        deliveries: conn_deliveries_model(b.conn_deliveries@),
        next_msg_id: b.next_msg_id,
        logged: Seq::empty(),
    }
}

/// Deliveries without those with `tag`, order kept.
pub open spec fn deliveries_without_tag(ds: Seq<(Seq<char>, u64)>, tag: u64) -> Seq<(Seq<char>, u64)>
    decreases ds.len(),
{
    if ds.len() == 0 {
        ds
    } else {
        let prev = deliveries_without_tag(ds.drop_last(), tag);
        if ds.last().1 == tag {
            prev
        } else {
            prev.push(ds.last())
        }
    }
}

/// A publish: the message gets the next id and, when a queue is named by
/// the routing key, goes to the back of its level 0 (a committed publish
/// carries no priority).
pub open spec fn tx_publish(s: TxModel, msg: Message) -> TxModel {
    let p = name_pos(s.queues, msg.routing_key@, 0);
    let next = if s.next_msg_id == u64::MAX { 0 } else { (s.next_msg_id + 1) as u64 };
    if p < s.queues.len() {
        let q = s.queues[p].1;
        TxModel {
            queues: s.queues.update(
                p,
                (s.queues[p].0, QueueModel { messages: q.messages.update(0, q.messages[0].push(QueueMessage::Full(msg))), ..q }),
            ),
            next_msg_id: next,
            ..s
        }
    } else {
        TxModel { next_msg_id: next, ..s }
    }
}

/// Taking delivery `tag` of connection `conn_id` back: the tag leaves the
/// delivery index; when its queue still holds the delivery in flight, the
/// delivery leaves the queue's in-flight messages and the connection's
/// deliveries, and the position of the queue and the message are given.
pub open spec fn take_delivery(s: TxModel, tag: u64, conn_id: u64) -> (TxModel, Option<(int, Message)>) {
    let p = conn_pos(s.index, tag, 0);
    if p >= s.index.len() {
        (s, None)
    } else {
        let s1 = TxModel { index: s.index.remove(p), ..s };
        let qp = name_pos(s.queues, s.index[p].1, 0);
        if qp >= s.queues.len() {
            (s1, None)
        } else {
            let q = s.queues[qp].1;
            let ip = inflight_pos(q.inflight, tag, 0);
            if ip >= q.inflight.len() {
                (s1, None)
            } else {
                let cp = conn_pos(s.deliveries, conn_id, 0);
                (
                    TxModel {
                        queues: s.queues.update(qp, (s.queues[qp].0, QueueModel { inflight: q.inflight.remove(ip), ..q })),
                        deliveries: if cp < s.deliveries.len() {
                            s.deliveries.update(cp, (conn_id, deliveries_without_tag(s.deliveries[cp].1, tag)))
                        } else {
                            s.deliveries
                        },
                        ..s1
                    },
                    Some((qp, q.inflight[ip].1)),
                )
            }
        }
    }
}

/// A buffered acknowledgement of delivery `tag` by connection `conn_id`:
/// the delivery is taken back and, when it was in flight, logged.
pub open spec fn tx_ack(s: TxModel, tag: u64, conn_id: u64) -> TxModel {
    let t = take_delivery(s, tag, conn_id);
    if t.1 is Some {
        TxModel { logged: t.0.logged.push(tag), ..t.0 }
    } else {
        t.0
    }
}

/// One buffered operation applied.
pub open spec fn tx_step(s: TxModel, op: PendingOp, conn_id: u64) -> TxModel {
    match op {
        PendingOp::Publish { exchange, routing_key, headers, body } => tx_publish(
            s,
            routed_message(s.next_msg_id, headers, body, exchange, routing_key),
        ),
        PendingOp::Ack { msg_id } => tx_ack(s, msg_id, conn_id),
    }
}

/// The buffered operations applied in order.
pub open spec fn tx_apply(s: TxModel, ops: Seq<PendingOp>, conn_id: u64) -> TxModel
    decreases ops.len(),
{
    if ops.len() == 0 {
        s
    } else {
        tx_apply(tx_step(s, ops[0], conn_id), ops.drop_first(), conn_id)
    }
}

/// Keys of a mapped sequence are found where they were.
proof fn lemma_index_keys(ix: Seq<(u64, String)>, k: u64, i: int)
    requires
        0 <= i <= ix.len(),
    ensures
        conn_pos(dindex_model(ix), k, i) == conn_pos(ix, k, i),
    decreases ix.len() - i,
{
    if i < ix.len() {
        lemma_index_keys(ix, k, i + 1);
    }
}

/// Keys of a mapped sequence are found where they were.
proof fn lemma_deliveries_keys(cd: Seq<(u64, Vec<(String, u64)>)>, k: u64, i: int)
    requires
        0 <= i <= cd.len(),
    ensures
        conn_pos(conn_deliveries_model(cd), k, i) == conn_pos(cd, k, i),
    decreases cd.len() - i,
{
    if i < cd.len() {
        lemma_deliveries_keys(cd, k, i + 1);
    }
}

/// The position of the first in-flight message with `tag`, or the length.
pub(crate) fn find_inflight(v: &Vec<(u64, Message)>, tag: u64) -> (r: usize)
    ensures
        r as int == inflight_pos(v@, tag, 0),
{
    let mut i: usize = 0;
    while i < v.len()
        invariant
            i <= v@.len(),
            inflight_pos(v@, tag, 0) == inflight_pos(v@, tag, i as int),
        decreases v@.len() - i,
    {
        if v[i].0 == tag {
            return i;
        }
        i = i + 1;
    }
    i
}

/// The deliveries other than those with `tag`, order kept.
fn deliveries_without(v: &Vec<(String, u64)>, tag: u64) -> (r: Vec<(String, u64)>)
    ensures
        deliveries_model(r@) == deliveries_without_tag(deliveries_model(v@), tag),
{
    let ghost m = deliveries_model(v@);
    let mut out: Vec<(String, u64)> = Vec::new();
    let mut i: usize = 0;
    while i < v.len()
        invariant
            i <= v@.len(),
            m == deliveries_model(v@),
            deliveries_model(out@) == deliveries_without_tag(m.subrange(0, i as int), tag),
        decreases v@.len() - i,
    {
        assert(m.subrange(0, i + 1).drop_last() =~= m.subrange(0, i as int));
        assert(m[i as int] == (v@[i as int].0@, v@[i as int].1));
        if v[i].1 != tag {
            let ghost before = deliveries_model(out@);
            out.push((v[i].0.clone(), v[i].1));
            assert(deliveries_model(out@) =~= before.push(m[i as int]));
        }
        i = i + 1;
    }
    assert(m.subrange(0, i as int) =~= m);
    out
}

/// The broker and the acknowledged ids seen as a commit's state.
pub open spec fn tx_state(b: BrokerState, logged: Seq<u64>) -> TxModel {
    TxModel { logged, ..tx_model(b) }
}

/// Takes delivery `tag` of connection `conn_id` back, as
/// [`take_delivery`] says, and gives the message.
pub(crate) fn take_inflight(broker: &mut BrokerState, conn_id: u64, tag: u64, Ghost(extra): Ghost<int>) -> (r: Option<(usize, Message)>)
    requires
        stores_fit(old(broker).queues@, extra),
    ensures
        ({
            let t = take_delivery(tx_state(*old(broker), Seq::empty()), tag, conn_id);
            &&& tx_state(*final(broker), Seq::empty()) == t.0
            &&& match t.1 {
                Some((qp, m)) => r matches Some((p, msg)) && p == qp && msg == m && p < final(broker).queues@.len(),
                None => r is None,
            }
        }),
        stores_fit(final(broker).queues@, extra),
        final(broker).exchanges == old(broker).exchanges,
        final(broker).connections == old(broker).connections,
        final(broker).conn_consumers == old(broker).conn_consumers,
        final(broker).conn_exclusive_queues == old(broker).conn_exclusive_queues,
        final(broker).consumer_index == old(broker).consumer_index,
        final(broker).next_conn_id == old(broker).next_conn_id,
        final(broker).next_msg_id == old(broker).next_msg_id,
{
    let ghost s = tx_state(*broker, Seq::empty());
    let ghost ix = broker.delivery_index@;
    let p = find_conn(&broker.delivery_index, tag);
    proof {
        lemma_index_keys(ix, tag, 0);
        lemma_conn_pos(ix, tag, 0);
    }
    if p >= broker.delivery_index.len() {
        return None;
    }
    let (_, qn) = broker.delivery_index.remove(p);
    assert(dindex_model(broker.delivery_index@) =~= s.index.remove(p as int));
    assert(s.index[p as int].1 == qn@);
    let ghost qs = broker.queues@;
    let qp = find_queue(&broker.queues, qn.as_str());
    if qp >= broker.queues.len() {
        assert(tx_state(*broker, Seq::empty()) =~= TxModel { index: s.index.remove(p as int), ..s });
        return None;
    }
    let (name, mut q) = broker.queues.remove(qp);
    assert(qs[qp as int] == (name, q));
    let ip = find_inflight(&q.inflight, tag);
    if ip >= q.inflight.len() {
        broker.queues.insert(qp, (name, q));
        assert(broker.queues@ =~= qs);
        assert(tx_state(*broker, Seq::empty()) =~= TxModel { index: s.index.remove(p as int), ..s });
        return None;
    }
    let ghost q0 = q@;
    let (_, msg) = q.inflight.remove(ip);
    assert(q@ =~= QueueModel { inflight: q0.inflight.remove(ip as int), ..q0 });
    broker.queues.insert(qp, (name, q));
    assert(queues_model(broker.queues@) =~= s.queues.update(qp as int, (s.queues[qp as int].0, q@)));
    assert forall|i: int| 0 <= i < broker.queues@.len() implies (#[trigger] broker.queues@[i]).1.messages.wf()
        && broker.queues@[i].1.messages.len_spec() + extra < usize::MAX by {
        if i != qp {
            assert(broker.queues@[i] == qs[i]);
        } else {
            assert(qs[i].1.messages == broker.queues@[i].1.messages);
        }
    }
    let ghost cd = broker.conn_deliveries@;
    let cp = find_conn(&broker.conn_deliveries, conn_id);
    proof {
        lemma_deliveries_keys(cd, conn_id, 0);
        lemma_conn_pos(cd, conn_id, 0);
    }
    if cp < broker.conn_deliveries.len() {
        let (c, ds) = broker.conn_deliveries.remove(cp);
        let kept = deliveries_without(&ds, tag);
        broker.conn_deliveries.insert(cp, (c, kept));
        assert(conn_deliveries_model(broker.conn_deliveries@) =~= s.deliveries.update(
            cp as int,
            (conn_id, deliveries_without_tag(s.deliveries[cp as int].1, tag)),
        ));
    }
    assert(tx_state(*broker, Seq::empty()) =~= take_delivery(s, tag, conn_id).0);
    Some((qp, msg))
}

/// Settles a buffered acknowledgement of delivery `tag` by `conn_id`.
fn settle_ack(broker: &mut BrokerState, conn_id: u64, tag: u64, logged: &mut Vec<u64>, Ghost(extra): Ghost<int>)
    requires
        stores_fit(old(broker).queues@, extra),
    ensures
        tx_state(*final(broker), final(logged)@) == tx_ack(tx_state(*old(broker), old(logged)@), tag, conn_id),
        stores_fit(final(broker).queues@, extra),
        final(broker).exchanges == old(broker).exchanges,
        final(broker).connections == old(broker).connections,
        final(broker).conn_consumers == old(broker).conn_consumers,
        final(broker).conn_exclusive_queues == old(broker).conn_exclusive_queues,
        final(broker).consumer_index == old(broker).consumer_index,
        final(broker).next_conn_id == old(broker).next_conn_id,
{
    let ghost s = tx_state(*broker, logged@);
    let ghost s0 = tx_state(*broker, Seq::empty());
    assert(s0 =~= TxModel { logged: Seq::empty(), ..s });
    let taken = take_inflight(broker, conn_id, tag, Ghost(extra));
    let ghost t = take_delivery(s, tag, conn_id);
    assert(take_delivery(s0, tag, conn_id).0 =~= TxModel { logged: Seq::empty(), ..t.0 });
    if taken.is_some() {
        logged.push(tag);
    }
    assert(tx_state(*broker, logged@) =~= tx_ack(s, tag, conn_id));
}

/// Applies a committed transaction's operations in order: each publish
/// gets the next message id and goes to the back of the queue its routing
/// key names, if there is one; each acknowledgement settles its delivery.
/// Returns the ids whose acknowledgement must be logged, in order.
pub fn apply_tx_ops(broker: &mut BrokerState, conn_id: u64, ops: Vec<PendingOp>) -> (logged: Vec<u64>)
    requires
        stores_fit(old(broker).queues@, ops@.len() as int),
    ensures
        tx_state(*final(broker), logged@) == tx_apply(tx_model(*old(broker)), ops@, conn_id),
        stores_fit(final(broker).queues@, 0),
        final(broker).exchanges == old(broker).exchanges,
        final(broker).connections == old(broker).connections,
        final(broker).conn_consumers == old(broker).conn_consumers,
        final(broker).conn_exclusive_queues == old(broker).conn_exclusive_queues,
        final(broker).consumer_index == old(broker).consumer_index,
        final(broker).next_conn_id == old(broker).next_conn_id,
{
    let mut logged: Vec<u64> = Vec::new();
    let mut ops = ops;
    let ghost target = tx_apply(tx_model(*broker), ops@, conn_id);
    assert(tx_state(*broker, logged@) =~= tx_model(*broker));
    while ops.len() > 0
        invariant
            target == tx_apply(tx_state(*broker, logged@), ops@, conn_id),
            stores_fit(broker.queues@, ops@.len() as int),
            broker.exchanges == old(broker).exchanges,
            broker.connections == old(broker).connections,
            broker.conn_consumers == old(broker).conn_consumers,
            broker.conn_exclusive_queues == old(broker).conn_exclusive_queues,
            broker.consumer_index == old(broker).consumer_index,
            broker.next_conn_id == old(broker).next_conn_id,
        decreases ops@.len(),
    {
        let ghost rest = ops@;
        let ghost s = tx_state(*broker, logged@);
        let op = ops.remove(0);
        assert(rest[0] == op);
        assert(rest.drop_first() =~= ops@);
        match op {
            PendingOp::Publish { exchange, routing_key, headers, body } => {
                let id = broker.alloc_msg_id();
                let msg = Message::new_routed(id, headers, body, exchange, routing_key);
                let ghost qs = broker.queues@;
                let p = find_queue(&broker.queues, msg.routing_key.as_str());
                if p < broker.queues.len() {
                    let (name, mut q) = broker.queues.remove(p);
                    assert(qs[p as int] == (name, q));
                    let ghost q0 = q@;
                    q.messages.push_back(QueueMessage::Full(msg));
                    assert(q@ =~= QueueModel {
                        messages: q0.messages.update(0, q0.messages[0].push(QueueMessage::Full(msg))),
                        ..q0
                    });
                    broker.queues.insert(p, (name, q));
                    assert(queues_model(broker.queues@) =~= s.queues.update(p as int, (s.queues[p as int].0, q@)));
                    assert forall|i: int| 0 <= i < broker.queues@.len() implies (#[trigger] broker.queues@[i]).1.messages.wf()
                        && broker.queues@[i].1.messages.len_spec() + ops@.len() < usize::MAX by {
                        if i != p {
                            assert(broker.queues@[i] == qs[i]);
                        }
                    }
                } else {
                    assert(stores_fit(broker.queues@, ops@.len() as int));
                }
                assert(tx_state(*broker, logged@) =~= tx_step(s, rest[0], conn_id));
            },
            PendingOp::Ack { msg_id } => {
                settle_ack(broker, conn_id, msg_id, &mut logged, Ghost(ops@.len() as int));
            },
        }
    }
    logged
}

/// Committing two batches of buffered operations one after the other is
/// the same as committing them together, in order.
pub proof fn lemma_commit_in_sequence(s: TxModel, a: Seq<PendingOp>, b: Seq<PendingOp>, conn_id: u64)
    ensures
        tx_apply(s, a + b, conn_id) == tx_apply(tx_apply(s, a, conn_id), b, conn_id),
    decreases a.len(),
{
    if a.len() == 0 {
        assert(a + b =~= b);
    } else {
        assert((a + b)[0] == a[0]);
        assert((a + b).drop_first() =~= a.drop_first() + b);
        lemma_commit_in_sequence(tx_step(s, a[0], conn_id), a.drop_first(), b, conn_id);
    }
}

} // verus!
