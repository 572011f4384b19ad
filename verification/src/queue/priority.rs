//! Multi-level priority message store: one FIFO bucket per priority level.
//!
//! `pop_front` takes the oldest message of the highest non-empty level;
//! `pop_oldest` takes the oldest message of the lowest non-empty level.

use vstd::prelude::*;
use vstd::pervasive::VecAdditionalExecFns;
use crate::queue::message::QueueMessage;

verus! {

/// Number of priority levels (one per `u8` value).
pub const LEVELS: usize = 256;

/// Total number of messages in a list of buckets.
pub open spec fn total(bs: Seq<Seq<QueueMessage>>) -> nat
    decreases bs.len(),
{
    if bs.len() == 0 {
        0
    } else {
        total(bs.drop_last()) + bs.last().len()
    }
}

/// Replacing one bucket changes the total by the difference in length.
pub proof fn lemma_total_update(bs: Seq<Seq<QueueMessage>>, i: int, s: Seq<QueueMessage>)
    requires
        0 <= i < bs.len(),
    ensures
        total(bs.update(i, s)) == total(bs) - bs[i].len() + s.len(),
    decreases bs.len(),
{
    let u = bs.update(i, s);
    if i == bs.len() - 1 {
        assert(u.drop_last() =~= bs.drop_last());
    } else {
        assert(u.drop_last() =~= bs.drop_last().update(i, s));
        lemma_total_update(bs.drop_last(), i, s);
    }
}

/// The total is zero exactly when every bucket is empty.
pub proof fn lemma_total_zero(bs: Seq<Seq<QueueMessage>>)
    ensures
        (total(bs) == 0) <==> (forall|i: int| 0 <= i < bs.len() ==> #[trigger] bs[i].len() == 0),
    decreases bs.len(),
{
    if bs.len() > 0 {
        lemma_total_zero(bs.drop_last());
        if total(bs) == 0 {
            assert forall|i: int| 0 <= i < bs.len() implies #[trigger] bs[i].len() == 0 by {
                if i < bs.len() - 1 {
                    assert(bs.drop_last()[i] == bs[i]);
                }
            }
        }
        if forall|i: int| 0 <= i < bs.len() ==> #[trigger] bs[i].len() == 0 {
            assert forall|i: int| 0 <= i < bs.drop_last().len() implies #[trigger] bs.drop_last()[i].len() == 0 by {
                assert(bs.drop_last()[i] == bs[i]);
            }
        }
    }
}

/// A queue that orders messages by priority, FIFO within a priority.
#[derive(Debug)]
pub struct PriorityQueue {
    buckets: Vec<Vec<QueueMessage>>,
    total_len: usize,
}

/// The highest level `p` whose bucket is non-empty.
pub open spec fn is_highest(v: Seq<Seq<QueueMessage>>, p: int) -> bool {
    &&& 0 <= p < v.len()
    &&& v[p].len() > 0
    &&& forall|q: int| p < q < v.len() ==> #[trigger] v[q].len() == 0
}

/// The lowest level `p` whose bucket is non-empty.
pub open spec fn is_lowest(v: Seq<Seq<QueueMessage>>, p: int) -> bool {
    &&& 0 <= p < v.len()
    &&& v[p].len() > 0
    &&& forall|q: int| 0 <= q < p ==> #[trigger] v[q].len() == 0
}

impl PriorityQueue {
    /// The buckets, indexed by priority level, oldest message first.
    pub closed spec fn view(&self) -> Seq<Seq<QueueMessage>> {
        Seq::new(self.buckets@.len(), |i: int| self.buckets@[i]@)
    }

    /// The store's invariant: one bucket per level, each message in the
    /// bucket of its own priority, and the cached count equal to the total.
    pub closed spec fn wf(&self) -> bool {
        &&& self.buckets@.len() == LEVELS
        &&& self.total_len == total(self.view())
        &&& forall|p: int, i: int|
            0 <= p < LEVELS && 0 <= i < self.buckets@[p]@.len() ==> (#[trigger] self.buckets@[p]@[i]).priority_spec() == p
    }

    /// The number of messages held.
    pub closed spec fn len_spec(&self) -> nat {
        total(self.view())
    }

    /// An empty store.
    pub fn new() -> (r: Self)
        ensures
            r.wf(),
            r.view().len() == LEVELS,
            forall|p: int| 0 <= p < LEVELS ==> #[trigger] r.view()[p].len() == 0,
            r.len_spec() == 0,
    {
        let mut buckets: Vec<Vec<QueueMessage>> = Vec::new();
        let mut i: usize = 0;
        while i < LEVELS
            invariant
                i <= LEVELS,
                buckets@.len() == i,
                forall|p: int| 0 <= p < i ==> #[trigger] buckets@[p]@.len() == 0,
            decreases LEVELS - i,
        {
            buckets.push(Vec::new());
            i = i + 1;
        }
        let r = PriorityQueue { buckets, total_len: 0 };
        proof {
            lemma_total_zero(r.view());
        }
        r
    }

    /// Appends a message at the back of its priority level.
    pub fn push_back(&mut self, msg: QueueMessage)
        requires
            old(self).wf(),
            old(self).len_spec() < usize::MAX,
        ensures
            final(self).wf(),
            final(self).view() == old(self).view().update(
                msg.priority_spec() as int,
                old(self).view()[msg.priority_spec() as int].push(msg),
            ),
            final(self).len_spec() == old(self).len_spec() + 1,
    {
        let p = msg.priority() as usize;
        let ghost old_view = self.view();
        let mut bucket: Vec<QueueMessage> = Vec::new();
        self.buckets.set_and_swap(p, &mut bucket);
        bucket.push(msg);
        self.buckets.set_and_swap(p, &mut bucket);
        proof {
            lemma_total_update(old_view, p as int, old_view[p as int].push(msg));
            assert(self.view() =~= old_view.update(p as int, old_view[p as int].push(msg)));
        }
        self.total_len = self.total_len + 1;
    }

    /// Puts a message at the front of its priority level.
    pub fn push_front(&mut self, msg: QueueMessage)
        requires
            old(self).wf(),
            old(self).len_spec() < usize::MAX,
        ensures
            final(self).wf(),
            final(self).view() == old(self).view().update(
                msg.priority_spec() as int,
                seq![msg] + old(self).view()[msg.priority_spec() as int],
            ),
            final(self).len_spec() == old(self).len_spec() + 1,
    {
        let p = msg.priority() as usize;
        let ghost old_view = self.view();
        let mut bucket: Vec<QueueMessage> = Vec::new();
        self.buckets.set_and_swap(p, &mut bucket);
        bucket.insert(0, msg);
        self.buckets.set_and_swap(p, &mut bucket);
        proof {
            assert(bucket@ =~= Seq::<QueueMessage>::empty());
            assert(self.buckets@[p as int]@ =~= seq![msg] + old_view[p as int]);
            lemma_total_update(old_view, p as int, seq![msg] + old_view[p as int]);
            assert(self.view() =~= old_view.update(p as int, seq![msg] + old_view[p as int]));
        }
        self.total_len = self.total_len + 1;
    }

    /// Removes the first message of bucket `p`.
    fn take_first(&mut self, p: usize) -> (r: QueueMessage)
        requires
            old(self).wf(),
            p < LEVELS,
            old(self).view()[p as int].len() > 0,
        ensures
            final(self).wf(),
            r == old(self).view()[p as int][0],
            final(self).view() == old(self).view().update(
                p as int,
                old(self).view()[p as int].drop_first(),
            ),
            final(self).len_spec() + 1 == old(self).len_spec(),
    {
        let ghost old_view = self.view();
        let mut bucket: Vec<QueueMessage> = Vec::new();
        self.buckets.set_and_swap(p, &mut bucket);
        let msg = bucket.remove(0);
        self.buckets.set_and_swap(p, &mut bucket);
        proof {
            lemma_total_update(old_view, p as int, old_view[p as int].drop_first());
            assert(self.view() =~= old_view.update(p as int, old_view[p as int].drop_first()));
            assert(total(old_view) >= 1);
        }
        self.total_len = self.total_len - 1;
        msg
    }

    /// Removes and returns the oldest message of the highest non-empty
    /// priority level, or `None` when the store is empty.
    pub fn pop_front(&mut self) -> (r: Option<QueueMessage>)
        requires
            old(self).wf(),
        ensures
            final(self).wf(),
            old(self).len_spec() == 0 ==> r is None && final(self).view() == old(self).view(),
            old(self).len_spec() > 0 ==> exists|p: int|
                #[trigger] is_highest(old(self).view(), p) && r == Some(old(self).view()[p][0])
                    && final(self).view() == old(self).view().update(
                    p,
                    old(self).view()[p].drop_first(),
                ),
            final(self).len_spec() == if old(self).len_spec() == 0 {
                0
            } else {
                (old(self).len_spec() - 1) as nat
            },
    {
        let ghost v = self.view();
        let mut p: usize = LEVELS;
        while p > 0
            invariant
                self.wf(),
                self.view() == v,
                v == old(self).view(),
                p <= LEVELS,
                forall|q: int| p <= q < LEVELS ==> #[trigger] v[q].len() == 0,
            decreases p,
        {
            if self.buckets[p - 1].len() > 0 {
                assert(self.buckets@[p - 1]@ == v[p - 1]);
                let msg = self.take_first(p - 1);
                assert(is_highest(v, p - 1));
                proof {
                    lemma_total_zero(v);
                }
                return Some(msg);
            }
            assert(self.buckets@[p - 1]@ == v[p - 1]);
            p = p - 1;
        }
        proof {
            lemma_total_zero(v);
        }
        None
    }

    /// Removes and returns the oldest message of the lowest non-empty
    /// priority level, or `None` when the store is empty.
    pub fn pop_oldest(&mut self) -> (r: Option<QueueMessage>)
        requires
            old(self).wf(),
        ensures
            final(self).wf(),
            old(self).len_spec() == 0 ==> r is None && final(self).view() == old(self).view(),
            old(self).len_spec() > 0 ==> exists|p: int|
                #[trigger] is_lowest(old(self).view(), p) && r == Some(old(self).view()[p][0])
                    && final(self).view() == old(self).view().update(
                    p,
                    old(self).view()[p].drop_first(),
                ),
            final(self).len_spec() == if old(self).len_spec() == 0 {
                0
            } else {
                (old(self).len_spec() - 1) as nat
            },
    {
        let ghost v = self.view();
        let mut p: usize = 0;
        while p < LEVELS
            invariant
                self.wf(),
                self.view() == v,
                v == old(self).view(),
                p <= LEVELS,
                forall|q: int| 0 <= q < p ==> #[trigger] v[q].len() == 0,
            decreases LEVELS - p,
        {
            if self.buckets[p].len() > 0 {
                assert(self.buckets@[p as int]@ == v[p as int]);
                let msg = self.take_first(p);
                assert(is_lowest(v, p as int));
                proof {
                    lemma_total_zero(v);
                }
                return Some(msg);
            }
            assert(self.buckets@[p as int]@ == v[p as int]);
            p = p + 1;
        }
        proof {
            lemma_total_zero(v);
        }
        None
    }

    /// The number of messages across all priority levels.
    pub fn len(&self) -> (r: usize)
        requires
            self.wf(),
        ensures
            r == self.len_spec(),
    {
        self.total_len
    }

    /// The message `pop_front` would return, without removing it.
    pub fn peek_front(&self) -> (r: Option<&QueueMessage>)
        requires
            self.wf(),
        ensures
            self.len_spec() == 0 ==> r is None,
            self.len_spec() > 0 ==> exists|p: int|
                #[trigger] is_highest(self.view(), p) && r == Some(&self.view()[p][0]),
    {
        let ghost v = self.view();
        let mut p: usize = LEVELS;
        while p > 0
            invariant
                self.wf(),
                v == self.view(),
                p <= LEVELS,
                forall|q: int| p <= q < LEVELS ==> #[trigger] v[q].len() == 0,
            decreases p,
        {
            if self.buckets[p - 1].len() > 0 {
                assert(self.buckets@[p - 1]@ == v[p - 1]);
                assert(is_highest(v, p - 1));
                proof {
                    lemma_total_zero(v);
                }
                return Some(&self.buckets[p - 1][0]);
            }
            assert(self.buckets@[p - 1]@ == v[p - 1]);
            p = p - 1;
        }
        proof {
            lemma_total_zero(v);
        }
        None
    }

    /// Whether the store holds no message.
    pub fn is_empty(&self) -> (r: bool)
        requires
            self.wf(),
        ensures
            r == (self.len_spec() == 0),
    {
        self.total_len == 0
    }

    /// Removes every message.
    pub fn clear(&mut self)
        requires
            old(self).wf(),
        ensures
            final(self).wf(),
            final(self).view().len() == LEVELS,
            forall|p: int| 0 <= p < LEVELS ==> #[trigger] final(self).view()[p].len() == 0,
            final(self).len_spec() == 0,
    {
        *self = PriorityQueue::new();
    }
}

/// Whether every message sits in the level of its own priority.
pub open spec fn levels_consistent(v: Seq<Seq<QueueMessage>>) -> bool {
    forall|p: int, i: int| 0 <= p < v.len() && 0 <= i < v[p].len() ==> (#[trigger] v[p][i]).priority_spec() == p
}

impl PriorityQueue {
    /// What a well-formed store is, seen from outside: one level per
    /// priority, each message in the level of its own priority, and the
    /// count `len` gives is the number of messages over all levels.
    pub proof fn lemma_wf_shape(&self)
        requires
            self.wf(),
        ensures
            self.view().len() == LEVELS,
            levels_consistent(self.view()),
            self.len_spec() == total(self.view()),
    {
        assert forall|p: int, i: int| 0 <= p < self.view().len() && 0 <= i < self.view()[p].len()
            implies (#[trigger] self.view()[p][i]).priority_spec() == p by {
            assert(self.view()[p] == self.buckets@[p]@);
        }
    }
}

/// At most one level is the highest non-empty one.
pub proof fn lemma_highest_unique(v: Seq<Seq<QueueMessage>>, p: int, q: int)
    requires
        is_highest(v, p),
        is_highest(v, q),
    ensures
        p == q,
{
    if p < q {
        assert(v[q].len() == 0);
    } else if q < p {
        assert(v[p].len() == 0);
    }
}

/// Putting a message of top priority (no message held has a higher one)
/// at the front makes it the head: its level becomes the highest
/// non-empty one, it comes first there, and taking it off again gives
/// back exactly the levels held before. With `push_front` and `pop_front`
/// this says that `pop_front` undoes `push_front` for such a message.
pub proof fn lemma_push_front_then_pop(v: Seq<Seq<QueueMessage>>, msg: QueueMessage)
    requires
        v.len() == LEVELS,
        levels_consistent(v),
        forall|q: int| msg.priority_spec() < q < v.len() ==> #[trigger] v[q].len() == 0,
    ensures
        ({
            let p = msg.priority_spec() as int;
            let v2 = v.update(p, seq![msg] + v[p]);
            &&& is_highest(v2, p)
            &&& v2[p][0] == msg
            &&& v2.update(p, v2[p].drop_first()) == v
            &&& total(v2) == total(v) + 1
        }),
{
    let p = msg.priority_spec() as int;
    let v2 = v.update(p, seq![msg] + v[p]);
    assert(v2[p].drop_first() =~= v[p]);
    assert(v2.update(p, v2[p].drop_first()) =~= v);
    lemma_total_update(v, p, seq![msg] + v[p]);
}

/// `pop_front` undoes `push_front` for a message of top priority: when no
/// message held in `before` has a higher priority than `msg`, and `mid`
/// is `before` after `push_front(msg)` and `after` is `mid` after a
/// `pop_front` that returned `r` (each as its contract says), then `r` is
/// `msg`, `after` holds exactly what `before` held, in the same order,
/// and the count went up by one and back.
pub proof fn lemma_pop_undoes_push_front(
    before: PriorityQueue,
    mid: PriorityQueue,
    after: PriorityQueue,
    msg: QueueMessage,
    r: Option<QueueMessage>,
)
    requires
        before.wf(),
        forall|p: int, i: int|
            0 <= p < before.view().len() && 0 <= i < before.view()[p].len() ==> (#[trigger] before.view()[p][i]).priority_spec()
                <= msg.priority_spec(),
        mid.view() == before.view().update(
            msg.priority_spec() as int,
            seq![msg] + before.view()[msg.priority_spec() as int],
        ),
        mid.len_spec() == before.len_spec() + 1,
        mid.len_spec() > 0 ==> exists|p: int|
            #[trigger] is_highest(mid.view(), p) && r == Some(mid.view()[p][0]) && after.view() == mid.view().update(
                p,
                mid.view()[p].drop_first(),
            ),
        after.len_spec() == if mid.len_spec() == 0 { 0 } else { (mid.len_spec() - 1) as nat },
    ensures
        r == Some(msg),
        after.view() == before.view(),
        after.len_spec() == before.len_spec(),
{
    before.lemma_wf_shape();
    let v = before.view();
    let m = msg.priority_spec() as int;
    assert forall|q: int| m < q < v.len() implies #[trigger] v[q].len() == 0 by {
        if v[q].len() > 0 {
            assert(v[q][0].priority_spec() == q);
        }
    }
    lemma_push_front_then_pop(v, msg);
    let p = choose|p: int| #[trigger] is_highest(mid.view(), p) && r == Some(mid.view()[p][0]) && after.view()
        == mid.view().update(p, mid.view()[p].drop_first());
    lemma_highest_unique(mid.view(), p, m);
}

// ─── The count over a history of calls ────────────────────────────────

/// A call that changes a store.
pub enum PriorityOp {
    PushBack(QueueMessage),
    PushFront(QueueMessage),
    PopFront,
    PopOldest,
    Clear,
}

/// Whether levels `v2` are what `op` leaves of levels `v`, as the
/// contract of the method it names says.
pub open spec fn op_step(v: Seq<Seq<QueueMessage>>, v2: Seq<Seq<QueueMessage>>, op: PriorityOp) -> bool {
    match op {
        PriorityOp::PushBack(m) => v2 == v.update(m.priority_spec() as int, v[m.priority_spec() as int].push(m)),
        PriorityOp::PushFront(m) => v2 == v.update(m.priority_spec() as int, seq![m] + v[m.priority_spec() as int]),
        PriorityOp::PopFront => {
            &&& total(v) == 0 ==> v2 == v
            &&& total(v) > 0 ==> exists|p: int| #[trigger] is_highest(v, p) && v2 == v.update(p, v[p].drop_first())
        },
        PriorityOp::PopOldest => {
            &&& total(v) == 0 ==> v2 == v
            &&& total(v) > 0 ==> exists|p: int| #[trigger] is_lowest(v, p) && v2 == v.update(p, v[p].drop_first())
        },
        PriorityOp::Clear => v2.len() == LEVELS && forall|p: int| 0 <= p < LEVELS ==> #[trigger] v2[p].len() == 0,
    }
}

/// Whether `states` are the levels of a store made by `new` and then
/// changed by `ops`, one state per call and one before the first.
pub open spec fn store_history(states: Seq<Seq<Seq<QueueMessage>>>, ops: Seq<PriorityOp>) -> bool {
    &&& states.len() == ops.len() + 1
    &&& states[0].len() == LEVELS
    &&& forall|p: int| 0 <= p < LEVELS ==> #[trigger] states[0][p].len() == 0
    &&& forall|i: int| 0 <= i < ops.len() ==> op_step(states[i], states[i + 1], #[trigger] ops[i])
}

/// The count the first `n` calls of a history leave: one more for each
/// push, one less for each pop that found a message (and so returned
/// `Some`), and nothing after a `clear`.
pub open spec fn counted(states: Seq<Seq<Seq<QueueMessage>>>, ops: Seq<PriorityOp>, n: nat) -> int
    decreases n,
{
    if n == 0 {
        0
    } else {
        let before = counted(states, ops, (n - 1) as nat);
        match ops[n - 1] {
            PriorityOp::PushBack(_) => before + 1,
            PriorityOp::PushFront(_) => before + 1,
            PriorityOp::PopFront => if total(states[n - 1]) > 0 { before - 1 } else { before },
            PriorityOp::PopOldest => if total(states[n - 1]) > 0 { before - 1 } else { before },
            PriorityOp::Clear => 0,
        }
    }
}

/// Along any history of a store made by `new`, the number of messages it
/// holds (what `len` returns) is the pushes since the last `clear` less
/// the pops that returned a message; it holds none exactly when every
/// level is empty, which is when `is_empty` holds and `peek_front` finds
/// nothing.
pub proof fn lemma_len_counts_history(states: Seq<Seq<Seq<QueueMessage>>>, ops: Seq<PriorityOp>, n: nat)
    requires
        store_history(states, ops),
        n <= ops.len(),
    ensures
        states[n as int].len() == LEVELS,
        total(states[n as int]) == counted(states, ops, n),
        total(states[n as int]) == 0 <==> forall|p: int| 0 <= p < LEVELS ==> #[trigger] states[n as int][p].len() == 0,
        total(states[n as int]) == 0 <==> !exists|p: int| #[trigger] is_highest(states[n as int], p),
    decreases n,
{
    let v = states[n as int];
    if n == 0 {
        lemma_total_zero(v);
    } else {
        lemma_len_counts_history(states, ops, (n - 1) as nat);
        let u = states[n - 1];
        let op = ops[n - 1];
        assert(op_step(u, v, op));
        match op {
            PriorityOp::PushBack(m) => {
                lemma_total_update(u, m.priority_spec() as int, u[m.priority_spec() as int].push(m));
            },
            PriorityOp::PushFront(m) => {
                lemma_total_update(u, m.priority_spec() as int, seq![m] + u[m.priority_spec() as int]);
            },
            PriorityOp::PopFront => {
                if total(u) > 0 {
                    let p = choose|p: int| #[trigger] is_highest(u, p) && v == u.update(p, u[p].drop_first());
                    lemma_total_update(u, p, u[p].drop_first());
                }
            },
            PriorityOp::PopOldest => {
                if total(u) > 0 {
                    let p = choose|p: int| #[trigger] is_lowest(u, p) && v == u.update(p, u[p].drop_first());
                    lemma_total_update(u, p, u[p].drop_first());
                }
            },
            PriorityOp::Clear => {},
        }
        lemma_total_zero(v);
    }
    lemma_total_zero(v);
    if total(v) > 0 {
        let q = choose|q: int| 0 <= q < v.len() && v[q].len() > 0;
        lemma_highest_exists(v, q);
    } else {
        assert forall|p: int| !#[trigger] is_highest(v, p) by {
            if is_highest(v, p) {
                assert(v[p].len() > 0);
            }
        }
    }
}

/// When some level is non-empty, one of them is the highest non-empty
/// level.
proof fn lemma_highest_exists(v: Seq<Seq<QueueMessage>>, q: int)
    requires
        0 <= q < v.len(),
        v[q].len() > 0,
    ensures
        exists|p: int| #[trigger] is_highest(v, p),
    decreases v.len() - q,
{
    if forall|r: int| q < r < v.len() ==> #[trigger] v[r].len() == 0 {
        assert(is_highest(v, q));
    } else {
        let r = choose|r: int| q < r < v.len() && #[trigger] v[r].len() != 0;
        lemma_highest_exists(v, r);
    }
}

} // verus!
