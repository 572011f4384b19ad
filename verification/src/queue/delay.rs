//! Delayed message delivery.
//!
//! Messages published with an `x-delay` header are held until their
//! delivery time and then handed to their target queue. Times are
//! milliseconds on the broker's monotonic clock.

use vstd::prelude::*;
use crate::queue::message::Message;

verus! {

/// A message waiting for its delivery time.
#[derive(Clone, Debug)]
pub struct DelayedMessage {
    pub deliver_at: u64,
    pub queue_name: String,
    pub message: Message,
}

/// Key order: delivery time first, then scheduling order.
pub open spec fn key_lt(a: (u64, u64), b: (u64, u64)) -> bool {
    a.0 < b.0 || (a.0 == b.0 && a.1 < b.1)
}

/// Whether `k` splits `items` into those due at or before `t` and those
/// due after it.
pub open spec fn split_point(items: Seq<DelayedMessage>, k: int, t: int) -> bool {
    &&& 0 <= k <= items.len()
    &&& forall|i: int| 0 <= i < k ==> #[trigger] items[i].deliver_at <= t
    &&& forall|i: int| k <= i < items.len() ==> #[trigger] items[i].deliver_at > t
}

/// Holds delayed messages ordered by delivery time, ties broken by the
/// order in which they were scheduled.
#[derive(Debug)]
pub struct DelayQueue {
    keys: Vec<(u64, u64)>,
    items: Vec<DelayedMessage>,
    next_id: u64,
}

impl DelayQueue {
    /// The (time, sequence) keys of the held messages, in delivery order.
    pub closed spec fn keys_spec(&self) -> Seq<(u64, u64)> {
        self.keys@
    }

    /// The held messages, in delivery order.
    pub closed spec fn items_spec(&self) -> Seq<DelayedMessage> {
        self.items@
    }

    /// The sequence number the next scheduled message gets.
    pub closed spec fn next_id_spec(&self) -> u64 {
        self.next_id
    }

    /// Keys strictly increasing, one key per message carrying its delivery
    /// time, and every sequence number below the next one.
    pub closed spec fn wf(&self) -> bool {
        &&& self.keys@.len() == self.items@.len()
        &&& forall|i: int, j: int|
            0 <= i < j < self.keys@.len() ==> key_lt(#[trigger] self.keys@[i], #[trigger] self.keys@[j])
        &&& forall|i: int|
            0 <= i < self.keys@.len() ==> (#[trigger] self.keys@[i]).0 == self.items@[i].deliver_at
                && self.keys@[i].1 < self.next_id
    }

    /// An empty delay queue.
    pub fn new() -> (r: Self)
        ensures
            r.wf(),
            r.items_spec().len() == 0,
            r.next_id_spec() == 1,
    {
        DelayQueue { keys: Vec::new(), items: Vec::new(), next_id: 1 }
    }

    /// Holds `message` for `queue_name` until `now + delay`; it goes after
    /// every message due at the same time or earlier.
    pub fn schedule(&mut self, queue_name: String, message: Message, delay: u64, now: u64)
        requires
            old(self).wf(),
            now + delay <= u64::MAX,
            old(self).next_id_spec() < u64::MAX,
        ensures
            final(self).wf(),
            final(self).next_id_spec() == old(self).next_id_spec() + 1,
            exists|pos: int|
                #[trigger] split_point(old(self).items_spec(), pos, now + delay)
                    && final(self).items_spec() == old(self).items_spec().insert(
                    pos,
                    DelayedMessage { deliver_at: (now + delay) as u64, queue_name, message },
                ) && final(self).keys_spec() == old(self).keys_spec().insert(
                    pos,
                    ((now + delay) as u64, old(self).next_id_spec()),
                ),
    {
        let deliver_at = now + delay;
        let id = self.next_id;
        let mut pos: usize = 0;
        while pos < self.keys.len() && self.keys[pos].0 <= deliver_at
            invariant
                self.wf(),
                self.keys@ == old(self).keys@,
                self.items@ == old(self).items@,
                self.next_id == id,
                pos <= self.keys@.len(),
                forall|i: int| 0 <= i < pos ==> (#[trigger] self.keys@[i]).0 <= deliver_at,
            decreases self.keys@.len() - pos,
        {
            pos = pos + 1;
        }
        let ghost old_keys = self.keys@;
        let ghost old_items = self.items@;
        self.keys.insert(pos, (deliver_at, id));
        self.items.insert(pos, DelayedMessage { deliver_at, queue_name, message });
        self.next_id = id + 1;
        proof {
            assert forall|i: int| pos <= i < old_items.len() implies #[trigger] old_items[i].deliver_at
                > deliver_at by {
                if pos < old_keys.len() {
                    assert(old_keys[pos as int].0 > deliver_at);
                    if i > pos {
                        assert(key_lt(old_keys[pos as int], old_keys[i]));
                    }
                }
            }
            assert forall|i: int| 0 <= i < pos implies #[trigger] old_items[i].deliver_at
                <= deliver_at by {
                assert(old_keys[i].0 <= deliver_at);
            }
            assert(split_point(old_items, pos as int, deliver_at as int));
            assert forall|i: int, j: int|
                0 <= i < j < self.keys@.len() implies key_lt(
                #[trigger] self.keys@[i],
                #[trigger] self.keys@[j],
            ) by {
                if i < pos && j == pos {
                    assert(old_keys[i].0 <= deliver_at && old_keys[i].1 < id);
                } else if i == pos && j > pos {
                    assert(old_keys[j - 1].0 > deliver_at);
                } else if i < pos && j > pos {
                    assert(key_lt(old_keys[i], old_keys[j - 1]));
                } else if i > pos {
                    assert(key_lt(old_keys[i - 1], old_keys[j - 1]));
                }
            }
            assert(self.items@ == old_items.insert(
                pos as int,
                DelayedMessage { deliver_at, queue_name, message },
            ));
            assert(self.keys@ == old_keys.insert(pos as int, (deliver_at, id)));
            assert(old_items == old(self).items_spec());
            assert(old_keys == old(self).keys_spec());
            assert(split_point(old(self).items_spec(), pos as int, now + delay));
            assert forall|i: int| 0 <= i < self.keys@.len() implies (#[trigger] self.keys@[i]).0
                == self.items@[i].deliver_at && self.keys@[i].1 < self.next_id by {
                if i < pos {
                    assert(self.keys@[i] == old_keys[i]);
                } else if i > pos {
                    assert(self.keys@[i] == old_keys[i - 1]);
                }
            }
        }
    }

    /// Removes and returns, in delivery order, every message due at or
    /// before `now`; the messages not yet due stay.
    pub fn drain_ready(&mut self, now: u64) -> (r: Vec<DelayedMessage>)
        requires
            old(self).wf(),
        ensures
            final(self).wf(),
            final(self).next_id_spec() == old(self).next_id_spec(),
            exists|k: int|
                #[trigger] split_point(old(self).items_spec(), k, now as int) && r@ == old(
                    self,
                ).items_spec().subrange(0, k) && final(self).items_spec() == old(
                    self,
                ).items_spec().subrange(k, old(self).items_spec().len() as int)
                    && final(self).keys_spec() == old(self).keys_spec().subrange(
                    k,
                    old(self).keys_spec().len() as int,
                ),
    {
        let mut k: usize = 0;
        while k < self.keys.len() && self.keys[k].0 <= now
            invariant
                self.wf(),
                self.keys@ == old(self).keys@,
                self.items@ == old(self).items@,
                self.next_id == old(self).next_id,
                k <= self.keys@.len(),
                forall|i: int| 0 <= i < k ==> (#[trigger] self.keys@[i]).0 <= now,
            decreases self.keys@.len() - k,
        {
            k = k + 1;
        }
        let ghost old_keys = self.keys@;
        let ghost old_items = self.items@;
        proof {
            assert forall|i: int| k <= i < old_items.len() implies #[trigger] old_items[i].deliver_at
                > now by {
                assert(old_keys[k as int].0 > now);
                if i > k {
                    assert(key_lt(old_keys[k as int], old_keys[i]));
                }
            }
        }
        assert forall|i: int| 0 <= i < k implies #[trigger] old_items[i].deliver_at <= now by {
            assert(old_keys[i].0 <= now);
        }
        assert(split_point(old_items, k as int, now as int));
        let later_keys = self.keys.split_off(k);
        let mut later_items = self.items.split_off(k);
        self.keys = later_keys;
        std::mem::swap(&mut self.items, &mut later_items);
        proof {
            assert forall|i: int, j: int|
                0 <= i < j < self.keys@.len() implies key_lt(
                #[trigger] self.keys@[i],
                #[trigger] self.keys@[j],
            ) by {
                assert(self.keys@[i] == old_keys[i + k]);
                assert(self.keys@[j] == old_keys[j + k]);
            }
            assert forall|i: int| 0 <= i < self.keys@.len() implies (#[trigger] self.keys@[i]).0
                == self.items@[i].deliver_at && self.keys@[i].1 < self.next_id by {
                assert(self.keys@[i] == old_keys[i + k]);
                assert(self.items@[i] == old_items[i + k]);
            }
        }
        assert(later_items@ == old_items.subrange(0, k as int));
        assert(self.items@ == old_items.subrange(k as int, old_items.len() as int));
        assert(self.keys@ == old_keys.subrange(k as int, old_keys.len() as int));
        assert(old_items == old(self).items_spec());
        assert(split_point(old(self).items_spec(), k as int, now as int));
        assert(self.items_spec() == old(self).items_spec().subrange(k as int, old(self).items_spec().len() as int));
        assert(later_items@ == old(self).items_spec().subrange(0, k as int));
        later_items
    }

    /// Number of messages held.
    pub fn len(&self) -> (r: usize)
        requires
            self.wf(),
        ensures
            r == self.items_spec().len(),
    {
        self.items.len()
    }
}

/// What a drain at `now` takes: with the split point `k` that
/// `drain_ready` finds, a held message is taken exactly when it is due
/// (its delivery time is at or before `now`); every other message stays,
/// in the same order, and is taken by the first later drain at or after
/// its delivery time.
pub proof fn lemma_drain_takes_exactly_due(items: Seq<DelayedMessage>, k: int, now: int)
    requires
        split_point(items, k, now),
    ensures
        forall|j: int| 0 <= j < items.len() ==> (j < k <==> (#[trigger] items[j]).deliver_at <= now),
        forall|j: int| k <= j < items.len() ==> items.subrange(k, items.len() as int)[j - k] == #[trigger] items[j],
        forall|later: int, k2: int| later >= now && #[trigger] split_point(items.subrange(k, items.len() as int), k2, later)
            ==> forall|j: int| k <= j < items.len() && items[j].deliver_at <= later ==> j - k < k2,
{
    assert forall|later: int, k2: int| later >= now && #[trigger] split_point(items.subrange(k, items.len() as int), k2, later)
        implies forall|j: int| k <= j < items.len() && items[j].deliver_at <= later ==> j - k < k2 by {
        let rest = items.subrange(k, items.len() as int);
        assert forall|j: int| k <= j < items.len() && items[j].deliver_at <= later implies j - k < k2 by {
            assert(rest[j - k] == items[j]);
        }
    }
}

/// How many messages the drains before the `i`-th took, given how many
/// each drain took.
pub open spec fn drain_offset(ks: Seq<int>, i: int) -> int
    decreases i,
{
    if i <= 0 {
        0
    } else {
        drain_offset(ks, i - 1) + ks[i - 1]
    }
}

/// Whether drains at `times`, one after the other on a queue holding
/// `items` and nothing scheduled meanwhile, took `ks` messages each, as
/// [`DelayQueue::drain_ready`] says: each takes the messages due at its
/// time off the front of what the earlier ones left.
pub open spec fn drains_took(items: Seq<DelayedMessage>, times: Seq<int>, ks: Seq<int>) -> bool {
    &&& times.len() == ks.len()
    &&& forall|i: int|
        0 <= i < ks.len() ==> 0 <= drain_offset(ks, i) <= items.len() && split_point(
            items.subrange(drain_offset(ks, i), items.len() as int),
            #[trigger] ks[i],
            times[i],
        )
}

proof fn lemma_not_yet_taken(items: Seq<DelayedMessage>, times: Seq<int>, ks: Seq<int>, j: int, i: int)
    requires
        drains_took(items, times, ks),
        0 <= j < items.len(),
        0 <= i <= ks.len(),
    ensures
        0 <= drain_offset(ks, i) <= items.len(),
        (j >= drain_offset(ks, i)) == (forall|l: int| 0 <= l < i ==> #[trigger] times[l] < items[j].deliver_at),
    decreases i,
{
    if i > 0 {
        lemma_not_yet_taken(items, times, ks, j, i - 1);
        let o = drain_offset(ks, i - 1);
        let k = ks[i - 1];
        let rest = items.subrange(o, items.len() as int);
        assert(split_point(rest, k, times[i - 1]));
        if j >= o {
            assert(rest[j - o] == items[j]);
            if j < o + k {
                assert(rest[j - o].deliver_at <= times[i - 1]);
            } else {
                assert(rest[j - o].deliver_at > times[i - 1]);
                assert forall|l: int| 0 <= l < i implies #[trigger] times[l] < items[j].deliver_at by {
                    if l < i - 1 {
                    }
                }
            }
        } else {
            let l0 = choose|l: int| 0 <= l < i - 1 && !(#[trigger] times[l] < items[j].deliver_at);
            assert(0 <= l0 < i && !(times[l0] < items[j].deliver_at));
        }
    }
}

/// Each held message is taken by exactly one drain: over drains one after
/// the other with nothing scheduled in between, the `i`-th drain takes the
/// message at position `j` exactly when it is due at that drain's time
/// and was due at none of the earlier ones — the first drain at or after
/// its delivery time.
pub proof fn lemma_drained_by_first_due_drain(
    items: Seq<DelayedMessage>,
    times: Seq<int>,
    ks: Seq<int>,
    j: int,
    i: int,
)
    requires
        drains_took(items, times, ks),
        0 <= j < items.len(),
        0 <= i < ks.len(),
    ensures
        (drain_offset(ks, i) <= j < drain_offset(ks, i) + ks[i]) <==> (items[j].deliver_at <= times[i] && forall|
            l: int,
        | 0 <= l < i ==> #[trigger] times[l] < items[j].deliver_at),
{
    lemma_not_yet_taken(items, times, ks, j, i);
    lemma_not_yet_taken(items, times, ks, j, i + 1);
    assert(drain_offset(ks, i + 1) == drain_offset(ks, i) + ks[i]);
    let o = drain_offset(ks, i);
    let rest = items.subrange(o, items.len() as int);
    assert(split_point(rest, ks[i], times[i]));
    if j >= o {
        assert(rest[j - o] == items[j]);
    }
    if (forall|l: int| 0 <= l < i + 1 ==> #[trigger] times[l] < items[j].deliver_at) {
        assert(times[i] < items[j].deliver_at);
    }
    if items[j].deliver_at <= times[i] && (forall|l: int| 0 <= l < i ==> #[trigger] times[l] < items[j].deliver_at) {
        assert(!(forall|l: int| 0 <= l < i + 1 ==> #[trigger] times[l] < items[j].deliver_at)) by {
            assert(!(times[i] < items[j].deliver_at));
        }
    }
}

/// Whether the `i`-th of the drains that took `ks` messages each took the
/// message at position `j`.
pub open spec fn drain_took(ks: Seq<int>, i: int, j: int) -> bool {
    drain_offset(ks, i) <= j < drain_offset(ks, i) + ks[i]
}

/// A scheduled message is taken by exactly one later drain, the first at
/// or after its delivery time: when `schedule` put `dm` into the held
/// messages `before` where its contract says, giving `after` (one more
/// message), and drains at `times`, with nothing scheduled in between,
/// then took `ks` messages each (as `drain_ready` says), the `i`-th drain
/// takes `dm` exactly when it is due at that drain's time and was due at
/// none of the earlier ones; no two drains take it.
pub proof fn lemma_scheduled_taken_by_first_due_drain(
    before: Seq<DelayedMessage>,
    after: Seq<DelayedMessage>,
    pos: int,
    dm: DelayedMessage,
    times: Seq<int>,
    ks: Seq<int>,
)
    requires
        split_point(before, pos, dm.deliver_at as int),
        after == before.insert(pos, dm),
        drains_took(after, times, ks),
    ensures
        after.len() == before.len() + 1,
        after[pos] == dm,
        forall|i: int|
            0 <= i < ks.len() ==> (#[trigger] drain_took(ks, i, pos) <==> (dm.deliver_at <= times[i] && forall|l: int|
                0 <= l < i ==> #[trigger] times[l] < dm.deliver_at)),
        forall|i1: int, i2: int|
            0 <= i1 < ks.len() && 0 <= i2 < ks.len() && #[trigger] drain_took(ks, i1, pos) && #[trigger] drain_took(
                ks,
                i2,
                pos,
            ) ==> i1 == i2,
{
    assert(after[pos] == dm);
    assert forall|i: int| 0 <= i < ks.len() implies (#[trigger] drain_took(ks, i, pos) <==> (dm.deliver_at <= times[i]
        && forall|l: int| 0 <= l < i ==> #[trigger] times[l] < dm.deliver_at)) by {
        lemma_drained_by_first_due_drain(after, times, ks, pos, i);
    }
    assert forall|i1: int, i2: int|
        0 <= i1 < ks.len() && 0 <= i2 < ks.len() && #[trigger] drain_took(ks, i1, pos) && #[trigger] drain_took(
            ks,
            i2,
            pos,
        ) implies i1 == i2 by {
        lemma_drained_by_first_due_drain(after, times, ks, pos, i1);
        lemma_drained_by_first_due_drain(after, times, ks, pos, i2);
        if i1 < i2 {
            assert(times[i1] < dm.deliver_at);
        } else if i2 < i1 {
            assert(times[i2] < dm.deliver_at);
        }
    }
}

} // verus!
