//! Append-only log storage for stream queues.
//!
//! The log is a sequence of segments, each holding consecutive offsets.
//! A segment stops taking messages once it holds `max_segment_size` bytes;
//! old segments are evicted by the retention policy. Times are
//! milliseconds on the broker's monotonic clock.

use vstd::prelude::*;
use vstd::pervasive::VecAdditionalExecFns;
use crate::routing::topic::str_eq;
use vstd::string::StringSliceAdditionalSpecFns;

verus! {

/// A single message in a stream segment.
#[derive(Clone, Debug)]
pub struct StreamMessage {
    pub offset: u64,
    pub body: Vec<u8>,
    pub timestamp: u64,
}

/// A contiguous chunk of stream messages.
#[derive(Clone, Debug)]
pub struct StreamSegment {
    pub start_offset: u64,
    pub messages: Vec<StreamMessage>,
    pub created_at: u64,
    pub size_bytes: u64,
}

/// Sum of the body lengths of `ms`.
pub open spec fn body_bytes(ms: Seq<StreamMessage>) -> int
    decreases ms.len(),
{
    if ms.len() == 0 {
        0
    } else {
        body_bytes(ms.drop_last()) + ms.last().body@.len()
    }
}

/// The offset after the last message of a segment.
pub open spec fn seg_next(s: StreamSegment) -> int {
    s.start_offset + s.messages@.len()
}

/// A segment whose messages carry consecutive offsets from its start and
/// whose size is the sum of their body lengths.
pub open spec fn seg_ok(s: StreamSegment) -> bool {
    &&& forall|i: int| 0 <= i < s.messages@.len() ==> #[trigger] s.messages@[i].offset == s.start_offset + i
    &&& s.size_bytes == body_bytes(s.messages@)
}

/// The message at `offset` in a segment, if it holds it.
pub open spec fn seg_get(s: StreamSegment, offset: int) -> Option<StreamMessage> {
    if s.start_offset <= offset < seg_next(s) {
        Some(s.messages@[offset - s.start_offset])
    } else {
        None
    }
}

impl StreamSegment {
    /// A new empty segment starting at `start_offset`, created at `now`.
    pub fn new(start_offset: u64, now: u64) -> (r: Self)
        ensures
            r.start_offset == start_offset,
            r.messages@.len() == 0,
            r.created_at == now,
            r.size_bytes == 0,
            seg_ok(r),
    {
        StreamSegment { start_offset, messages: Vec::new(), created_at: now, size_bytes: 0 }
    }

    /// Appends a message and returns its offset.
    pub fn append(&mut self, body: Vec<u8>, now: u64) -> (r: u64)
        requires
            seg_ok(*old(self)),
            seg_next(*old(self)) < u64::MAX,
            old(self).size_bytes + body@.len() <= u64::MAX,
        ensures
            seg_ok(*final(self)),
            r == seg_next(*old(self)),
            final(self).start_offset == old(self).start_offset,
            final(self).created_at == old(self).created_at,
            final(self).messages@ == old(self).messages@.push(
                StreamMessage { offset: r, body, timestamp: now },
            ),
            final(self).size_bytes == old(self).size_bytes + body@.len(),
    {
        let offset = self.start_offset + self.messages.len() as u64;
        self.size_bytes = self.size_bytes + body.len() as u64;
        let ghost old_ms = self.messages@;
        self.messages.push(StreamMessage { offset, body, timestamp: now });
        assert(self.messages@.drop_last() =~= old_ms);
        offset
    }

    /// The offset the next appended message would get.
    pub fn next_offset(&self) -> (r: u64)
        requires
            seg_next(*self) <= u64::MAX,
        ensures
            r == seg_next(*self),
    {
        self.start_offset + self.messages.len() as u64
    }

    /// The message at `offset`, if this segment holds it.
    pub fn get(&self, offset: u64) -> (r: Option<&StreamMessage>)
        ensures
            match seg_get(*self, offset as int) {
                Some(m) => r == Some(&m),
                None => r is None,
            },
    {
        if offset < self.start_offset {
            return None;
        }
        let rel = offset - self.start_offset;
        if rel < self.messages.len() as u64 {
            Some(&self.messages[rel as usize])
        } else {
            None
        }
    }
}

/// Retention policy for stream segments (ages in milliseconds).
#[derive(Clone, Debug)]
pub struct RetentionPolicy {
    /// Segments older than this are evicted.
    pub max_age: Option<u64>,
    /// Maximum total size in bytes; oldest segments are evicted first.
    pub max_bytes: Option<u64>,
}

/// Seven days in milliseconds.
pub const SEVEN_DAYS_MS: u64 = 604_800_000;

impl Default for RetentionPolicy {
    /// Seven days of age, no size limit.
    fn default() -> (r: Self)
        ensures
            r.max_age == Some(SEVEN_DAYS_MS),
            r.max_bytes is None,
    {
        RetentionPolicy { max_age: Some(SEVEN_DAYS_MS), max_bytes: None }
    }
}

/// Total size of a list of segments.
pub open spec fn sum_bytes(segs: Seq<StreamSegment>) -> int
    decreases segs.len(),
{
    if segs.len() == 0 {
        0
    } else {
        sum_bytes(segs.drop_last()) + segs.last().size_bytes
    }
}

/// Total number of messages in a list of segments.
pub open spec fn sum_msgs(segs: Seq<StreamSegment>) -> int
    decreases segs.len(),
{
    if segs.len() == 0 {
        0
    } else {
        sum_msgs(segs.drop_last()) + segs.last().messages@.len()
    }
}

/// Every message of a list of segments, oldest first.
pub open spec fn all_messages(segs: Seq<StreamSegment>) -> Seq<StreamMessage>
    decreases segs.len(),
{
    if segs.len() == 0 {
        Seq::empty()
    } else {
        all_messages(segs.drop_last()) + segs.last().messages@
    }
}

/// The messages of `ms` whose offset is at least `from`, in order.
pub open spec fn at_or_after(ms: Seq<StreamMessage>, from: u64) -> Seq<StreamMessage>
    decreases ms.len(),
{
    if ms.len() == 0 {
        Seq::empty()
    } else if ms.last().offset >= from {
        at_or_after(ms.drop_last(), from).push(ms.last())
    } else {
        at_or_after(ms.drop_last(), from)
    }
}

/// The first `n` elements of `s`, or all of them when there are fewer.
pub open spec fn take_upto<T>(s: Seq<T>, n: int) -> Seq<T> {
    if s.len() <= n {
        s
    } else {
        s.subrange(0, n)
    }
}

/// Index of the last segment starting at or before `offset`; -1 if none.
pub open spec fn last_starting_at_or_before(segs: Seq<StreamSegment>, offset: int) -> int
    decreases segs.len(),
{
    if segs.len() == 0 {
        -1
    } else if segs.last().start_offset <= offset {
        segs.len() - 1
    } else {
        last_starting_at_or_before(segs.drop_last(), offset)
    }
}

/// What reading `offset` gives: the message at that offset in the last
/// segment starting at or before it.
pub open spec fn read_spec(segs: Seq<StreamSegment>, offset: int) -> Option<StreamMessage> {
    let i = last_starting_at_or_before(segs, offset);
    if i < 0 {
        None
    } else {
        seg_get(segs[i], offset)
    }
}

/// Whether a segment created at `created` is expired at `now`.
pub open spec fn expired(created: u64, now: u64, max_age: u64) -> bool {
    now - created > max_age
}

/// Number of leading segments expired at `now`.
pub open spec fn leading_expired(segs: Seq<StreamSegment>, now: u64, max_age: u64, i: int) -> int
    decreases segs.len() - i,
{
    if i >= segs.len() || i < 0 {
        segs.len() as int
    } else if expired(segs[i].created_at, now, max_age) {
        leading_expired(segs, now, max_age, i + 1)
    } else {
        i
    }
}

/// How many leading segments time-based retention removes: the expired
/// ones, keeping at least one segment.
pub open spec fn time_cut(segs: Seq<StreamSegment>, now: u64, policy_age: Option<u64>) -> int {
    match policy_age {
        Some(age) => {
            let e = leading_expired(segs, now, age, 0);
            if e < segs.len() {
                e
            } else {
                segs.len() - 1
            }
        },
        None => 0,
    }
}

/// How many leading segments remain removed once size-based retention
/// drops the oldest from `k` on while the rest is over `max` and more
/// than one segment is left.
pub open spec fn size_cut(segs: Seq<StreamSegment>, max: u64, k: int) -> int
    decreases segs.len() - k,
{
    if k < segs.len() - 1 && sum_bytes(segs.subrange(k, segs.len() as int)) > max {
        size_cut(segs, max, k + 1)
    } else {
        k
    }
}

/// How many leading segments a retention pass removes.
pub open spec fn retention_cut(segs: Seq<StreamSegment>, now: u64, policy: RetentionPolicy) -> int {
    let t = time_cut(segs, now, policy.max_age);
    match policy.max_bytes {
        Some(max) => size_cut(segs, max, t),
        None => t,
    }
}

/// Splitting off the first segment splits the sums accordingly.
pub proof fn lemma_sums_drop_first(segs: Seq<StreamSegment>)
    requires
        segs.len() > 0,
    ensures
        sum_bytes(segs) == segs[0].size_bytes + sum_bytes(segs.drop_first()),
        sum_msgs(segs) == segs[0].messages@.len() + sum_msgs(segs.drop_first()),
        all_messages(segs) == segs[0].messages@ + all_messages(segs.drop_first()),
    decreases segs.len(),
{
    if segs.len() == 1 {
        assert(segs.drop_first() =~= Seq::<StreamSegment>::empty());
        assert(segs.drop_last() =~= Seq::<StreamSegment>::empty());
        assert(segs.drop_last().len() == 0);
        assert(all_messages(segs.drop_last()) =~= Seq::<StreamMessage>::empty());
        assert(all_messages(segs.drop_first()) =~= Seq::<StreamMessage>::empty());
        assert(sum_bytes(segs.drop_first()) == 0);
        assert(sum_msgs(segs.drop_first()) == 0);
        assert(all_messages(segs) =~= segs[0].messages@);
    } else {
        lemma_sums_drop_first(segs.drop_last());
        assert(segs.drop_last().drop_first() =~= segs.drop_first().drop_last());
        assert(segs.drop_first().last() == segs.last());
        assert(all_messages(segs) =~= segs[0].messages@ + all_messages(segs.drop_first()));
    }
}

/// Sums are never negative.
pub proof fn lemma_sums_nonneg(segs: Seq<StreamSegment>)
    ensures
        sum_bytes(segs) >= 0,
        sum_msgs(segs) >= 0,
    decreases segs.len(),
{
    if segs.len() > 0 {
        lemma_sums_nonneg(segs.drop_last());
    }
}

/// Filtering a concatenation filters each part.
pub proof fn lemma_from_offset_concat(a: Seq<StreamMessage>, b: Seq<StreamMessage>, from: u64)
    ensures
        at_or_after(a + b, from) == at_or_after(a, from) + at_or_after(b, from),
    decreases b.len(),
{
    if b.len() == 0 {
        assert(a + b =~= a);
        assert(at_or_after(a, from) + at_or_after(b, from) =~= at_or_after(a, from));
    } else {
        lemma_from_offset_concat(a, b.drop_last(), from);
        assert((a + b).drop_last() =~= a + b.drop_last());
        assert((a + b).last() == b.last());
        if b.last().offset >= from {
            assert(at_or_after(a, from) + at_or_after(b, from) =~= (at_or_after(a, from)
                + at_or_after(b.drop_last(), from)).push(b.last()));
        }
    }
}

/// Append-only log storage engine for stream queues.
#[derive(Debug)]
pub struct StreamStore {
    segments: Vec<StreamSegment>,
    max_segment_size: u64,
    pub retention: RetentionPolicy,
    next_offset: u64,
}

impl StreamStore {
    /// The segments, oldest first.
    pub closed spec fn segments_spec(&self) -> Seq<StreamSegment> {
        self.segments@
    }

    /// The offset the next appended message gets.
    pub closed spec fn next_offset_spec(&self) -> u64 {
        self.next_offset
    }

    /// The retention policy.
    pub closed spec fn retention_spec(&self) -> RetentionPolicy {
        self.retention
    }

    /// The size at which a segment stops taking messages.
    pub closed spec fn max_segment_size_spec(&self) -> u64 {
        self.max_segment_size
    }

    /// The store's invariant: at least one segment; well-formed segments in
    /// offset order, created in time order; the newest one ends at the next
    /// offset; the total size fits a `u64`.
    pub closed spec fn wf(&self) -> bool {
        let segs = self.segments@;
        &&& segs.len() >= 1
        &&& seg_next(segs.last()) == self.next_offset
        &&& forall|i: int| 0 <= i < segs.len() ==> #[trigger] seg_ok(segs[i])
        &&& forall|i: int, j: int|
            0 <= i < j < segs.len() ==> seg_next(#[trigger] segs[i]) <= (#[trigger] segs[j]).start_offset
        &&& forall|i: int, j: int|
            0 <= i < j < segs.len() ==> (#[trigger] segs[i]).created_at <= (#[trigger] segs[j]).created_at
        &&& sum_bytes(segs) <= u64::MAX
        &&& sum_msgs(segs) <= self.next_offset
    }

    /// A store with one empty segment at offset 0.
    pub fn new(max_segment_size: u64, now: u64) -> (r: Self)
        ensures
            r.wf(),
            r.segments_spec().len() == 1,
            r.segments_spec()[0].start_offset == 0,
            r.segments_spec()[0].messages@.len() == 0,
            r.segments_spec()[0].created_at == now,
            sum_bytes(r.segments_spec()) == 0,
            r.next_offset_spec() == 0,
            r.max_segment_size_spec() == max_segment_size,
            r.retention_spec().max_age == Some(SEVEN_DAYS_MS),
            r.retention_spec().max_bytes is None,
    {
        let mut segments: Vec<StreamSegment> = Vec::new();
        segments.push(StreamSegment::new(0, now));
        let r = StreamStore {
            segments,
            max_segment_size,
            retention: RetentionPolicy::default(),
            next_offset: 0,
        };
        proof {
            assert(r.segments@.drop_last() =~= Seq::<StreamSegment>::empty());
            assert(r.segments@.drop_last().len() == 0);
            assert(sum_bytes(r.segments@.drop_last()) == 0);
            assert(sum_msgs(r.segments@.drop_last()) == 0);
            assert(sum_bytes(r.segments@) == 0);
            assert(sum_msgs(r.segments@) == 0);
        }
        r
    }

    /// Appends a message and returns its offset. When the newest segment
    /// holds `max_segment_size` bytes or more, a new segment is started at
    /// the next offset first.
    pub fn append(&mut self, body: Vec<u8>, now: u64) -> (r: u64)
        requires
            old(self).wf(),
            old(self).next_offset_spec() < u64::MAX,
            sum_bytes(old(self).segments_spec()) + body@.len() <= u64::MAX,
            now >= old(self).segments_spec().last().created_at,
        ensures
            final(self).wf(),
            r == old(self).next_offset_spec(),
            final(self).next_offset_spec() == r + 1,
            final(self).max_segment_size_spec() == old(self).max_segment_size_spec(),
            final(self).retention_spec() == old(self).retention_spec(),
            all_messages(final(self).segments_spec()) == all_messages(old(self).segments_spec()).push(
                StreamMessage { offset: r, body, timestamp: now },
            ),
            final(self).segments_spec().len() == old(self).segments_spec().len() + if old(
                self,
            ).segments_spec().last().size_bytes >= old(self).max_segment_size_spec() {
                1int
            } else {
                0int
            },
            read_spec(final(self).segments_spec(), r as int) == Some(
                StreamMessage { offset: r, body, timestamp: now },
            ),
            sum_bytes(final(self).segments_spec()) == sum_bytes(old(self).segments_spec()) + body@.len(),
            forall|i: int| 0 <= i < old(self).segments_spec().len() ==> (#[trigger] final(self).segments_spec()[i]).start_offset
                == old(self).segments_spec()[i].start_offset && final(self).segments_spec()[i].created_at
                == old(self).segments_spec()[i].created_at,
            final(self).segments_spec().last().created_at == if old(self).segments_spec().last().size_bytes
                >= old(self).max_segment_size_spec() {
                now
            } else {
                old(self).segments_spec().last().created_at
            },
    {
        let ghost old_segs = self.segments@;
        let last = self.segments.len() - 1;
        if self.segments[last].size_bytes >= self.max_segment_size {
            let seg = StreamSegment::new(self.next_offset, now);
            self.segments.push(seg);
            proof {
                assert(self.segments@.drop_last() =~= old_segs);
                assert(all_messages(self.segments@) =~= all_messages(old_segs));
                assert forall|i: int, j: int|
                    0 <= i < j < self.segments@.len() implies seg_next(#[trigger] self.segments@[i])
                    <= (#[trigger] self.segments@[j]).start_offset by {
                    if j == self.segments@.len() - 1 && i < j {
                        if i < old_segs.len() - 1 {
                            assert(seg_next(old_segs[i]) <= old_segs[old_segs.len() - 1].start_offset);
                        }
                    }
                }
            }
        }
        let ghost mid = self.segments@;
        let idx = self.segments.len() - 1;
        let mut seg = StreamSegment::new(0, 0);
        self.segments.set_and_swap(idx, &mut seg);
        proof {
            lemma_sums_nonneg(mid.drop_last());
            assert(seg.size_bytes + body@.len() <= u64::MAX);
        }
        let ghost body_view = body@;
        let offset = seg.append(body, now);
        let ghost new_msg = StreamMessage { offset, body: body, timestamp: now };
        let mut seg2 = seg;
        self.segments.set_and_swap(idx, &mut seg2);
        self.next_offset = offset + 1;
        proof {
            let segs = self.segments@;
            assert(segs.drop_last() =~= mid.drop_last());
            assert(all_messages(segs) =~= all_messages(mid).push(new_msg));
            assert forall|i: int, j: int|
                0 <= i < j < segs.len() implies seg_next(#[trigger] segs[i]) <= (
                #[trigger] segs[j]).start_offset by {
                assert(segs[i].start_offset == mid[i].start_offset);
                if j < segs.len() - 1 {
                    assert(segs[j] == mid[j]);
                    assert(segs[i] == mid[i]);
                }
            }
            assert forall|i: int, j: int|
                0 <= i < j < segs.len() implies (#[trigger] segs[i]).created_at <= (
                #[trigger] segs[j]).created_at by {
                assert(segs[i].created_at == mid[i].created_at);
                assert(segs[j].created_at == mid[j].created_at);
            }
            assert forall|i: int| 0 <= i < segs.len() implies #[trigger] seg_ok(segs[i]) by {
                if i < segs.len() - 1 {
                    assert(segs[i] == mid[i]);
                }
            }
            assert(segs.last().start_offset <= offset);
            assert(last_starting_at_or_before(segs, offset as int) == segs.len() - 1);
            assert(sum_bytes(segs) == sum_bytes(segs.drop_last()) + segs.last().size_bytes);
            assert(sum_bytes(mid) == sum_bytes(mid.drop_last()) + mid.last().size_bytes);
            if mid.len() > old_segs.len() {
                assert(mid.drop_last() =~= old_segs);
            }
            assert forall|i: int| 0 <= i < old_segs.len() implies (#[trigger] segs[i]).start_offset
                == old_segs[i].start_offset && segs[i].created_at == old_segs[i].created_at by {
                assert(mid[i] == old_segs[i]);
            }
        }
        offset
    }

    /// The message at `offset`, looked up in the last segment that starts
    /// at or before it.
    pub fn read(&self, offset: u64) -> (r: Option<&StreamMessage>)
        requires
            self.wf(),
        ensures
            match read_spec(self.segments_spec(), offset as int) {
                Some(m) => r == Some(&m),
                None => r is None,
            },
    {
        let ghost segs = self.segments@;
        let mut i: usize = self.segments.len();
        assert(segs.subrange(0, segs.len() as int) =~= segs);
        while i > 0
            invariant
                segs == self.segments@,
                i <= segs.len(),
                last_starting_at_or_before(segs, offset as int) == last_starting_at_or_before(
                    segs.subrange(0, i as int),
                    offset as int,
                ),
            decreases i,
        {
            let ghost pre = segs.subrange(0, i as int);
            assert(pre.drop_last() =~= segs.subrange(0, i - 1));
            assert(pre.last() == segs[i - 1]);
            if self.segments[i - 1].start_offset <= offset {
                return self.segments[i - 1].get(offset);
            }
            i = i - 1;
        }
        None
    }

    /// The messages with offset at least `from_offset`, oldest first; up to
    /// `limit` of them (none when `limit` is 0).
    pub fn read_range(&self, from_offset: u64, limit: usize) -> (r: Vec<&StreamMessage>)
        requires
            self.wf(),
        ensures
            r@.len() == take_upto(
                at_or_after(all_messages(self.segments_spec()), from_offset),
                limit as int,
            ).len(),
            forall|k: int|
                0 <= k < r@.len() ==> *#[trigger] r@[k] == take_upto(
                    at_or_after(all_messages(self.segments_spec()), from_offset),
                    limit as int,
                )[k],
    {
        if limit == 0 {
            return Vec::new();
        }
        let ghost segs = self.segments@;
        let ghost lim: int = limit as int;
        let mut results: Vec<&StreamMessage> = Vec::new();
        let mut si: usize = 0;
        while si < self.segments.len()
            invariant
                segs == self.segments@,
                si <= segs.len(),
                lim == limit as int,
                results@.len() < lim,
                results@.len() == at_or_after(all_messages(segs.subrange(0, si as int)), from_offset).len(),
                forall|k: int|
                    0 <= k < results@.len() ==> *#[trigger] results@[k] == at_or_after(
                        all_messages(segs.subrange(0, si as int)),
                        from_offset,
                    )[k],
            decreases segs.len() - si,
        {
            let seg = &self.segments[si];
            let ghost before = all_messages(segs.subrange(0, si as int));
            proof {
                assert(segs.subrange(0, si + 1).drop_last() =~= segs.subrange(0, si as int));
                assert(all_messages(segs.subrange(0, si + 1)) == before + seg.messages@);
                lemma_from_offset_concat(before, seg.messages@, from_offset);
            }
            let mut mi: usize = 0;
            while mi < seg.messages.len()
                invariant
                    segs == self.segments@,
                    si < segs.len(),
                    *seg == segs[si as int],
                    before == all_messages(segs.subrange(0, si as int)),
                    mi <= seg.messages@.len(),
                    lim == limit as int,
                    results@.len() < lim,
                    results@.len() == at_or_after(
                        before + seg.messages@.subrange(0, mi as int),
                        from_offset,
                    ).len(),
                    forall|k: int|
                        0 <= k < results@.len() ==> *#[trigger] results@[k] == at_or_after(
                            before + seg.messages@.subrange(0, mi as int),
                            from_offset,
                        )[k],
                decreases seg.messages@.len() - mi,
            {
                let msg = &seg.messages[mi];
                let ghost pre = before + seg.messages@.subrange(0, mi as int);
                let ghost pre1 = before + seg.messages@.subrange(0, mi + 1);
                assert(pre1.drop_last() =~= pre);
                assert(pre1.last() == *msg);
                if msg.offset >= from_offset {
                    assert(at_or_after(pre1, from_offset) == at_or_after(pre, from_offset).push(*msg));
                    results.push(msg);
                    assert(results@.len() == at_or_after(pre1, from_offset).len());
                    if results.len() >= limit {
                        assert(at_or_after(pre1, from_offset).len() >= lim);
                        proof {
                            lemma_take_stable(segs, si as int, mi as int + 1, from_offset, lim);
                        }
                        return results;
                    }
                }
                mi = mi + 1;
            }
            assert(seg.messages@.subrange(0, seg.messages@.len() as int) =~= seg.messages@);
            assert(segs.subrange(0, si + 1).drop_last() =~= segs.subrange(0, si as int));
            si = si + 1;
        }
        assert(segs.subrange(0, segs.len() as int) =~= segs);
        results
    }

    /// The oldest offset still held: the start of the first segment.
    pub fn first_offset(&self) -> (r: u64)
        requires
            self.wf(),
        ensures
            r == self.segments_spec()[0].start_offset,
    {
        self.segments[0].start_offset
    }

    /// The newest offset written, or 0 when nothing was written.
    pub fn last_offset(&self) -> (r: u64)
        ensures
            r == if self.next_offset_spec() == 0 { 0 } else { (self.next_offset_spec() - 1) as u64 },
    {
        if self.next_offset == 0 {
            0
        } else {
            self.next_offset - 1
        }
    }

    /// The offset the next appended message gets.
    pub fn next_offset(&self) -> (r: u64)
        ensures
            r == self.next_offset_spec(),
    {
        self.next_offset
    }

    /// Applies the retention policy at `now`: the expired oldest segments
    /// are evicted, then the oldest ones while the total size is over the
    /// limit; at least one segment always stays.
    pub fn apply_retention(&mut self, now: u64)
        requires
            old(self).wf(),
            forall|i: int|
                0 <= i < old(self).segments_spec().len() ==> #[trigger] old(
                    self,
                ).segments_spec()[i].created_at <= now,
        ensures
            final(self).wf(),
            ({
                let segs = old(self).segments_spec();
                let k = retention_cut(segs, now, old(self).retention_spec());
                &&& 0 <= k < segs.len()
                &&& final(self).segments_spec() == segs.subrange(k, segs.len() as int)
            }),
            final(self).next_offset_spec() == old(self).next_offset_spec(),
            final(self).max_segment_size_spec() == old(self).max_segment_size_spec(),
            final(self).retention_spec() == old(self).retention_spec(),
    {
        let t = self.time_cut_exec(now);
        let cut = match self.retention.max_bytes {
            Some(max) => self.size_cut_exec(t, max),
            None => t,
        };
        self.drop_front(cut);
    }

    /// How many leading segments time-based retention removes.
    fn time_cut_exec(&self, now: u64) -> (r: usize)
        requires
            self.wf(),
            forall|i: int| 0 <= i < self.segments_spec().len() ==> #[trigger] self.segments_spec()[i].created_at <= now,
        ensures
            r as int == time_cut(self.segments_spec(), now, self.retention_spec().max_age),
            r < self.segments_spec().len(),
    {
        let ghost segs = self.segments@;
        assert forall|i: int| 0 <= i < segs.len() implies #[trigger] segs[i].created_at <= now by {
            assert(self.segments_spec()[i] == segs[i]);
        }
        match self.retention.max_age {
            Some(max_age) => {
                let mut e: usize = 0;
                while e < self.segments.len() && now - self.segments[e].created_at > max_age
                    invariant
                        self.segments@ == segs,
                        e <= segs.len(),
                        leading_expired(segs, now, max_age, 0) == leading_expired(segs, now, max_age, e as int),
                        forall|i: int| 0 <= i < segs.len() ==> #[trigger] segs[i].created_at <= now,
                    decreases segs.len() - e,
                {
                    e = e + 1;
                }
                if e < self.segments.len() {
                    e
                } else {
                    self.segments.len() - 1
                }
            },
            None => 0,
        }
    }

    /// How many leading segments stay removed once size-based retention
    /// has run from `cut` on.
    fn size_cut_exec(&self, cut: usize, max: u64) -> (r: usize)
        requires
            self.wf(),
            cut < self.segments_spec().len(),
        ensures
            r as int == size_cut(self.segments_spec(), max, cut as int),
            r < self.segments_spec().len(),
    {
        let ghost segs = self.segments@;
        let mut total: u64 = self.total_bytes();
        proof {
            assert(segs.subrange(0, segs.len() as int) =~= segs);
        }
        let mut i: usize = 0;
        while i < cut
            invariant
                self.segments@ == segs,
                i <= cut < segs.len(),
                total as int == sum_bytes(segs.subrange(i as int, segs.len() as int)),
            decreases cut - i,
        {
            proof {
                lemma_sum_suffix(segs, i as int);
            }
            total = total - self.segments[i].size_bytes;
            i = i + 1;
        }
        let mut k = cut;
        while k < self.segments.len() - 1 && total > max
            invariant
                self.segments@ == segs,
                cut <= k < segs.len(),
                total as int == sum_bytes(segs.subrange(k as int, segs.len() as int)),
                size_cut(segs, max, cut as int) == size_cut(segs, max, k as int),
            decreases segs.len() - k,
        {
            proof {
                lemma_sum_suffix(segs, k as int);
            }
            total = total - self.segments[k].size_bytes;
            k = k + 1;
        }
        k
    }

    /// Evicts the `cut` oldest segments.
    fn drop_front(&mut self, cut: usize)
        requires
            old(self).wf(),
            cut < old(self).segments_spec().len(),
        ensures
            final(self).wf(),
            final(self).segments_spec() == old(self).segments_spec().subrange(
                cut as int,
                old(self).segments_spec().len() as int,
            ),
            final(self).next_offset_spec() == old(self).next_offset_spec(),
            final(self).max_segment_size_spec() == old(self).max_segment_size_spec(),
            final(self).retention_spec() == old(self).retention_spec(),
    {
        let ghost segs = self.segments@;
        let kept = self.segments.split_off(cut);
        self.segments = kept;
        proof {
            let ns = self.segments@;
            assert(ns == segs.subrange(cut as int, segs.len() as int));
            assert(ns.last() == segs.last());
            lemma_sum_suffix_bounds(segs, cut as int);
            assert forall|a: int, b: int|
                0 <= a < b < ns.len() implies seg_next(#[trigger] ns[a]) <= (#[trigger] ns[b]).start_offset by {
                assert(ns[a] == segs[a + cut]);
                assert(ns[b] == segs[b + cut]);
            }
            assert forall|a: int, b: int|
                0 <= a < b < ns.len() implies (#[trigger] ns[a]).created_at <= (#[trigger] ns[b]).created_at by {
                assert(ns[a] == segs[a + cut]);
                assert(ns[b] == segs[b + cut]);
            }
            assert forall|a: int| 0 <= a < ns.len() implies #[trigger] seg_ok(ns[a]) by {
                assert(ns[a] == segs[a + cut]);
            }
        }
    }

    /// Total size of all segments in bytes.
    pub fn total_bytes(&self) -> (r: u64)
        requires
            self.wf(),
        ensures
            r == sum_bytes(self.segments_spec()),
    {
        let ghost segs = self.segments@;
        let mut sum: u64 = 0;
        let mut i: usize = 0;
        while i < self.segments.len()
            invariant
                segs == self.segments@,
                i <= segs.len(),
                sum == sum_bytes(segs.subrange(0, i as int)),
                sum_bytes(segs) <= u64::MAX,
            decreases segs.len() - i,
        {
            proof {
                assert(segs.subrange(0, i + 1).drop_last() =~= segs.subrange(0, i as int));
                lemma_prefix_sums_le(segs, i + 1);
            }
            sum = sum + self.segments[i].size_bytes;
            i = i + 1;
        }
        assert(segs.subrange(0, segs.len() as int) =~= segs);
        sum
    }

    /// Total number of messages across all segments.
    pub fn total_messages(&self) -> (r: u64)
        requires
            self.wf(),
        ensures
            r == sum_msgs(self.segments_spec()),
    {
        let ghost segs = self.segments@;
        let mut sum: u64 = 0;
        let mut i: usize = 0;
        while i < self.segments.len()
            invariant
                segs == self.segments@,
                i <= segs.len(),
                sum == sum_msgs(segs.subrange(0, i as int)),
                sum_msgs(segs) <= u64::MAX,
            decreases segs.len() - i,
        {
            proof {
                assert(segs.subrange(0, i + 1).drop_last() =~= segs.subrange(0, i as int));
                lemma_prefix_sums_le(segs, i + 1);
            }
            sum = sum + self.segments[i].messages.len() as u64;
            i = i + 1;
        }
        assert(segs.subrange(0, segs.len() as int) =~= segs);
        sum
    }

    /// Number of segments.
    pub fn segment_count(&self) -> (r: usize)
        ensures
            r == self.segments_spec().len(),
    {
        self.segments.len()
    }

    /// Start offset of the newest segment.
    fn current_segment_start(&self) -> (r: u64)
        requires
            self.wf(),
        ensures
            r == self.segments_spec().last().start_offset,
    {
        self.segments[self.segments.len() - 1].start_offset
    }
}

/// Prefix sums never exceed the whole sum.
pub proof fn lemma_prefix_sums_le(segs: Seq<StreamSegment>, n: int)
    requires
        0 <= n <= segs.len(),
    ensures
        sum_bytes(segs.subrange(0, n)) <= sum_bytes(segs),
        sum_msgs(segs.subrange(0, n)) <= sum_msgs(segs),
    decreases segs.len() - n,
{
    if n < segs.len() {
        lemma_prefix_sums_le(segs, n + 1);
        assert(segs.subrange(0, n + 1).drop_last() =~= segs.subrange(0, n));
    } else {
        assert(segs.subrange(0, n) =~= segs);
    }
}

/// The sum of a suffix is the first element's size plus the next suffix.
pub proof fn lemma_sum_suffix(segs: Seq<StreamSegment>, i: int)
    requires
        0 <= i < segs.len(),
    ensures
        sum_bytes(segs.subrange(i, segs.len() as int)) == segs[i].size_bytes + sum_bytes(
            segs.subrange(i + 1, segs.len() as int),
        ),
        sum_bytes(segs.subrange(i + 1, segs.len() as int)) >= 0,
{
    let suf = segs.subrange(i, segs.len() as int);
    lemma_sums_drop_first(suf);
    assert(suf.drop_first() =~= segs.subrange(i + 1, segs.len() as int));
    lemma_sums_nonneg(segs.subrange(i + 1, segs.len() as int));
}

/// A suffix's sums are bounded by the whole list's.
pub proof fn lemma_sum_suffix_bounds(segs: Seq<StreamSegment>, k: int)
    requires
        0 <= k <= segs.len(),
    ensures
        sum_bytes(segs.subrange(k, segs.len() as int)) <= sum_bytes(segs),
        sum_msgs(segs.subrange(k, segs.len() as int)) <= sum_msgs(segs),
    decreases k,
{
    if k == 0 {
        assert(segs.subrange(0, segs.len() as int) =~= segs);
    } else {
        lemma_sum_suffix_bounds(segs, k - 1);
        let suf = segs.subrange(k - 1, segs.len() as int);
        lemma_sums_drop_first(suf);
        assert(suf.drop_first() =~= segs.subrange(k, segs.len() as int));
    }
}

/// Once `lim` results are collected, the rest of the stream does not
/// change the first `lim` matches.
pub proof fn lemma_take_stable(segs: Seq<StreamSegment>, si: int, mi: int, from: u64, lim: int)
    requires
        0 <= si < segs.len(),
        0 <= mi <= segs[si].messages@.len(),
        at_or_after(
            all_messages(segs.subrange(0, si)) + segs[si].messages@.subrange(0, mi),
            from,
        ).len() >= lim,
        lim >= 0,
    ensures
        take_upto(at_or_after(all_messages(segs), from), lim) == take_upto(
            at_or_after(all_messages(segs.subrange(0, si)) + segs[si].messages@.subrange(0, mi), from),
            lim,
        ),
{
    let pre = all_messages(segs.subrange(0, si)) + segs[si].messages@.subrange(0, mi);
    let rest = segs[si].messages@.subrange(mi, segs[si].messages@.len() as int) + all_messages(
        segs.subrange(si + 1, segs.len() as int),
    );
    lemma_all_messages_split(segs, si);
    assert(segs[si].messages@ =~= segs[si].messages@.subrange(0, mi) + segs[si].messages@.subrange(
        mi,
        segs[si].messages@.len() as int,
    ));
    assert(all_messages(segs) =~= pre + rest);
    lemma_from_offset_concat(pre, rest, from);
    lemma_take_prefix(at_or_after(pre, from), at_or_after(rest, from), lim);
}

/// Taking `n` from a concatenation whose first part has `n` or more
/// elements only looks at the first part.
pub proof fn lemma_take_prefix<T>(x: Seq<T>, y: Seq<T>, n: int)
    requires
        0 <= n <= x.len(),
    ensures
        take_upto(x + y, n) == take_upto(x, n),
{
    if x.len() == n {
        if y.len() == 0 {
            assert(x + y =~= x);
        } else {
            assert((x + y).subrange(0, n) =~= x);
        }
    } else {
        assert((x + y).subrange(0, n) =~= x.subrange(0, n));
    }
}

/// The messages of a list of segments split around segment `si`.
pub proof fn lemma_all_messages_split(segs: Seq<StreamSegment>, si: int)
    requires
        0 <= si < segs.len(),
    ensures
        all_messages(segs) == all_messages(segs.subrange(0, si)) + segs[si].messages@
            + all_messages(segs.subrange(si + 1, segs.len() as int)),
    decreases si,
{
    if si == 0 {
        lemma_sums_drop_first(segs);
        assert(segs.subrange(0, 0) =~= Seq::<StreamSegment>::empty());
        assert(segs.drop_first() =~= segs.subrange(1, segs.len() as int));
        assert(all_messages(Seq::<StreamSegment>::empty()) + segs[0].messages@ =~= segs[0].messages@);
    } else {
        lemma_sums_drop_first(segs);
        let tail = segs.drop_first();
        lemma_all_messages_split(tail, si - 1);
        assert(tail.subrange(0, si - 1) =~= segs.subrange(1, si));
        assert(tail.subrange(si, tail.len() as int) =~= segs.subrange(si + 1, segs.len() as int));
        lemma_sums_drop_first(segs.subrange(0, si));
        assert(segs.subrange(0, si).drop_first() =~= segs.subrange(1, si));
    }
}

/// Per-consumer offset tracking for stream queues.
#[derive(Clone, Debug)]
pub struct ConsumerOffset {
    pub consumer_tag: String,
    pub current_offset: u64,
}

/// The value of a decimal numeral, optionally preceded by `+`, as
/// `u64::from_str` reads it; `None` when it is not one or does not fit.
pub open spec fn parse_u64_spec(b: Seq<u8>) -> Option<u64> {
    if digits_of(b).len() == 0 || !all_digits(digits_of(b)) {
        None
    } else if decimal_value(digits_of(b)) > u64::MAX {
        None
    } else {
        Some(decimal_value(digits_of(b)) as u64)
    }
}

/// The bytes after an optional leading `+`.
pub open spec fn digits_of(b: Seq<u8>) -> Seq<u8> {
    if b.len() > 0 && b[0] == 43u8 {
        b.drop_first()
    } else {
        b
    }
}

/// Whether every byte is an ASCII decimal digit.
pub open spec fn all_digits(d: Seq<u8>) -> bool {
    forall|i: int| 0 <= i < d.len() ==> 48u8 <= #[trigger] d[i] <= 57u8
}

/// The value of a string of decimal digits.
pub open spec fn decimal_value(d: Seq<u8>) -> nat
    decreases d.len(),
{
    if d.len() == 0 {
        0
    } else {
        decimal_value(d.drop_last()) * 10 + (d.last() - 48) as nat
    }
}

/// Parses a decimal `u64` as `u64::from_str` does.
pub fn parse_u64(s: &str) -> (r: Option<u64>)
    ensures
        r == parse_u64_spec(s.spec_bytes()),
{
    parse_u64_bytes(s.as_bytes())
}

/// Parses the bytes of a decimal `u64` as `u64::from_str` does.
pub fn parse_u64_bytes(b: &[u8]) -> (r: Option<u64>)
    ensures
        r == parse_u64_spec(b@),
{
    let start: usize = if b.len() > 0 && b[0] == 43 { 1 } else { 0 };
    let ghost digits = digits_of(b@);
    assert(digits =~= b@.subrange(start as int, b@.len() as int));
    if start == b.len() {
        return None;
    }
    let mut value: u64 = 0;
    let mut i: usize = start;
    let mut overflow = false;
    while i < b.len()
        invariant
            start <= i <= b@.len(),
            digits == digits_of(b@),
            digits == b@.subrange(start as int, b@.len() as int),
            forall|t: int| start <= t < i ==> 48u8 <= #[trigger] b@[t] <= 57u8,
            !overflow ==> value == decimal_value(b@.subrange(start as int, i as int)),
            overflow ==> decimal_value(b@.subrange(start as int, i as int)) > u64::MAX,
        decreases b@.len() - i,
    {
        let c = b[i];
        if c < 48 || c > 57 {
            assert(digits[i - start] == c);
            assert(!(48u8 <= digits[i - start] <= 57u8));
            return None;
        }
        let ghost pre = b@.subrange(start as int, i + 1);
        assert(pre.drop_last() =~= b@.subrange(start as int, i as int));
        let d = (c - 48) as u64;
        if overflow || value > (u64::MAX - d) / 10 {
            proof {
                if !overflow {
                    assert(value * 10 + d > u64::MAX) by (nonlinear_arith)
                        requires value > (u64::MAX - d) / 10, d <= 9;
                } else {
                    lemma_decimal_grows(b@.subrange(start as int, i as int), d as int);
                }
            }
            overflow = true;
        } else {
            assert(value * 10 + d <= u64::MAX) by (nonlinear_arith)
                requires value <= (u64::MAX - d) / 10, d <= 9;
            value = value * 10 + d;
        }
        i = i + 1;
    }
    if overflow {
        None
    } else {
        Some(value)
    }
}

/// Appending a digit does not make a numeral smaller.
proof fn lemma_decimal_grows(d: Seq<u8>, x: int)
    requires
        0 <= x <= 9,
    ensures
        decimal_value(d) * 10 + x >= decimal_value(d),
{
}

/// Resolves an `x-stream-offset` argument: `"first"` is the oldest offset
/// held, `"last"` the newest written, `"next"` the next to be written, a
/// decimal numeral that offset, anything else the oldest offset.
pub fn resolve_stream_offset(value: &str, store: &StreamStore) -> (r: u64)
    requires
        store.wf(),
    ensures
        r == if value@ == "first"@ {
            store.segments_spec()[0].start_offset
        } else if value@ == "last"@ {
            if store.next_offset_spec() == 0 { 0 } else { (store.next_offset_spec() - 1) as u64 }
        } else if value@ == "next"@ {
            store.next_offset_spec()
        } else {
            match parse_u64_spec(value.spec_bytes()) {
                Some(n) => n,
                None => store.segments_spec()[0].start_offset,
            }
        },
{
    if str_eq(value, "first") {
        store.first_offset()
    } else if str_eq(value, "last") {
        store.last_offset()
    } else if str_eq(value, "next") {
        store.next_offset()
    } else {
        match parse_u64(value) {
            Some(n) => n,
            None => store.first_offset(),
        }
    }
}

/// Size retention removes the fewest oldest segments it must: from
/// `start` on, every segment it removes left more than `max` bytes from
/// it to the end, and what it keeps totals at most `max` bytes unless only
/// the newest segment is left.
pub proof fn lemma_size_cut_fewest(segs: Seq<StreamSegment>, max: u64, start: int)
    requires
        0 <= start < segs.len(),
    ensures
        start <= size_cut(segs, max, start) < segs.len(),
        forall|j: int|
            start <= j < size_cut(segs, max, start) ==> #[trigger] sum_bytes(segs.subrange(j, segs.len() as int)) > max,
        sum_bytes(segs.subrange(size_cut(segs, max, start), segs.len() as int)) <= max || size_cut(segs, max, start)
            == segs.len() - 1,
    decreases segs.len() - start,
{
    if start < segs.len() - 1 && sum_bytes(segs.subrange(start, segs.len() as int)) > max {
        lemma_size_cut_fewest(segs, max, start + 1);
    }
}

/// What a retention pass keeps under a size limit `max`: past the segments
/// the age rule removes, the oldest segments go only while the rest is
/// over `max` — each one removed for size left more than `max` bytes from
/// it to the end — and the segments kept total at most `max` bytes unless
/// only one is left.
pub proof fn lemma_retention_by_size(segs: Seq<StreamSegment>, now: u64, policy: RetentionPolicy, max: u64)
    requires
        segs.len() > 0,
        policy.max_bytes == Some(max),
    ensures
        ({
            let t = time_cut(segs, now, policy.max_age);
            let k = retention_cut(segs, now, policy);
            &&& t <= k < segs.len()
            &&& forall|j: int| t <= j < k ==> #[trigger] sum_bytes(segs.subrange(j, segs.len() as int)) > max
            &&& sum_bytes(segs.subrange(k, segs.len() as int)) <= max || k == segs.len() - 1
        }),
{
    if let Some(age) = policy.max_age {
        lemma_leading_expired_from(segs, now, age, 0);
    }
    lemma_size_cut_fewest(segs, max, time_cut(segs, now, policy.max_age));
}

/// The leading expired segments counted from `i` end at or after `i`.
proof fn lemma_leading_expired_from(segs: Seq<StreamSegment>, now: u64, age: u64, i: int)
    requires
        0 <= i,
    ensures
        leading_expired(segs, now, age, i) >= i || leading_expired(segs, now, age, i) == segs.len(),
        leading_expired(segs, now, age, i) >= 0,
    decreases segs.len() - i,
{
    if i < segs.len() && expired(segs[i].created_at, now, age) {
        lemma_leading_expired_from(segs, now, age, i + 1);
    }
}

/// Age retention removes exactly the leading segments older than the
/// limit, but never the newest: every removed segment is older than
/// `max_age` at `now`, and the first segment kept is not, unless it is the
/// only one left. Without an
/// age limit nothing is removed for age.
pub proof fn lemma_time_cut_removes_expired(segs: Seq<StreamSegment>, now: u64, max_age: Option<u64>)
    requires
        segs.len() > 0,
    ensures
        0 <= time_cut(segs, now, max_age) < segs.len(),
        max_age is None ==> time_cut(segs, now, max_age) == 0,
        max_age matches Some(age) ==> {
            &&& forall|j: int| 0 <= j < time_cut(segs, now, max_age) ==> now - (#[trigger] segs[j]).created_at > age
            &&& (time_cut(segs, now, max_age) < segs.len() - 1 ==> !(now - segs[time_cut(segs, now, max_age)].created_at > age))
        },
{
    if let Some(age) = max_age {
        lemma_leading_expired_run(segs, now, age, 0);
        assert forall|j: int| 0 <= j < time_cut(segs, now, max_age) implies now - (#[trigger] segs[j]).created_at > age by {
            assert(expired(segs[j].created_at, now, age));
        }
    }
}

/// From `i` on, the leading expired segments are all expired and the one
/// that ends the run is not.
proof fn lemma_leading_expired_run(segs: Seq<StreamSegment>, now: u64, age: u64, i: int)
    requires
        0 <= i <= segs.len(),
    ensures
        i <= leading_expired(segs, now, age, i) <= segs.len(),
        forall|j: int| i <= j < leading_expired(segs, now, age, i) ==> #[trigger] expired(segs[j].created_at, now, age),
        leading_expired(segs, now, age, i) < segs.len() ==> !expired(
            segs[leading_expired(segs, now, age, i)].created_at,
            now,
            age,
        ),
    decreases segs.len() - i,
{
    if i < segs.len() && expired(segs[i].created_at, now, age) {
        lemma_leading_expired_run(segs, now, age, i + 1);
    }
}

} // verus!
