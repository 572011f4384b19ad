//! Runtime state of a queue: its messages, the consumers subscribed to it
//! and the consumer groups that share its deliveries round-robin.

use vstd::prelude::*;
use crate::queue::message::{Message, QueueMessage};
use crate::queue::options::{QueueOptions, QueueOptionsView, QueueType};
use crate::queue::priority::{PriorityQueue, LEVELS};
use crate::routing::topic::str_eq;
use crate::schema::proto::QueueSchema;
use crate::text::decimal::{append_decimal, decimal_chars};

verus! {

/// `s` without any occurrence of `x`, order kept.
pub open spec fn remove_all(s: Seq<(u64, u16)>, x: (u64, u16)) -> Seq<(u64, u16)>
    decreases s.len(),
{
    if s.len() == 0 {
        s
    } else {
        let prev = remove_all(s.drop_last(), x);
        if s.last() == x {
            prev
        } else {
            prev.push(s.last())
        }
    }
}

/// Removing an element that does not occur leaves the sequence unchanged.
pub proof fn lemma_remove_absent(s: Seq<(u64, u16)>, x: (u64, u16))
    requires
        !s.contains(x),
    ensures
        remove_all(s, x) == s,
    decreases s.len(),
{
    if s.len() > 0 {
        assert(!s.drop_last().contains(x)) by {
            if s.drop_last().contains(x) {
                let i = choose|i: int| 0 <= i < s.drop_last().len() && s.drop_last()[i] == x;
                assert(s[i] == x);
            }
        }
        lemma_remove_absent(s.drop_last(), x);
        assert(s.drop_last().push(s.last()) =~= s);
    }
}

/// Removing an element that occurs makes the sequence shorter.
pub proof fn lemma_remove_present(s: Seq<(u64, u16)>, x: (u64, u16))
    ensures
        remove_all(s, x).len() <= s.len(),
        s.contains(x) ==> remove_all(s, x).len() < s.len(),
    decreases s.len(),
{
    if s.len() > 0 {
        lemma_remove_present(s.drop_last(), x);
        if s.contains(x) && s.last() != x {
            let i = choose|i: int| 0 <= i < s.len() && s[i] == x;
            assert(s.drop_last()[i] == x);
        }
    }
}

/// A named set of consumers (connection, channel) that receive a queue's
/// messages in turn.
#[derive(Debug)]
pub struct ConsumerGroup {
    pub name: String,
    pub members: Vec<(u64, u16)>,
    next_member: usize,
}

/// Index of the first member, trying from `start` round-robin for at most
/// `n` tries, whose connection is live; `n` when none is.
pub open spec fn first_live(m: Seq<(u64, u16)>, live: Seq<u64>, start: int, n: int) -> int
    decreases n,
{
    if n <= 0 {
        0
    } else {
        let prev = first_live(m, live, start, n - 1);
        if prev < n - 1 {
            prev
        } else if live.contains(m[(start + n - 1) % (m.len() as int)].0) {
            n - 1
        } else {
            n
        }
    }
}

/// `first_live` is at most the number of tries.
pub proof fn lemma_first_live_bound(m: Seq<(u64, u16)>, live: Seq<u64>, start: int, n: int)
    requires
        n >= 0,
    ensures
        0 <= first_live(m, live, start, n) <= n,
    decreases n,
{
    if n > 0 {
        lemma_first_live_bound(m, live, start, n - 1);
    }
}

impl ConsumerGroup {
    /// The round-robin position: how many members have been tried so far.
    pub closed spec fn cursor(&self) -> usize {
        self.next_member
    }

    /// The members, in joining order.
    pub closed spec fn members_spec(&self) -> Seq<(u64, u16)> {
        self.members@
    }

    /// The group name.
    pub closed spec fn name_spec(&self) -> Seq<char> {
        self.name@
    }

    /// An empty group.
    pub fn new(name: String) -> (r: Self)
        ensures
            r.name_spec() == name@,
            r.members_spec().len() == 0,
            r.cursor() == 0,
    {
        ConsumerGroup { name, members: Vec::new(), next_member: 0 }
    }

    /// Adds a member; refuses (returns `false`) one that is already there.
    pub fn add_member(&mut self, conn_id: u64, channel_id: u16) -> (r: bool)
        ensures
            r == !old(self).members_spec().contains((conn_id, channel_id)),
            r ==> final(self).members_spec() == old(self).members_spec().push((conn_id, channel_id)),
            !r ==> final(self).members_spec() == old(self).members_spec(),
            final(self).name_spec() == old(self).name_spec(),
            final(self).cursor() == old(self).cursor(),
    {
        let mut i: usize = 0;
        while i < self.members.len()
            invariant
                i <= self.members@.len(),
                self.members@ == old(self).members_spec(),
                self.name == old(self).name,
                self.next_member == old(self).next_member,
                forall|t: int| 0 <= t < i ==> #[trigger] self.members@[t] != (conn_id, channel_id),
            decreases self.members@.len() - i,
        {
            if self.members[i].0 == conn_id && self.members[i].1 == channel_id {
                assert(self.members@[i as int] == (conn_id, channel_id));
                return false;
            }
            i = i + 1;
        }
        self.members.push((conn_id, channel_id));
        true
    }

    /// Removes the member; returns whether it was there.
    pub fn remove_member(&mut self, conn_id: u64, channel_id: u16) -> (r: bool)
        ensures
            final(self).members_spec() == remove_all(old(self).members_spec(), (conn_id, channel_id)),
            r == old(self).members_spec().contains((conn_id, channel_id)),
            final(self).name_spec() == old(self).name_spec(),
            final(self).cursor() == old(self).cursor(),
    {
        let ghost all = self.members@;
        let mut kept: Vec<(u64, u16)> = Vec::new();
        let mut i: usize = 0;
        while i < self.members.len()
            invariant
                i <= all.len(),
                self.members@ == all,
                all == old(self).members_spec(),
                kept@ == remove_all(all.subrange(0, i as int), (conn_id, channel_id)),
            decreases all.len() - i,
        {
            assert(all.subrange(0, i + 1).drop_last() =~= all.subrange(0, i as int));
            let m = self.members[i];
            if !(m.0 == conn_id && m.1 == channel_id) {
                kept.push(m);
            }
            i = i + 1;
        }
        assert(all.subrange(0, all.len() as int) =~= all);
        let before = self.members.len();
        let after = kept.len();
        self.members = kept;
        proof {
            lemma_remove_present(all, (conn_id, channel_id));
            if !all.contains((conn_id, channel_id)) {
                lemma_remove_absent(all, (conn_id, channel_id));
            }
        }
        after != before
    }

    /// The next member, round-robin, whose connection is among `live`;
    /// every member is tried at most once.
    pub fn next_target(&mut self, live: &[u64]) -> (r: Option<(u64, u16)>)
        requires
            old(self).cursor() + old(self).members_spec().len() <= usize::MAX,
        ensures
            final(self).members_spec() == old(self).members_spec(),
            final(self).name_spec() == old(self).name_spec(),
            (r, final(self).cursor()) == rr_step(old(self).members_spec(), old(self).cursor(), live@),
    {
        let (r, c) = round_robin_pick(&self.members, self.next_member, live);
        self.next_member = c;
        r
    }
}

/// One round-robin pick over `m` from cursor `start`: the first member,
/// trying at most once each, whose connection is in `live`, and the new
/// cursor.
pub open spec fn rr_step(m: Seq<(u64, u16)>, start: usize, live: Seq<u64>) -> (Option<(u64, u16)>, usize) {
    let n = m.len() as int;
    let k = first_live(m, live, start as int, n);
    if n == 0 {
        (None, start)
    } else if k < n {
        (Some(m[(start + k) % n]), (start + k + 1) as usize)
    } else {
        (None, (start + n) as usize)
    }
}

/// Round-robin pick: tries the members from `cursor` on, each at most once,
/// and returns the first whose connection is in `live`, with the cursor
/// moved past every member tried.
pub fn round_robin_pick(members: &Vec<(u64, u16)>, cursor: usize, live: &[u64]) -> (r: (Option<(u64, u16)>, usize))
    requires
        cursor + members@.len() <= usize::MAX,
    ensures
        r == rr_step(members@, cursor, live@),
{
    let len = members.len();
    if len == 0 {
        return (None, cursor);
    }
    let ghost start = cursor as int;
    let mut next = cursor;
    let mut tried: usize = 0;
    while tried < len
        invariant
            len == members@.len(),
            len > 0,
            start == cursor,
            start + len <= usize::MAX,
            tried <= len,
            next == start + tried,
            first_live(members@, live@, start, tried as int) == tried,
        decreases len - tried,
    {
        let idx = next % len;
        next = next + 1;
        let (conn_id, channel_id) = members[idx];
        let found = contains_u64(live, conn_id);
        proof {
            assert(idx as int == (start + tried) % (len as int));
            assert(first_live(members@, live@, start, tried + 1) == if found {
                tried as int
            } else {
                tried + 1
            });
        }
        if found {
            proof {
                lemma_first_live_bound(members@, live@, start, len as int);
                lemma_first_live_stops(members@, live@, start, tried as int + 1, len as int);
            }
            return (Some((conn_id, channel_id)), next);
        }
        tried = tried + 1;
    }
    (None, next)
}

/// Whether `x` occurs in `s`.
fn contains_u64(s: &[u64], x: u64) -> (r: bool)
    ensures
        r == s@.contains(x),
{
    let mut j: usize = 0;
    while j < s.len()
        invariant
            j <= s@.len(),
            forall|t: int| 0 <= t < j ==> s@[t] != x,
        decreases s@.len() - j,
    {
        if s[j] == x {
            assert(s@[j as int] == x);
            return true;
        }
        j = j + 1;
    }
    false
}

/// Once a live member is found, further tries do not change the answer.
pub proof fn lemma_first_live_stops(m: Seq<(u64, u16)>, live: Seq<u64>, start: int, k: int, n: int)
    requires
        1 <= k <= n,
        first_live(m, live, start, k) == k - 1,
    ensures
        first_live(m, live, start, n) == k - 1,
    decreases n - k,
{
    if n > k {
        lemma_first_live_stops(m, live, start, k, n - 1);
    }
}

// ─── Queue state ──────────────────────────────────────────────────────

/// A subscription seen as its tag, connection and channel.
pub open spec fn tag_model(t: (String, u64, u16)) -> (Seq<char>, u64, u16) {
    (t.0@, t.1, t.2)
}

/// Subscriptions seen as tags, connections and channels.
pub open spec fn tags_model(ts: Seq<(String, u64, u16)>) -> Seq<(Seq<char>, u64, u16)> {
    ts.map_values(|t: (String, u64, u16)| tag_model(t))
}

/// The position of the first subscription with `tag` from `i` on, or the
/// length.
pub open spec fn tag_pos(ts: Seq<(Seq<char>, u64, u16)>, tag: Seq<char>, i: int) -> int
    decreases ts.len() - i,
{
    if i < 0 || i >= ts.len() {
        ts.len() as int
    } else if ts[i].0 == tag {
        i
    } else {
        tag_pos(ts, tag, i + 1)
    }
}

/// The subscriptions after `tag` is (re)bound to the channel: an existing
/// entry is rebound in place, a new one goes last.
pub open spec fn tags_insert(ts: Seq<(Seq<char>, u64, u16)>, tag: Seq<char>, conn_id: u64, channel_id: u16) -> Seq<
    (Seq<char>, u64, u16),
> {
    let p = tag_pos(ts, tag, 0);
    if p < ts.len() {
        ts.update(p, (tag, conn_id, channel_id))
    } else {
        ts.push((tag, conn_id, channel_id))
    }
}

/// The subscriptions without any entry for `tag`, order kept.
pub open spec fn tags_without(ts: Seq<(Seq<char>, u64, u16)>, tag: Seq<char>) -> Seq<(Seq<char>, u64, u16)>
    decreases ts.len(),
{
    if ts.len() == 0 {
        ts
    } else {
        let prev = tags_without(ts.drop_last(), tag);
        if ts.last().0 == tag {
            prev
        } else {
            prev.push(ts.last())
        }
    }
}

/// A consumer group seen as its name, members and cursor.
pub open spec fn group_model(g: ConsumerGroup) -> (Seq<char>, Seq<(u64, u16)>, usize) {
    (g.name_spec(), g.members_spec(), g.cursor())
}

/// Groups seen as names, members and cursors.
pub open spec fn groups_model(gs: Seq<ConsumerGroup>) -> Seq<(Seq<char>, Seq<(u64, u16)>, usize)> {
    gs.map_values(|g: ConsumerGroup| group_model(g))
}

/// The position of the first group named `name` from `i` on, or the
/// length.
pub open spec fn group_pos(gs: Seq<(Seq<char>, Seq<(u64, u16)>, usize)>, name: Seq<char>, i: int) -> int
    decreases gs.len() - i,
{
    if i < 0 || i >= gs.len() {
        gs.len() as int
    } else if gs[i].0 == name {
        i
    } else {
        group_pos(gs, name, i + 1)
    }
}

/// The groups after `member` joins the group `name`, which is created,
/// last, if there is none; a member already there is not added twice.
pub open spec fn join_group(gs: Seq<(Seq<char>, Seq<(u64, u16)>, usize)>, name: Seq<char>, member: (u64, u16)) -> Seq<
    (Seq<char>, Seq<(u64, u16)>, usize),
> {
    let p = group_pos(gs, name, 0);
    if p < gs.len() {
        let g = gs[p];
        gs.update(p, (g.0, if g.1.contains(member) { g.1 } else { g.1.push(member) }, g.2))
    } else {
        gs.push((name, seq![member], 0))
    }
}

/// The groups after `member` leaves every group; groups left without
/// members are dropped.
pub open spec fn leave_groups(gs: Seq<(Seq<char>, Seq<(u64, u16)>, usize)>, member: (u64, u16)) -> Seq<
    (Seq<char>, Seq<(u64, u16)>, usize),
>
    decreases gs.len(),
{
    if gs.len() == 0 {
        gs
    } else {
        let prev = leave_groups(gs.drop_last(), member);
        let g = gs.last();
        let m = remove_all(g.1, member);
        if m.len() == 0 {
            prev
        } else {
            prev.push((g.0, m, g.2))
        }
    }
}

/// A delivery target chosen among the groups, in order: each group is
/// asked in turn for its next live member, and the first that has one
/// gives the target. Every group asked moves its cursor.
pub open spec fn pick_from_groups(gs: Seq<(Seq<char>, Seq<(u64, u16)>, usize)>, live: Seq<u64>) -> (
    Seq<(Seq<char>, Seq<(u64, u16)>, usize)>,
    Option<(u64, u16)>,
)
    decreases gs.len(),
{
    if gs.len() == 0 {
        (gs, None)
    } else {
        let g = gs[0];
        let step = rr_step(g.1, g.2, live);
        let g2 = (g.0, g.1, step.1);
        if step.0 is Some {
            (seq![g2] + gs.drop_first(), step.0)
        } else {
            let rest = pick_from_groups(gs.drop_first(), live);
            (seq![g2] + rest.0, rest.1)
        }
    }
}

/// Whether every group's cursor can move once past each of its members.
pub open spec fn cursors_fit(gs: Seq<(Seq<char>, Seq<(u64, u16)>, usize)>) -> bool {
    forall|i: int| 0 <= i < gs.len() ==> #[trigger] gs[i].2 + gs[i].1.len() <= usize::MAX
}

/// The tag generated for a consumer that did not name one.
pub open spec fn generated_tag(conn_id: u64, seq: u64) -> Seq<char> {
    "ctag-"@ + decimal_chars(conn_id as nat) + "-"@ + decimal_chars(seq as nat)
}

/// The position of the first subscription with `tag`, or the length.
fn find_tag(ts: &Vec<(String, u64, u16)>, tag: &str) -> (r: usize)
    ensures
        r as int == tag_pos(tags_model(ts@), tag@, 0),
{
    let ghost m = tags_model(ts@);
    let mut i: usize = 0;
    while i < ts.len()
        invariant
            i <= ts@.len(),
            m == tags_model(ts@),
            tag_pos(m, tag@, 0) == tag_pos(m, tag@, i as int),
        decreases ts@.len() - i,
    {
        assert(m[i as int] == tag_model(ts@[i as int]));
        if str_eq(ts[i].0.as_str(), tag) {
            return i;
        }
        i = i + 1;
    }
    i
}

/// Binds `tag` to the channel, in place when it is already there.
fn insert_tag(ts: &mut Vec<(String, u64, u16)>, tag: String, conn_id: u64, channel_id: u16)
    ensures
        tags_model(final(ts)@) == tags_insert(tags_model(old(ts)@), tag@, conn_id, channel_id),
{
    let ghost before = tags_model(ts@);
    let p = find_tag(ts, tag.as_str());
    let ghost t = tag@;
    if p < ts.len() {
        ts.set(p, (tag, conn_id, channel_id));
        assert(tags_model(ts@) =~= before.update(p as int, (t, conn_id, channel_id)));
    } else {
        ts.push((tag, conn_id, channel_id));
        assert(tags_model(ts@) =~= before.push((t, conn_id, channel_id)));
    }
}

/// Drops every subscription with `tag`; the channel of the first one.
fn remove_tag(ts: &mut Vec<(String, u64, u16)>, tag: &str) -> (r: Option<(u64, u16)>)
    ensures
        ({
            let m = tags_model(old(ts)@);
            let p = tag_pos(m, tag@, 0);
            &&& p < m.len() ==> r == Some((m[p].1, m[p].2))
            &&& p >= m.len() ==> r is None
        }),
        tags_model(final(ts)@) == tags_without(tags_model(old(ts)@), tag@),
{
    let ghost m = tags_model(ts@);
    let p = find_tag(ts, tag);
    let r = if p < ts.len() {
        assert(m[p as int] == tag_model(ts@[p as int]));
        Some((ts[p].1, ts[p].2))
    } else {
        None
    };
    let mut kept: Vec<(String, u64, u16)> = Vec::new();
    let mut i: usize = 0;
    assert(m.subrange(0, 0) =~= Seq::<(Seq<char>, u64, u16)>::empty());
    while i < ts.len()
        invariant
            i <= ts@.len(),
            m == tags_model(ts@),
            tags_model(kept@) == tags_without(m.subrange(0, i as int), tag@),
        decreases ts@.len() - i,
    {
        assert(m.subrange(0, i + 1).drop_last() =~= m.subrange(0, i as int));
        assert(m[i as int] == tag_model(ts@[i as int]));
        if !str_eq(ts[i].0.as_str(), tag) {
            let ghost before = tags_model(kept@);
            kept.push((ts[i].0.clone(), ts[i].1, ts[i].2));
            assert(tags_model(kept@) =~= before.push(m[i as int]));
        }
        i = i + 1;
    }
    assert(m.subrange(0, i as int) =~= m);
    *ts = kept;
    r
}

/// Whether `x` occurs in `v`.
fn contains_pair(v: &Vec<(u64, u16)>, x: (u64, u16)) -> (r: bool)
    ensures
        r == v@.contains(x),
{
    let mut j: usize = 0;
    while j < v.len()
        invariant
            j <= v@.len(),
            forall|t: int| 0 <= t < j ==> v@[t] != x,
        decreases v@.len() - j,
    {
        if v[j].0 == x.0 && v[j].1 == x.1 {
            assert(v@[j as int] == x);
            return true;
        }
        j = j + 1;
    }
    false
}

/// `v` without any occurrence of `x`.
fn without_pair(v: &Vec<(u64, u16)>, x: (u64, u16)) -> (r: Vec<(u64, u16)>)
    ensures
        r@ == remove_all(v@, x),
{
    let mut kept: Vec<(u64, u16)> = Vec::new();
    let mut i: usize = 0;
    while i < v.len()
        invariant
            i <= v@.len(),
            kept@ == remove_all(v@.subrange(0, i as int), x),
        decreases v@.len() - i,
    {
        assert(v@.subrange(0, i + 1).drop_last() =~= v@.subrange(0, i as int));
        let m = v[i];
        if !(m.0 == x.0 && m.1 == x.1) {
            kept.push(m);
        }
        i = i + 1;
    }
    assert(v@.subrange(0, v@.len() as int) =~= v@);
    kept
}

/// The position of the first group named `name`, or the length.
fn find_group(gs: &Vec<ConsumerGroup>, name: &str) -> (r: usize)
    ensures
        r as int == group_pos(groups_model(gs@), name@, 0),
{
    let ghost m = groups_model(gs@);
    let mut i: usize = 0;
    while i < gs.len()
        invariant
            i <= gs@.len(),
            m == groups_model(gs@),
            group_pos(m, name@, 0) == group_pos(m, name@, i as int),
        decreases gs@.len() - i,
    {
        assert(m[i as int] == group_model(gs@[i as int]));
        if str_eq(gs[i].name.as_str(), name) {
            return i;
        }
        i = i + 1;
    }
    i
}

/// `member` joins the group `name`, created last when missing.
fn join_group_exec(gs: &mut Vec<ConsumerGroup>, name: String, member: (u64, u16))
    ensures
        groups_model(final(gs)@) == join_group(groups_model(old(gs)@), name@, member),
{
    let ghost before = groups_model(gs@);
    let p = find_group(gs, name.as_str());
    if p < gs.len() {
        let mut g = gs.remove(p);
        assert(before[p as int] == group_model(g));
        g.add_member(member.0, member.1);
        gs.insert(p, g);
        assert(groups_model(gs@) =~= join_group(before, name@, member));
    } else {
        let ghost n = name@;
        let mut g = ConsumerGroup::new(name);
        g.add_member(member.0, member.1);
        gs.push(g);
        assert(g.members_spec() =~= seq![member]);
        assert(groups_model(gs@) =~= before.push((n, seq![member], 0usize)));
    }
}

/// `member` leaves every group; emptied groups are dropped.
fn leave_groups_exec(gs: &mut Vec<ConsumerGroup>, member: (u64, u16))
    ensures
        groups_model(final(gs)@) == leave_groups(groups_model(old(gs)@), member),
{
    let ghost all = groups_model(gs@);
    let ghost n = gs@.len();
    let mut rest: Vec<ConsumerGroup> = Vec::new();
    std::mem::swap(&mut rest, gs);
    let total: usize = rest.len();
    assert(total == n);
    let mut k: usize = 0;
    assert(all.subrange(0, 0) =~= Seq::<(Seq<char>, Seq<(u64, u16)>, usize)>::empty());
    assert(all.subrange(0, n as int) =~= all);
    while rest.len() > 0
        invariant
            k + rest@.len() == n,
            n <= usize::MAX,
            groups_model(rest@) == all.subrange(k as int, n as int),
            groups_model(gs@) == leave_groups(all.subrange(0, k as int), member),
            n == all.len(),
        decreases rest@.len(),
    {
        let ghost rm = groups_model(rest@);
        let mut g = rest.remove(0);
        assert(rm[0] == group_model(g));
        assert(all[k as int] == rm[0]);
        assert(rm.drop_first() =~= all.subrange(k + 1, n as int));
        assert(groups_model(rest@) =~= rm.drop_first());
        assert(all.subrange(0, k + 1).drop_last() =~= all.subrange(0, k as int));
        assert(all.subrange(0, k + 1).last() == all[k as int]);
        g.remove_member(member.0, member.1);
        let ghost before = groups_model(gs@);
        if g.members.len() > 0 {
            gs.push(g);
            assert(groups_model(gs@) =~= before.push(group_model(g)));
        }
        k = k + 1;
    }
    assert(all.subrange(0, k as int) =~= all);
}

/// Asks the groups in order for their next live member; the first found
/// is the target.
fn pick_from_groups_exec(gs: &mut Vec<ConsumerGroup>, live: &[u64]) -> (r: Option<(u64, u16)>)
    requires
        cursors_fit(groups_model(old(gs)@)),
    ensures
        (groups_model(final(gs)@), r) == pick_from_groups(groups_model(old(gs)@), live@),
{
    let ghost all = groups_model(gs@);
    let ghost n = gs@.len();
    let mut i: usize = 0;
    assert(all.subrange(0, n as int) =~= all);
    assert(groups_model(gs@).subrange(0, 0) + pick_from_groups(all, live@).0 =~= pick_from_groups(all, live@).0);
    assert(groups_model(gs@).subrange(0, n as int) =~= all);
    while i < gs.len()
        invariant
            n == gs@.len(),
            n == all.len(),
            all == groups_model(old(gs)@),
            i <= n,
            cursors_fit(all),
            groups_model(gs@).subrange(i as int, n as int) == all.subrange(i as int, n as int),
            pick_from_groups(all, live@) == ({
                let rest = pick_from_groups(all.subrange(i as int, n as int), live@);
                (groups_model(gs@).subrange(0, i as int) + rest.0, rest.1)
            }),
        decreases n - i,
    {
        let ghost tail = all.subrange(i as int, n as int);
        let ghost gm = groups_model(gs@);
        assert(gm[i as int] == tail[0]);
        assert(tail[0] == all[i as int]);
        assert(tail.drop_first() =~= all.subrange(i + 1, n as int));
        let mut g = gs.remove(i);
        assert(group_model(g) == all[i as int]);
        let r = g.next_target(live);
        gs.insert(i, g);
        let ghost gm2 = groups_model(gs@);
        assert(gm2 =~= gm.update(i as int, group_model(g)));
        assert(gm2.subrange(0, i + 1) =~= gm.subrange(0, i as int).push(group_model(g)));
        assert(gm2.subrange(i + 1, n as int) =~= all.subrange(i + 1, n as int));
        let ghost rest = pick_from_groups(tail, live@);
        if r.is_some() {
            assert(rest.1 == r);
            assert(rest.0 =~= seq![group_model(g)] + tail.drop_first());
            assert(gm2 =~= gm.subrange(0, i as int) + rest.0);
            assert(pick_from_groups(all, live@).0 == gm2);
            assert(pick_from_groups(all, live@).1 == r);
            return r;
        }
        assert(rest.1 == pick_from_groups(all.subrange(i + 1, n as int), live@).1);
        assert(rest.0 =~= seq![group_model(g)] + pick_from_groups(all.subrange(i + 1, n as int), live@).0);
        assert(gm2.subrange(0, i as int) + (seq![group_model(g)] + pick_from_groups(all.subrange(i + 1, n as int), live@).0)
            =~= gm2.subrange(0, i + 1) + pick_from_groups(all.subrange(i + 1, n as int), live@).0);
        i = i + 1;
    }
    assert(all.subrange(n as int, n as int) =~= Seq::<(Seq<char>, Seq<(u64, u16)>, usize)>::empty());
    assert(groups_model(gs@).subrange(0, n as int) + Seq::<(Seq<char>, Seq<(u64, u16)>, usize)>::empty() =~= groups_model(gs@));
    None
}

/// Runtime state of one queue.
pub struct QueueState {
    pub options: QueueOptions,
    pub name: String,
    /// The connection that owns an exclusive queue.
    pub owner_conn_id: Option<u64>,
    /// The subscribed (connection, channel) pairs, each once.
    pub listeners: Vec<(u64, u16)>,
    pub messages: PriorityQueue,
    /// Delivered messages awaiting acknowledgement, by delivery tag.
    pub inflight: Vec<(u64, Message)>,
    /// The round-robin cursor over `listeners`.
    pub next_listener: usize,
    pub consumer_count: usize,
    /// Each consumer tag with the connection and channel it delivers to.
    pub consumer_tags: Vec<(String, u64, u16)>,
    /// The number the next generated consumer tag carries.
    pub next_tag_seq: u64,
    /// When the queue was last used, in milliseconds.
    pub last_activity: u64,
    pub groups: Vec<ConsumerGroup>,
    pub stream_mode: bool,
    pub stream_offset: u64,
    pub stat_published: u64,
    pub stat_delivered: u64,
    pub stat_acked: u64,
    /// The fields the queue's messages must carry, when it has a schema.
    pub schema: Option<QueueSchema>,
    pub queue_type: QueueType,
    /// The node that owns the queue.
    pub leader_node: Option<u64>,
    /// The nodes holding replicas, the leader included.
    pub replica_nodes: Vec<u64>,
}

/// A queue's state seen as plain values.
#[verifier::ext_equal]
pub struct QueueModel {
    pub options: QueueOptionsView,
    pub name: Seq<char>,
    pub owner_conn_id: Option<u64>,
    pub listeners: Seq<(u64, u16)>,
    /// The messages, one sequence per priority level.
    pub messages: Seq<Seq<QueueMessage>>,
    pub inflight: Seq<(u64, Message)>,
    pub next_listener: usize,
    pub consumer_count: usize,
    pub consumer_tags: Seq<(Seq<char>, u64, u16)>,
    pub next_tag_seq: u64,
    pub last_activity: u64,
    pub groups: Seq<(Seq<char>, Seq<(u64, u16)>, usize)>,
    pub stream_mode: bool,
    pub stream_offset: u64,
    pub stat_published: u64,
    pub stat_delivered: u64,
    pub stat_acked: u64,
    pub schema: Option<QueueSchema>,
    pub queue_type: QueueType,
    pub leader_node: Option<u64>,
    pub replica_nodes: Seq<u64>,
}

impl View for QueueState {
    type V = QueueModel;

    open spec fn view(&self) -> QueueModel {
        QueueModel {
            options: self.options@,
            name: self.name@,
            owner_conn_id: self.owner_conn_id,
            listeners: self.listeners@,
            messages: self.messages.view(),
            inflight: self.inflight@,
            next_listener: self.next_listener,
            consumer_count: self.consumer_count,
            consumer_tags: tags_model(self.consumer_tags@),
            next_tag_seq: self.next_tag_seq,
            last_activity: self.last_activity,
            groups: groups_model(self.groups@),
            stream_mode: self.stream_mode,
            stream_offset: self.stream_offset,
            stat_published: self.stat_published,
            stat_delivered: self.stat_delivered,
            stat_acked: self.stat_acked,
            schema: self.schema,
            queue_type: self.queue_type,
            leader_node: self.leader_node,
            replica_nodes: self.replica_nodes@,
        }
    }
}

/// Whether a subscription delivers to connection `conn_id`.
pub open spec fn tag_of_conn(t: (Seq<char>, u64, u16), conn_id: u64) -> bool {
    t.1 == conn_id
}

/// The subscriptions that do not deliver to `conn_id`, order kept.
pub open spec fn tags_not_of(ts: Seq<(Seq<char>, u64, u16)>, conn_id: u64) -> Seq<(Seq<char>, u64, u16)>
    decreases ts.len(),
{
    if ts.len() == 0 {
        ts
    } else {
        let prev = tags_not_of(ts.drop_last(), conn_id);
        if tag_of_conn(ts.last(), conn_id) {
            prev
        } else {
            prev.push(ts.last())
        }
    }
}

/// The tags of the subscriptions that deliver to `conn_id`, in order.
pub open spec fn tags_of(ts: Seq<(Seq<char>, u64, u16)>, conn_id: u64) -> Seq<Seq<char>>
    decreases ts.len(),
{
    if ts.len() == 0 {
        Seq::empty()
    } else {
        let prev = tags_of(ts.drop_last(), conn_id);
        if tag_of_conn(ts.last(), conn_id) {
            prev.push(ts.last().0)
        } else {
            prev
        }
    }
}

/// The listeners whose connection is not `conn_id`, order kept.
pub open spec fn listeners_not_of(l: Seq<(u64, u16)>, conn_id: u64) -> Seq<(u64, u16)>
    decreases l.len(),
{
    if l.len() == 0 {
        l
    } else {
        let prev = listeners_not_of(l.drop_last(), conn_id);
        if l.last().0 == conn_id {
            prev
        } else {
            prev.push(l.last())
        }
    }
}

/// A queue after connection `conn_id` is gone: its listeners and
/// subscriptions on that connection are dropped and the consumer count
/// follows the listeners.
pub open spec fn without_conn(q: QueueModel, conn_id: u64) -> QueueModel {
    QueueModel {
        listeners: listeners_not_of(q.listeners, conn_id),
        consumer_tags: tags_not_of(q.consumer_tags, conn_id),
        consumer_count: listeners_not_of(q.listeners, conn_id).len() as usize,
        ..q
    }
}

/// A queue after the message delivered under `tag` is put back in front
/// of its priority level; unchanged for an unknown tag.
pub open spec fn requeued(q: QueueModel, tag: u64) -> QueueModel {
    let p = inflight_pos(q.inflight, tag, 0);
    if p < q.inflight.len() {
        let msg = q.inflight[p].1;
        QueueModel {
            inflight: q.inflight.remove(p),
            messages: q.messages.update(msg.priority as int, seq![QueueMessage::Full(msg)] + q.messages[msg.priority as int]),
            ..q
        }
    } else {
        q
    }
}

impl QueueState {
    /// Whether every delivery cursor of the queue can move once more past
    /// all the consumers it goes over.
    pub fn cursors_have_room(&self) -> (r: bool)
        ensures
            r == (self.next_listener + self.listeners@.len() <= usize::MAX && cursors_fit(groups_model(self.groups@))),
    {
        if self.listeners.len() > usize::MAX - self.next_listener {
            return false;
        }
        let ghost gm = groups_model(self.groups@);
        let mut i: usize = 0;
        while i < self.groups.len()
            invariant
                i <= self.groups@.len(),
                gm == groups_model(self.groups@),
                forall|j: int| 0 <= j < i ==> #[trigger] gm[j].2 + gm[j].1.len() <= usize::MAX,
            decreases self.groups@.len() - i,
        {
            let g = &self.groups[i];
            assert(gm[i as int] == group_model(*g));
            if g.members.len() > usize::MAX - g.next_member {
                assert(!(gm[i as int].2 + gm[i as int].1.len() <= usize::MAX));
                return false;
            }
            i = i + 1;
        }
        true
    }

    /// A queue with default options.
    pub fn new() -> (r: Self)
        ensures
            r.options@ == crate::queue::options::default_options(),
            r.messages.wf(),
            r.messages.len_spec() == 0,
            r.listeners@.len() == 0,
            r.consumer_tags@.len() == 0,
            r.groups@.len() == 0,
            r.inflight@.len() == 0,
            !r.stream_mode,
            r.stream_offset == 0,
            r.next_tag_seq == 1,
    {
        QueueState::with_options(QueueOptions::default())
    }

    /// A queue with these options, no messages and no consumers; it
    /// streams when the options say so, and its type is theirs.
    pub fn with_options(options: QueueOptions) -> (r: Self)
        ensures
            r.options@ == options@,
            r.name@ == Seq::<char>::empty(),
            r.owner_conn_id is None,
            r.messages.wf(),
            r.messages.len_spec() == 0,
            r.messages.view().len() == LEVELS,
            forall|p: int| 0 <= p < LEVELS ==> #[trigger] r.messages.view()[p].len() == 0,
            r.listeners@.len() == 0,
            r.inflight@.len() == 0,
            r.next_listener == 0,
            r.consumer_count == 0,
            r.consumer_tags@.len() == 0,
            r.next_tag_seq == 1,
            r.last_activity == 0,
            r.groups@.len() == 0,
            r.stream_mode == options.stream_mode,
            r.stream_offset == 0,
            r.stat_published == 0,
            r.stat_delivered == 0,
            r.stat_acked == 0,
            r.schema is None,
            r.queue_type == options.queue_type,
            r.leader_node is None,
            r.replica_nodes@.len() == 0,
    {
        let stream_mode = options.stream_mode;
        let queue_type = options.queue_type;
        QueueState {
            options,
            name: String::new(),
            owner_conn_id: None,
            listeners: Vec::new(),
            messages: PriorityQueue::new(),
            inflight: Vec::new(),
            next_listener: 0,
            consumer_count: 0,
            consumer_tags: Vec::new(),
            next_tag_seq: 1,
            last_activity: 0,
            groups: Vec::new(),
            stream_mode,
            stream_offset: 0,
            stat_published: 0,
            stat_delivered: 0,
            stat_acked: 0,
            schema: None,
            queue_type,
            leader_node: None,
            replica_nodes: Vec::new(),
        }
    }

    /// Everything but the subscriptions, listeners and groups agrees.
    pub open spec fn same_besides_consumers(&self, other: &QueueState) -> bool {
        &&& self.options@ == other.options@
        &&& self.name@ == other.name@
        &&& self.owner_conn_id == other.owner_conn_id
        &&& self.messages == other.messages
        &&& self.inflight@ == other.inflight@
        &&& self.last_activity == other.last_activity
        &&& self.stream_mode == other.stream_mode
        &&& self.stream_offset == other.stream_offset
        &&& self.stat_published == other.stat_published
        &&& self.stat_delivered == other.stat_delivered
        &&& self.stat_acked == other.stat_acked
        &&& self.schema == other.schema
        &&& self.queue_type == other.queue_type
        &&& self.leader_node == other.leader_node
        &&& self.replica_nodes@ == other.replica_nodes@
    }

    /// Subscribes the channel under `tag`, or under a generated tag
    /// `ctag-<connection>-<n>`; the channel becomes a listener once, and
    /// joins `group` when one is named. Returns the tag.
    pub fn add_consumer(&mut self, conn_id: u64, channel_id: u16, tag: Option<String>, group: Option<String>) -> (r:
        String)
        ensures
            r@ == match tag {
                Some(t) => t@,
                None => generated_tag(conn_id, old(self).next_tag_seq),
            },
            final(self).next_tag_seq == match tag {
                Some(_) => old(self).next_tag_seq,
                None => if old(self).next_tag_seq == u64::MAX {
                    0
                } else {
                    (old(self).next_tag_seq + 1) as u64
                },
            },
            final(self).listeners@ == if old(self).listeners@.contains((conn_id, channel_id)) {
                old(self).listeners@
            } else {
                old(self).listeners@.push((conn_id, channel_id))
            },
            final(self).consumer_count == final(self).listeners@.len(),
            tags_model(final(self).consumer_tags@) == tags_insert(
                tags_model(old(self).consumer_tags@),
                r@,
                conn_id,
                channel_id,
            ),
            groups_model(final(self).groups@) == match group {
                Some(g) => join_group(groups_model(old(self).groups@), g@, (conn_id, channel_id)),
                None => groups_model(old(self).groups@),
            },
            final(self).next_listener == old(self).next_listener,
            final(self).same_besides_consumers(&*old(self)),
    {
        let tag = match tag {
            Some(t) => t,
            None => {
                let seq = self.next_tag_seq;
                self.next_tag_seq = if seq == u64::MAX {
                    0
                } else {
                    seq + 1
                };
                let mut t = String::from_str("ctag-");
                append_decimal(&mut t, conn_id);
                t.append("-");
                append_decimal(&mut t, seq);
                proof {
                    reveal_strlit("ctag-");
                    reveal_strlit("-");
                }
                assert(t@ =~= generated_tag(conn_id, seq));
                t
            },
        };
        if !contains_pair(&self.listeners, (conn_id, channel_id)) {
            self.listeners.push((conn_id, channel_id));
        }
        let r = tag.clone();
        insert_tag(&mut self.consumer_tags, tag, conn_id, channel_id);
        self.consumer_count = self.listeners.len();
        match group {
            Some(g) => join_group_exec(&mut self.groups, g, (conn_id, channel_id)),
            None => {},
        }
        r
    }

    /// Cancels the subscription `tag`: its channel stops listening and
    /// leaves every group, and groups left empty are dropped. Returns
    /// whether the tag was known; an unknown tag changes nothing.
    pub fn cancel_consumer(&mut self, tag: &str) -> (r: bool)
        ensures
            ({
                let ts = tags_model(old(self).consumer_tags@);
                let p = tag_pos(ts, tag@, 0);
                let member = (ts[p].1, ts[p].2);
                &&& r == (p < ts.len())
                &&& r ==> tags_model(final(self).consumer_tags@) == tags_without(ts, tag@)
                    && final(self).listeners@ == remove_all(old(self).listeners@, member)
                    && final(self).consumer_count == final(self).listeners@.len()
                    && groups_model(final(self).groups@) == leave_groups(groups_model(old(self).groups@), member)
                &&& !r ==> final(self).consumer_tags@ == old(self).consumer_tags@
                    && final(self).listeners@ == old(self).listeners@
                    && final(self).consumer_count == old(self).consumer_count
                    && final(self).groups@ == old(self).groups@
            }),
            final(self).next_listener == old(self).next_listener,
            final(self).next_tag_seq == old(self).next_tag_seq,
            final(self).same_besides_consumers(&*old(self)),
    {
        let p = find_tag(&self.consumer_tags, tag);
        if p >= self.consumer_tags.len() {
            return false;
        }
        let member = match remove_tag(&mut self.consumer_tags, tag) {
            Some(m) => m,
            None => {
                return false;
            },
        };
        self.listeners = without_pair(&self.listeners, member);
        self.consumer_count = self.listeners.len();
        leave_groups_exec(&mut self.groups, member);
        true
    }

    /// The next delivery target whose connection is in `live`. With
    /// consumer groups the groups are asked in order; otherwise the
    /// listeners are tried round-robin, each at most once.
    pub fn next_target(&mut self, live: &[u64]) -> (r: Option<(u64, u16)>)
        requires
            old(self).next_listener + old(self).listeners@.len() <= usize::MAX,
            cursors_fit(groups_model(old(self).groups@)),
        ensures
            old(self).groups@.len() > 0 ==> (groups_model(final(self).groups@), r) == pick_from_groups(
                groups_model(old(self).groups@),
                live@,
            ) && final(self).next_listener == old(self).next_listener,
            old(self).groups@.len() == 0 ==> (r, final(self).next_listener) == rr_step(
                old(self).listeners@,
                old(self).next_listener,
                live@,
            ) && final(self).groups@ == old(self).groups@,
            final(self).listeners@ == old(self).listeners@,
            final(self).consumer_tags@ == old(self).consumer_tags@,
            final(self).consumer_count == old(self).consumer_count,
            final(self).next_tag_seq == old(self).next_tag_seq,
            final(self).same_besides_consumers(&*old(self)),
    {
        if self.groups.len() > 0 {
            return pick_from_groups_exec(&mut self.groups, live);
        }
        let (r, c) = round_robin_pick(&self.listeners, self.next_listener, live);
        self.next_listener = c;
        r
    }

    /// Drops the listeners and subscriptions on connection `conn_id`;
    /// the tags of the dropped subscriptions, in order.
    pub fn drop_connection(&mut self, conn_id: u64) -> (r: Vec<String>)
        ensures
            final(self)@ == without_conn(old(self)@, conn_id),
            r@.map_values(|t: String| t@) == tags_of(tags_model(old(self).consumer_tags@), conn_id),
            final(self).messages == old(self).messages,
    {
        let ghost lm = self.listeners@;
        let mut kept: Vec<(u64, u16)> = Vec::new();
        let mut i: usize = 0;
        while i < self.listeners.len()
            invariant
                i <= lm.len(),
                self.listeners@ == lm,
                kept@ == listeners_not_of(lm.subrange(0, i as int), conn_id),
            decreases lm.len() - i,
        {
            assert(lm.subrange(0, i + 1).drop_last() =~= lm.subrange(0, i as int));
            let m = self.listeners[i];
            if m.0 != conn_id {
                kept.push(m);
            }
            i = i + 1;
        }
        assert(lm.subrange(0, lm.len() as int) =~= lm);
        let ghost tm = tags_model(self.consumer_tags@);
        let mut kept_tags: Vec<(String, u64, u16)> = Vec::new();
        let mut dropped: Vec<String> = Vec::new();
        let mut j: usize = 0;
        assert(tm.subrange(0, 0) =~= Seq::<(Seq<char>, u64, u16)>::empty());
        while j < self.consumer_tags.len()
            invariant
                j <= self.consumer_tags@.len(),
                tm == tags_model(self.consumer_tags@),
                tags_model(kept_tags@) == tags_not_of(tm.subrange(0, j as int), conn_id),
                dropped@.map_values(|t: String| t@) == tags_of(tm.subrange(0, j as int), conn_id),
            decreases self.consumer_tags@.len() - j,
        {
            assert(tm.subrange(0, j + 1).drop_last() =~= tm.subrange(0, j as int));
            assert(tm[j as int] == tag_model(self.consumer_tags@[j as int]));
            let t = &self.consumer_tags[j];
            if t.1 == conn_id {
                let ghost before = dropped@.map_values(|t: String| t@);
                dropped.push(t.0.clone());
                assert(dropped@.map_values(|t: String| t@) =~= before.push(tm[j as int].0));
            } else {
                let ghost before = tags_model(kept_tags@);
                kept_tags.push((t.0.clone(), t.1, t.2));
                assert(tags_model(kept_tags@) =~= before.push(tm[j as int]));
            }
            j = j + 1;
        }
        assert(tm.subrange(0, j as int) =~= tm);
        self.listeners = kept;
        self.consumer_tags = kept_tags;
        self.consumer_count = self.listeners.len();
        assert(self@ =~= without_conn(old(self)@, conn_id));
        dropped
    }

    /// Puts the message delivered under `delivery_tag` back at the front
    /// of its priority level; nothing happens for an unknown tag.
    pub fn requeue_inflight(&mut self, delivery_tag: u64)
        requires
            old(self).messages.wf(),
            old(self).messages.len_spec() < usize::MAX,
        ensures
            final(self).messages.wf(),
            final(self)@ == requeued(old(self)@, delivery_tag),
            ({
                let p = inflight_pos(old(self).inflight@, delivery_tag, 0);
                &&& p < old(self).inflight@.len() ==> {
                    let msg = old(self).inflight@[p].1;
                    &&& final(self).inflight@ == old(self).inflight@.remove(p)
                    &&& final(self).messages.view() == old(self).messages.view().update(
                        msg.priority as int,
                        seq![QueueMessage::Full(msg)] + old(self).messages.view()[msg.priority as int],
                    )
                    &&& final(self).messages.len_spec() == old(self).messages.len_spec() + 1
                }
                &&& p >= old(self).inflight@.len() ==> final(self).inflight@ == old(self).inflight@
                    && final(self).messages == old(self).messages
            }),
    {
        let mut i: usize = 0;
        while i < self.inflight.len()
            invariant
                i <= self.inflight@.len(),
                *self == *old(self),
                old(self).messages.wf(),
                old(self).messages.len_spec() < usize::MAX,
                inflight_pos(self.inflight@, delivery_tag, 0) == inflight_pos(self.inflight@, delivery_tag, i as int),
            decreases self.inflight@.len() - i,
        {
            if self.inflight[i].0 == delivery_tag {
                let (_, msg) = self.inflight.remove(i);
                self.messages.push_front(QueueMessage::Full(msg));
                assert(self@ =~= requeued(old(self)@, delivery_tag));
                return;
            }
            i = i + 1;
        }
    }
}

/// The position of the first in-flight message with `tag` from `i` on,
/// or the length.
pub open spec fn inflight_pos(v: Seq<(u64, Message)>, tag: u64, i: int) -> int
    decreases v.len() - i,
{
    if i < 0 || i >= v.len() {
        v.len() as int
    } else if v[i].0 == tag {
        i
    } else {
        inflight_pos(v, tag, i + 1)
    }
}

/// `tag_pos` from `i` is the first position at or after `i` holding `tag`,
/// or the length when none does.
pub proof fn lemma_tag_pos(ts: Seq<(Seq<char>, u64, u16)>, tag: Seq<char>, i: int)
    requires
        0 <= i <= ts.len(),
    ensures
        i <= tag_pos(ts, tag, i) <= ts.len(),
        forall|k: int| i <= k < tag_pos(ts, tag, i) ==> (#[trigger] ts[k]).0 != tag,
        tag_pos(ts, tag, i) < ts.len() ==> ts[tag_pos(ts, tag, i)].0 == tag,
    decreases ts.len() - i,
{
    if i < ts.len() && ts[i].0 != tag {
        lemma_tag_pos(ts, tag, i + 1);
    }
}

/// A position with `tag` and none before it is what `tag_pos` finds.
pub proof fn lemma_tag_pos_is(ts: Seq<(Seq<char>, u64, u16)>, tag: Seq<char>, i: int, q: int)
    requires
        0 <= i <= q <= ts.len(),
        forall|k: int| i <= k < q ==> (#[trigger] ts[k]).0 != tag,
        q < ts.len() ==> ts[q].0 == tag,
    ensures
        tag_pos(ts, tag, i) == q,
    decreases q - i,
{
    if i < q {
        lemma_tag_pos_is(ts, tag, i + 1, q);
    }
}

/// After a consumer subscribes under `tag`, looking the tag up gives its
/// connection and channel.
pub proof fn lemma_subscribed_tag_found(ts: Seq<(Seq<char>, u64, u16)>, tag: Seq<char>, conn_id: u64, channel_id: u16)
    ensures
        ({
            let after = tags_insert(ts, tag, conn_id, channel_id);
            let p = tag_pos(after, tag, 0);
            p < after.len() && after[p] == (tag, conn_id, channel_id)
        }),
{
    lemma_tag_pos(ts, tag, 0);
    let p = tag_pos(ts, tag, 0);
    let after = tags_insert(ts, tag, conn_id, channel_id);
    assert forall|k: int| 0 <= k < p implies (#[trigger] after[k]).0 != tag by {
        assert(after[k] == ts[k]);
    }
    lemma_tag_pos_is(after, tag, 0, p);
}

/// After a consumer is cancelled, its tag is no longer known.
pub proof fn lemma_cancelled_tag_gone(ts: Seq<(Seq<char>, u64, u16)>, tag: Seq<char>)
    ensures
        tag_pos(tags_without(ts, tag), tag, 0) == tags_without(ts, tag).len(),
        forall|k: int| 0 <= k < tags_without(ts, tag).len() ==> (#[trigger] tags_without(ts, tag)[k]).0 != tag,
    decreases ts.len(),
{
    let w = tags_without(ts, tag);
    if ts.len() > 0 {
        lemma_cancelled_tag_gone(ts.drop_last(), tag);
    }
    lemma_tag_pos_is(w, tag, 0, w.len() as int);
}

/// After a channel leaves the groups, no group holds it and none is
/// empty.
pub proof fn lemma_left_groups(gs: Seq<(Seq<char>, Seq<(u64, u16)>, usize)>, member: (u64, u16))
    ensures
        forall|i: int| 0 <= i < leave_groups(gs, member).len() ==> (#[trigger] leave_groups(gs, member)[i]).1.len() > 0
            && !leave_groups(gs, member)[i].1.contains(member),
    decreases gs.len(),
{
    if gs.len() > 0 {
        lemma_left_groups(gs.drop_last(), member);
        lemma_removed_absent(gs.last().1, member);
        let prev = leave_groups(gs.drop_last(), member);
        let m = remove_all(gs.last().1, member);
        if m.len() > 0 {
            let r = prev.push((gs.last().0, m, gs.last().2));
            assert forall|i: int| 0 <= i < r.len() implies (#[trigger] r[i]).1.len() > 0 && !r[i].1.contains(member) by {
                if i < prev.len() {
                    assert(r[i] == prev[i]);
                }
            }
        }
    }
}

/// Nothing equal to `x` is left after removing it.
pub proof fn lemma_removed_absent(s: Seq<(u64, u16)>, x: (u64, u16))
    ensures
        !remove_all(s, x).contains(x),
    decreases s.len(),
{
    if s.len() > 0 {
        lemma_removed_absent(s.drop_last(), x);
        let prev = remove_all(s.drop_last(), x);
        if s.last() != x {
            assert forall|k: int| 0 <= k < prev.push(s.last()).len() implies prev.push(s.last())[k] != x by {
                if k < prev.len() {
                    assert(prev.push(s.last())[k] == prev[k]);
                }
            }
        }
    }
}

/// A channel is a listener at most once: subscribing keeps the listeners
/// free of duplicates, and so does cancelling.
pub proof fn lemma_listeners_distinct(l: Seq<(u64, u16)>, x: (u64, u16), y: (u64, u16))
    requires
        l.no_duplicates(),
    ensures
        (if l.contains(x) {
            l
        } else {
            l.push(x)
        }).no_duplicates(),
        remove_all(l, y).no_duplicates(),
{
    if !l.contains(x) {
        let l2 = l.push(x);
        assert forall|i: int, j: int| 0 <= i < l2.len() && 0 <= j < l2.len() && i != j implies l2[i] != l2[j] by {
            if i < l.len() && j < l.len() {
            } else if i == l.len() {
                assert(l[j] == l2[j]);
            } else {
                assert(l[i] == l2[i]);
            }
        }
    }
    lemma_remove_keeps_distinct(l, y);
}

/// Removing every occurrence of an element keeps a sequence free of
/// duplicates, and keeps only elements it had.
pub proof fn lemma_remove_keeps_distinct(l: Seq<(u64, u16)>, y: (u64, u16))
    requires
        l.no_duplicates(),
    ensures
        remove_all(l, y).no_duplicates(),
        forall|z: (u64, u16)| remove_all(l, y).contains(z) ==> l.contains(z),
    decreases l.len(),
{
    if l.len() > 0 {
        let d = l.drop_last();
        assert(d.no_duplicates()) by {
            assert forall|i: int, j: int| 0 <= i < d.len() && 0 <= j < d.len() && i != j implies d[i] != d[j] by {
                assert(d[i] == l[i] && d[j] == l[j]);
            }
        }
        lemma_remove_keeps_distinct(d, y);
        let prev = remove_all(d, y);
        assert forall|z: (u64, u16)| remove_all(l, y).contains(z) implies l.contains(z) by {
            if prev.contains(z) {
                assert(d.contains(z));
                let k = choose|k: int| 0 <= k < d.len() && d[k] == z;
                assert(l[k] == z);
            } else {
                let k = choose|k: int| 0 <= k < remove_all(l, y).len() && remove_all(l, y)[k] == z;
                if k < prev.len() {
                    assert(remove_all(l, y)[k] == prev[k]);
                }
                assert(l[l.len() - 1] == z);
            }
        }
        if l.last() != y {
            let r = prev.push(l.last());
            assert(!prev.contains(l.last())) by {
                if prev.contains(l.last()) {
                    assert(d.contains(l.last()));
                    let k = choose|k: int| 0 <= k < d.len() && d[k] == l.last();
                    assert(l[k] == d[k]);
                    assert(l[k] == l[l.len() - 1]);
                }
            }
            assert forall|i: int, j: int| 0 <= i < r.len() && 0 <= j < r.len() && i != j implies r[i] != r[j] by {
                if i < prev.len() && j < prev.len() {
                    assert(r[i] == prev[i] && r[j] == prev[j]);
                } else if i == prev.len() {
                    assert(r[j] == prev[j]);
                    assert(prev.contains(prev[j]));
                } else {
                    assert(r[i] == prev[i]);
                    assert(prev.contains(prev[i]));
                }
            }
        }
    }
}

} // verus!
