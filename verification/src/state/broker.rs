//! The broker's queue and exchange registries and the per-connection
//! indexes kept beside them.

use vstd::prelude::*;
use vstd::string::*;
use crate::queue::message::QueueMessage;
use crate::queue::options::{QueueOptions, QueueOptionsView};
use crate::queue::priority::LEVELS;
use crate::queue::state::{listeners_not_of, requeued, tags_not_of, tags_of, without_conn, QueueModel, QueueState};
use crate::routing::exchange::{create_default_exchanges, has_binding, Binding, Exchange};
use crate::routing::topic::str_eq;

verus! {

// ─── Models ───────────────────────────────────────────────────────────

/// Named queues seen as names and queue models.
pub open spec fn queues_model(qs: Seq<(String, QueueState)>) -> Seq<(Seq<char>, QueueModel)> {
    qs.map_values(|e: (String, QueueState)| (e.0@, e.1@))
}

/// The position of the first queue named `name` from `i` on, or the length.
pub open spec fn name_pos(qs: Seq<(Seq<char>, QueueModel)>, name: Seq<char>, i: int) -> int
    decreases qs.len() - i,
{
    if i < 0 || i >= qs.len() {
        qs.len() as int
    } else if qs[i].0 == name {
        i
    } else {
        name_pos(qs, name, i + 1)
    }
}

/// The queues after the one named `name` (the first such) is removed.
pub open spec fn without_name(qs: Seq<(Seq<char>, QueueModel)>, name: Seq<char>) -> Seq<(Seq<char>, QueueModel)> {
    let p = name_pos(qs, name, 0);
    if p < qs.len() {
        qs.remove(p)
    } else {
        qs
    }
}

/// The queues after each name, in order, is removed.
pub open spec fn without_names(qs: Seq<(Seq<char>, QueueModel)>, names: Seq<Seq<char>>) -> Seq<(Seq<char>, QueueModel)>
    decreases names.len(),
{
    if names.len() == 0 {
        qs
    } else {
        without_names(without_name(qs, names[0]), names.drop_first())
    }
}

/// The names of the exclusive queues that connection `conn_id` owns, in
/// order.
pub open spec fn owned_exclusive(qs: Seq<(Seq<char>, QueueModel)>, conn_id: u64) -> Seq<Seq<char>>
    decreases qs.len(),
{
    if qs.len() == 0 {
        Seq::empty()
    } else {
        let prev = owned_exclusive(qs.drop_last(), conn_id);
        let q = qs.last().1;
        if q.options.exclusive && q.owner_conn_id == Some(conn_id) {
            prev.push(qs.last().0)
        } else {
            prev
        }
    }
}

/// The names of the auto-delete queues left without listeners, in order.
pub open spec fn unused_auto_delete(qs: Seq<(Seq<char>, QueueModel)>) -> Seq<Seq<char>>
    decreases qs.len(),
{
    if qs.len() == 0 {
        Seq::empty()
    } else {
        let prev = unused_auto_delete(qs.drop_last());
        let q = qs.last().1;
        if q.options.auto_delete && q.listeners.len() == 0 {
            prev.push(qs.last().0)
        } else {
            prev
        }
    }
}

/// Whether every entry of `a` is an entry of `b`.
pub open spec fn entries_within<T>(a: Seq<T>, b: Seq<T>) -> bool {
    forall|i: int| 0 <= i < a.len() ==> b.contains(#[trigger] a[i])
}

/// Strings seen as their characters.
pub open spec fn names_model(v: Seq<String>) -> Seq<Seq<char>> {
    v.map_values(|s: String| s@)
}

/// The position of the first entry for connection `k` from `i` on, or
/// the length.
pub open spec fn conn_pos<V>(s: Seq<(u64, V)>, k: u64, i: int) -> int
    decreases s.len() - i,
{
    if i < 0 || i >= s.len() {
        s.len() as int
    } else if s[i].0 == k {
        i
    } else {
        conn_pos(s, k, i + 1)
    }
}

/// The entries without the first one for key `k`.
pub open spec fn without_key<V>(s: Seq<(u64, V)>, k: u64) -> Seq<(u64, V)> {
    let p = conn_pos(s, k, 0);
    if p < s.len() {
        s.remove(p)
    } else {
        s
    }
}

/// The entries after, for each key in order, the first entry with it is
/// removed.
pub open spec fn without_keys<V>(s: Seq<(u64, V)>, ks: Seq<u64>) -> Seq<(u64, V)>
    decreases ks.len(),
{
    if ks.len() == 0 {
        s
    } else {
        without_keys(without_key(s, ks[0]), ks.drop_first())
    }
}

/// The position of the first entry with string key `k` from `i` on, or
/// the length.
pub open spec fn str_key_pos<V>(s: Seq<(String, V)>, k: Seq<char>, i: int) -> int
    decreases s.len() - i,
{
    if i < 0 || i >= s.len() {
        s.len() as int
    } else if s[i].0@ == k {
        i
    } else {
        str_key_pos(s, k, i + 1)
    }
}

/// The entries after, for each key in order, the first entry with it is
/// removed.
pub open spec fn without_str_keys<V>(s: Seq<(String, V)>, ks: Seq<Seq<char>>) -> Seq<(String, V)>
    decreases ks.len(),
{
    if ks.len() == 0 {
        s
    } else {
        let p = str_key_pos(s, ks[0], 0);
        without_str_keys(if p < s.len() { s.remove(p) } else { s }, ks.drop_first())
    }
}

/// Deliveries seen as queue names and delivery tags.
pub open spec fn deliveries_model(ds: Seq<(String, u64)>) -> Seq<(Seq<char>, u64)> {
    ds.map_values(|d: (String, u64)| (d.0@, d.1))
}

/// The delivery tags of deliveries.
pub open spec fn delivery_tags(ds: Seq<(String, u64)>) -> Seq<u64> {
    ds.map_values(|d: (String, u64)| d.1)
}

/// The queues after each delivery, in order, is put back on the first
/// queue with its name.
pub open spec fn requeue_all(qs: Seq<(Seq<char>, QueueModel)>, ds: Seq<(Seq<char>, u64)>) -> Seq<(Seq<char>, QueueModel)>
    decreases ds.len(),
{
    if ds.len() == 0 {
        qs
    } else {
        let p = name_pos(qs, ds[0].0, 0);
        let next = if p < qs.len() {
            qs.update(p, (qs[p].0, requeued(qs[p].1, ds[0].1)))
        } else {
            qs
        };
        requeue_all(next, ds.drop_first())
    }
}

/// The queues with connection `conn_id`'s listeners and subscriptions
/// dropped.
pub open spec fn stripped(qs: Seq<(Seq<char>, QueueModel)>, conn_id: u64) -> Seq<(Seq<char>, QueueModel)> {
    qs.map_values(|e: (Seq<char>, QueueModel)| (e.0, without_conn(e.1, conn_id)))
}

/// The tags of connection `conn_id`'s subscriptions, queue by queue.
pub open spec fn dropped_tags(qs: Seq<(Seq<char>, QueueModel)>, conn_id: u64) -> Seq<Seq<char>>
    decreases qs.len(),
{
    if qs.len() == 0 {
        Seq::empty()
    } else {
        dropped_tags(qs.drop_last(), conn_id) + tags_of(qs.last().1.consumer_tags, conn_id)
    }
}

/// Whether every queue's store is well formed and can take `extra` more
/// messages.
pub open spec fn stores_fit(qs: Seq<(String, QueueState)>, extra: int) -> bool {
    forall|i: int| 0 <= i < qs.len() ==> (#[trigger] qs[i]).1.messages.wf() && qs[i].1.messages.len_spec() + extra
        < usize::MAX
}

// ─── Registry operations ──────────────────────────────────────────────

/// The position of the first queue named `name`, or the length.
pub(crate) fn find_queue(qs: &Vec<(String, QueueState)>, name: &str) -> (r: usize)
    ensures
        r as int == name_pos(queues_model(qs@), name@, 0),
{
    let ghost m = queues_model(qs@);
    let mut i: usize = 0;
    while i < qs.len()
        invariant
            i <= qs@.len(),
            m == queues_model(qs@),
            name_pos(m, name@, 0) == name_pos(m, name@, i as int),
        decreases qs@.len() - i,
    {
        assert(m[i as int].0 == qs@[i as int].0@);
        if str_eq(qs[i].0.as_str(), name) {
            return i;
        }
        i = i + 1;
    }
    i
}

/// Removes the first queue named `name`.
fn remove_queue_named(qs: &mut Vec<(String, QueueState)>, name: &str)
    ensures
        queues_model(final(qs)@) == without_name(queues_model(old(qs)@), name@),
        entries_within(final(qs)@, old(qs)@),
{
    let ghost m = queues_model(qs@);
    let p = find_queue(qs, name);
    if p < qs.len() {
        let ghost before = qs@;
        qs.remove(p);
        assert(queues_model(qs@) =~= m.remove(p as int));
        assert forall|i: int| 0 <= i < qs@.len() implies before.contains(#[trigger] qs@[i]) by {
            if i < p {
                assert(qs@[i] == before[i]);
            } else {
                assert(qs@[i] == before[i + 1]);
            }
        }
    } else {
        assert forall|i: int| 0 <= i < qs@.len() implies old(qs)@.contains(#[trigger] qs@[i]) by {
            assert(qs@[i] == old(qs)@[i]);
        }
    }
}

/// Removes, for each name in order, the first queue with that name.
fn remove_queues_named(qs: &mut Vec<(String, QueueState)>, names: &Vec<String>)
    ensures
        queues_model(final(qs)@) == without_names(queues_model(old(qs)@), names_model(names@)),
        entries_within(final(qs)@, old(qs)@),
{
    let ghost all = names_model(names@);
    let ghost target = without_names(queues_model(qs@), all);
    let mut k: usize = 0;
    assert(all.subrange(0, all.len() as int) =~= all);
    while k < names.len()
        invariant
            k <= names@.len(),
            all == names_model(names@),
            target == without_names(queues_model(qs@), all.subrange(k as int, all.len() as int)),
            entries_within(qs@, old(qs)@),
        decreases names@.len() - k,
    {
        let ghost rest = all.subrange(k as int, all.len() as int);
        assert(rest[0] == names@[k as int]@);
        assert(rest.drop_first() =~= all.subrange(k + 1, all.len() as int));
        let ghost before = qs@;
        remove_queue_named(qs, names[k].as_str());
        assert forall|i: int| 0 <= i < qs@.len() implies old(qs)@.contains(#[trigger] qs@[i]) by {
            assert(before.contains(qs@[i]));
            let j1 = choose|j1: int| 0 <= j1 < before.len() && before[j1] == qs@[i];
            assert(old(qs)@.contains(before[j1]));
        }
        k = k + 1;
    }
    assert(all.subrange(k as int, all.len() as int) =~= Seq::<Seq<char>>::empty());
}

/// The names of the exclusive queues `conn_id` owns.
fn owned_exclusive_names(qs: &Vec<(String, QueueState)>, conn_id: u64) -> (r: Vec<String>)
    ensures
        names_model(r@) == owned_exclusive(queues_model(qs@), conn_id),
{
    let ghost m = queues_model(qs@);
    let mut out: Vec<String> = Vec::new();
    let mut i: usize = 0;
    while i < qs.len()
        invariant
            i <= qs@.len(),
            m == queues_model(qs@),
            names_model(out@) == owned_exclusive(m.subrange(0, i as int), conn_id),
        decreases qs@.len() - i,
    {
        assert(m.subrange(0, i + 1).drop_last() =~= m.subrange(0, i as int));
        assert(m[i as int] == (qs@[i as int].0@, qs@[i as int].1@));
        let q = &qs[i].1;
        let owned = match q.owner_conn_id {
            Some(c) => c == conn_id,
            None => false,
        };
        if q.options.exclusive && owned {
            let ghost before = names_model(out@);
            out.push(qs[i].0.clone());
            assert(names_model(out@) =~= before.push(m[i as int].0));
        }
        i = i + 1;
    }
    assert(m.subrange(0, i as int) =~= m);
    out
}

/// The names of the auto-delete queues without listeners.
fn unused_auto_delete_names(qs: &Vec<(String, QueueState)>) -> (r: Vec<String>)
    ensures
        names_model(r@) == unused_auto_delete(queues_model(qs@)),
{
    let ghost m = queues_model(qs@);
    let mut out: Vec<String> = Vec::new();
    let mut i: usize = 0;
    while i < qs.len()
        invariant
            i <= qs@.len(),
            m == queues_model(qs@),
            names_model(out@) == unused_auto_delete(m.subrange(0, i as int)),
        decreases qs@.len() - i,
    {
        assert(m.subrange(0, i + 1).drop_last() =~= m.subrange(0, i as int));
        assert(m[i as int] == (qs@[i as int].0@, qs@[i as int].1@));
        let q = &qs[i].1;
        if q.options.auto_delete && q.listeners.len() == 0 {
            let ghost before = names_model(out@);
            out.push(qs[i].0.clone());
            assert(names_model(out@) =~= before.push(m[i as int].0));
        }
        i = i + 1;
    }
    assert(m.subrange(0, i as int) =~= m);
    out
}

/// Takes out the first entry for connection `k`, and gives its value.
fn take_conn_entry<V>(v: &mut Vec<(u64, V)>, k: u64) -> (r: Option<V>)
    ensures
        ({
            let p = conn_pos(old(v)@, k, 0);
            &&& p < old(v)@.len() ==> r == Some(old(v)@[p].1) && final(v)@ == old(v)@.remove(p)
            &&& p >= old(v)@.len() ==> r is None && final(v)@ == old(v)@
        }),
{
    let mut i: usize = 0;
    while i < v.len()
        invariant
            i <= v@.len(),
            *v == *old(v),
            conn_pos(v@, k, 0) == conn_pos(v@, k, i as int),
        decreases v@.len() - i,
    {
        if v[i].0 == k {
            let (_, val) = v.remove(i);
            return Some(val);
        }
        i = i + 1;
    }
    None
}

/// Puts each delivery back on its queue, in order, and forgets its tag in
/// the delivery index.
fn requeue_deliveries(qs: &mut Vec<(String, QueueState)>, ds: &Vec<(String, u64)>, dx: &mut Vec<(u64, String)>)
    requires
        stores_fit(old(qs)@, ds@.len() as int),
    ensures
        queues_model(final(qs)@) == requeue_all(queues_model(old(qs)@), deliveries_model(ds@)),
        final(dx)@ == without_keys(old(dx)@, delivery_tags(ds@)),
        stores_fit(final(qs)@, 0),
{
    let ghost all = deliveries_model(ds@);
    let ghost tags = delivery_tags(ds@);
    let ghost target = requeue_all(queues_model(qs@), all);
    let ghost target_ix = without_keys(dx@, tags);
    let n = ds.len();
    let mut k: usize = 0;
    assert(all.subrange(0, n as int) =~= all);
    assert(tags.subrange(0, n as int) =~= tags);
    while k < n
        invariant
            n == ds@.len(),
            k <= n,
            all == deliveries_model(ds@),
            tags == delivery_tags(ds@),
            target == requeue_all(queues_model(qs@), all.subrange(k as int, n as int)),
            target_ix == without_keys(dx@, tags.subrange(k as int, n as int)),
            stores_fit(qs@, (n - k) as int),
        decreases n - k,
    {
        let ghost rest = all.subrange(k as int, n as int);
        let ghost trest = tags.subrange(k as int, n as int);
        assert(rest[0] == (ds@[k as int].0@, ds@[k as int].1));
        assert(trest[0] == ds@[k as int].1);
        assert(rest.drop_first() =~= all.subrange(k + 1, n as int));
        assert(trest.drop_first() =~= tags.subrange(k + 1, n as int));
        let tag = ds[k].1;
        let _ = take_conn_entry(dx, tag);
        let ghost m = queues_model(qs@);
        let p = find_queue(qs, ds[k].0.as_str());
        if p < qs.len() {
            let ghost before = qs@;
            let (name, mut q) = qs.remove(p);
            assert(before[p as int] == (name, q));
            q.requeue_inflight(tag);
            qs.insert(p, (name, q));
            assert(queues_model(qs@) =~= m.update(p as int, (m[p as int].0, requeued(m[p as int].1, tag))));
            assert forall|i: int| 0 <= i < qs@.len() implies (#[trigger] qs@[i]).1.messages.wf()
                && qs@[i].1.messages.len_spec() + (n - k - 1) < usize::MAX by {
                if i != p {
                    assert(qs@[i] == before[i]);
                }
            }
        } else {
            assert(stores_fit(qs@, (n - k - 1) as int));
        }
        k = k + 1;
    }
    assert(all.subrange(n as int, n as int) =~= Seq::<(Seq<char>, u64)>::empty());
    assert(tags.subrange(n as int, n as int) =~= Seq::<u64>::empty());
}

/// Drops connection `conn_id`'s listeners and subscriptions from every
/// queue; the tags dropped, queue by queue.
fn strip_connection(qs: &mut Vec<(String, QueueState)>, conn_id: u64) -> (r: Vec<String>)
    requires
        stores_fit(old(qs)@, 0),
    ensures
        queues_model(final(qs)@) == stripped(queues_model(old(qs)@), conn_id),
        names_model(r@) == dropped_tags(queues_model(old(qs)@), conn_id),
        stores_fit(final(qs)@, 0),
{
    let ghost m = queues_model(qs@);
    let mut out: Vec<String> = Vec::new();
    let mut i: usize = 0;
    assert(m.subrange(0, 0) =~= Seq::<(Seq<char>, QueueModel)>::empty());
    while i < qs.len()
        invariant
            i <= qs@.len(),
            qs@.len() == m.len(),
            m == queues_model(old(qs)@),
            forall|j: int| 0 <= j < i ==> #[trigger] queues_model(qs@)[j] == stripped(m, conn_id)[j],
            forall|j: int| i <= j < qs@.len() ==> #[trigger] queues_model(qs@)[j] == m[j],
            names_model(out@) == dropped_tags(m.subrange(0, i as int), conn_id),
            stores_fit(qs@, 0),
        decreases qs@.len() - i,
    {
        assert(m.subrange(0, i + 1).drop_last() =~= m.subrange(0, i as int));
        let ghost before = qs@;
        assert(queues_model(before)[i as int] == m[i as int]);
        let (name, mut q) = qs.remove(i);
        let mut dropped = q.drop_connection(conn_id);
        qs.insert(i, (name, q));
        let ghost prev = names_model(out@);
        let ghost add = names_model(dropped@);
        out.append(&mut dropped);
        assert(names_model(out@) =~= prev + add);
        assert forall|j: int| 0 <= j < qs@.len() && j != i implies #[trigger] qs@[j] == before[j] by {}
        assert forall|j: int| 0 <= j < qs@.len() implies (#[trigger] qs@[j]).1.messages.wf()
            && qs@[j].1.messages.len_spec() + 0 < usize::MAX by {
            if j != i {
                assert(qs@[j] == before[j]);
            }
        }
        assert(queues_model(qs@)[i as int] == stripped(m, conn_id)[i as int]);
        assert forall|j: int| 0 <= j < i + 1 implies #[trigger] queues_model(qs@)[j] == stripped(m, conn_id)[j] by {
            if j < i {
                assert(qs@[j] == before[j]);
                assert(queues_model(qs@)[j] == queues_model(before)[j]);
            }
        }
        assert forall|j: int| i + 1 <= j < qs@.len() implies #[trigger] queues_model(qs@)[j] == m[j] by {
            assert(qs@[j] == before[j]);
            assert(queues_model(qs@)[j] == queues_model(before)[j]);
        }
        i = i + 1;
    }
    assert(queues_model(qs@) =~= stripped(m, conn_id));
    assert(m.subrange(0, i as int) =~= m);
    out
}

/// The position of the first entry with key `k`, or the length.
fn find_str_key<V>(s: &Vec<(String, V)>, k: &str) -> (r: usize)
    ensures
        r as int == str_key_pos(s@, k@, 0),
{
    let mut i: usize = 0;
    while i < s.len()
        invariant
            i <= s@.len(),
            str_key_pos(s@, k@, 0) == str_key_pos(s@, k@, i as int),
        decreases s@.len() - i,
    {
        if str_eq(s[i].0.as_str(), k) {
            return i;
        }
        i = i + 1;
    }
    i
}

/// Removes, for each key in order, the first entry with that key.
fn remove_str_keys(ix: &mut Vec<(String, String)>, keys: &Vec<String>)
    ensures
        final(ix)@ == without_str_keys(old(ix)@, names_model(keys@)),
{
    let ghost all = names_model(keys@);
    let ghost target = without_str_keys(ix@, all);
    let mut k: usize = 0;
    assert(all.subrange(0, all.len() as int) =~= all);
    while k < keys.len()
        invariant
            k <= keys@.len(),
            all == names_model(keys@),
            target == without_str_keys(ix@, all.subrange(k as int, all.len() as int)),
        decreases keys@.len() - k,
    {
        let ghost rest = all.subrange(k as int, all.len() as int);
        assert(rest[0] == keys@[k as int]@);
        assert(rest.drop_first() =~= all.subrange(k + 1, all.len() as int));
        let i = find_str_key(ix, keys[k].as_str());
        if i < ix.len() {
            ix.remove(i);
        }
        k = k + 1;
    }
    assert(all.subrange(k as int, all.len() as int) =~= Seq::<Seq<char>>::empty());
}

/// The position of the first exchange named `name` from `i` on, or the
/// length.
pub open spec fn exchange_pos(es: Seq<Exchange>, name: Seq<char>, i: int) -> int
    decreases es.len() - i,
{
    if i < 0 || i >= es.len() {
        es.len() as int
    } else if es[i].name@ == name {
        i
    } else {
        exchange_pos(es, name, i + 1)
    }
}

/// Names without any equal to `name`, order kept.
pub open spec fn names_without(ns: Seq<Seq<char>>, name: Seq<char>) -> Seq<Seq<char>>
    decreases ns.len(),
{
    if ns.len() == 0 {
        ns
    } else {
        let prev = names_without(ns.drop_last(), name);
        if ns.last() == name {
            prev
        } else {
            prev.push(ns.last())
        }
    }
}

/// Consumer records seen as queue, tag and channel.
pub open spec fn consumers_model(v: Seq<(String, String, u16)>) -> Seq<(Seq<char>, Seq<char>, u16)> {
    v.map_values(|c: (String, String, u16)| (c.0@, c.1@, c.2))
}

/// Consumer records without those with `tag`, order kept.
pub open spec fn consumers_without_tag(v: Seq<(Seq<char>, Seq<char>, u16)>, tag: Seq<char>) -> Seq<(Seq<char>, Seq<char>, u16)>
    decreases v.len(),
{
    if v.len() == 0 {
        v
    } else {
        let prev = consumers_without_tag(v.drop_last(), tag);
        if v.last().1 == tag {
            prev
        } else {
            prev.push(v.last())
        }
    }
}

/// An index from strings to strings seen as characters.
pub open spec fn index_model(ix: Seq<(String, String)>) -> Seq<(Seq<char>, Seq<char>)> {
    ix.map_values(|e: (String, String)| (e.0@, e.1@))
}

/// The position of the first entry with key `k` from `i` on, or the
/// length.
pub open spec fn index_pos(ix: Seq<(Seq<char>, Seq<char>)>, k: Seq<char>, i: int) -> int
    decreases ix.len() - i,
{
    if i < 0 || i >= ix.len() {
        ix.len() as int
    } else if ix[i].0 == k {
        i
    } else {
        index_pos(ix, k, i + 1)
    }
}

/// The index after `k` maps to `v`: an existing entry is replaced in
/// place, a new one goes last.
pub open spec fn index_insert(ix: Seq<(Seq<char>, Seq<char>)>, k: Seq<char>, v: Seq<char>) -> Seq<(Seq<char>, Seq<char>)> {
    let p = index_pos(ix, k, 0);
    if p < ix.len() {
        ix.update(p, (k, v))
    } else {
        ix.push((k, v))
    }
}

/// Looking a key up in the index model finds what the raw index does.
pub proof fn lemma_index_pos(ix: Seq<(String, String)>, k: Seq<char>, i: int)
    requires
        0 <= i <= ix.len(),
    ensures
        str_key_pos(ix, k, i) == index_pos(index_model(ix), k, i),
    decreases ix.len() - i,
{
    if i < ix.len() {
        assert(index_model(ix)[i] == (ix[i].0@, ix[i].1@));
        lemma_index_pos(ix, k, i + 1);
    }
}

/// `conn_pos` from `i` is the first position at or after `i` holding key
/// `k`, or the length when none does.
pub proof fn lemma_conn_pos<V>(s: Seq<(u64, V)>, k: u64, i: int)
    requires
        0 <= i <= s.len(),
    ensures
        i <= conn_pos(s, k, i) <= s.len(),
        conn_pos(s, k, i) < s.len() ==> s[conn_pos(s, k, i)].0 == k,
        forall|j: int| i <= j < conn_pos(s, k, i) ==> (#[trigger] s[j]).0 != k,
    decreases s.len() - i,
{
    if i < s.len() && s[i].0 != k {
        lemma_conn_pos(s, k, i + 1);
    }
}

/// Ids other than `k`, order kept.
pub open spec fn ids_without(v: Seq<u64>, k: u64) -> Seq<u64>
    decreases v.len(),
{
    if v.len() == 0 {
        v
    } else {
        let prev = ids_without(v.drop_last(), k);
        if v.last() == k {
            prev
        } else {
            prev.push(v.last())
        }
    }
}

/// The ids other than `k`, order kept.
fn u64s_without(v: &Vec<u64>, k: u64) -> (r: Vec<u64>)
    ensures
        r@ == ids_without(v@, k),
{
    let mut out: Vec<u64> = Vec::new();
    let mut i: usize = 0;
    while i < v.len()
        invariant
            i <= v@.len(),
            out@ == ids_without(v@.subrange(0, i as int), k),
        decreases v@.len() - i,
    {
        assert(v@.subrange(0, i + 1).drop_last() =~= v@.subrange(0, i as int));
        if v[i] != k {
            out.push(v[i]);
        }
        i = i + 1;
    }
    assert(v@.subrange(0, i as int) =~= v@);
    out
}

/// The position of the first entry for connection `k`, or the length.
pub(crate) fn find_conn<V>(v: &Vec<(u64, V)>, k: u64) -> (r: usize)
    ensures
        r as int == conn_pos(v@, k, 0),
{
    let mut i: usize = 0;
    while i < v.len()
        invariant
            i <= v@.len(),
            conn_pos(v@, k, 0) == conn_pos(v@, k, i as int),
        decreases v@.len() - i,
    {
        if v[i].0 == k {
            return i;
        }
        i = i + 1;
    }
    i
}

/// The names other than `name`, order kept.
fn strings_without(v: &Vec<String>, name: &str) -> (r: Vec<String>)
    ensures
        names_model(r@) == names_without(names_model(v@), name@),
{
    let ghost m = names_model(v@);
    let mut out: Vec<String> = Vec::new();
    let mut i: usize = 0;
    while i < v.len()
        invariant
            i <= v@.len(),
            m == names_model(v@),
            names_model(out@) == names_without(m.subrange(0, i as int), name@),
        decreases v@.len() - i,
    {
        assert(m.subrange(0, i + 1).drop_last() =~= m.subrange(0, i as int));
        assert(m[i as int] == v@[i as int]@);
        if !str_eq(v[i].as_str(), name) {
            let ghost before = names_model(out@);
            out.push(v[i].clone());
            assert(names_model(out@) =~= before.push(m[i as int]));
        }
        i = i + 1;
    }
    assert(m.subrange(0, i as int) =~= m);
    out
}

/// The consumer records other than those with `tag`, order kept.
fn consumers_without(v: &Vec<(String, String, u16)>, tag: &str) -> (r: Vec<(String, String, u16)>)
    ensures
        consumers_model(r@) == consumers_without_tag(consumers_model(v@), tag@),
{
    let ghost m = consumers_model(v@);
    let mut out: Vec<(String, String, u16)> = Vec::new();
    let mut i: usize = 0;
    while i < v.len()
        invariant
            i <= v@.len(),
            m == consumers_model(v@),
            consumers_model(out@) == consumers_without_tag(m.subrange(0, i as int), tag@),
        decreases v@.len() - i,
    {
        assert(m.subrange(0, i + 1).drop_last() =~= m.subrange(0, i as int));
        assert(m[i as int] == (v@[i as int].0@, v@[i as int].1@, v@[i as int].2));
        if !str_eq(v[i].1.as_str(), tag) {
            let ghost before = consumers_model(out@);
            out.push((v[i].0.clone(), v[i].1.clone(), v[i].2));
            assert(consumers_model(out@) =~= before.push(m[i as int]));
        }
        i = i + 1;
    }
    assert(m.subrange(0, i as int) =~= m);
    out
}

/// `after` is `before` with queue `q` bound to the default exchange (the
/// first exchange named "") under its own name, the binding added last
/// when it was missing; unchanged when there is no default exchange.
pub open spec fn default_bound(before: Seq<Exchange>, after: Seq<Exchange>, q: Seq<char>) -> bool {
    let p = exchange_pos(before, ""@, 0);
    &&& p < before.len() ==> after.len() == before.len()
        && (forall|i: int| 0 <= i < before.len() && i != p ==> #[trigger] after[i] == before[i])
        && after[p].name == before[p].name
        && after[p].kind == before[p].kind
        && has_binding(after[p].bindings@, q, q)
        && (has_binding(before[p].bindings@, q, q) ==> after[p].bindings@ == before[p].bindings@)
        && (!has_binding(before[p].bindings@, q, q) ==> after[p].bindings@.len() == before[p].bindings@.len() + 1
            && after[p].bindings@.last().queue_name@ == q
            && after[p].bindings@.last().routing_key@ == q
            && after[p].bindings@.last().headers_match is None)
    &&& p >= before.len() ==> after == before
}

/// `after` is `before` with queue `q` recorded last among connection
/// `conn_id`'s exclusive queues, in its first entry, or in a new entry
/// added last.
pub open spec fn exclusive_recorded(before: Seq<(u64, Vec<String>)>, after: Seq<(u64, Vec<String>)>, conn_id: u64, q: Seq<char>) -> bool {
    let p = conn_pos(before, conn_id, 0);
    &&& p < before.len() ==> after.len() == before.len()
        && (forall|i: int| 0 <= i < before.len() && i != p ==> #[trigger] after[i] == before[i])
        && after[p].0 == conn_id
        && names_model(after[p].1@) == names_model(before[p].1@).push(q)
    &&& p >= before.len() ==> after.len() == before.len() + 1
        && after.drop_last() == before
        && after.last().0 == conn_id
        && names_model(after.last().1@) == seq![q]
}

/// `after` is `before` with queue `q` no longer among connection
/// `conn_id`'s exclusive queues (in its first entry).
pub open spec fn exclusive_forgotten(before: Seq<(u64, Vec<String>)>, after: Seq<(u64, Vec<String>)>, conn_id: u64, q: Seq<char>) -> bool {
    let p = conn_pos(before, conn_id, 0);
    &&& p < before.len() ==> after.len() == before.len()
        && (forall|i: int| 0 <= i < before.len() && i != p ==> #[trigger] after[i] == before[i])
        && after[p].0 == conn_id
        && names_model(after[p].1@) == names_without(names_model(before[p].1@), q)
    &&& p >= before.len() ==> after == before
}

/// `after` is `before` with consumer record `c` added last for
/// connection `conn_id`, in its first entry or in a new entry added last.
pub open spec fn consumer_recorded(
    before: Seq<(u64, Vec<(String, String, u16)>)>,
    after: Seq<(u64, Vec<(String, String, u16)>)>,
    conn_id: u64,
    c: (Seq<char>, Seq<char>, u16),
) -> bool {
    let p = conn_pos(before, conn_id, 0);
    &&& p < before.len() ==> after.len() == before.len()
        && (forall|i: int| 0 <= i < before.len() && i != p ==> #[trigger] after[i] == before[i])
        && after[p].0 == conn_id
        && consumers_model(after[p].1@) == consumers_model(before[p].1@).push(c)
    &&& p >= before.len() ==> after.len() == before.len() + 1
        && after.drop_last() == before
        && after.last().0 == conn_id
        && consumers_model(after.last().1@) == seq![c]
}

/// A queue as `QueueState::with_options` makes it, named `name` and owned
/// by `owner`.
pub open spec fn fresh_queue(options: QueueOptionsView, name: Seq<char>, owner: Option<u64>) -> QueueModel {
    QueueModel {
        options,
        name,
        owner_conn_id: owner,
        listeners: Seq::empty(),
        messages: Seq::new(LEVELS as nat, |i: int| Seq::<QueueMessage>::empty()),
        inflight: Seq::empty(),
        next_listener: 0,
        consumer_count: 0,
        consumer_tags: Seq::empty(),
        next_tag_seq: 1,
        last_activity: 0,
        groups: Seq::empty(),
        stream_mode: options.stream_mode,
        stream_offset: 0,
        stat_published: 0,
        stat_delivered: 0,
        stat_acked: 0,
        schema: None,
        queue_type: options.queue_type,
        leader_node: None,
        replica_nodes: Seq::empty(),
    }
}

// ─── Broker state ─────────────────────────────────────────────────────

/// The deliveries recorded for connection `conn_id`, in order.
pub open spec fn deliveries_of(cd: Seq<(u64, Vec<(String, u64)>)>, conn_id: u64) -> Seq<(String, u64)> {
    let p = conn_pos(cd, conn_id, 0);
    if p < cd.len() {
        cd[p].1@
    } else {
        Seq::empty()
    }
}

/// The exclusive queues recorded for connection `conn_id`, in order.
pub open spec fn exclusive_of(cx: Seq<(u64, Vec<String>)>, conn_id: u64) -> Seq<Seq<char>> {
    let p = conn_pos(cx, conn_id, 0);
    if p < cx.len() {
        names_model(cx[p].1@)
    } else {
        Seq::empty()
    }
}

/// The queues after connection `conn_id` goes away, step by step: its
/// recorded exclusive queues are removed; its deliveries go back to their
/// queues; its listeners and subscriptions are dropped everywhere; the
/// exclusive queues it owns are removed; and auto-delete queues left
/// without listeners are removed.
pub open spec fn queues_after_disconnect(
    qs: Seq<(Seq<char>, QueueModel)>,
    exclusive: Seq<Seq<char>>,
    deliveries: Seq<(Seq<char>, u64)>,
    conn_id: u64,
) -> Seq<(Seq<char>, QueueModel)> {
    let q1 = without_names(qs, exclusive);
    let q2 = requeue_all(q1, deliveries);
    let q3 = stripped(q2, conn_id);
    let q4 = without_names(q3, owned_exclusive(q3, conn_id));
    without_names(q4, unused_auto_delete(q4))
}

/// The tags whose consumer index entries go when connection `conn_id`
/// goes away: those of its subscriptions, queue by queue, once its
/// exclusive queues are gone.
pub open spec fn tags_after_disconnect(
    qs: Seq<(Seq<char>, QueueModel)>,
    exclusive: Seq<Seq<char>>,
    deliveries: Seq<(Seq<char>, u64)>,
    conn_id: u64,
) -> Seq<Seq<char>> {
    dropped_tags(requeue_all(without_names(qs, exclusive), deliveries), conn_id)
}

/// The broker's registries: exchanges, queues by name, and for each
/// connection its consumers, exclusive queues and unacknowledged
/// deliveries, with indexes from delivery tag and consumer tag to queue.
pub struct BrokerState {
    /// The id the next connection gets.
    pub next_conn_id: u64,
    /// The id the next message gets.
    pub next_msg_id: u64,
    pub exchanges: Vec<Exchange>,
    pub queues: Vec<(String, QueueState)>,
    /// The ids of the live connections.
    pub connections: Vec<u64>,
    /// For each connection: (queue, consumer tag, channel) of its consumers.
    pub conn_consumers: Vec<(u64, Vec<(String, String, u16)>)>,
    /// For each connection: the exclusive queues it declared.
    pub conn_exclusive_queues: Vec<(u64, Vec<String>)>,
    /// Delivery tag to queue name.
    pub delivery_index: Vec<(u64, String)>,
    /// For each connection: (queue, delivery tag) of what it was sent.
    pub conn_deliveries: Vec<(u64, Vec<(String, u64)>)>,
    /// Consumer tag to queue name.
    pub consumer_index: Vec<(String, String)>,
}

impl BrokerState {
    /// The id the next connection gets.
    pub open spec fn next_conn_spec(&self) -> u64 {
        self.next_conn_id
    }

    /// The id the next message gets.
    pub open spec fn next_msg_spec(&self) -> u64 {
        self.next_msg_id
    }

    /// A broker with the five default exchanges, no queues and no
    /// connections; ids start at 1.
    pub fn new() -> (r: Self)
        ensures
            r.exchanges@.len() == 5,
            r.exchanges@[0].name@ == ""@,
            r.exchanges@[1].name@ == "amq.direct"@,
            r.exchanges@[2].name@ == "amq.fanout"@,
            r.exchanges@[3].name@ == "amq.topic"@,
            r.exchanges@[4].name@ == "amq.headers"@,
            r.queues@.len() == 0,
            r.connections@.len() == 0,
            r.conn_consumers@.len() == 0,
            r.conn_exclusive_queues@.len() == 0,
            r.delivery_index@.len() == 0,
            r.conn_deliveries@.len() == 0,
            r.consumer_index@.len() == 0,
            r.next_conn_spec() == 1,
            r.next_msg_spec() == 1,
    {
        BrokerState {
            next_conn_id: 1,
            next_msg_id: 1,
            exchanges: create_default_exchanges(),
            queues: Vec::new(),
            connections: Vec::new(),
            conn_consumers: Vec::new(),
            conn_exclusive_queues: Vec::new(),
            delivery_index: Vec::new(),
            conn_deliveries: Vec::new(),
            consumer_index: Vec::new(),
        }
    }

    /// Hands out the next connection id; the counter wraps at the end of
    /// its range.
    pub fn alloc_conn_id(&mut self) -> (r: u64)
        ensures
            r == old(self).next_conn_spec(),
            final(self).next_conn_spec() == if r == u64::MAX { 0 } else { (r + 1) as u64 },
            *final(self) == (BrokerState { next_conn_id: final(self).next_conn_id, ..*old(self) }),
    {
        let r = self.next_conn_id;
        self.next_conn_id = if r == u64::MAX { 0 } else { r + 1 };
        r
    }

    /// Hands out the next message id; the counter wraps at the end of its
    /// range.
    pub fn alloc_msg_id(&mut self) -> (r: u64)
        ensures
            r == old(self).next_msg_spec(),
            final(self).next_msg_spec() == if r == u64::MAX { 0 } else { (r + 1) as u64 },
            *final(self) == (BrokerState { next_msg_id: final(self).next_msg_id, ..*old(self) }),
    {
        let r = self.next_msg_id;
        self.next_msg_id = if r == u64::MAX { 0 } else { r + 1 };
        r
    }

    /// Cleans up after connection `conn_id` goes away: it is no longer
    /// live, and its queues change as [`queues_after_disconnect`] says.
    /// Its entries for exclusive queues and
    /// deliveries are dropped, the delivery tags it held leave the
    /// delivery index, and its consumer tags leave the consumer index.
    pub fn remove_connection(&mut self, conn_id: u64)
        requires
            stores_fit(old(self).queues@, deliveries_of(old(self).conn_deliveries@, conn_id).len() as int),
        ensures
            ({
                let ex = exclusive_of(old(self).conn_exclusive_queues@, conn_id);
                let ds = deliveries_of(old(self).conn_deliveries@, conn_id);
                &&& queues_model(final(self).queues@) == queues_after_disconnect(
                    queues_model(old(self).queues@),
                    ex,
                    deliveries_model(ds),
                    conn_id,
                )
                &&& final(self).consumer_index@ == without_str_keys(
                    old(self).consumer_index@,
                    tags_after_disconnect(queues_model(old(self).queues@), ex, deliveries_model(ds), conn_id),
                )
                &&& final(self).delivery_index@ == without_keys(old(self).delivery_index@, delivery_tags(ds))
            }),
            final(self).connections@ == ids_without(old(self).connections@, conn_id),
            final(self).conn_exclusive_queues@ == without_key(old(self).conn_exclusive_queues@, conn_id),
            final(self).conn_deliveries@ == without_key(old(self).conn_deliveries@, conn_id),
            final(self).conn_consumers@ == old(self).conn_consumers@,
            final(self).exchanges@ == old(self).exchanges@,
            final(self).next_conn_spec() == old(self).next_conn_spec(),
            final(self).next_msg_spec() == old(self).next_msg_spec(),
            stores_fit(final(self).queues@, 0),
    {
        self.connections = u64s_without(&self.connections, conn_id);
        let ghost q0 = self.queues@;
        let exclusive = match take_conn_entry(&mut self.conn_exclusive_queues, conn_id) {
            Some(v) => v,
            None => Vec::new(),
        };
        remove_queues_named(&mut self.queues, &exclusive);
        assert(stores_fit(self.queues@, deliveries_of(old(self).conn_deliveries@, conn_id).len() as int)) by {
            assert forall|i: int| 0 <= i < self.queues@.len() implies (#[trigger] self.queues@[i]).1.messages.wf()
                && self.queues@[i].1.messages.len_spec() + deliveries_of(old(self).conn_deliveries@, conn_id).len()
                < usize::MAX by {
                assert(q0.contains(self.queues@[i]));
                let j = choose|j: int| 0 <= j < q0.len() && q0[j] == self.queues@[i];
            }
        }
        let deliveries = match take_conn_entry(&mut self.conn_deliveries, conn_id) {
            Some(v) => v,
            None => Vec::new(),
        };
        requeue_deliveries(&mut self.queues, &deliveries, &mut self.delivery_index);
        let tags = strip_connection(&mut self.queues, conn_id);
        remove_str_keys(&mut self.consumer_index, &tags);
        let owned = owned_exclusive_names(&self.queues, conn_id);
        let ghost q3 = self.queues@;
        remove_queues_named(&mut self.queues, &owned);
        let unused = unused_auto_delete_names(&self.queues);
        let ghost q4 = self.queues@;
        remove_queues_named(&mut self.queues, &unused);
        assert(stores_fit(self.queues@, 0)) by {
            assert forall|i: int| 0 <= i < self.queues@.len() implies (#[trigger] self.queues@[i]).1.messages.wf()
                && self.queues@[i].1.messages.len_spec() + 0 < usize::MAX by {
                assert(q4.contains(self.queues@[i]));
                let j = choose|j: int| 0 <= j < q4.len() && q4[j] == self.queues@[i];
                assert(q3.contains(q4[j]));
                let k = choose|k: int| 0 <= k < q3.len() && q3[k] == q4[j];
            }
        }
    }

    /// Binds queue `queue_name` to the default exchange (the exchange
    /// named "") under its own name, as every queue is reachable by its
    /// name there; nothing happens when that exchange is missing.
    pub fn auto_bind_default_exchange(&mut self, queue_name: &str)
        ensures
            default_bound(old(self).exchanges@, final(self).exchanges@, queue_name@),
            *final(self) == (BrokerState { exchanges: final(self).exchanges, ..*old(self) }),
    {
        let mut i: usize = 0;
        while i < self.exchanges.len()
            invariant
                i <= self.exchanges@.len(),
                *self == *old(self),
                exchange_pos(self.exchanges@, ""@, 0) == exchange_pos(self.exchanges@, ""@, i as int),
            decreases self.exchanges@.len() - i,
        {
            if self.exchanges[i].name.as_str().unicode_len() == 0 {
                proof {
                    reveal_strlit("");
                    assert(self.exchanges@[i as int].name@ =~= ""@);
                }
                let mut ex = self.exchanges.remove(i);
                let ghost before = ex;
                let b = Binding { queue_name: queue_name.to_owned(), routing_key: queue_name.to_owned(), headers_match: None };
                let ghost bb = b;
                ex.add_binding(b);
                proof {
                    if !has_binding(before.bindings@, queue_name@, queue_name@) {
                        assert(ex.bindings@[ex.bindings@.len() - 1] == bb);
                    }
                }
                self.exchanges.insert(i, ex);
                return;
            }
            proof {
                reveal_strlit("");
                assert(self.exchanges@[i as int].name@ != ""@);
            }
            i = i + 1;
        }
    }

    /// Declares queue `name` for connection `conn_id`: when no queue has
    /// that name one is created with `options`, last, owned by the
    /// connection when exclusive, and an exclusive queue is recorded for
    /// the connection; in every case the queue is bound to the default
    /// exchange. Returns whether the queue was created.
    pub fn declare_queue(&mut self, conn_id: u64, name: &str, options: QueueOptions) -> (r: bool)
        requires
            stores_fit(old(self).queues@, 0),
        ensures
            r == (name_pos(queues_model(old(self).queues@), name@, 0) >= old(self).queues@.len()),
            r ==> queues_model(final(self).queues@) == queues_model(old(self).queues@).push(
                (name@, fresh_queue(options@, name@, if options.exclusive { Some(conn_id) } else { None })),
            ),
            !r ==> final(self).queues@ == old(self).queues@,
            r && options.exclusive ==> exclusive_recorded(
                old(self).conn_exclusive_queues@,
                final(self).conn_exclusive_queues@,
                conn_id,
                name@,
            ),
            !(r && options.exclusive) ==> final(self).conn_exclusive_queues@ == old(self).conn_exclusive_queues@,
            default_bound(old(self).exchanges@, final(self).exchanges@, name@),
            stores_fit(final(self).queues@, 0),
            *final(self) == (BrokerState {
                queues: final(self).queues,
                conn_exclusive_queues: final(self).conn_exclusive_queues,
                exchanges: final(self).exchanges,
                ..*old(self)
            }),
    {
        let p = find_queue(&self.queues, name);
        let is_new = p >= self.queues.len();
        let exclusive = options.exclusive;
        if is_new {
            let ghost before = self.queues@;
            let mut q = QueueState::with_options(options);
            q.name = name.to_owned();
            if exclusive {
                q.owner_conn_id = Some(conn_id);
            }
            assert forall|i: int| 0 <= i < LEVELS implies #[trigger] q.messages.view()[i] =~= Seq::<QueueMessage>::empty() by {}
            assert(q.messages.view() =~= Seq::new(LEVELS as nat, |i: int| Seq::<QueueMessage>::empty()));
            assert(q@ =~= fresh_queue(options@, name@, if exclusive { Some(conn_id) } else { None }));
            self.queues.push((name.to_owned(), q));
            assert(queues_model(self.queues@) =~= queues_model(before).push((name@, q@)));
            assert forall|i: int| 0 <= i < self.queues@.len() implies (#[trigger] self.queues@[i]).1.messages.wf()
                && self.queues@[i].1.messages.len_spec() + 0 < usize::MAX by {
                if i < before.len() {
                    assert(self.queues@[i] == before[i]);
                }
            }
            if exclusive {
                self.register_exclusive_queue(conn_id, name);
            }
        }
        self.auto_bind_default_exchange(name);
        is_new
    }

    /// Deletes queue `name` on behalf of connection `conn_id`: the first
    /// queue with that name goes and leaves the connection's exclusive
    /// queues. Returns how many messages it held, or `None` when there
    /// was no such queue (then nothing changes).
    pub fn delete_queue(&mut self, conn_id: u64, name: &str) -> (r: Option<usize>)
        requires
            stores_fit(old(self).queues@, 0),
        ensures
            ({
                let m = queues_model(old(self).queues@);
                let p = name_pos(m, name@, 0);
                &&& p < m.len() ==> r == Some(old(self).queues@[p].1.messages.len_spec() as usize)
                    && queues_model(final(self).queues@) == m.remove(p)
                    && exclusive_forgotten(old(self).conn_exclusive_queues@, final(self).conn_exclusive_queues@, conn_id, name@)
                &&& p >= m.len() ==> r is None && *final(self) == *old(self)
            }),
            stores_fit(final(self).queues@, 0),
            *final(self) == (BrokerState {
                queues: final(self).queues,
                conn_exclusive_queues: final(self).conn_exclusive_queues,
                ..*old(self)
            }),
    {
        let ghost m = queues_model(self.queues@);
        let ghost before = self.queues@;
        let p = find_queue(&self.queues, name);
        proof {
            lemma_name_pos(m, name@, 0);
        }
        if p >= self.queues.len() {
            return None;
        }
        let (_, q) = self.queues.remove(p);
        let count = q.messages.len();
        assert(queues_model(self.queues@) =~= m.remove(p as int));
        assert forall|i: int| 0 <= i < self.queues@.len() implies (#[trigger] self.queues@[i]).1.messages.wf()
            && self.queues@[i].1.messages.len_spec() + 0 < usize::MAX by {
            if i < p {
                assert(self.queues@[i] == before[i]);
            } else {
                assert(self.queues@[i] == before[i + 1]);
            }
        }
        self.deregister_exclusive_queue(conn_id, name);
        Some(count)
    }

    /// Removes every message of queue `name`. Returns how many it held,
    /// or `None` when there is no such queue (then nothing changes).
    pub fn purge_queue(&mut self, name: &str) -> (r: Option<usize>)
        requires
            stores_fit(old(self).queues@, 0),
        ensures
            ({
                let m = queues_model(old(self).queues@);
                let p = name_pos(m, name@, 0);
                &&& p < m.len() ==> r == Some(old(self).queues@[p].1.messages.len_spec() as usize)
                    && queues_model(final(self).queues@) == m.update(
                    p,
                    (m[p].0, QueueModel { messages: Seq::new(LEVELS as nat, |i: int| Seq::<QueueMessage>::empty()), ..m[p].1 }),
                )
                &&& p >= m.len() ==> r is None && final(self).queues@ == old(self).queues@
            }),
            stores_fit(final(self).queues@, 0),
            *final(self) == (BrokerState { queues: final(self).queues, ..*old(self) }),
    {
        let ghost m = queues_model(self.queues@);
        let ghost before = self.queues@;
        let p = find_queue(&self.queues, name);
        proof {
            lemma_name_pos(m, name@, 0);
        }
        if p >= self.queues.len() {
            return None;
        }
        let (n, mut q) = self.queues.remove(p);
        assert(before[p as int] == (n, q));
        let count = q.messages.len();
        let ghost q0 = q@;
        q.messages.clear();
        assert forall|i: int| 0 <= i < LEVELS implies #[trigger] q.messages.view()[i] =~= Seq::<QueueMessage>::empty() by {}
        assert(q.messages.view() =~= Seq::new(LEVELS as nat, |i: int| Seq::<QueueMessage>::empty()));
        assert(q@ =~= QueueModel { messages: Seq::new(LEVELS as nat, |i: int| Seq::<QueueMessage>::empty()), ..q0 });
        self.queues.insert(p, (n, q));
        assert(queues_model(self.queues@) =~= m.update(p as int, (m[p as int].0, q@)));
        assert forall|i: int| 0 <= i < self.queues@.len() implies (#[trigger] self.queues@[i]).1.messages.wf()
            && self.queues@[i].1.messages.len_spec() + 0 < usize::MAX by {
            if i != p {
                assert(self.queues@[i] == before[i]);
            }
        }
        Some(count)
    }

    /// Records that connection `conn_id` declared the exclusive queue
    /// `queue_name`.
    pub fn register_exclusive_queue(&mut self, conn_id: u64, queue_name: &str)
        ensures
            exclusive_recorded(old(self).conn_exclusive_queues@, final(self).conn_exclusive_queues@, conn_id, queue_name@),
            *final(self) == (BrokerState { conn_exclusive_queues: final(self).conn_exclusive_queues, ..*old(self) }),
    {
        let ghost cx = self.conn_exclusive_queues@;
        let p = find_conn(&self.conn_exclusive_queues, conn_id);
        proof {
            lemma_conn_pos(cx, conn_id, 0);
        }
        if p < self.conn_exclusive_queues.len() {
            let (c, mut names) = self.conn_exclusive_queues.remove(p);
            let ghost before = names_model(names@);
            names.push(queue_name.to_owned());
            assert(names_model(names@) =~= before.push(queue_name@));
            self.conn_exclusive_queues.insert(p, (c, names));
            assert forall|i: int| 0 <= i < cx.len() && i != p implies #[trigger] self.conn_exclusive_queues@[i] == cx[i] by {}
        } else {
            let mut names: Vec<String> = Vec::new();
            names.push(queue_name.to_owned());
            assert(names_model(names@) =~= seq![queue_name@]);
            self.conn_exclusive_queues.push((conn_id, names));
            assert(self.conn_exclusive_queues@.drop_last() =~= cx);
        }
    }

    /// Forgets every record of `queue_name` among connection `conn_id`'s
    /// exclusive queues.
    pub fn deregister_exclusive_queue(&mut self, conn_id: u64, queue_name: &str)
        ensures
            exclusive_forgotten(old(self).conn_exclusive_queues@, final(self).conn_exclusive_queues@, conn_id, queue_name@),
            *final(self) == (BrokerState { conn_exclusive_queues: final(self).conn_exclusive_queues, ..*old(self) }),
    {
        let ghost cx = self.conn_exclusive_queues@;
        let p = find_conn(&self.conn_exclusive_queues, conn_id);
        proof {
            lemma_conn_pos(cx, conn_id, 0);
        }
        if p < self.conn_exclusive_queues.len() {
            let (c, names) = self.conn_exclusive_queues.remove(p);
            let kept = strings_without(&names, queue_name);
            self.conn_exclusive_queues.insert(p, (c, kept));
            assert forall|i: int| 0 <= i < cx.len() && i != p implies #[trigger] self.conn_exclusive_queues@[i] == cx[i] by {}
        }
    }

    /// Records consumer `consumer_tag` of connection `conn_id` on
    /// `queue_name`, and indexes the tag to the queue.
    pub fn register_consumer(&mut self, conn_id: u64, channel_id: u16, queue_name: &str, consumer_tag: &str)
        ensures
            consumer_recorded(old(self).conn_consumers@, final(self).conn_consumers@, conn_id, (queue_name@, consumer_tag@, channel_id)),
            index_model(final(self).consumer_index@) == index_insert(
                index_model(old(self).consumer_index@),
                consumer_tag@,
                queue_name@,
            ),
            *final(self) == (BrokerState { conn_consumers: final(self).conn_consumers, consumer_index: final(self).consumer_index, ..*old(self) }),
    {
        let ghost cc = self.conn_consumers@;
        let p = find_conn(&self.conn_consumers, conn_id);
        proof {
            lemma_conn_pos(cc, conn_id, 0);
        }
        let entry = (queue_name.to_owned(), consumer_tag.to_owned(), channel_id);
        let ghost e = (queue_name@, consumer_tag@, channel_id);
        if p < self.conn_consumers.len() {
            let (c, mut list) = self.conn_consumers.remove(p);
            let ghost before = consumers_model(list@);
            list.push(entry);
            assert(consumers_model(list@) =~= before.push(e));
            self.conn_consumers.insert(p, (c, list));
            assert forall|i: int| 0 <= i < cc.len() && i != p implies #[trigger] self.conn_consumers@[i] == cc[i] by {}
        } else {
            let mut list: Vec<(String, String, u16)> = Vec::new();
            list.push(entry);
            assert(consumers_model(list@) =~= seq![e]);
            self.conn_consumers.push((conn_id, list));
            assert(self.conn_consumers@.drop_last() =~= cc);
        }
        let ghost ix = index_model(self.consumer_index@);
        let q = find_str_key(&self.consumer_index, consumer_tag);
        proof {
            lemma_index_pos(self.consumer_index@, consumer_tag@, 0);
        }
        if q < self.consumer_index.len() {
            self.consumer_index.set(q, (consumer_tag.to_owned(), queue_name.to_owned()));
            assert(index_model(self.consumer_index@) =~= ix.update(q as int, (consumer_tag@, queue_name@)));
        } else {
            self.consumer_index.push((consumer_tag.to_owned(), queue_name.to_owned()));
            assert(index_model(self.consumer_index@) =~= ix.push((consumer_tag@, queue_name@)));
        }
    }

    /// Forgets consumer `consumer_tag` of connection `conn_id`, and its
    /// entry in the consumer index.
    pub fn deregister_consumer(&mut self, conn_id: u64, consumer_tag: &str)
        ensures
            ({
                let p = conn_pos(old(self).conn_consumers@, conn_id, 0);
                let cc = old(self).conn_consumers@;
                &&& p < cc.len() ==> final(self).conn_consumers@.len() == cc.len()
                    && (forall|i: int| 0 <= i < cc.len() && i != p ==> #[trigger] final(self).conn_consumers@[i] == cc[i])
                    && final(self).conn_consumers@[p].0 == conn_id
                    && consumers_model(final(self).conn_consumers@[p].1@) == consumers_without_tag(
                    consumers_model(cc[p].1@),
                    consumer_tag@,
                )
                &&& p >= cc.len() ==> final(self).conn_consumers@ == cc
            }),
            final(self).consumer_index@ == without_str_keys(old(self).consumer_index@, seq![consumer_tag@]),
            *final(self) == (BrokerState { conn_consumers: final(self).conn_consumers, consumer_index: final(self).consumer_index, ..*old(self) }),
    {
        let ghost cc = self.conn_consumers@;
        let p = find_conn(&self.conn_consumers, conn_id);
        proof {
            lemma_conn_pos(cc, conn_id, 0);
        }
        if p < self.conn_consumers.len() {
            let (c, list) = self.conn_consumers.remove(p);
            let kept = consumers_without(&list, consumer_tag);
            self.conn_consumers.insert(p, (c, kept));
            assert forall|i: int| 0 <= i < cc.len() && i != p implies #[trigger] self.conn_consumers@[i] == cc[i] by {}
        }
        let ghost ix = self.consumer_index@;
        let q = find_str_key(&self.consumer_index, consumer_tag);
        if q < self.consumer_index.len() {
            self.consumer_index.remove(q);
        }
        assert(seq![consumer_tag@].drop_first() =~= Seq::<Seq<char>>::empty());
        assert(without_str_keys(self.consumer_index@, Seq::<Seq<char>>::empty()) == self.consumer_index@);
    }
}

// ─── Laws of disconnection ────────────────────────────────────────────

/// No two queues share a name.
pub open spec fn names_distinct(qs: Seq<(Seq<char>, QueueModel)>) -> bool {
    forall|i: int, j: int| 0 <= i < qs.len() && 0 <= j < qs.len() && i != j ==> (#[trigger] qs[i]).0 != (#[trigger] qs[j]).0
}

/// `name_pos` from `i` is the first position at or after `i` named
/// `name`, or the length.
pub proof fn lemma_name_pos(qs: Seq<(Seq<char>, QueueModel)>, name: Seq<char>, i: int)
    requires
        0 <= i <= qs.len(),
    ensures
        i <= name_pos(qs, name, i) <= qs.len(),
        name_pos(qs, name, i) < qs.len() ==> qs[name_pos(qs, name, i)].0 == name,
        forall|j: int| i <= j < name_pos(qs, name, i) ==> (#[trigger] qs[j]).0 != name,
    decreases qs.len() - i,
{
    if i < qs.len() && qs[i].0 != name {
        lemma_name_pos(qs, name, i + 1);
    }
}

/// A position named `name` with no earlier one is what `name_pos` finds.
pub proof fn lemma_name_pos_is(qs: Seq<(Seq<char>, QueueModel)>, name: Seq<char>, i: int, q: int)
    requires
        0 <= i <= q < qs.len(),
        forall|k: int| i <= k < q ==> (#[trigger] qs[k]).0 != name,
        qs[q].0 == name,
    ensures
        name_pos(qs, name, i) == q,
    decreases q - i,
{
    if i < q {
        lemma_name_pos_is(qs, name, i + 1, q);
    }
}

/// With distinct names, removing by name removes exactly the queue with
/// that name.
pub proof fn lemma_without_name(qs: Seq<(Seq<char>, QueueModel)>, name: Seq<char>)
    requires
        names_distinct(qs),
    ensures
        names_distinct(without_name(qs, name)),
        forall|e: (Seq<char>, QueueModel)| #[trigger] without_name(qs, name).contains(e) <==> (qs.contains(e) && e.0 != name),
{
    lemma_name_pos(qs, name, 0);
    let p = name_pos(qs, name, 0);
    let r = without_name(qs, name);
    if p < qs.len() {
        assert forall|e: (Seq<char>, QueueModel)| #[trigger] r.contains(e) <==> (qs.contains(e) && e.0 != name) by {
            if r.contains(e) {
                let k = choose|k: int| 0 <= k < r.len() && r[k] == e;
                let j = if k < p { k } else { k + 1 };
                assert(qs[j] == e);
                assert(j != p);
            }
            if qs.contains(e) && e.0 != name {
                let j = choose|j: int| 0 <= j < qs.len() && qs[j] == e;
                assert(j != p);
                if j < p {
                    assert(r[j] == e);
                } else {
                    assert(r[j - 1] == e);
                }
            }
        }
        assert forall|i: int, j: int| 0 <= i < r.len() && 0 <= j < r.len() && i != j implies (#[trigger] r[i]).0 != (#[trigger] r[j]).0 by {
            let a = if i < p { i } else { i + 1 };
            let b = if j < p { j } else { j + 1 };
            assert(r[i] == qs[a] && r[j] == qs[b]);
        }
    } else {
        assert forall|e: (Seq<char>, QueueModel)| #[trigger] r.contains(e) <==> (qs.contains(e) && e.0 != name) by {
            if qs.contains(e) {
                let j = choose|j: int| 0 <= j < qs.len() && qs[j] == e;
                assert(qs[j].0 != name);
            }
        }
    }
}

/// With distinct names, removing a list of names removes exactly the
/// queues with those names.
pub proof fn lemma_without_names(qs: Seq<(Seq<char>, QueueModel)>, names: Seq<Seq<char>>)
    requires
        names_distinct(qs),
    ensures
        names_distinct(without_names(qs, names)),
        forall|e: (Seq<char>, QueueModel)| #[trigger] without_names(qs, names).contains(e) <==> (qs.contains(e)
            && !names.contains(e.0)),
    decreases names.len(),
{
    if names.len() > 0 {
        let q1 = without_name(qs, names[0]);
        lemma_without_name(qs, names[0]);
        lemma_without_names(q1, names.drop_first());
        assert forall|e: (Seq<char>, QueueModel)| #[trigger] without_names(qs, names).contains(e) <==> (qs.contains(e)
            && !names.contains(e.0)) by {
            if names.contains(e.0) {
                let k = choose|k: int| 0 <= k < names.len() && names[k] == e.0;
                if k > 0 {
                    assert(names.drop_first()[k - 1] == e.0);
                }
            }
            if names.drop_first().contains(e.0) {
                let k = choose|k: int| 0 <= k < names.drop_first().len() && names.drop_first()[k] == e.0;
                assert(names[k + 1] == e.0);
            }
        }
    }
}

/// Putting deliveries back keeps every queue's name and position.
pub proof fn lemma_requeue_keeps_names(qs: Seq<(Seq<char>, QueueModel)>, ds: Seq<(Seq<char>, u64)>)
    ensures
        requeue_all(qs, ds).len() == qs.len(),
        forall|i: int| 0 <= i < qs.len() ==> (#[trigger] requeue_all(qs, ds)[i]).0 == qs[i].0,
    decreases ds.len(),
{
    if ds.len() > 0 {
        let p = name_pos(qs, ds[0].0, 0);
        lemma_name_pos(qs, ds[0].0, 0);
        if p < qs.len() {
            let next = qs.update(p, (qs[p].0, requeued(qs[p].1, ds[0].1)));
            assert(requeue_all(qs, ds) == requeue_all(next, ds.drop_first()));
            lemma_requeue_keeps_names(next, ds.drop_first());
            assert forall|i: int| 0 <= i < qs.len() implies (#[trigger] requeue_all(qs, ds)[i]).0 == qs[i].0 by {
                assert(next[i].0 == qs[i].0);
            }
        } else {
            assert(requeue_all(qs, ds) == requeue_all(qs, ds.drop_first()));
            lemma_requeue_keeps_names(qs, ds.drop_first());
        }
    }
}

/// No listener left is on connection `conn_id`.
pub proof fn lemma_listeners_gone(l: Seq<(u64, u16)>, conn_id: u64)
    ensures
        forall|k: int| 0 <= k < listeners_not_of(l, conn_id).len() ==> (#[trigger] listeners_not_of(l, conn_id)[k]).0 != conn_id,
    decreases l.len(),
{
    if l.len() > 0 {
        lemma_listeners_gone(l.drop_last(), conn_id);
        let prev = listeners_not_of(l.drop_last(), conn_id);
        if l.last().0 != conn_id {
            assert forall|k: int| 0 <= k < prev.push(l.last()).len() implies (#[trigger] prev.push(l.last())[k]).0 != conn_id by {
                if k < prev.len() {
                    assert(prev.push(l.last())[k] == prev[k]);
                }
            }
        }
    }
}

/// No subscription left delivers to connection `conn_id`.
pub proof fn lemma_tags_gone(ts: Seq<(Seq<char>, u64, u16)>, conn_id: u64)
    ensures
        forall|k: int| 0 <= k < tags_not_of(ts, conn_id).len() ==> (#[trigger] tags_not_of(ts, conn_id)[k]).1 != conn_id,
    decreases ts.len(),
{
    if ts.len() > 0 {
        lemma_tags_gone(ts.drop_last(), conn_id);
        let prev = tags_not_of(ts.drop_last(), conn_id);
        if ts.last().1 != conn_id {
            assert forall|k: int| 0 <= k < prev.push(ts.last()).len() implies (#[trigger] prev.push(ts.last())[k]).1 != conn_id by {
                if k < prev.len() {
                    assert(prev.push(ts.last())[k] == prev[k]);
                }
            }
        }
    }
}

/// Every exclusive queue owned by `conn_id` is named in
/// `owned_exclusive`.
pub proof fn lemma_owned_listed(qs: Seq<(Seq<char>, QueueModel)>, conn_id: u64)
    ensures
        forall|i: int| 0 <= i < qs.len() && (#[trigger] qs[i]).1.options.exclusive && qs[i].1.owner_conn_id == Some(conn_id)
            ==> owned_exclusive(qs, conn_id).contains(qs[i].0),
    decreases qs.len(),
{
    if qs.len() > 0 {
        lemma_owned_listed(qs.drop_last(), conn_id);
        let prev = owned_exclusive(qs.drop_last(), conn_id);
        assert forall|i: int| 0 <= i < qs.len() && (#[trigger] qs[i]).1.options.exclusive && qs[i].1.owner_conn_id == Some(conn_id)
            implies owned_exclusive(qs, conn_id).contains(qs[i].0) by {
            if i < qs.len() - 1 {
                assert(qs.drop_last()[i] == qs[i]);
                let k = choose|k: int| 0 <= k < prev.len() && prev[k] == qs[i].0;
                if qs.last().1.options.exclusive && qs.last().1.owner_conn_id == Some(conn_id) {
                    assert(prev.push(qs.last().0)[k] == qs[i].0);
                }
            } else {
                assert(prev.push(qs.last().0)[prev.len() as int] == qs[i].0);
            }
        }
    }
}

/// Every auto-delete queue without listeners is named in
/// `unused_auto_delete`.
pub proof fn lemma_unused_listed(qs: Seq<(Seq<char>, QueueModel)>)
    ensures
        forall|i: int| 0 <= i < qs.len() && (#[trigger] qs[i]).1.options.auto_delete && qs[i].1.listeners.len() == 0
            ==> unused_auto_delete(qs).contains(qs[i].0),
    decreases qs.len(),
{
    if qs.len() > 0 {
        lemma_unused_listed(qs.drop_last());
        let prev = unused_auto_delete(qs.drop_last());
        assert forall|i: int| 0 <= i < qs.len() && (#[trigger] qs[i]).1.options.auto_delete && qs[i].1.listeners.len() == 0
            implies unused_auto_delete(qs).contains(qs[i].0) by {
            if i < qs.len() - 1 {
                assert(qs.drop_last()[i] == qs[i]);
                let k = choose|k: int| 0 <= k < prev.len() && prev[k] == qs[i].0;
                if qs.last().1.options.auto_delete && qs.last().1.listeners.len() == 0 {
                    assert(prev.push(qs.last().0)[k] == qs[i].0);
                }
            } else {
                assert(prev.push(qs.last().0)[prev.len() as int] == qs[i].0);
            }
        }
    }
}

/// What a disconnected connection leaves behind: when queue names are
/// distinct, no queue that remains has a listener or a subscription on
/// that connection, none is an exclusive queue it owned, and no
/// auto-delete queue remains without listeners. Every queue that remains
/// was there before.
pub proof fn lemma_disconnect_cleans_up(
    qs: Seq<(Seq<char>, QueueModel)>,
    exclusive: Seq<Seq<char>>,
    deliveries: Seq<(Seq<char>, u64)>,
    conn_id: u64,
)
    requires
        names_distinct(qs),
    ensures
        ({
            let r = queues_after_disconnect(qs, exclusive, deliveries, conn_id);
            &&& names_distinct(r)
            &&& forall|i: int| 0 <= i < r.len() ==> {
                let q = (#[trigger] r[i]).1;
                &&& forall|k: int| 0 <= k < q.listeners.len() ==> (#[trigger] q.listeners[k]).0 != conn_id
                &&& forall|k: int| 0 <= k < q.consumer_tags.len() ==> (#[trigger] q.consumer_tags[k]).1 != conn_id
                &&& !(q.options.exclusive && q.owner_conn_id == Some(conn_id))
                &&& !(q.options.auto_delete && q.listeners.len() == 0)
                &&& exists|j: int| 0 <= j < qs.len() && #[trigger] qs[j].0 == r[i].0
            }
        }),
{
    let q1 = without_names(qs, exclusive);
    lemma_without_names(qs, exclusive);
    let q2 = requeue_all(q1, deliveries);
    lemma_requeue_keeps_names(q1, deliveries);
    let q3 = stripped(q2, conn_id);
    assert(names_distinct(q3)) by {
        assert forall|i: int, j: int| 0 <= i < q3.len() && 0 <= j < q3.len() && i != j implies (#[trigger] q3[i]).0 != (#[trigger] q3[j]).0 by {
            assert(q3[i].0 == q2[i].0 && q2[i].0 == q1[i].0);
            assert(q3[j].0 == q2[j].0 && q2[j].0 == q1[j].0);
        }
    }
    let n4 = owned_exclusive(q3, conn_id);
    let q4 = without_names(q3, n4);
    lemma_without_names(q3, n4);
    lemma_owned_listed(q3, conn_id);
    let n5 = unused_auto_delete(q4);
    let r = without_names(q4, n5);
    lemma_without_names(q4, n5);
    lemma_unused_listed(q4);
    assert forall|i: int| 0 <= i < r.len() implies {
        let q = (#[trigger] r[i]).1;
        &&& forall|k: int| 0 <= k < q.listeners.len() ==> (#[trigger] q.listeners[k]).0 != conn_id
        &&& forall|k: int| 0 <= k < q.consumer_tags.len() ==> (#[trigger] q.consumer_tags[k]).1 != conn_id
        &&& !(q.options.exclusive && q.owner_conn_id == Some(conn_id))
        &&& !(q.options.auto_delete && q.listeners.len() == 0)
        &&& exists|j: int| 0 <= j < qs.len() && #[trigger] qs[j].0 == r[i].0
    } by {
        let e = r[i];
        assert(r.contains(e));
        assert(q4.contains(e));
        let i4 = choose|k: int| 0 <= k < q4.len() && q4[k] == e;
        assert(q3.contains(e));
        let i3 = choose|k: int| 0 <= k < q3.len() && q3[k] == e;
        assert(q3[i3] == (q2[i3].0, without_conn(q2[i3].1, conn_id)));
        lemma_listeners_gone(q2[i3].1.listeners, conn_id);
        lemma_tags_gone(q2[i3].1.consumer_tags, conn_id);
        if e.1.options.exclusive && e.1.owner_conn_id == Some(conn_id) {
            assert(n4.contains(q3[i3].0));
        }
        if e.1.options.auto_delete && e.1.listeners.len() == 0 {
            assert(n5.contains(q4[i4].0));
        }
        assert(q1.contains(q1[i3]));
        let i0 = choose|k: int| 0 <= k < qs.len() && qs[k] == q1[i3];
        assert(qs[i0].0 == e.0);
    }
}

} // verus!
