//! Log compaction: once a log holds enough entries and some acknowledgements,
//! the acknowledged messages and their acknowledgements are dropped. What
//! recovery restores from the compacted log is what it restored before.

use vstd::prelude::*;
use crate::amqp::types::{copy_range, from_be16, from_be64, get_u16, get_u64};
use crate::storage::wal::{EntryType, WalEntry};
use crate::storage::replay::{
    ack_id, acked_ids, collect_acked_ids, contains_id, enqueue_head, entry_effect,
    lemma_acked_ids_members, read_str16, replay_model, ReplayModel,
};

verus! {

/// The message id the compactor reads from an `Enqueue` entry: the eight
/// bytes after its `u16`-prefixed queue name, when the data holds them.
pub open spec fn compaction_enqueue_id(d: Seq<u8>) -> Option<u64> {
    let n = from_be16(d.subrange(0, 2)) as int;
    if d.len() >= 2 + n + 8 {
        Some(from_be64(d.subrange(2 + n, 2 + n + 8)))
    } else {
        None
    }
}

/// Whether compaction keeps an entry: an `Enqueue` or `Ack` naming an
/// acknowledged id goes; everything else stays.
pub open spec fn kept(e: WalEntry, acked: Seq<u64>) -> bool {
    match e.entry_type {
        EntryType::Enqueue => match compaction_enqueue_id(e.data@) {
            Some(id) => !acked.contains(id),
            None => true,
        },
        EntryType::Ack => match ack_id(e) {
            Some(id) => !acked.contains(id),
            None => true,
        },
        _ => true,
    }
}

/// The entries among the first `n` that compaction keeps, in order.
pub open spec fn kept_entries(es: Seq<WalEntry>, acked: Seq<u64>, n: int) -> Seq<WalEntry>
    decreases n,
{
    if n <= 0 {
        Seq::empty()
    } else {
        let prev = kept_entries(es, acked, n - 1);
        if kept(es[n - 1], acked) {
            prev.push(es[n - 1])
        } else {
            prev
        }
    }
}

/// Whether two logs hold entries of the same types and data, in order.
pub open spec fn same_entries(a: Seq<WalEntry>, b: Seq<WalEntry>) -> bool {
    &&& a.len() == b.len()
    &&& forall|i: int| 0 <= i < a.len() ==> (#[trigger] a[i]).entry_type == b[i].entry_type && a[i].data@ == b[i].data@
}

/// All the ids a log acknowledges.
pub open spec fn log_acked(es: Seq<WalEntry>) -> Seq<u64> {
    acked_ids(es, es.len() as int)
}

/// Whether compaction runs: the log holds at least `threshold` entries
/// and acknowledges something.
pub open spec fn compaction_due(es: Seq<WalEntry>, threshold: u64) -> bool {
    es.len() >= threshold && log_acked(es).len() > 0
}

/// Whether compaction runs on this log with this threshold.
pub fn compaction_is_due(entries: &[WalEntry], threshold: u64) -> (r: bool)
    ensures
        r == compaction_due(entries@, threshold),
{
    if (entries.len() as u64) < threshold {
        return false;
    }
    let acked = collect_acked_ids(entries);
    acked.len() > 0
}

/// A copy of an entry.
fn copy_entry(e: &WalEntry) -> (r: WalEntry)
    ensures
        r.entry_type == e.entry_type,
        r.data@ == e.data@,
{
    WalEntry { entry_type: e.entry_type, data: copy_range(e.data.as_slice(), 0, e.data.len()) }
}

/// Compacts a log: `None` when compaction is not due; otherwise the kept
/// entries, in order, and how many were dropped.
pub fn compact(entries: &[WalEntry], threshold: u64) -> (r: Option<(Vec<WalEntry>, u64)>)
    requires
        compaction_due(entries@, threshold) ==> forall|i: int|
            0 <= i < entries@.len() && (#[trigger] entries@[i]).entry_type == EntryType::Enqueue
                ==> entries@[i].data@.len() >= 2,
    ensures
        r is None <==> !compaction_due(entries@, threshold),
        r matches Some((k, removed)) ==> same_entries(
            k@,
            kept_entries(entries@, log_acked(entries@), entries@.len() as int),
        ) && removed == entries@.len() - k@.len(),
{
    if (entries.len() as u64) < threshold {
        return None;
    }
    let acked = collect_acked_ids(entries);
    if acked.len() == 0 {
        return None;
    }
    let ghost a = log_acked(entries@);
    let mut out: Vec<WalEntry> = Vec::new();
    let mut i: usize = 0;
    while i < entries.len()
        invariant
            i <= entries@.len(),
            acked@ == a,
            a == log_acked(entries@),
            compaction_due(entries@, threshold),
            forall|j: int|
                0 <= j < entries@.len() && (#[trigger] entries@[j]).entry_type == EntryType::Enqueue
                    ==> entries@[j].data@.len() >= 2,
            same_entries(out@, kept_entries(entries@, a, i as int)),
            out@.len() <= i,
        decreases entries@.len() - i,
    {
        let e = &entries[i];
        let keep = match e.entry_type {
            EntryType::Enqueue => {
                let d = e.data.as_slice();
                let n = get_u16(d, 0) as usize;
                if d.len() >= 2 + n + 8 {
                    let id = get_u64(d, 2 + n);
                    !contains_id(acked.as_slice(), id)
                } else {
                    true
                }
            },
            EntryType::Ack => {
                if e.data.len() >= 8 {
                    let id = get_u64(e.data.as_slice(), 0);
                    !contains_id(acked.as_slice(), id)
                } else {
                    true
                }
            },
            _ => true,
        };
        assert(keep == kept(entries@[i as int], a));
        let ghost before = out@;
        if keep {
            out.push(copy_entry(e));
        }
        proof {
            let ks = kept_entries(entries@, a, i + 1);
            assert(ks == if kept(entries@[i as int], a) {
                kept_entries(entries@, a, i as int).push(entries@[i as int])
            } else {
                kept_entries(entries@, a, i as int)
            });
            assert forall|j: int| 0 <= j < out@.len() implies (#[trigger] out@[j]).entry_type
                == ks[j].entry_type && out@[j].data@ == ks[j].data@ by {
                if j < before.len() {
                    assert(out@[j] == before[j]);
                }
            }
        }
        i = i + 1;
    }
    let removed = (entries.len() - out.len()) as u64;
    Some((out, removed))
}

// ─── Recovery is unchanged ────────────────────────────────────────────

/// Replaying logs with the same entries gives the same state.
proof fn lemma_replay_congruent(m: ReplayModel, s1: Seq<WalEntry>, s2: Seq<WalEntry>, a: Seq<u64>, j: int)
    requires
        0 <= j <= s1.len(),
        j <= s2.len(),
        forall|i: int| 0 <= i < j ==> (#[trigger] s1[i]).entry_type == s2[i].entry_type && s1[i].data@ == s2[i].data@,
    ensures
        replay_model(m, s1, a, j) == replay_model(m, s2, a, j),
    decreases j,
{
    if j > 0 {
        lemma_replay_congruent(m, s1, s2, a, j - 1);
        assert(s1[j - 1].entry_type == s2[j - 1].entry_type && s1[j - 1].data@ == s2[j - 1].data@);
    }
}

/// The id in the head of an `Enqueue` entry is the one compaction reads.
proof fn lemma_head_id(d: Seq<u8>)
    requires
        enqueue_head(d) is Ok,
    ensures
        compaction_enqueue_id(d) == Some(enqueue_head(d)->Ok_0.1),
{
    reveal(read_str16);
}

/// Replaying a log acknowledges the same ids as its `Ack` entries name;
/// a log whose `Ack` entries name no id acknowledges nothing.
proof fn lemma_no_acks(es: Seq<WalEntry>, n: int)
    requires
        0 <= n <= es.len(),
        forall|i: int| 0 <= i < n ==> ack_id(#[trigger] es[i]) is None,
    ensures
        acked_ids(es, n) == Seq::<u64>::empty(),
    decreases n,
{
    if n > 0 {
        lemma_no_acks(es, n - 1);
    }
}

/// A kept entry acts under no acknowledgements as it acts under the
/// log's own.
proof fn lemma_kept_same_effect(m: ReplayModel, e: WalEntry, a: Seq<u64>)
    requires
        kept(e, a),
    ensures
        entry_effect(m, e, Seq::<u64>::empty()) == entry_effect(m, e, a),
{
    if e.entry_type == EntryType::Enqueue {
        if enqueue_head(e.data@) is Ok {
            lemma_head_id(e.data@);
        }
    }
}

/// A dropped entry has no effect on recovery.
proof fn lemma_dropped_no_effect(m: ReplayModel, e: WalEntry, a: Seq<u64>)
    requires
        !kept(e, a),
    ensures
        entry_effect(m, e, a) == m,
{
    if e.entry_type == EntryType::Enqueue {
        if enqueue_head(e.data@) is Ok {
            lemma_head_id(e.data@);
        }
    }
}

/// Replaying the kept entries of the first `n` under no acknowledgements
/// gives what replaying the first `n` entries under `a` gives.
proof fn lemma_replay_kept(m: ReplayModel, es: Seq<WalEntry>, a: Seq<u64>, n: int)
    requires
        0 <= n <= es.len(),
    ensures
        kept_entries(es, a, n).len() <= n,
        replay_model(m, kept_entries(es, a, n), Seq::<u64>::empty(), kept_entries(es, a, n).len() as int)
            == replay_model(m, es, a, n),
    decreases n,
{
    if n > 0 {
        lemma_replay_kept(m, es, a, n - 1);
        let prev = kept_entries(es, a, n - 1);
        let e = es[n - 1];
        let before = replay_model(m, es, a, n - 1);
        if kept(e, a) {
            let ks = prev.push(e);
            assert(kept_entries(es, a, n) == ks);
            lemma_replay_congruent(m, ks, prev, Seq::<u64>::empty(), prev.len() as int);
            lemma_kept_same_effect(before, e, a);
        } else {
            lemma_dropped_no_effect(before, e, a);
        }
    }
}

/// Compaction does not change what recovery restores: replaying the
/// compacted log (under its own acknowledgements) gives the same queues,
/// messages, exchanges and bindings as replaying the whole log.
pub proof fn lemma_compaction_preserves_recovery(m: ReplayModel, es: Seq<WalEntry>, c: Seq<WalEntry>)
    requires
        same_entries(c, kept_entries(es, log_acked(es), es.len() as int)),
    ensures
        replay_model(m, c, log_acked(c), c.len() as int) == replay_model(m, es, log_acked(es), es.len() as int),
{
    let a = log_acked(es);
    let k = kept_entries(es, a, es.len() as int);
    lemma_replay_kept(m, es, a, es.len() as int);
    assert forall|i: int| 0 <= i < c.len() implies ack_id(#[trigger] c[i]) is None by {
        lemma_kept_entries_acks(es, a, es.len() as int, i);
    }
    lemma_no_acks(c, c.len() as int);
    lemma_replay_congruent(m, c, k, Seq::<u64>::empty(), c.len() as int);
}

/// Each kept entry is an entry of the log that compaction keeps.
proof fn lemma_kept_entry_from_log(es: Seq<WalEntry>, a: Seq<u64>, n: int, i: int)
    requires
        0 <= n <= es.len(),
        0 <= i < kept_entries(es, a, n).len(),
    ensures
        exists|j: int| 0 <= j < n && kept_entries(es, a, n)[i] == #[trigger] es[j] && kept(es[j], a),
    decreases n,
{
    if n > 0 {
        let prev = kept_entries(es, a, n - 1);
        if kept(es[n - 1], a) && i == prev.len() {
            assert(kept_entries(es, a, n)[i] == es[n - 1]);
        } else {
            lemma_kept_entry_from_log(es, a, n - 1, i);
            let j = choose|j: int| 0 <= j < n - 1 && prev[i] == #[trigger] es[j] && kept(es[j], a);
            assert(kept_entries(es, a, n)[i] == es[j]);
        }
    }
}

/// A kept `Ack` entry of a log names no id that the log acknowledges, so
/// it names no id at all.
proof fn lemma_kept_entries_acks(es: Seq<WalEntry>, a: Seq<u64>, n: int, i: int)
    requires
        a == log_acked(es),
        n == es.len(),
        0 <= i < kept_entries(es, a, n).len(),
    ensures
        ack_id(kept_entries(es, a, n)[i]) is None,
{
    lemma_kept_entry_from_log(es, a, n, i);
    let j = choose|j: int| 0 <= j < n && kept_entries(es, a, n)[i] == #[trigger] es[j] && kept(es[j], a);
    if let Some(id) = ack_id(es[j]) {
        lemma_acked_ids_members(es, n, id);
        assert(a.contains(id));
    }
}

} // verus!
