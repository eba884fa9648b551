//! The encounters that are remembered.

use crate::models::{EncounterSnapshot, SnapshotView};
use std::collections::VecDeque;
use vstd::prelude::*;

verus! {

/// The encounters that are remembered, the oldest first.
pub struct History {
    pub snapshots: VecDeque<EncounterSnapshot>,
    /// The number of the next one.
    pub next_id: u64,
}

pub struct HistoryView {
    pub snapshots: Seq<SnapshotView>,
    pub next_id: u64,
}

/// Snapshots as they are shown.
pub open spec fn snapshot_views(list: Seq<EncounterSnapshot>) -> Seq<SnapshotView> {
    list.map_values(|s: EncounterSnapshot| s@)
}

impl View for History {
    type V = HistoryView;

    open spec fn view(&self) -> HistoryView {
        HistoryView { snapshots: snapshot_views(self.snapshots@), next_id: self.next_id }
    }
}

/// The newest `limit` of a list.
pub open spec fn newest(list: Seq<SnapshotView>, limit: usize) -> Seq<SnapshotView> {
    if list.len() > limit {
        list.skip(list.len() - limit)
    } else {
        list
    }
}

/// The number after `id`: after the last comes 0.
pub open spec fn next_number(id: u64) -> u64 {
    if id == u64::MAX {
        0
    } else {
        (id + 1) as u64
    }
}

/// A history with one more encounter, numbered.
pub open spec fn with_snapshot(h: HistoryView, s: SnapshotView, limit: usize) -> HistoryView {
    HistoryView {
        snapshots: newest(h.snapshots.push(SnapshotView { id: h.next_id, ..s }), limit),
        next_id: next_number(h.next_id),
    }
}

impl History {
    /// No encounter yet.
    pub fn new() -> (h: History)
        ensures
            h@ == (HistoryView { snapshots: Seq::empty(), next_id: 1 }),
    {
        let h = History { snapshots: VecDeque::new(), next_id: 1 };
        assert(h@.snapshots =~= Seq::<SnapshotView>::empty());
        h
    }
}

/// Remembers an encounter, and forgets the oldest beyond `limit`.
pub fn push(history: &mut History, snapshot: EncounterSnapshot, limit: usize)
    ensures
        final(history)@ == with_snapshot(old(history)@, snapshot@, limit),
{
    let mut snapshot = snapshot;
    let ghost s = snapshot@;
    snapshot.id = history.next_id;
    history.next_id = if history.next_id == u64::MAX {
        0
    } else {
        history.next_id + 1
    };
    let ghost before = history@.snapshots;
    history.snapshots.push_back(snapshot);
    assert(history@.snapshots =~= before.push(SnapshotView { id: old(history)@.next_id, ..s }));
    trim_to_limit(history, limit);
}

/// Forgets the oldest encounters beyond `limit`.
pub fn trim_to_limit(history: &mut History, limit: usize)
    ensures
        final(history)@ == (HistoryView {
            snapshots: newest(old(history)@.snapshots, limit),
            ..old(history)@
        }),
{
    let ghost all = history@.snapshots;
    while history.snapshots.len() > limit
        invariant
            newest(history@.snapshots, limit) == newest(all, limit),
            history.next_id == old(history).next_id,
        decreases history.snapshots@.len(),
    {
        let ghost now = history@.snapshots;
        history.snapshots.pop_front();
        proof {
            assert(history@.snapshots =~= now.skip(1));
            assert(now.skip(1).skip(now.len() - 1 - limit) =~= now.skip(now.len() - limit));
            if history@.snapshots.len() == limit {
                assert(now.skip(now.len() - limit) =~= history@.snapshots);
            }
        }
    }
}

/// The remembered encounters, the newest first.
pub fn snapshot_list(history: &History) -> (list: Vec<EncounterSnapshot>)
    ensures
        snapshot_views(list@) == history@.snapshots.reverse(),
{
    let n: usize = history.snapshots.len();
    let mut list: Vec<EncounterSnapshot> = Vec::new();
    let ghost all = history@.snapshots.reverse();
    for i in 0..n
        invariant
            n == history.snapshots@.len(),
            all == history@.snapshots.reverse(),
            snapshot_views(list@) =~= all.take(i as int),
    {
        let s: EncounterSnapshot = history.snapshots[n - 1 - i].duplicate();
        let ghost before = list@;
        list.push(s);
        assert(snapshot_views(list@) =~= snapshot_views(before).push(s@));
    }
    assert(all.take(n as int) =~= all);
    list
}

/// Forgets every encounter.
pub fn clear(history: &mut History)
    ensures
        final(history)@ == (HistoryView { snapshots: Seq::empty(), ..old(history)@ }),
{
    history.snapshots.clear();
    assert(history@.snapshots =~= Seq::<SnapshotView>::empty());
}

/// Whether the encounters of a history are numbered upwards, below the next number.
pub open spec fn numbered_upwards(h: HistoryView) -> bool {
    &&& forall|i: int, j: int|
        0 <= i < j < h.snapshots.len() ==> (#[trigger] h.snapshots[i]).id < (
        #[trigger] h.snapshots[j]).id
    &&& forall|i: int| 0 <= i < h.snapshots.len() ==> (#[trigger] h.snapshots[i]).id < h.next_id
}

/// A history never holds more than its limit, its newest encounter is the one that was remembered
/// last, and each has a number of its own, larger than those before it.
pub proof fn law_history_is_bounded(h: HistoryView, s: SnapshotView, limit: usize)
    requires
        numbered_upwards(h),
        h.next_id < u64::MAX,
    ensures
        with_snapshot(h, s, limit).snapshots.len() <= limit,
        limit > 0 ==> with_snapshot(h, s, limit).snapshots.last() == (SnapshotView {
            id: h.next_id,
            ..s
        }),
        numbered_upwards(with_snapshot(h, s, limit)),
{
    let all = h.snapshots.push(SnapshotView { id: h.next_id, ..s });
    let w = with_snapshot(h, s, limit).snapshots;
    let d = all.len() - w.len();
    assert forall|i: int| 0 <= i < w.len() implies w[i] == all[i + d] by {}
    assert forall|i: int, j: int| 0 <= i < j < w.len() implies (#[trigger] w[i]).id < (
    #[trigger] w[j]).id by {
        assert(all[i + d].id < all[j + d].id);
    }
}

/// As many encounters are remembered as may be, and always the newest, in their order.
pub proof fn law_history_keeps_the_newest(list: Seq<SnapshotView>, limit: usize, i: int)
    requires
        1 <= i <= newest(list, limit).len(),
    ensures
        list.len() <= limit ==> newest(list, limit) == list,
        list.len() > limit ==> newest(list, limit).len() == limit,
        newest(list, limit)[newest(list, limit).len() - i] == list[list.len() - i],
{
}

} // verus!
