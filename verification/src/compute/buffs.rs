//! The effects on players.

use crate::engine::buff_dictionary::{is_visible, lookup, meta_of, BuffCategory, DisplayPriority};
use crate::engine::buff_source::{
    classify_buff, law_source_name_round_trip, source_of, BuffSourceKind,
};
use crate::engine::buff_state::BuffStateSnapshot;
use crate::engine::name_cache::{remembered, CachedView, NameCache};
use crate::models::{
    PlayerBuffSnapshot, SelfBuffSnapshot, SelfStatusData, SelfStatusEntry, TrackedBuffsData,
};
use crate::order::{is_descending, order_desc};
use vstd::prelude::*;

verus! {

/// The imagine that an effect comes from.
pub open spec fn kind_at(snaps: Seq<BuffStateSnapshot>, i: int) -> BuffSourceKind {
    source_of(snaps[i].base_id as i64)
}

/// Whether the effect at `i` lasts longest of those from an imagine, the first one where several do.
pub open spec fn lasts_longest(
    snaps: Seq<BuffStateSnapshot>,
    kind: BuffSourceKind,
    i: int,
) -> bool {
    &&& 0 <= i < snaps.len()
    &&& kind_at(snaps, i) == kind
    &&& forall|j: int|
        0 <= j < snaps.len() && #[trigger] kind_at(snaps, j) == kind ==> snaps[j].remaining_ms
            < snaps[i].remaining_ms || (snaps[j].remaining_ms == snaps[i].remaining_ms && i <= j)
}

/// Whether `b` shows an effect from an imagine.
pub open spec fn shows_effect(
    b: SelfBuffSnapshot,
    s: BuffStateSnapshot,
    kind: BuffSourceKind,
) -> bool {
    &&& b.kind@ == kind.name()
    &&& b.base_id == s.base_id
    &&& b.buff_uuid == s.buff_uuid
    &&& b.layer == s.layer
    &&& b.remaining_ms == s.remaining_ms
    &&& b.duration_ms == s.duration_ms
    &&& b.received_at_ms == s.received_at_local_ms
}

/// Whether `b` shows the effect from an imagine that lasts longest.
pub open spec fn shows_longest(
    b: SelfBuffSnapshot,
    snaps: Seq<BuffStateSnapshot>,
    kind: BuffSourceKind,
) -> bool {
    exists|i: int| #[trigger] lasts_longest(snaps, kind, i) && shows_effect(b, snaps[i], kind)
}

/// Whether `b` shows the effect from some imagine that lasts longest.
pub open spec fn shows_some_imagine(b: SelfBuffSnapshot, snaps: Seq<BuffStateSnapshot>) -> bool {
    exists|kind: BuffSourceKind|
        kind != BuffSourceKind::Other && #[trigger] shows_longest(b, snaps, kind)
}

/// Whether an effect from an imagine is among `snaps`.
pub open spec fn occurs(snaps: Seq<BuffStateSnapshot>, kind: BuffSourceKind) -> bool {
    exists|i: int| 0 <= i < snaps.len() && #[trigger] kind_at(snaps, i) == kind
}

/// Whether `buffs` shows one effect of each imagine that occurs: the one that lasts longest. Other
/// effects are left out.
pub open spec fn shows_imagines(
    buffs: Seq<SelfBuffSnapshot>,
    snaps: Seq<BuffStateSnapshot>,
) -> bool {
    &&& forall|b: int| 0 <= b < buffs.len() ==> shows_some_imagine(#[trigger] buffs[b], snaps)
    &&& forall|a: int, b: int|
        0 <= a < b < buffs.len() ==> (#[trigger] buffs[a]).kind@ != (#[trigger] buffs[b]).kind@
    &&& forall|kind: BuffSourceKind|
        kind != BuffSourceKind::Other && #[trigger] occurs(snaps, kind) ==> exists|b: int|
            0 <= b < buffs.len() && #[trigger] shows_longest(buffs[b], snaps, kind)
}

/// The effect from an imagine that lasts longest.
fn longest(snaps: &Vec<BuffStateSnapshot>, kind: BuffSourceKind) -> (r: Option<usize>)
    ensures
        r is Some <==> occurs(snaps@, kind),
        r matches Some(i) ==> lasts_longest(snaps@, kind, i as int),
{
    let mut best: Option<usize> = None;
    let n: usize = snaps.len();
    for i in 0..n
        invariant
            n == snaps@.len(),
            best is None ==> forall|j: int|
                0 <= j < i ==> #[trigger] kind_at(snaps@, j) != kind,
            best matches Some(b) ==> b < i && kind_at(snaps@, b as int) == kind && forall|j: int|
                0 <= j < i && #[trigger] kind_at(snaps@, j) == kind ==> snaps@[j].remaining_ms
                    < snaps@[b as int].remaining_ms || (snaps@[j].remaining_ms
                    == snaps@[b as int].remaining_ms && b <= j),
    {
        let s: BuffStateSnapshot = snaps[i];
        if classify_buff(s.base_id as i64) == kind {
            match best {
                None => {
                    best = Some(i);
                },
                Some(b) => {
                    if s.remaining_ms > snaps[b].remaining_ms {
                        best = Some(i);
                    }
                },
            }
        }
    }
    best
}

/// What is shown of the effects from an imagine.
fn entry_of(snaps: &Vec<BuffStateSnapshot>, kind: BuffSourceKind) -> (r: Option<SelfBuffSnapshot>)
    ensures
        r is Some <==> occurs(snaps@, kind),
        r matches Some(b) ==> shows_longest(b, snaps@, kind),
{
    match longest(snaps, kind) {
        None => None,
        Some(i) => {
            let s: BuffStateSnapshot = snaps[i];
            let b = SelfBuffSnapshot {
                kind: kind.as_str().to_owned(),
                base_id: s.base_id,
                buff_uuid: s.buff_uuid,
                layer: s.layer,
                remaining_ms: s.remaining_ms,
                duration_ms: s.duration_ms,
                received_at_ms: s.received_at_local_ms,
            };
            assert(lasts_longest(snaps@, kind, i as int));
            Some(b)
        },
    }
}

/// Whether `buffs` shows the effects from these imagines.
spec fn shows_kinds(
    buffs: Seq<SelfBuffSnapshot>,
    snaps: Seq<BuffStateSnapshot>,
    kinds: Seq<BuffSourceKind>,
) -> bool {
    &&& kinds.len() == buffs.len()
    &&& forall|b: int|
        0 <= b < buffs.len() ==> shows_longest(#[trigger] buffs[b], snaps, kinds[b])
}

/// Adds what is shown of the effects from an imagine.
fn push_entry(
    buffs: &mut Vec<SelfBuffSnapshot>,
    snaps: &Vec<BuffStateSnapshot>,
    kind: BuffSourceKind,
    Ghost(kinds): Ghost<Seq<BuffSourceKind>>,
) -> (more: Ghost<Seq<BuffSourceKind>>)
    requires
        shows_kinds(old(buffs)@, snaps@, kinds),
    ensures
        more@ == if occurs(snaps@, kind) {
            kinds.push(kind)
        } else {
            kinds
        },
        shows_kinds(final(buffs)@, snaps@, more@),
{
    let ghost mut more = kinds;
    if let Some(b) = entry_of(snaps, kind) {
        buffs.push(b);
        proof {
            more = kinds.push(kind);
        }
    }
    Ghost(more)
}

/// Effects from different imagines, one from each that occurs.
proof fn lemma_shows_imagines(
    buffs: Seq<SelfBuffSnapshot>,
    snaps: Seq<BuffStateSnapshot>,
    kinds: Seq<BuffSourceKind>,
)
    requires
        shows_kinds(buffs, snaps, kinds),
        kinds.no_duplicates(),
        forall|k: BuffSourceKind| #[trigger]
            kinds.contains(k) <==> k != BuffSourceKind::Other && occurs(snaps, k),
    ensures
        shows_imagines(buffs, snaps),
{
    assert forall|b: int| 0 <= b < buffs.len() implies shows_some_imagine(
        #[trigger] buffs[b],
        snaps,
    ) by {
        assert(kinds.contains(kinds[b]));
        assert(shows_longest(buffs[b], snaps, kinds[b]));
    }
    assert forall|a: int, b: int| 0 <= a < b < buffs.len() implies (#[trigger] buffs[a]).kind@ != (
    #[trigger] buffs[b]).kind@ by {
        assert(shows_longest(buffs[a], snaps, kinds[a]));
        assert(shows_longest(buffs[b], snaps, kinds[b]));
        assert(kinds[a] != kinds[b]);
        law_source_name_round_trip(kinds[a]);
        law_source_name_round_trip(kinds[b]);
    }
    assert forall|kind: BuffSourceKind|
        kind != BuffSourceKind::Other && #[trigger] occurs(snaps, kind) implies exists|b: int|
        0 <= b < buffs.len() && #[trigger] shows_longest(buffs[b], snaps, kind) by {
        assert(kinds.contains(kind));
        let b = choose|b: int| 0 <= b < kinds.len() && kinds[b] == kind;
        assert(shows_longest(buffs[b], snaps, kind));
    }
}

/// The effects of imagines on a player: of each imagine the one that lasts longest.
pub fn aggregate_player_buffs(
    snapshots: Vec<BuffStateSnapshot>,
    uid: i64,
    name: String,
) -> (r: PlayerBuffSnapshot)
    ensures
        r.uid == uid,
        r.name@ == name@,
        shows_imagines(r.buffs@, snapshots@),
{
    let ghost snaps = snapshots@;
    let mut buffs: Vec<SelfBuffSnapshot> = Vec::new();
    let k1: Ghost<Seq<BuffSourceKind>> = push_entry(
        &mut buffs,
        &snapshots,
        BuffSourceKind::Tina,
        Ghost(Seq::empty()),
    );
    let k2: Ghost<Seq<BuffSourceKind>> = push_entry(
        &mut buffs,
        &snapshots,
        BuffSourceKind::Aluna,
        k1,
    );
    let k3: Ghost<Seq<BuffSourceKind>> = push_entry(
        &mut buffs,
        &snapshots,
        BuffSourceKind::Tarta,
        k2,
    );
    let k4: Ghost<Seq<BuffSourceKind>> = push_entry(
        &mut buffs,
        &snapshots,
        BuffSourceKind::Basilisk,
        k3,
    );
    proof {
        lemma_kinds_pushed(Seq::empty(), snaps, BuffSourceKind::Tina, k1@);
        lemma_kinds_pushed(k1@, snaps, BuffSourceKind::Aluna, k2@);
        lemma_kinds_pushed(k2@, snaps, BuffSourceKind::Tarta, k3@);
        lemma_kinds_pushed(k3@, snaps, BuffSourceKind::Basilisk, k4@);
        assert forall|k: BuffSourceKind| #[trigger] k4@.contains(k) <==> k != BuffSourceKind::Other
            && occurs(snaps, k) by {
            let none = Seq::<BuffSourceKind>::empty();
            assert(!none.contains(k));
            assert(k1@.contains(k) || !k1@.contains(k));
            assert(k2@.contains(k) || !k2@.contains(k));
            assert(k3@.contains(k) || !k3@.contains(k));
        }
        lemma_shows_imagines(buffs@, snaps, k4@);
    }
    PlayerBuffSnapshot { uid, name, buffs }
}

/// The imagines after one that occurs was added.
proof fn lemma_kinds_pushed(
    kinds: Seq<BuffSourceKind>,
    snaps: Seq<BuffStateSnapshot>,
    kind: BuffSourceKind,
    more: Seq<BuffSourceKind>,
)
    requires
        kinds.no_duplicates(),
        !kinds.contains(kind),
        more == if occurs(snaps, kind) {
            kinds.push(kind)
        } else {
            kinds
        },
    ensures
        more.no_duplicates(),
        forall|k: BuffSourceKind| #[trigger]
            more.contains(k) <==> kinds.contains(k) || (k == kind && occurs(snaps, kind)),
{
    let more = kinds.push(kind);
    assert forall|a: int, b: int| 0 <= a < b < more.len() implies more[a] != more[b] by {
        assert(kinds.contains(kinds[a]));
    }
    assert forall|k: BuffSourceKind| #[trigger] more.contains(k) <==> kinds.contains(k) || k
        == kind by {
        assert(more[kinds.len() as int] == kind);
        if kinds.contains(k) {
            let j = choose|j: int| 0 <= j < kinds.len() && kinds[j] == k;
            assert(more[j] == k);
        }
    }
}

/// Whether `d` shows the effects of imagines on players, one after the other, with the names that
/// are remembered.
pub open spec fn shows_tracked(
    d: TrackedBuffsData,
    players: Seq<(i64, Vec<BuffStateSnapshot>)>,
    names: Map<i64, CachedView>,
) -> bool {
    &&& d.players@.len() == players.len()
    &&& forall|i: int|
        0 <= i < players.len() ==> {
            let p = #[trigger] d.players@[i];
            &&& p.uid == players[i].0
            &&& p.name@ == match remembered(names, players[i].0) {
                Some(c) => c.name,
                None => Seq::empty(),
            }
            &&& shows_imagines(p.buffs@, players[i].1@)
        }
}

/// The effects of imagines on chosen players.
pub fn get_tracked_buffs(
    players: Vec<(i64, Vec<BuffStateSnapshot>)>,
    names: &NameCache,
    now_ms: u128,
    local_player_uid: i64,
) -> (d: TrackedBuffsData)
    ensures
        d.now_ms == now_ms,
        d.local_player_uid == local_player_uid,
        shows_tracked(d, players@, names@),
{
    let mut shown: Vec<PlayerBuffSnapshot> = Vec::new();
    for p in it: players
        invariant
            shown@.len() == it.index(),
            forall|i: int|
                0 <= i < shown@.len() ==> {
                    let s = #[trigger] shown@[i];
                    &&& s.uid == it.seq()[i].0
                    &&& s.name@ == match remembered(names@, it.seq()[i].0) {
                        Some(c) => c.name,
                        None => Seq::empty(),
                    }
                    &&& shows_imagines(s.buffs@, it.seq()[i].1@)
                },
    {
        let name: String = match names.lookup(p.0) {
            Some(c) => c.name.clone(),
            None => String::new(),
        };
        assert(remembered(names@, p.0) is None ==> name@ =~= Seq::<char>::empty());
        shown.push(aggregate_player_buffs(p.1, p.0, name));
    }
    TrackedBuffsData { players: shown, now_ms, local_player_uid }
}

/// Whether an effect is shown among the harmful ones (`debuff`) or the others.
pub open spec fn is_shown(s: BuffStateSnapshot, debuff: bool) -> bool {
    meta_of(s.base_id) matches Some(meta) && meta.priority != DisplayPriority::Hidden && (
    meta.category == BuffCategory::Debuff) == debuff
}

/// The places of the effects that are shown, in order.
pub open spec fn shown_places(snaps: Seq<BuffStateSnapshot>, debuff: bool) -> Seq<int>
    decreases snaps.len(),
{
    if snaps.len() == 0 {
        seq![]
    } else {
        let before = shown_places(snaps.drop_last(), debuff);
        if is_shown(snaps.last(), debuff) {
            before.push(snaps.len() - 1)
        } else {
            before
        }
    }
}

/// The time that an effect still lasts: none where it has run out.
pub open spec fn time_left(s: BuffStateSnapshot) -> i64 {
    if s.remaining_ms > 0 {
        s.remaining_ms
    } else {
        0
    }
}

/// Whether `e` shows an effect on the own character.
pub open spec fn shows_status(e: SelfStatusEntry, s: BuffStateSnapshot) -> bool {
    &&& e.instance_id == s.buff_uuid
    &&& e.base_id == s.base_id
    &&& e.remaining_ms == time_left(s)
    &&& e.duration_ms == s.duration_ms
    &&& e.layer == s.layer
    &&& e.source_config_id == 0
    &&& (meta_of(s.base_id) matches Some(meta) && e.category@ == meta.category.name()
        && e.priority@ == meta.priority.name())
}

/// The times that the effects at `places` still last.
pub open spec fn times_left(snaps: Seq<BuffStateSnapshot>, places: Seq<int>) -> Seq<i64> {
    places.map_values(|p: int| time_left(snaps[p]))
}

/// Whether `list` shows the effects that are shown, those that last longest first, those that last
/// equally long in the order given.
pub open spec fn shows_statuses(
    list: Seq<SelfStatusEntry>,
    snaps: Seq<BuffStateSnapshot>,
    debuff: bool,
) -> bool {
    let places = shown_places(snaps, debuff);
    exists|order: Seq<usize>| #[trigger]
        is_descending(times_left(snaps, places), order) && list.len() == places.len() && forall|
            i: int,
        |
            0 <= i < list.len() ==> shows_status(
                #[trigger] list[i],
                snaps[places[order[i] as int]],
            )
}

/// The places that are shown are places.
proof fn lemma_shown_places(snaps: Seq<BuffStateSnapshot>, debuff: bool)
    ensures
        forall|i: int|
            0 <= i < shown_places(snaps, debuff).len() ==> 0 <= #[trigger] shown_places(
                snaps,
                debuff,
            )[i] < snaps.len() && is_shown(snaps[shown_places(snaps, debuff)[i]], debuff),
    decreases snaps.len(),
{
    if snaps.len() > 0 {
        lemma_shown_places(snaps.drop_last(), debuff);
        let before = shown_places(snaps.drop_last(), debuff);
        assert forall|i: int| 0 <= i < shown_places(snaps, debuff).len() implies 0
            <= #[trigger] shown_places(snaps, debuff)[i] < snaps.len() && is_shown(
            snaps[shown_places(snaps, debuff)[i]],
            debuff,
        ) by {
            if i < before.len() {
                assert(snaps.drop_last()[before[i]] == snaps[before[i]]);
            }
        }
    }
}

/// The time that an effect still lasts.
fn time_left_of(s: &BuffStateSnapshot) -> (t: i64)
    ensures
        t == time_left(*s),
{
    if s.remaining_ms > 0 {
        s.remaining_ms
    } else {
        0
    }
}

/// Whether an effect is shown among the harmful ones (`debuff`) or the others.
fn shows(s: &BuffStateSnapshot, debuff: bool) -> (b: bool)
    ensures
        b == is_shown(*s, debuff),
{
    if !is_visible(s.base_id) {
        return false;
    }
    match lookup(s.base_id) {
        Some(meta) => (meta.category == BuffCategory::Debuff) == debuff,
        None => false,
    }
}

/// The effects that are shown, those that last longest first.
fn status_list(snaps: &Vec<BuffStateSnapshot>, debuff: bool) -> (list: Vec<SelfStatusEntry>)
    ensures
        shows_statuses(list@, snaps@, debuff),
{
    let n: usize = snaps.len();
    let mut at: Vec<usize> = Vec::new();
    let mut times: Vec<i64> = Vec::new();
    assert(snaps@.take(0) =~= Seq::<BuffStateSnapshot>::empty());
    for i in 0..n
        invariant
            n == snaps@.len(),
            at@.len() == times@.len(),
            at@.len() == shown_places(snaps@.take(i as int), debuff).len(),
            forall|j: int|
                0 <= j < at@.len() ==> #[trigger] at@[j] == shown_places(
                    snaps@.take(i as int),
                    debuff,
                )[j] && at@[j] < i && times@[j] == time_left(snaps@[at@[j] as int]),
    {
        assert(snaps@.take(i + 1).drop_last() =~= snaps@.take(i as int));
        if shows(&snaps[i], debuff) {
            at.push(i);
            times.push(time_left_of(&snaps[i]));
        }
    }
    let ghost places = shown_places(snaps@, debuff);
    proof {
        assert(snaps@.take(n as int) =~= snaps@);
        lemma_shown_places(snaps@, debuff);
        assert forall|j: int| 0 <= j < times@.len() implies times@[j] == times_left(
            snaps@,
            places,
        )[j] by {
            assert(at@[j] == places[j]);
        }
        assert(times@ =~= times_left(snaps@, places));
    }
    let order: Vec<usize> = order_desc(&times);
    let mut list: Vec<SelfStatusEntry> = Vec::new();
    let m: usize = at.len();
    for i in 0..m
        invariant
            m == at@.len(),
            m == times@.len(),
            m == places.len(),
            is_descending(times@, order@),
            forall|j: int| 0 <= j < m ==> #[trigger] at@[j] == places[j] && at@[j] < snaps@.len(),
            forall|j: int| 0 <= j < m ==> is_shown(snaps@[#[trigger] places[j]], debuff),
            list@.len() == i,
            forall|j: int|
                0 <= j < i ==> shows_status(
                    #[trigger] list@[j],
                    snaps@[places[order@[j] as int]],
                ),
    {
        let k: usize = order[i];
        let s: BuffStateSnapshot = snaps[at[k]];
        assert(at@[k as int] == places[k as int]);
        assert(is_shown(snaps@[places[k as int]], debuff));
        if let Some(meta) = lookup(s.base_id) {
            list.push(
                SelfStatusEntry {
                    instance_id: s.buff_uuid as i64,
                    base_id: s.base_id,
                    category: meta.category.as_str().to_owned(),
                    priority: meta.priority.as_str().to_owned(),
                    remaining_ms: time_left_of(&s),
                    duration_ms: s.duration_ms,
                    layer: s.layer,
                    source_config_id: 0,
                },
            );
        }
    }
    assert(is_descending(times_left(snaps@, places), order@));
    list
}

/// The effects on the own character, harmful ones and others apart. Nothing is shown while the own
/// character is not known.
pub fn get_self_buff_status(
    snapshots: &Vec<BuffStateSnapshot>,
    local_player_uid: i64,
    now_ms: u128,
) -> (d: SelfStatusData)
    ensures
        local_player_uid == 0 ==> d.buffs@.len() == 0 && d.debuffs@.len() == 0 && d.now_ms == 0
            && d.local_player_uid == 0,
        local_player_uid != 0 ==> shows_statuses(d.buffs@, snapshots@, false) && shows_statuses(
            d.debuffs@,
            snapshots@,
            true,
        ) && d.now_ms == now_ms && d.local_player_uid == local_player_uid,
{
    if local_player_uid == 0 {
        return SelfStatusData {
            buffs: Vec::new(),
            debuffs: Vec::new(),
            now_ms: 0,
            local_player_uid: 0,
        };
    }
    SelfStatusData {
        buffs: status_list(snapshots, false),
        debuffs: status_list(snapshots, true),
        now_ms,
        local_player_uid,
    }
}

} // verus!
