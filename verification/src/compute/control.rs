//! What the user can do with the encounter, and with those that are over.

use crate::capture::status::{ms_since, state, CaptureStatus};
use crate::compute::snapshot::{build_encounter_snapshot, is_snapshot};
use crate::engine::encounter::{cleared, Encounter, EncounterView, MeasureMode, PlayerConsumables};
use crate::engine::history::{
    clear, newest, push, snapshot_list, snapshot_views, trim_to_limit, with_snapshot, History,
    HistoryView,
};
use crate::engine::name_cache::{remembered, NameCache};
use crate::engine::runtime_settings::RuntimeSettings;
use crate::engine::sampling::{sampled, take_time_series_sample};
use crate::engine::selected_uid::SelectedUid;
use crate::models::{EncounterSnapshot, MeasureModeStatus, SnapshotView};
use std::collections::HashMap;
use vstd::prelude::*;
use vstd::std_specs::hash::*;

verus! {

/// Begins a new encounter, without a measurement. The effects that are followed are to be forgotten
/// too; meals and potions stay.
pub fn reset_encounter(encounter: &mut Encounter)
    ensures
        final(encounter)@ == (EncounterView {
            mode: MeasureMode::Normal,
            ..cleared(old(encounter)@)
        }),
{
    encounter.clear_combat_stats();
    encounter.measure_mode = MeasureMode::Normal;
}

/// Takes over the meals and potions that were stored.
pub fn load_consumables(encounter: &mut Encounter, loaded: HashMap<i64, PlayerConsumables>)
    ensures
        final(encounter)@ == (EncounterView { consumables: loaded@, ..old(encounter)@ }),
{
    encounter.consumables = loaded;
}

/// Forgets meals and potions.
pub fn clear_consumables(encounter: &mut Encounter)
    ensures
        final(encounter)@ == (EncounterView { consumables: Map::empty(), ..old(encounter)@ }),
{
    encounter.consumables.clear();
}

/// Pauses the encounter, or goes on with it.
pub fn toggle_pause(encounter: &mut Encounter)
    ensures
        final(encounter)@ == (EncounterView {
            is_paused: !old(encounter)@.is_paused,
            ..old(encounter)@
        }),
{
    encounter.is_paused = !encounter.is_paused;
}

/// Whether the encounter is paused.
pub fn is_paused(encounter: &Encounter) -> (b: bool)
    ensures
        b == encounter@.is_paused,
{
    encounter.is_paused
}

/// Sets how long after the last hit a new encounter begins.
pub fn set_combat_exit_timeout(settings: &mut RuntimeSettings, ms: u64)
    ensures
        *final(settings) == (RuntimeSettings { combat_exit_timeout_ms: ms, ..*old(settings) }),
{
    settings.combat_exit_timeout_ms = ms;
}

/// Sets how many encounters are remembered, and forgets the oldest beyond.
pub fn set_history_limit(settings: &mut RuntimeSettings, history: &mut History, limit: usize)
    ensures
        *final(settings) == (RuntimeSettings { history_limit: limit, ..*old(settings) }),
        final(history)@ == (HistoryView {
            snapshots: newest(old(history)@.snapshots, limit),
            ..old(history)@
        }),
{
    settings.history_limit = limit;
    trim_to_limit(history, limit);
}

/// Sets how many samples are kept (one at least), and the time between them (50 milliseconds at
/// least).
pub fn set_time_series_config(settings: &mut RuntimeSettings, samples: usize, interval_ms: u64)
    ensures
        *final(settings) == (RuntimeSettings {
            ts_samples: if samples > 1 {
                samples
            } else {
                1
            },
            ts_interval_ms: if interval_ms > 50 {
                interval_ms
            } else {
                50
            },
            ..*old(settings)
        }),
        final(settings).ts_samples >= 1,
        samples >= 1 ==> final(settings).ts_samples == samples,
        final(settings).ts_interval_ms >= 50,
        interval_ms >= 50 ==> final(settings).ts_interval_ms == interval_ms,
{
    settings.ts_samples = if samples > 1 {
        samples
    } else {
        1
    };
    settings.ts_interval_ms = if interval_ms > 50 {
        interval_ms
    } else {
        50
    };
}

/// Follows effects only, or everything. Where that changes, a new encounter begins, which is
/// returned as `true`: the effects that are followed are to be forgotten then.
pub fn set_imagine_only_mode(
    settings: &mut RuntimeSettings,
    encounter: &mut Encounter,
    enabled: bool,
) -> (changed: bool)
    ensures
        *final(settings) == (RuntimeSettings { imagine_only_mode: enabled, ..*old(settings) }),
        changed == (enabled != old(settings).imagine_only_mode),
        final(encounter)@ == if changed {
            cleared(old(encounter)@)
        } else {
            old(encounter)@
        },
{
    let changed: bool = settings.imagine_only_mode != enabled;
    settings.imagine_only_mode = enabled;
    if changed {
        encounter.clear_combat_stats();
    }
    changed
}

/// Forgets the encounters that are over.
pub fn clear_history(history: &mut History)
    ensures
        final(history)@ == (HistoryView { snapshots: Seq::empty(), ..old(history)@ }),
{
    clear(history);
}

/// Whether an encounter that is over is shown: the chosen character took part, or it is not known
/// who did.
pub open spec fn shown_in_history(s: SnapshotView, selected: Option<i64>) -> bool {
    match selected {
        None => true,
        Some(uid) => s.participants.len() == 0 || s.participants.contains(uid),
    }
}

/// Those of a list that are shown, in the same order.
pub open spec fn shown_of(list: Seq<SnapshotView>, selected: Option<i64>) -> Seq<SnapshotView>
    decreases list.len(),
{
    if list.len() == 0 {
        seq![]
    } else {
        let before = shown_of(list.drop_last(), selected);
        if shown_in_history(list.last(), selected) {
            before.push(list.last())
        } else {
            before
        }
    }
}

/// Whether a list holds a number.
fn holds(list: &Vec<i64>, uid: i64) -> (b: bool)
    ensures
        b == list@.contains(uid),
{
    let n: usize = list.len();
    for i in 0..n
        invariant
            n == list@.len(),
            forall|j: int| 0 <= j < i ==> list@[j] != uid,
    {
        if list[i] == uid {
            return true;
        }
    }
    false
}

/// The encounters that are over and that the chosen character took part in, the newest first.
pub fn get_history(history: &History, selected: Option<i64>) -> (list: Vec<EncounterSnapshot>)
    ensures
        snapshot_views(list@) == shown_of(history@.snapshots.reverse(), selected),
{
    let all: Vec<EncounterSnapshot> = snapshot_list(history);
    let ghost views = snapshot_views(all@);
    let mut list: Vec<EncounterSnapshot> = Vec::new();
    assert(views.take(0) =~= Seq::<SnapshotView>::empty());
    assert(snapshot_views(list@) =~= shown_of(views.take(0), selected));
    for s in it: all
        invariant
            views == snapshot_views(it.seq()),
            snapshot_views(list@) == shown_of(views.take(it.index()), selected),
    {
        let ghost i = it.index();
        let ghost before = list@;
        proof {
            assert(views.take(i + 1).drop_last() =~= views.take(i));
            assert(views.take(i + 1).last() == s@);
        }
        let shown: bool = match selected {
            None => true,
            Some(uid) => s.participant_player_uids.len() == 0 || holds(
                &s.participant_player_uids,
                uid,
            ),
        };
        if shown {
            let ghost view = s@;
            list.push(s);
            assert(snapshot_views(list@) =~= snapshot_views(before).push(view));
        }
    }
    assert(views.take(views.len() as int) =~= views);
    list
}

/// The capture as it is shown.
#[derive(Debug, Clone, Copy, PartialEq, Eq, Structural)]
pub struct CaptureStatusDto {
    pub state: u8,
    pub packets_total: u64,
    /// `None` where no packet was seen yet.
    pub ms_since_last_packet: Option<u64>,
    /// `None` where no packet of the game was seen yet.
    pub ms_since_last_game_packet: Option<u64>,
}

/// The milliseconds from a time to `now`, where there is a time.
pub open spec fn since(at: u64, now: u64) -> Option<u64> {
    if at == 0 {
        None
    } else if now < at {
        Some(0)
    } else {
        Some((now - at) as u64)
    }
}

/// The capture as it is shown at the time `now`.
pub fn get_capture_status(status: &CaptureStatus, now: u64) -> (d: CaptureStatusDto)
    ensures
        d == (CaptureStatusDto {
            state: status.capture_state,
            packets_total: status.packets_total,
            ms_since_last_packet: since(status.last_packet_unix_ms, now),
            ms_since_last_game_packet: since(status.last_game_packet_unix_ms, now),
        }),
{
    CaptureStatusDto {
        state: state(status),
        packets_total: status.packets_total,
        ms_since_last_packet: ms_since(status.last_packet_unix_ms, now),
        ms_since_last_game_packet: ms_since(status.last_game_packet_unix_ms, now),
    }
}

/// The character that the user chose.
pub fn get_selected_uid(selected: &SelectedUid) -> (uid: Option<i64>)
    ensures
        uid == selected.uid,
{
    crate::engine::selected_uid::get(selected)
}

/// Chooses a character, or none. A new encounter begins, without a measurement and over any
/// connection; the effects that are followed are to be forgotten too.
pub fn set_selected_uid(selected: &mut SelectedUid, encounter: &mut Encounter, uid: Option<i64>)
    ensures
        final(selected).uid == uid,
        final(encounter)@ == (EncounterView {
            active: None,
            local_uid: match uid {
                Some(u) => u,
                None => 0,
            },
            mode: MeasureMode::Normal,
            ..cleared(old(encounter)@)
        }),
{
    crate::engine::selected_uid::set(selected, uid);
    encounter.clear_combat_stats();
    encounter.active_connection = None;
    encounter.local_player_uid = match uid {
        Some(u) => u,
        None => 0,
    };
    encounter.measure_mode = MeasureMode::Normal;
}

/// What is remembered of a character.
#[derive(Debug, Clone)]
pub struct CachedPlayerDto {
    pub name: String,
    pub class_id: Option<i32>,
    pub ability_score: Option<i32>,
}

/// What is remembered of a character.
pub fn lookup_name_cache(names: &NameCache, uid: i64) -> (d: Option<CachedPlayerDto>)
    ensures
        d is Some <==> remembered(names@, uid) is Some,
        d matches Some(p) ==> ({
            let c = remembered(names@, uid)->Some_0;
            p.name@ == c.name && p.class_id == c.class_id && p.ability_score == c.ability_score
        }),
{
    match names.lookup(uid) {
        Some(c) => Some(
            CachedPlayerDto {
                name: c.name.clone(),
                class_id: c.class_id,
                ability_score: c.ability_score,
            },
        ),
        None => None,
    }
}

/// Ends a measurement. Its snapshot is returned, and remembered where someone dealt damage; a new
/// encounter begins. The effects that are followed are to be forgotten too.
pub fn finalize_3min_locked(
    encounter: &mut Encounter,
    history: &mut History,
    settings: &RuntimeSettings,
    selected: Option<i64>,
    now: u128,
) -> (s: EncounterSnapshot)
    ensures
        is_snapshot(s@, old(encounter)@, selected, now),
        final(history)@ == if s@.rows.len() > 0 {
            with_snapshot(old(history)@, s@, settings.history_limit)
        } else {
            old(history)@
        },
        final(encounter)@ == (EncounterView {
            mode: MeasureMode::Normal,
            ..cleared(old(encounter)@)
        }),
{
    let snapshot: EncounterSnapshot = build_encounter_snapshot(encounter, selected, now);
    if snapshot.player_rows.len() > 0 {
        push(history, snapshot.duplicate(), settings.history_limit);
    }
    encounter.clear_combat_stats();
    encounter.measure_mode = MeasureMode::Normal;
    snapshot
}

/// Takes a last sample at the last hit, so that the course of a measurement reaches to its end.
pub fn seal_3min_series(encounter: &mut Encounter, settings: &RuntimeSettings)
    ensures
        final(encounter)@ == sampled(
            old(encounter)@,
            *settings,
            old(encounter)@.last_ms,
            true,
        ),
{
    let end: u128 = encounter.time_last_combat_packet_ms;
    take_time_series_sample(encounter, settings, end, true);
}

/// Begins a measurement of at least one second with the next hit. The effects that are followed are
/// to be forgotten.
pub fn start_3min_measure_mode(encounter: &mut Encounter, duration_ms: u128)
    ensures
        final(encounter)@ == (EncounterView {
            mode: MeasureMode::Pending3Min {
                duration_ms: if duration_ms > 1000 {
                    duration_ms
                } else {
                    1000
                },
            },
            ..cleared(old(encounter)@)
        }),
        final(encounter)@.mode matches MeasureMode::Pending3Min { duration_ms: d } && d >= 1000
            && d >= duration_ms && (d == duration_ms || d == 1000),
        final(encounter)@.dmg.total == 0,
{
    encounter.clear_combat_stats();
    let duration_ms: u128 = if duration_ms > 1000 {
        duration_ms
    } else {
        1000
    };
    encounter.measure_mode = MeasureMode::Pending3Min { duration_ms };
}

/// Gives a measurement up. The effects that are followed are to be forgotten.
pub fn cancel_3min_measure_mode(encounter: &mut Encounter)
    ensures
        final(encounter)@ == (EncounterView {
            mode: MeasureMode::Normal,
            ..cleared(old(encounter)@)
        }),
{
    encounter.clear_combat_stats();
    encounter.measure_mode = MeasureMode::Normal;
}

/// The time that a measurement still takes.
pub open spec fn measure_left(armed_at_ms: u128, duration_ms: u128, now: u128) -> u128 {
    if now <= armed_at_ms {
        duration_ms
    } else if now - armed_at_ms >= duration_ms {
        0
    } else {
        (duration_ms - (now - armed_at_ms)) as u128
    }
}

/// Where a measurement of fixed length stands at the time `now`.
pub fn get_measure_mode_status(encounter: &Encounter, now: u128) -> (s: MeasureModeStatus)
    ensures
        match encounter@.mode {
            MeasureMode::Normal => s.kind@ == "normal"@ && s.remaining_ms is None && s.duration_ms is None
                && s.armed_at_ms is None,
            MeasureMode::Pending3Min { duration_ms } => s.kind@ == "pending"@
                && s.remaining_ms is None && s.duration_ms == Some(duration_ms)
                && s.armed_at_ms is None,
            MeasureMode::Active3Min { armed_at_ms, duration_ms } => s.kind@ == "active"@
                && s.remaining_ms == Some(measure_left(armed_at_ms, duration_ms, now))
                && s.duration_ms == Some(duration_ms) && s.armed_at_ms == Some(armed_at_ms),
        },
{
    match encounter.measure_mode {
        MeasureMode::Normal => MeasureModeStatus {
            kind: "normal".to_owned(),
            remaining_ms: None,
            duration_ms: None,
            armed_at_ms: None,
        },
        MeasureMode::Pending3Min { duration_ms } => MeasureModeStatus {
            kind: "pending".to_owned(),
            remaining_ms: None,
            duration_ms: Some(duration_ms),
            armed_at_ms: None,
        },
        MeasureMode::Active3Min { armed_at_ms, duration_ms } => {
            let elapsed: u128 = if now > armed_at_ms {
                now - armed_at_ms
            } else {
                0
            };
            let remaining: u128 = if duration_ms > elapsed {
                duration_ms - elapsed
            } else {
                0
            };
            MeasureModeStatus {
                kind: "active".to_owned(),
                remaining_ms: Some(remaining),
                duration_ms: Some(duration_ms),
                armed_at_ms: Some(armed_at_ms),
            }
        },
    }
}

/// A measurement that was started and hit at `now` has its whole duration left.
pub proof fn law_measurement_starts_whole(armed_at_ms: u128, duration_ms: u128, later: u128)
    requires
        later >= armed_at_ms,
        later - armed_at_ms <= duration_ms,
    ensures
        measure_left(armed_at_ms, duration_ms, armed_at_ms) == duration_ms,
        measure_left(armed_at_ms, duration_ms, later) + (later - armed_at_ms) == duration_ms,
{
}

/// What is shown in the history is what is remembered that the chosen character took part in.
pub proof fn law_shown_in_history(list: Seq<SnapshotView>, selected: Option<i64>, s: SnapshotView)
    ensures
        shown_of(list, selected).contains(s) <==> list.contains(s) && shown_in_history(s, selected),
        selected is None ==> shown_of(list, selected) == list,
    decreases list.len(),
{
    if list.len() > 0 {
        let r = list.drop_last();
        let last = list.last();
        law_shown_in_history(r, selected, s);
        assert(list =~= r.push(last));
        lemma_push_contains(r, last, s);
        lemma_push_contains(shown_of(r, selected), last, s);
    } else {
        assert(shown_of(list, selected) =~= list);
    }
}

proof fn lemma_push_contains(a: Seq<SnapshotView>, x: SnapshotView, s: SnapshotView)
    ensures
        a.push(x).contains(s) <==> a.contains(s) || s == x,
{
    let b = a.push(x);
    assert(b[a.len() as int] == x);
    if a.contains(s) {
        let j = choose|j: int| 0 <= j < a.len() && a[j] == s;
        assert(b[j] == s);
    }
}

/// What is shown of two histories is what is shown of the first, followed by what is shown of the
/// second; an encounter is shown where the chosen character took part, or where nobody is known to
/// have done so.
pub proof fn law_history_keeps_order(
    a: Seq<SnapshotView>,
    b: Seq<SnapshotView>,
    s: SnapshotView,
    uid: i64,
    selected: Option<i64>,
)
    ensures
        shown_of(a + b, selected) == shown_of(a, selected) + shown_of(b, selected),
        shown_of(seq![s], Some(uid)) == (if s.participants.contains(uid) || s.participants.len()
            == 0 {
            seq![s]
        } else {
            seq![]
        }),
    decreases b.len(),
{
    reveal_with_fuel(shown_of, 2);
    assert(seq![s].drop_last() =~= Seq::<SnapshotView>::empty());
    assert(seq![s].last() == s);
    if b.len() == 0 {
        assert(a + b =~= a);
        assert(shown_of(a, selected) + shown_of(b, selected) =~= shown_of(a, selected));
    } else {
        law_history_keeps_order(a, b.drop_last(), s, uid, selected);
        assert((a + b).drop_last() =~= a + b.drop_last());
        assert((a + b).last() == b.last());
        assert(shown_of(a + b, selected) =~= shown_of(a, selected) + shown_of(b, selected));
    }
}

} // verus!
