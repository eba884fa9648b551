//! Encounters that are over.

use crate::compute::players::{
    build_players_window, elapsed, elapsed_ms, hidden, lists_players, points_of, StatType,
};
use crate::engine::encounter::{Encounter, EncounterView};
use crate::engine::entity::TimeSeriesPoint;
use crate::models::{row_views, EncounterSnapshot, PlayerRow, PlayersWindow, SnapshotView};
use std::collections::HashSet;
use vstd::prelude::*;
use vstd::std_specs::hash::*;
use vstd::std_specs::iter::IteratorSpec;

verus! {

/// Whether `s` is what remains of an encounter at the time `now`: its rows are those of the players that dealt
/// damage, none where the chosen character took no part.
pub open spec fn is_snapshot(
    s: SnapshotView,
    v: EncounterView,
    selected: Option<i64>,
    now: u128,
) -> bool {
    &&& s.id == 0
    &&& s.start_ms == v.start_ms
    &&& s.end_ms == v.last_ms
    &&& s.duration_ms == elapsed(v)
    &&& s.total_dmg == v.dmg.total
    &&& if hidden(v, selected) {
        s.rows.len() == 0
    } else {
        lists_players(s.rows, v, StatType::Dmg, false, now)
    }
    &&& s.series == v.series
    &&& s.participants.no_duplicates()
    &&& s.participants.to_set() == v.participants
}

/// The members of a set, in some order, each once.
fn members(set: &HashSet<i64>) -> (list: Vec<i64>)
    ensures
        list@.no_duplicates(),
        list@.to_set() == set@,
{
    broadcast use group_hash_axioms;

    let mut list: Vec<i64> = Vec::new();
    let ghost all = spec_hash_keys_iter(set).remaining().unref();
    for k in it: set.iter()
        invariant
            all == it.seq().unref(),
            all.to_set() == set@,
            it.seq().no_duplicates(),
            list@.len() == it.index(),
            forall|i: int| 0 <= i < list@.len() ==> list@[i] == *it.seq()[i],
    {
        list.push(*k);
    }
    assert(list@ =~= all);
    list
}

/// What remains of an encounter.
pub fn build_encounter_snapshot(
    encounter: &Encounter,
    selected: Option<i64>,
    now: u128,
) -> (s: EncounterSnapshot)
    ensures
        is_snapshot(s@, encounter@, selected, now),
{
    let window: PlayersWindow = build_players_window(
        encounter,
        selected,
        StatType::Dmg,
        false,
        now,
    );
    EncounterSnapshot {
        id: 0,
        start_ms: encounter.time_fight_start_ms,
        end_ms: encounter.time_last_combat_packet_ms,
        duration_ms: elapsed_ms(encounter),
        total_dmg: encounter.dmg_stats.total,
        player_rows: window.player_rows,
        time_series: points_of(&encounter.time_series),
        participant_player_uids: members(&encounter.participant_player_uids),
    }
}

impl PlayerRow {
    /// The same row once more.
    pub fn duplicate(&self) -> (r: PlayerRow)
        ensures
            r@ == self@,
    {
        PlayerRow {
            uid: self.uid,
            name: self.name.clone(),
            name_resolved: self.name_resolved,
            class: self.class,
            class_spec: self.class_spec,
            ability_score: self.ability_score,
            season_level: self.season_level,
            season_strength: self.season_strength,
            stats: self.stats,
            encounter_total: self.encounter_total,
            elapsed_ms: self.elapsed_ms,
            consumable: self.consumable,
            time_series: copy_points(&self.time_series),
        }
    }
}

/// The same points once more.
fn copy_points(points: &Vec<TimeSeriesPoint>) -> (copy: Vec<TimeSeriesPoint>)
    ensures
        copy@ == points@,
{
    let n: usize = points.len();
    let mut copy: Vec<TimeSeriesPoint> = Vec::new();
    for i in 0..n
        invariant
            n == points@.len(),
            copy@ =~= points@.take(i as int),
    {
        copy.push(points[i]);
    }
    assert(points@.take(n as int) =~= points@);
    copy
}

/// The same numbers once more.
fn copy_uids(uids: &Vec<i64>) -> (copy: Vec<i64>)
    ensures
        copy@ == uids@,
{
    let n: usize = uids.len();
    let mut copy: Vec<i64> = Vec::new();
    for i in 0..n
        invariant
            n == uids@.len(),
            copy@ =~= uids@.take(i as int),
    {
        copy.push(uids[i]);
    }
    assert(uids@.take(n as int) =~= uids@);
    copy
}

impl EncounterSnapshot {
    /// The same snapshot once more.
    pub fn duplicate(&self) -> (s: EncounterSnapshot)
        ensures
            s@ == self@,
    {
        let n: usize = self.player_rows.len();
        let mut player_rows: Vec<PlayerRow> = Vec::new();
        for i in 0..n
            invariant
                n == self.player_rows@.len(),
                row_views(player_rows@) =~= row_views(self.player_rows@).take(i as int),
        {
            let row: PlayerRow = self.player_rows[i].duplicate();
            let ghost before = player_rows@;
            player_rows.push(row);
            assert(row_views(player_rows@) =~= row_views(before).push(row@));
        }
        assert(row_views(player_rows@) =~= row_views(self.player_rows@));
        EncounterSnapshot {
            id: self.id,
            start_ms: self.start_ms,
            end_ms: self.end_ms,
            duration_ms: self.duration_ms,
            total_dmg: self.total_dmg,
            player_rows,
            time_series: copy_points(&self.time_series),
            participant_player_uids: copy_uids(&self.participant_player_uids),
        }
    }
}

} // verus!
