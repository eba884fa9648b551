//! What is shown of an encounter. Rates and shares are quotients of the numbers given here.

use crate::engine::class::{Class, ClassSpec};
use crate::engine::combat_stats::CombatStats;
use crate::engine::encounter::{time_remaining, ConsumableTimer, PlayerConsumables};
use crate::engine::entity::{EntityView, TimeSeriesPoint};
use crate::text::decimal;
use vstd::prelude::*;

verus! {

/// The encounter as a whole.
#[derive(Debug, Clone, Copy, PartialEq, Eq, Structural)]
pub struct HeaderInfo {
    pub total_dmg: i64,
    pub elapsed_ms: u128,
    pub time_last_combat_packet_ms: u128,
}

impl Default for HeaderInfo {
    fn default() -> (h: HeaderInfo)
        ensures
            h == (HeaderInfo { total_dmg: 0, elapsed_ms: 0, time_last_combat_packet_ms: 0 }),
    {
        HeaderInfo { total_dmg: 0, elapsed_ms: 0, time_last_combat_packet_ms: 0 }
    }
}

/// How long a meal and a potion still last, and which they are (all 0: none).
#[derive(Debug, Clone, Copy, PartialEq, Eq, Structural)]
pub struct ConsumableTimes {
    pub food_remaining_ms: u128,
    pub food_duration_ms: i64,
    pub food_base_id: i32,
    pub syrup_remaining_ms: u128,
    pub syrup_duration_ms: i64,
    pub syrup_base_id: i32,
}

impl ConsumableTimes {
    /// Neither meal nor potion.
    pub open spec fn nothing() -> ConsumableTimes {
        ConsumableTimes {
            food_remaining_ms: 0,
            food_duration_ms: 0,
            food_base_id: 0,
            syrup_remaining_ms: 0,
            syrup_duration_ms: 0,
            syrup_base_id: 0,
        }
    }
}

impl Default for ConsumableTimes {
    fn default() -> (t: ConsumableTimes)
        ensures
            t == ConsumableTimes::nothing(),
    {
        ConsumableTimes {
            food_remaining_ms: 0,
            food_duration_ms: 0,
            food_base_id: 0,
            syrup_remaining_ms: 0,
            syrup_duration_ms: 0,
            syrup_base_id: 0,
        }
    }
}

/// Remaining time at `now`, duration and number of a timer (all 0 without one).
pub open spec fn timer_parts(t: Option<ConsumableTimer>, now: u128) -> (u128, i64, i32) {
    match t {
        Some(t) => (time_remaining(t, now), t.duration_ms, t.base_id),
        None => (0, 0, 0),
    }
}

/// What is shown of a player's meal and potion at `now`.
pub open spec fn consumable_times(c: PlayerConsumables, now: u128) -> ConsumableTimes {
    ConsumableTimes {
        food_remaining_ms: timer_parts(c.food, now).0,
        food_duration_ms: timer_parts(c.food, now).1,
        food_base_id: timer_parts(c.food, now).2,
        syrup_remaining_ms: timer_parts(c.syrup, now).0,
        syrup_duration_ms: timer_parts(c.syrup, now).1,
        syrup_base_id: timer_parts(c.syrup, now).2,
    }
}

/// A player among those of an encounter.
pub struct PlayerRow {
    pub uid: i64,
    pub name: String,
    /// Whether the name is known.
    pub name_resolved: bool,
    pub class: Class,
    pub class_spec: ClassSpec,
    /// -1 where it is not known.
    pub ability_score: i32,
    /// -1 where it is not known.
    pub season_level: i32,
    /// -1 where it is not known.
    pub season_strength: i32,
    pub stats: CombatStats,
    /// What everyone did together.
    pub encounter_total: i64,
    pub elapsed_ms: u128,
    pub consumable: ConsumableTimes,
    pub time_series: Vec<TimeSeriesPoint>,
}

pub struct PlayerRowView {
    pub uid: i64,
    pub name: Seq<char>,
    pub name_resolved: bool,
    pub class: Class,
    pub class_spec: ClassSpec,
    pub ability_score: i32,
    pub season_level: i32,
    pub season_strength: i32,
    pub stats: CombatStats,
    pub encounter_total: i64,
    pub elapsed_ms: u128,
    pub consumable: ConsumableTimes,
    pub series: Seq<TimeSeriesPoint>,
}

impl View for PlayerRow {
    type V = PlayerRowView;

    open spec fn view(&self) -> PlayerRowView {
        PlayerRowView {
            uid: self.uid,
            name: self.name@,
            name_resolved: self.name_resolved,
            class: self.class,
            class_spec: self.class_spec,
            ability_score: self.ability_score,
            season_level: self.season_level,
            season_strength: self.season_strength,
            stats: self.stats,
            encounter_total: self.encounter_total,
            elapsed_ms: self.elapsed_ms,
            consumable: self.consumable,
            series: self.time_series@,
        }
    }
}

/// The rows of players.
pub type PlayerRows = Vec<PlayerRow>;

/// Rows as they are shown.
pub open spec fn row_views(rows: Seq<PlayerRow>) -> Seq<PlayerRowView> {
    rows.map_values(|r: PlayerRow| r@)
}

/// The low 16 bits of a number.
pub open spec fn low_bits(uid: i64) -> int {
    uid as int % 0x1_0000
}

/// A stand-in for the name of a player.
pub open spec fn nameless_player(uid: i64) -> Seq<char> {
    "プレイヤー#"@ + decimal(low_bits(uid))
}

/// A number that may not be known.
pub open spec fn known_or(v: Option<i32>) -> i32 {
    match v {
        Some(x) => x,
        None => -1i32,
    }
}

/// The row of a player.
pub open spec fn player_row(
    uid: i64,
    e: EntityView,
    stats: CombatStats,
    encounter_total: i64,
    elapsed_ms: u128,
    consumable: ConsumableTimes,
) -> PlayerRowView {
    let known = e.profile.name matches Some(name) && name.len() > 0;
    PlayerRowView {
        uid,
        name: if known {
            e.profile.name->Some_0
        } else {
            nameless_player(uid)
        },
        name_resolved: known,
        class: match e.profile.class {
            Some(c) => c,
            None => Class::Unknown,
        },
        class_spec: match e.profile.class_spec {
            Some(c) => c,
            None => ClassSpec::Unknown,
        },
        ability_score: known_or(e.profile.ability_score),
        season_level: known_or(e.profile.season_level),
        season_strength: known_or(e.profile.season_strength),
        stats,
        encounter_total,
        elapsed_ms,
        consumable,
        series: e.series,
    }
}

/// The players of an encounter.
pub struct PlayersWindow {
    pub player_rows: PlayerRows,
    pub local_player_uid: i64,
    /// The largest total (0 where none is larger).
    pub top_value: i64,
}

/// A skill of a player, or an attacker.
pub struct SkillRow {
    pub uid: i64,
    pub name: String,
    pub element: u8,
    pub damage_mode: u8,
    pub stats: CombatStats,
    /// What the share of the total is taken of.
    pub denominator: i64,
    pub elapsed_ms: u128,
    pub time_series: Vec<TimeSeriesPoint>,
}

pub struct SkillRowView {
    pub uid: i64,
    pub name: Seq<char>,
    pub element: u8,
    pub damage_mode: u8,
    pub stats: CombatStats,
    pub denominator: i64,
    pub elapsed_ms: u128,
    pub series: Seq<TimeSeriesPoint>,
}

impl View for SkillRow {
    type V = SkillRowView;

    open spec fn view(&self) -> SkillRowView {
        SkillRowView {
            uid: self.uid,
            name: self.name@,
            element: self.element,
            damage_mode: self.damage_mode,
            stats: self.stats,
            denominator: self.denominator,
            elapsed_ms: self.elapsed_ms,
            series: self.time_series@,
        }
    }
}

/// The rows of skills.
pub type SkillRows = Vec<SkillRow>;

/// Rows as they are shown.
pub open spec fn skill_views(rows: Seq<SkillRow>) -> Seq<SkillRowView> {
    rows.map_values(|r: SkillRow| r@)
}

/// The skills of a player, or the attackers that hit it.
pub struct SkillsWindow {
    pub inspected_player: PlayerRow,
    pub skill_rows: SkillRows,
    pub local_player_uid: i64,
    /// The largest total (0 where none is larger).
    pub top_value: i64,
}

/// An encounter that is over.
pub struct EncounterSnapshot {
    pub id: u64,
    pub start_ms: u128,
    pub end_ms: u128,
    pub duration_ms: u128,
    pub total_dmg: i64,
    pub player_rows: Vec<PlayerRow>,
    pub time_series: Vec<TimeSeriesPoint>,
    /// In some order, each once.
    pub participant_player_uids: Vec<i64>,
}

pub struct SnapshotView {
    pub id: u64,
    pub start_ms: u128,
    pub end_ms: u128,
    pub duration_ms: u128,
    pub total_dmg: i64,
    pub rows: Seq<PlayerRowView>,
    pub series: Seq<TimeSeriesPoint>,
    pub participants: Seq<i64>,
}

impl View for EncounterSnapshot {
    type V = SnapshotView;

    open spec fn view(&self) -> SnapshotView {
        SnapshotView {
            id: self.id,
            start_ms: self.start_ms,
            end_ms: self.end_ms,
            duration_ms: self.duration_ms,
            total_dmg: self.total_dmg,
            rows: row_views(self.player_rows@),
            series: self.time_series@,
            participants: self.participant_player_uids@,
        }
    }
}

/// An effect of an imagine on a player.
#[derive(Debug, Clone)]
pub struct SelfBuffSnapshot {
    pub kind: String,
    pub base_id: i32,
    pub buff_uuid: i32,
    pub layer: i32,
    pub remaining_ms: i64,
    pub duration_ms: i64,
    pub received_at_ms: u128,
}

/// The effects of imagines on a player.
#[derive(Debug, Clone)]
pub struct PlayerBuffSnapshot {
    pub uid: i64,
    pub name: String,
    /// One at most of each imagine.
    pub buffs: Vec<SelfBuffSnapshot>,
}

/// The effects of imagines on chosen players.
#[derive(Debug, Clone)]
pub struct TrackedBuffsData {
    pub players: Vec<PlayerBuffSnapshot>,
    pub now_ms: u128,
    pub local_player_uid: i64,
}

/// An effect on the own character.
#[derive(Debug, Clone)]
pub struct SelfStatusEntry {
    pub instance_id: i64,
    pub base_id: i32,
    pub category: String,
    pub priority: String,
    pub remaining_ms: i64,
    pub duration_ms: i64,
    pub layer: i32,
    pub source_config_id: i32,
}

/// The effects on the own character.
#[derive(Debug, Clone)]
pub struct SelfStatusData {
    pub buffs: Vec<SelfStatusEntry>,
    pub debuffs: Vec<SelfStatusEntry>,
    pub now_ms: u128,
    pub local_player_uid: i64,
}

/// Where a measurement of fixed length stands.
#[derive(Debug, Clone)]
pub struct MeasureModeStatus {
    pub kind: String,
    pub remaining_ms: Option<u128>,
    pub duration_ms: Option<u128>,
    pub armed_at_ms: Option<u128>,
}

} // verus!
