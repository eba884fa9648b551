//! The players of an encounter.

use crate::engine::combat_stats::CombatStats;
use crate::engine::encounter::{ConsumableTimer, Encounter, EncounterView, PlayerConsumables};
use crate::engine::class::{Class, ClassSpec};
use crate::engine::entity::{Entity, EntityView, TimeSeriesPoint};
use crate::engine::walk::{key_list, lemma_next_key};
use crate::models::{
    consumable_times, known_or, low_bits, nameless_player, player_row, row_views, timer_parts,
    ConsumableTimes, HeaderInfo, PlayerRow, PlayerRowView, PlayersWindow,
};
use crate::order::{is_descending, lemma_order_holds_all, order_desc, stands_before};
use crate::protocol::messages::EntityKind;
use crate::text::append_digits;
use std::collections::{HashMap, VecDeque};
use vstd::prelude::*;
use vstd::std_specs::hash::*;
use vstd::string::*;

verus! {

/// What players are compared by.
#[derive(Debug, Clone, Copy, PartialEq, Eq, Structural)]
pub enum StatType {
    Dmg,
    DmgBossOnly,
    Heal,
    DmgTaken,
}

/// The totals of an entity that are compared.
pub open spec fn entity_stat(e: EntityView, stat: StatType) -> CombatStats {
    match stat {
        StatType::Dmg => e.dmg,
        StatType::DmgBossOnly => e.boss,
        StatType::Heal => e.heal,
        StatType::DmgTaken => e.taken,
    }
}

/// The same totals of everyone together.
pub open spec fn encounter_stat(v: EncounterView, stat: StatType) -> CombatStats {
    match stat {
        StatType::Dmg => v.dmg,
        StatType::DmgBossOnly => v.boss,
        StatType::Heal => v.heal,
        StatType::DmgTaken => v.taken,
    }
}

/// The time from the first hit to the last.
pub open spec fn elapsed(v: EncounterView) -> u128 {
    if v.last_ms >= v.start_ms {
        (v.last_ms - v.start_ms) as u128
    } else {
        0
    }
}

/// Whether the encounter is not shown, because the chosen character takes no part.
pub open spec fn hidden(v: EncounterView, selected: Option<i64>) -> bool {
    selected is Some && !v.has_selected
}

/// Whether a player uses a meal or a potion.
pub open spec fn has_consumable(m: Map<i64, PlayerConsumables>, uid: i64) -> bool {
    m.contains_key(uid) && (m[uid].food is Some || m[uid].syrup is Some)
}

/// What is shown of a player's meal and potion.
pub open spec fn times_of(
    m: Map<i64, PlayerConsumables>,
    uid: i64,
    now: u128,
) -> ConsumableTimes {
    if m.contains_key(uid) {
        consumable_times(m[uid], now)
    } else {
        ConsumableTimes::nothing()
    }
}

/// Whether a player is listed: it did something, or with `idle` uses a meal or a potion.
pub open spec fn listed(v: EncounterView, stat: StatType, idle: bool, uid: i64) -> bool {
    &&& v.entities.contains_key(uid)
    &&& v.entities[uid].entity_type == EntityKind::Player
    &&& entity_stat(v.entities[uid], stat).total != 0 || (idle && has_consumable(
        v.consumables,
        uid,
    ))
}

/// The row of a player of the encounter.
pub open spec fn row_at(v: EncounterView, stat: StatType, uid: i64, now: u128) -> PlayerRowView {
    player_row(
        uid,
        v.entities[uid],
        entity_stat(v.entities[uid], stat),
        encounter_stat(v, stat).total,
        elapsed(v),
        times_of(v.consumables, uid, now),
    )
}

/// Whether `rows` lists the players of the encounter, each once, from the largest total down.
pub open spec fn lists_players(
    rows: Seq<PlayerRowView>,
    v: EncounterView,
    stat: StatType,
    idle: bool,
    now: u128,
) -> bool {
    &&& forall|i: int|
        0 <= i < rows.len() ==> listed(v, stat, idle, (#[trigger] rows[i]).uid) && rows[i]
            == row_at(v, stat, rows[i].uid, now)
    &&& forall|i: int, j: int|
        0 <= i < j < rows.len() ==> (#[trigger] rows[i]).uid != (#[trigger] rows[j]).uid
            && rows[i].stats.total >= rows[j].stats.total
    &&& forall|uid: i64| #[trigger]
        listed(v, stat, idle, uid) ==> exists|i: int|
            0 <= i < rows.len() && (#[trigger] rows[i]).uid == uid
}

/// Whether `top` is the largest total, or 0 where none is larger.
pub open spec fn is_top_total(rows: Seq<PlayerRowView>, top: i64) -> bool {
    &&& top >= 0
    &&& forall|i: int| 0 <= i < rows.len() ==> (#[trigger] rows[i]).stats.total <= top
    &&& top == 0 || exists|i: int| 0 <= i < rows.len() && (#[trigger] rows[i]).stats.total == top
}

/// Whether `w` shows the players of the encounter.
pub open spec fn shows_players(
    w: PlayersWindow,
    v: EncounterView,
    selected: Option<i64>,
    stat: StatType,
    idle: bool,
    now: u128,
) -> bool {
    if hidden(v, selected) {
        &&& w.player_rows@.len() == 0
        &&& w.local_player_uid == 0
        &&& w.top_value == 0
    } else {
        &&& lists_players(row_views(w.player_rows@), v, stat, idle, now)
        &&& is_top_total(row_views(w.player_rows@), w.top_value)
        &&& w.local_player_uid == match selected {
            Some(uid) => uid,
            None => v.local_uid,
        }
    }
}

/// The time from the first hit to the last.
pub(crate) fn elapsed_ms(encounter: &Encounter) -> (ms: u128)
    ensures
        ms == elapsed(encounter@),
{
    if encounter.time_last_combat_packet_ms >= encounter.time_fight_start_ms {
        encounter.time_last_combat_packet_ms - encounter.time_fight_start_ms
    } else {
        0
    }
}

/// The points of a course.
pub(crate) fn points_of(series: &VecDeque<TimeSeriesPoint>) -> (points: Vec<TimeSeriesPoint>)
    ensures
        points@ == series@,
{
    let n: usize = series.len();
    let mut points: Vec<TimeSeriesPoint> = Vec::new();
    for i in 0..n
        invariant
            n == series@.len(),
            points@ =~= series@.take(i as int),
    {
        points.push(series[i]);
    }
    assert(series@.take(n as int) =~= series@);
    points
}

/// The low 16 bits of a number.
pub(crate) fn low_bits_of(uid: i64) -> (low: u64)
    ensures
        low == low_bits(uid),
{
    let shifted: i128 = uid as i128 + 0x1_0000_0000_0000_0000;
    assert(shifted % 0x1_0000 == uid as int % 0x1_0000) by {
        vstd::arithmetic::div_mod::lemma_mod_multiples_vanish(
            0x1_0000_0000_0000,
            uid as int,
            0x1_0000,
        );
    }
    (shifted % 0x1_0000) as u64
}

/// A stand-in for the name of a player.
pub(crate) fn player_stand_in(uid: i64) -> (name: String)
    ensures
        name@ == nameless_player(uid),
{
    let mut name: String = String::from_str("プレイヤー#");
    append_digits(&mut name, low_bits_of(uid));
    name
}

/// A number that may not be known.
fn number_or(v: Option<i32>) -> (x: i32)
    ensures
        x == known_or(v),
{
    match v {
        Some(x) => x,
        None => -1,
    }
}

/// The row of a player.
pub(crate) fn make_player_row(
    uid: i64,
    entity: &Entity,
    entity_stats: &CombatStats,
    encounter_stats: &CombatStats,
    elapsed_ms: u128,
    consumable: ConsumableTimes,
) -> (row: PlayerRow)
    ensures
        row@ == player_row(
            uid,
            entity@,
            *entity_stats,
            encounter_stats.total,
            elapsed_ms,
            consumable,
        ),
{
    let mut name_resolved: bool = false;
    let mut name: String = String::new();
    if let Some(known) = &entity.name {
        if known.as_str().unicode_len() > 0 {
            name_resolved = true;
            name = known.clone();
        }
    }
    if !name_resolved {
        name = player_stand_in(uid);
    }
    let class: Class = match entity.class {
        Some(c) => c,
        None => Class::Unknown,
    };
    let class_spec: ClassSpec = match entity.class_spec {
        Some(c) => c,
        None => ClassSpec::Unknown,
    };
    PlayerRow {
        uid,
        name,
        name_resolved,
        class,
        class_spec,
        ability_score: number_or(entity.ability_score),
        season_level: number_or(entity.season_level),
        season_strength: number_or(entity.season_strength),
        stats: *entity_stats,
        encounter_total: encounter_stats.total,
        elapsed_ms,
        consumable,
        time_series: points_of(&entity.time_series),
    }
}

/// The encounter as a whole.
pub fn get_header_info(encounter: &Encounter, selected: Option<i64>) -> (info: HeaderInfo)
    ensures
        info == if hidden(encounter@, selected) {
            HeaderInfo { total_dmg: 0, elapsed_ms: 0, time_last_combat_packet_ms: 0 }
        } else {
            HeaderInfo {
                total_dmg: encounter@.dmg.total,
                elapsed_ms: elapsed(encounter@),
                time_last_combat_packet_ms: encounter@.last_ms,
            }
        },
{
    if selected.is_some() && !encounter.has_selected_participant {
        return HeaderInfo::default();
    }
    HeaderInfo {
        total_dmg: encounter.dmg_stats.total,
        elapsed_ms: elapsed_ms(encounter),
        time_last_combat_packet_ms: encounter.time_last_combat_packet_ms,
    }
}

/// The totals of an entity that are compared.
fn stat_of(e: &Entity, stat: StatType) -> (s: CombatStats)
    ensures
        s == entity_stat(e@, stat),
{
    match stat {
        StatType::Dmg => e.dmg_stats,
        StatType::DmgBossOnly => e.dmg_stats_boss_only,
        StatType::Heal => e.heal_stats,
        StatType::DmgTaken => e.dmg_taken_stats,
    }
}

/// The same totals of everyone together.
fn stat_of_all(encounter: &Encounter, stat: StatType) -> (s: CombatStats)
    ensures
        s == encounter_stat(encounter@, stat),
{
    match stat {
        StatType::Dmg => encounter.dmg_stats,
        StatType::DmgBossOnly => encounter.dmg_stats_boss_only,
        StatType::Heal => encounter.heal_stats,
        StatType::DmgTaken => encounter.dmg_taken_stats,
    }
}

/// Remaining time, duration and number of a timer.
fn timer_parts_of(t: &Option<ConsumableTimer>, now: u128) -> (parts: (u128, i64, i32))
    ensures
        parts == timer_parts(*t, now),
{
    match t {
        Some(t) => (t.remaining_ms(now), t.duration_ms, t.base_id),
        None => (0, 0, 0),
    }
}

/// What is shown of a player's meal and potion.
fn consumable_times_of(
    m: &HashMap<i64, PlayerConsumables>,
    uid: i64,
    now: u128,
) -> (t: ConsumableTimes)
    ensures
        t == times_of(m@, uid, now),
{
    broadcast use group_hash_axioms;

    match m.get(&uid) {
        Some(c) => {
            let food: (u128, i64, i32) = timer_parts_of(&c.food, now);
            let syrup: (u128, i64, i32) = timer_parts_of(&c.syrup, now);
            ConsumableTimes {
                food_remaining_ms: food.0,
                food_duration_ms: food.1,
                food_base_id: food.2,
                syrup_remaining_ms: syrup.0,
                syrup_duration_ms: syrup.1,
                syrup_base_id: syrup.2,
            }
        },
        None => ConsumableTimes::default(),
    }
}

/// Whether a player uses a meal or a potion.
fn uses_consumable(m: &HashMap<i64, PlayerConsumables>, uid: i64) -> (b: bool)
    ensures
        b == has_consumable(m@, uid),
{
    broadcast use group_hash_axioms;

    match m.get(&uid) {
        Some(c) => c.food.is_some() || c.syrup.is_some(),
        None => false,
    }
}

/// The players that are listed, in some order, each once.
fn listed_uids(encounter: &Encounter, stat: StatType, idle: bool) -> (uids: Vec<i64>)
    ensures
        uids@.no_duplicates(),
        forall|uid: i64| #[trigger] uids@.contains(uid) <==> listed(encounter@, stat, idle, uid),
{
    broadcast use group_hash_axioms;

    let ghost v = encounter@;
    let keys: Vec<i64> = key_list(&encounter.entities);
    let mut uids: Vec<i64> = Vec::new();
    let mut i: usize = 0;
    while i < keys.len()
        invariant
            i <= keys@.len(),
            v == encounter@,
            keys@.no_duplicates(),
            forall|k: i64| #[trigger] keys@.contains(k) <==> encounter.entities@.contains_key(k),
            uids@.no_duplicates(),
            forall|uid: i64| #[trigger]
                uids@.contains(uid) <==> keys@.take(i as int).contains(uid) && listed(
                    v,
                    stat,
                    idle,
                    uid,
                ),
        decreases keys@.len() - i,
    {
        broadcast use group_hash_axioms;

        let uid: i64 = keys[i];
        let ghost before = uids@;
        proof {
            lemma_next_key(keys@, i as int);
        }
        if let Some(e) = encounter.entities.get(&uid) {
            assert(v.entities[uid] == e@);
            if e.entity_type == EntityKind::Player && (stat_of(e, stat).total != 0 || (idle
                && uses_consumable(&encounter.consumables, uid))) {
                assert(!before.contains(uid));
                uids.push(uid);
                proof {
                    assert forall|a: int, b: int|
                        0 <= a < b < uids@.len() implies uids@[a] != uids@[b] by {
                        if b == before.len() {
                            assert(before.contains(before[a]));
                        }
                    }
                    assert forall|x: i64| #[trigger] uids@.contains(x) <==> before.contains(x) || x
                        == uid by {
                        assert(uids@[before.len() as int] == uid);
                        if before.contains(x) {
                            let j = choose|j: int| 0 <= j < before.len() && before[j] == x;
                            assert(uids@[j] == x);
                        }
                    }
                }
            }
        }
        i += 1;
    }
    assert(keys@.take(i as int) =~= keys@);
    uids
}

/// The players of the encounter, from the largest total down. With `idle` those are among them who
/// did nothing but use a meal or a potion.
pub(crate) fn build_players_window(
    encounter: &Encounter,
    selected: Option<i64>,
    stat: StatType,
    idle: bool,
    now: u128,
) -> (w: PlayersWindow)
    ensures
        shows_players(w, encounter@, selected, stat, idle, now),
{
    broadcast use group_hash_axioms;

    if selected.is_some() && !encounter.has_selected_participant {
        return PlayersWindow { player_rows: Vec::new(), local_player_uid: 0, top_value: 0 };
    }
    let ghost v = encounter@;
    let uids: Vec<i64> = listed_uids(encounter, stat, idle);
    let n: usize = uids.len();
    let mut totals: Vec<i64> = Vec::new();
    for i in 0..n
        invariant
            n == uids@.len(),
            v == encounter@,
            forall|uid: i64| #[trigger] uids@.contains(uid) <==> listed(v, stat, idle, uid),
            totals@.len() == i,
            forall|j: int|
                0 <= j < i ==> #[trigger] totals@[j] == entity_stat(
                    v.entities[uids@[j]],
                    stat,
                ).total,
    {
        broadcast use group_hash_axioms;

        assert(uids@.contains(uids@[i as int]));
        let total: i64 = match encounter.entities.get(&uids[i]) {
            Some(e) => stat_of(e, stat).total,
            None => 0,
        };
        totals.push(total);
    }
    let order: Vec<usize> = order_desc(&totals);
    let ms: u128 = elapsed_ms(encounter);
    let all: CombatStats = stat_of_all(encounter, stat);
    let mut player_rows: Vec<PlayerRow> = Vec::new();
    let mut top_value: i64 = 0;
    for i in 0..n
        invariant
            n == uids@.len(),
            n == totals@.len(),
            v == encounter@,
            ms == elapsed(v),
            all == encounter_stat(v, stat),
            forall|uid: i64| #[trigger] uids@.contains(uid) <==> listed(v, stat, idle, uid),
            is_descending(totals@, order@),
            player_rows@.len() == i,
            forall|j: int|
                0 <= j < i ==> (#[trigger] player_rows@[j])@ == row_at(
                    v,
                    stat,
                    uids@[order@[j] as int],
                    now,
                ),
            is_top_total(row_views(player_rows@), top_value),
    {
        broadcast use group_hash_axioms;

        let uid: i64 = uids[order[i]];
        let ghost before = row_views(player_rows@);
        let ghost top = top_value;
        assert(uids@.contains(uid));
        if let Some(e) = encounter.entities.get(&uid) {
            let stats: CombatStats = stat_of(e, stat);
            let times: ConsumableTimes = consumable_times_of(&encounter.consumables, uid, now);
            let row: PlayerRow = make_player_row(uid, e, &stats, &all, ms, times);
            if stats.total > top_value {
                top_value = stats.total;
            }
            player_rows.push(row);
            proof {
                let now = row_views(player_rows@);
                assert(now =~= before.push(row@));
                if top_value != 0 {
                    if stats.total > top {
                        assert(now[i as int].stats.total == top_value);
                    } else {
                        let k = choose|k: int|
                            0 <= k < before.len() && (#[trigger] before[k]).stats.total == top;
                        assert(now[k].stats.total == top_value);
                    }
                }
            }
        }
    }
    let local_player_uid: i64 = match selected {
        Some(uid) => uid,
        None => encounter.local_player_uid,
    };
    proof {
        let rows = row_views(player_rows@);
        assert forall|i: int, j: int| 0 <= i < j < rows.len() implies (#[trigger] rows[i]).uid != (
        #[trigger] rows[j]).uid && rows[i].stats.total >= rows[j].stats.total by {
            assert(player_rows@[i]@ == rows[i] && player_rows@[j]@ == rows[j]);
            assert(stands_before(totals@, order@[i] as int, order@[j] as int));
            assert(totals@[order@[i] as int] >= totals@[order@[j] as int]);
        }
        assert forall|i: int| 0 <= i < rows.len() implies listed(
            v,
            stat,
            idle,
            (#[trigger] rows[i]).uid,
        ) && rows[i] == row_at(v, stat, rows[i].uid, now) by {
            assert(player_rows@[i]@ == rows[i]);
            assert(uids@.contains(uids@[order@[i] as int]));
        }
        assert forall|uid: i64| #[trigger] listed(v, stat, idle, uid) implies exists|i: int|
            0 <= i < rows.len() && (#[trigger] rows[i]).uid == uid by {
            assert(uids@.contains(uid));
            let k = choose|k: int| 0 <= k < uids@.len() && uids@[k] == uid;
            lemma_order_holds_all(totals@, order@, k);
            let i = choose|i: int| 0 <= i < order@.len() && order@[i] == k;
            assert(player_rows@[i]@ == rows[i]);
        }
    }
    PlayersWindow { player_rows, local_player_uid, top_value }
}

/// The players by the damage that they dealt.
pub fn get_dps_players(
    encounter: &Encounter,
    selected: Option<i64>,
    now: u128,
) -> (w: PlayersWindow)
    ensures
        shows_players(w, encounter@, selected, StatType::Dmg, true, now),
{
    build_players_window(encounter, selected, StatType::Dmg, true, now)
}

/// The players by the damage that they dealt to bosses.
pub fn get_dps_boss_players(
    encounter: &Encounter,
    selected: Option<i64>,
    now: u128,
) -> (w: PlayersWindow)
    ensures
        shows_players(w, encounter@, selected, StatType::DmgBossOnly, true, now),
{
    build_players_window(encounter, selected, StatType::DmgBossOnly, true, now)
}

/// The players by what they healed.
pub fn get_heal_players(
    encounter: &Encounter,
    selected: Option<i64>,
    now: u128,
) -> (w: PlayersWindow)
    ensures
        shows_players(w, encounter@, selected, StatType::Heal, true, now),
{
    build_players_window(encounter, selected, StatType::Heal, true, now)
}

/// The players by the damage that they took.
pub fn get_dmg_taken_players(
    encounter: &Encounter,
    selected: Option<i64>,
    now: u128,
) -> (w: PlayersWindow)
    ensures
        shows_players(w, encounter@, selected, StatType::DmgTaken, true, now),
{
    build_players_window(encounter, selected, StatType::DmgTaken, true, now)
}

} // verus!
