//! The skills of a player, and the attackers that hit it.

use crate::compute::players::{
    elapsed, elapsed_ms, low_bits_of, make_player_row, player_stand_in, points_of,
};
use crate::engine::combat_stats::CombatStats;
use crate::engine::damage::stats_at;
use crate::engine::encounter::{Encounter, EncounterView};
use crate::engine::entity::{pair_key, pair_key_of, Entity, EntityView, SkillMeta, TimeSeriesPoint};
use crate::engine::monster_names::get_boss_name;
use crate::engine::sampling::series_at;
use crate::engine::skill_names::{get_skill_name, skill_name};
use crate::engine::walk::{key_list, lemma_next_key};
use crate::models::{
    low_bits, nameless_player, player_row, skill_views, ConsumableTimes, PlayerRow, PlayerRowView,
    SkillRow, SkillRowView, SkillsWindow,
};
use crate::order::{is_descending, lemma_order_holds_all, order_desc, stands_before};
use crate::protocol::messages::EntityKind;
use crate::text::{append_decimal, append_digits, decimal};
use std::collections::HashMap;
use vstd::prelude::*;
use vstd::std_specs::hash::*;
use vstd::string::*;

verus! {

/// Whether `rows` holds a row for each wanted number, each once.
pub open spec fn covers(
    rows: Seq<SkillRowView>,
    wanted: spec_fn(i64) -> bool,
    row: spec_fn(i64) -> SkillRowView,
) -> bool {
    &&& forall|i: int|
        0 <= i < rows.len() ==> wanted((#[trigger] rows[i]).uid) && rows[i] == row(rows[i].uid)
    &&& forall|i: int, j: int|
        0 <= i < j < rows.len() ==> (#[trigger] rows[i]).uid != (#[trigger] rows[j]).uid
    &&& forall|uid: i64| #[trigger]
        wanted(uid) ==> exists|i: int| 0 <= i < rows.len() && (#[trigger] rows[i]).uid == uid
}

/// Whether the totals go down.
pub open spec fn totals_descend(rows: Seq<SkillRowView>) -> bool {
    forall|i: int, j: int|
        0 <= i < j < rows.len() ==> (#[trigger] rows[i]).stats.total >= (
        #[trigger] rows[j]).stats.total
}

/// Whether `top` is the largest total, or 0 where none is larger.
pub open spec fn is_top_row(rows: Seq<SkillRowView>, top: i64) -> bool {
    &&& top >= 0
    &&& forall|i: int| 0 <= i < rows.len() ==> (#[trigger] rows[i]).stats.total <= top
    &&& top == 0 || exists|i: int| 0 <= i < rows.len() && (#[trigger] rows[i]).stats.total == top
}

/// The totals of rows.
pub open spec fn row_totals(rows: Seq<SkillRowView>) -> Seq<i64> {
    rows.map_values(|r: SkillRowView| r.stats.total)
}

/// Whether `out` holds the same rows as `rows`, from the largest total down, equal ones as they
/// came.
pub open spec fn is_arranged(rows: Seq<SkillRowView>, out: Seq<SkillRowView>) -> bool {
    exists|order: Seq<usize>| #[trigger]
        is_descending(row_totals(rows), order) && out == Seq::new(
            rows.len(),
            |i: int| rows[order[i] as int],
        )
}

/// Arranging rows keeps them.
proof fn lemma_arranged(
    rows: Seq<SkillRowView>,
    out: Seq<SkillRowView>,
    wanted: spec_fn(i64) -> bool,
    row: spec_fn(i64) -> SkillRowView,
)
    requires
        is_arranged(rows, out),
        covers(rows, wanted, row),
    ensures
        covers(out, wanted, row),
        totals_descend(out),
{
    let keys = row_totals(rows);
    let order = choose|order: Seq<usize>| #[trigger]
        is_descending(keys, order) && out == Seq::new(rows.len(), |i: int| rows[order[i] as int]);
    assert forall|i: int, j: int| 0 <= i < j < out.len() implies (#[trigger] out[i]).uid != (
    #[trigger] out[j]).uid && out[i].stats.total >= out[j].stats.total by {
        assert(stands_before(keys, order[i] as int, order[j] as int));
        let a = order[i] as int;
        let b = order[j] as int;
        assert(a != b);
        assert(out[i] == rows[a] && out[j] == rows[b]);
        assert(keys[a] == rows[a].stats.total && keys[b] == rows[b].stats.total);
    }
    assert forall|i: int| 0 <= i < out.len() implies wanted((#[trigger] out[i]).uid) && out[i]
        == row(out[i].uid) by {
        assert(order[i] < keys.len());
        assert(out[i] == rows[order[i] as int]);
    }
    assert forall|uid: i64| #[trigger] wanted(uid) implies exists|i: int|
        0 <= i < out.len() && (#[trigger] out[i]).uid == uid by {
        let k = choose|k: int| 0 <= k < rows.len() && (#[trigger] rows[k]).uid == uid;
        lemma_order_holds_all(keys, order, k);
        let i = choose|i: int| 0 <= i < order.len() && order[i] == k;
        assert(out[i].uid == uid);
    }
}

/// Arranges rows from the largest total down, equal ones as they came.
fn sort_skill_rows_desc(rows: Vec<SkillRow>) -> (out: Vec<SkillRow>)
    ensures
        is_arranged(skill_views(rows@), skill_views(out@)),
{
    let ghost given = skill_views(rows@);
    let n: usize = rows.len();
    let mut totals: Vec<i64> = Vec::new();
    for i in 0..n
        invariant
            n == rows@.len(),
            totals@.len() == i,
            forall|j: int| 0 <= j < i ==> #[trigger] totals@[j] == rows@[j].stats.total,
    {
        totals.push(rows[i].stats.total);
    }
    assert(totals@ =~= row_totals(given));
    let order: Vec<usize> = order_desc(&totals);
    let mut slots: Vec<Option<SkillRow>> = Vec::new();
    for row in it: rows
        invariant
            given == skill_views(it.seq()),
            slots@.len() == it.index(),
            forall|j: int|
                0 <= j < slots@.len() ==> (#[trigger] slots@[j]) == Some(it.seq()[j]),
    {
        slots.push(Some(row));
    }
    let mut out: Vec<SkillRow> = Vec::new();
    for i in 0..n
        invariant
            n == given.len(),
            n == slots@.len(),
            given.len() == totals@.len(),
            is_descending(totals@, order@),
            out@.len() == i,
            forall|j: int| 0 <= j < i ==> (#[trigger] out@[j])@ == given[order@[j] as int],
            forall|j: int|
                i <= j < n ==> (slots@[#[trigger] order@[j] as int] matches Some(r) && r@
                    == given[order@[j] as int]),
    {
        let k: usize = order[i];
        let slot: Option<SkillRow> = slots[k].take();
        assert(forall|j: int| i < j < n ==> #[trigger] order@[j] != k);
        if let Some(row) = slot {
            out.push(row);
        }
    }
    proof {
        assert(skill_views(out@) =~= Seq::new(given.len(), |i: int| given[order@[i] as int]));
        assert(is_descending(row_totals(given), order@));
    }
    out
}

/// A stand-in for a name.
pub open spec fn numbered(uid: i64) -> Seq<char> {
    "#"@ + decimal(low_bits(uid))
}

/// The name of an attacker: of a player its own, of a boss that of the boss, else a stand-in.
pub open spec fn attacker_name(
    v: EncounterView,
    bosses: Map<u32, String>,
    uid: i64,
) -> Seq<char> {
    if !v.entities.contains_key(uid) {
        numbered(uid)
    } else if v.entities[uid].entity_type == EntityKind::Player {
        match v.entities[uid].profile.name {
            Some(name) => name,
            None => nameless_player(uid),
        }
    } else {
        match v.entities[uid].monster_id {
            Some(id) => if bosses.contains_key(id) {
                bosses[id]@
            } else {
                "モンスター#"@ + decimal(id as int)
            },
            None => numbered(uid),
        }
    }
}

/// A stand-in for a name.
fn number_name(uid: i64) -> (name: String)
    ensures
        name@ == numbered(uid),
{
    let mut name: String = String::from_str("#");
    append_digits(&mut name, low_bits_of(uid));
    name
}

/// The name of an attacker.
fn attacker_display_name(
    encounter: &Encounter,
    bosses: &HashMap<u32, String>,
    uid: i64,
) -> (name: String)
    ensures
        name@ == attacker_name(encounter@, bosses@, uid),
{
    broadcast use group_hash_axioms;

    match encounter.entities.get(&uid) {
        None => number_name(uid),
        Some(e) => {
            assert(encounter@.entities[uid] == e@);
            if e.entity_type == EntityKind::Player {
                return match &e.name {
                    Some(name) => name.clone(),
                    None => player_stand_in(uid),
                };
            }
            match e.monster_id {
                Some(id) => match get_boss_name(bosses, id) {
                    Some(name) => name.to_owned(),
                    None => {
                        let mut name: String = String::from_str("モンスター#");
                        append_digits(&mut name, id as u64);
                        name
                    },
                },
                None => number_name(uid),
            }
        },
    }
}

/// How a skill hits, as far as known.
pub open spec fn meta_at(m: Map<i32, SkillMeta>, skill: i32) -> SkillMeta {
    if m.contains_key(skill) {
        m[skill]
    } else {
        SkillMeta { property: 0, damage_mode: 0 }
    }
}

/// How a skill hits, as far as known.
fn meta_of_skill(m: &HashMap<i32, SkillMeta>, skill: i32) -> (meta: SkillMeta)
    ensures
        meta == meta_at(m@, skill),
{
    broadcast use group_hash_axioms;

    match m.get(&skill) {
        Some(meta) => *meta,
        None => SkillMeta::default(),
    }
}

/// Whether a number is that of a skill.
pub open spec fn is_skill_number(uid: i64) -> bool {
    i32::MIN <= uid <= i32::MAX
}

/// Whether a player dealt damage with a skill.
pub open spec fn used_skill(e: EntityView, uid: i64) -> bool {
    is_skill_number(uid) && e.skill_dmg.contains_key(uid as i32)
}

/// The row of a skill of a player.
pub open spec fn skill_row(
    e: EntityView,
    names: Map<i32, String>,
    ms: u128,
    uid: i64,
) -> SkillRowView {
    let skill = uid as i32;
    SkillRowView {
        uid,
        name: skill_name(names, skill),
        element: meta_at(e.skill_meta, skill).property,
        damage_mode: meta_at(e.skill_meta, skill).damage_mode,
        stats: e.skill_dmg[skill],
        denominator: e.dmg.total,
        elapsed_ms: ms,
        series: series_at(e.skill_series, skill),
    }
}

/// The row of an attacker that hit a player.
pub open spec fn attacker_row(
    v: EncounterView,
    e: EntityView,
    bosses: Map<u32, String>,
    uid: i64,
) -> SkillRowView {
    SkillRowView {
        uid,
        name: attacker_name(v, bosses, uid),
        element: 0,
        damage_mode: 0,
        stats: e.taken_by[uid],
        denominator: e.taken.total,
        elapsed_ms: elapsed(v),
        series: Seq::empty(),
    }
}

/// Whether an attacker hit a player with a skill.
pub open spec fn hit_with(e: EntityView, attacker: i64, uid: i64) -> bool {
    is_skill_number(uid) && e.taken_by_skill.contains_key(pair_key(attacker, uid as i32))
}

/// The row of a skill with which an attacker hit a player.
pub open spec fn taken_skill_row(
    e: EntityView,
    names: Map<i32, String>,
    ms: u128,
    attacker: i64,
    uid: i64,
) -> SkillRowView {
    let skill = uid as i32;
    SkillRowView {
        uid,
        name: skill_name(names, skill),
        element: meta_at(e.skill_meta, skill).property,
        damage_mode: meta_at(e.skill_meta, skill).damage_mode,
        stats: e.taken_by_skill[pair_key(attacker, skill)],
        denominator: stats_at(e.taken_by, attacker).total,
        elapsed_ms: ms,
        series: Seq::empty(),
    }
}

/// Whether `w` shows a player with rows for the wanted numbers, from the largest total down.
pub open spec fn shows_rows(
    w: SkillsWindow,
    v: EncounterView,
    player: PlayerRowView,
    wanted: spec_fn(i64) -> bool,
    row: spec_fn(i64) -> SkillRowView,
) -> bool {
    &&& w.inspected_player@ == player
    &&& covers(skill_views(w.skill_rows@), wanted, row)
    &&& totals_descend(skill_views(w.skill_rows@))
    &&& is_top_row(skill_views(w.skill_rows@), w.top_value)
    &&& w.local_player_uid == v.local_uid
}

/// Why a player cannot be shown.
pub open spec fn not_found(uid: i64) -> Seq<char> {
    "Could not find player with uid "@ + decimal(uid as int)
}

/// Why a player cannot be shown.
fn not_found_text(uid: i64) -> (s: String)
    ensures
        s@ == not_found(uid),
{
    let mut s: String = String::from_str("Could not find player with uid ");
    append_decimal(&mut s, uid);
    s
}

/// The largest total of rows, or 0 where none is larger.
fn top_of(rows: &Vec<SkillRow>) -> (top: i64)
    ensures
        is_top_row(skill_views(rows@), top),
{
    let mut top: i64 = 0;
    let n: usize = rows.len();
    let ghost all = skill_views(rows@);
    assert(all.take(0) =~= Seq::<SkillRowView>::empty());
    for i in 0..n
        invariant
            n == rows@.len(),
            all == skill_views(rows@),
            is_top_row(all.take(i as int), top),
    {
        let ghost before = all.take(i as int);
        let ghost now = all.take(i + 1);
        let ghost t = top;
        if rows[i].stats.total > top {
            top = rows[i].stats.total;
        }
        proof {
            assert(now =~= before.push(all[i as int]));
            if top != 0 {
                if all[i as int].stats.total > t {
                    assert(now[i as int].stats.total == top);
                } else {
                    let k = choose|k: int|
                        0 <= k < before.len() && (#[trigger] before[k]).stats.total == t;
                    assert(now[k].stats.total == top);
                }
            }
        }
    }
    assert(all.take(n as int) =~= all);
    top
}

/// Puts a window together.
fn window_of(
    inspected_player: PlayerRow,
    rows: Vec<SkillRow>,
    local_player_uid: i64,
    Ghost(v): Ghost<EncounterView>,
    Ghost(wanted): Ghost<spec_fn(i64) -> bool>,
    Ghost(row): Ghost<spec_fn(i64) -> SkillRowView>,
) -> (w: SkillsWindow)
    requires
        covers(skill_views(rows@), wanted, row),
        local_player_uid == v.local_uid,
    ensures
        shows_rows(w, v, inspected_player@, wanted, row),
{
    let ghost given = skill_views(rows@);
    let skill_rows: Vec<SkillRow> = sort_skill_rows_desc(rows);
    proof {
        lemma_arranged(given, skill_views(skill_rows@), wanted, row);
    }
    let top_value: i64 = top_of(&skill_rows);
    SkillsWindow { inspected_player, skill_rows, local_player_uid, top_value }
}

/// The row that the player has in its own window.
pub open spec fn inspected(
    v: EncounterView,
    uid: i64,
    stats: CombatStats,
    all: CombatStats,
) -> PlayerRowView {
    player_row(uid, v.entities[uid], stats, all.total, elapsed(v), ConsumableTimes::nothing())
}

/// The skills with which a player dealt damage.
pub fn get_skills(
    encounter: &Encounter,
    names: &HashMap<i32, String>,
    player_uid: i64,
) -> (r: Result<SkillsWindow, String>)
    ensures
        r is Ok <==> encounter@.entities.contains_key(player_uid),
        r matches Err(e) ==> e@ == not_found(player_uid),
        r matches Ok(w) ==> ({
            let v = encounter@;
            let e = v.entities[player_uid];
            shows_rows(
                w,
                v,
                inspected(v, player_uid, e.dmg, v.dmg),
                |uid: i64| used_skill(e, uid),
                |uid: i64| skill_row(e, names@, elapsed(v), uid),
            )
        }),
{
    broadcast use group_hash_axioms;

    let ghost v = encounter@;
    let player: &Entity = match encounter.entities.get(&player_uid) {
        Some(e) => e,
        None => {
            return Err(not_found_text(player_uid));
        },
    };
    let ghost e = player@;
    assert(v.entities[player_uid] == e);
    let ms: u128 = elapsed_ms(encounter);
    let inspected_player: PlayerRow = make_player_row(
        player_uid,
        player,
        &player.dmg_stats,
        &encounter.dmg_stats,
        ms,
        ConsumableTimes::default(),
    );
    let keys: Vec<i32> = key_list(&player.skill_uid_to_dps_stats);
    let n: usize = keys.len();
    let mut rows: Vec<SkillRow> = Vec::new();
    for i in 0..n
        invariant
            n == keys@.len(),
            e == player@,
            forall|k: i32| #[trigger] keys@.contains(k) <==> e.skill_dmg.contains_key(k),
            rows@.len() == i,
            forall|j: int|
                0 <= j < i ==> (#[trigger] rows@[j])@ == skill_row(
                    e,
                    names@,
                    ms,
                    keys@[j] as i64,
                ),
    {
        broadcast use group_hash_axioms;

        let skill: i32 = keys[i];
        assert(keys@.contains(skill));
        if let Some(stats) = player.skill_uid_to_dps_stats.get(&skill) {
            let meta: SkillMeta = meta_of_skill(&player.skill_meta, skill);
            let time_series: Vec<TimeSeriesPoint> = match player.skill_time_series.get(&skill) {
                Some(series) => points_of(series),
                None => Vec::new(),
            };
            assert(time_series@ =~= series_at(e.skill_series, skill));
            rows.push(
                SkillRow {
                    uid: skill as i64,
                    name: get_skill_name(names, skill),
                    element: meta.property,
                    damage_mode: meta.damage_mode,
                    stats: *stats,
                    denominator: player.dmg_stats.total,
                    elapsed_ms: ms,
                    time_series,
                },
            );
        }
    }
    let ghost wanted = |uid: i64| used_skill(e, uid);
    let ghost row = |uid: i64| skill_row(e, names@, elapsed(v), uid);
    proof {
        let views = skill_views(rows@);
        assert forall|i: int| 0 <= i < views.len() implies wanted((#[trigger] views[i]).uid)
            && views[i] == row(views[i].uid) by {
            assert(rows@[i]@ == views[i]);
            assert(keys@.contains(keys@[i]));
        }
        assert forall|i: int, j: int| 0 <= i < j < views.len() implies (#[trigger] views[i]).uid
            != (#[trigger] views[j]).uid by {
            assert(rows@[i]@ == views[i] && rows@[j]@ == views[j]);
            assert(keys@[i] != keys@[j]);
        }
        assert forall|uid: i64| #[trigger] wanted(uid) implies exists|i: int|
            0 <= i < views.len() && (#[trigger] views[i]).uid == uid by {
            assert(keys@.contains(uid as i32));
            let i = choose|i: int| 0 <= i < keys@.len() && keys@[i] == uid as i32;
            assert(rows@[i]@ == views[i]);
        }
    }
    Ok(
        window_of(
            inspected_player,
            rows,
            encounter.local_player_uid,
            Ghost(v),
            Ghost(wanted),
            Ghost(row),
        ),
    )
}

/// The attackers that hit a player.
pub fn get_dmg_taken_attackers(
    encounter: &Encounter,
    bosses: &HashMap<u32, String>,
    player_uid: i64,
) -> (r: Result<SkillsWindow, String>)
    ensures
        r is Ok <==> encounter@.entities.contains_key(player_uid),
        r matches Err(e) ==> e@ == not_found(player_uid),
        r matches Ok(w) ==> ({
            let v = encounter@;
            let e = v.entities[player_uid];
            shows_rows(
                w,
                v,
                inspected(v, player_uid, e.taken, v.taken),
                |uid: i64| e.taken_by.contains_key(uid),
                |uid: i64| attacker_row(v, e, bosses@, uid),
            )
        }),
{
    broadcast use group_hash_axioms;

    let ghost v = encounter@;
    let player: &Entity = match encounter.entities.get(&player_uid) {
        Some(e) => e,
        None => {
            return Err(not_found_text(player_uid));
        },
    };
    let ghost e = player@;
    assert(v.entities[player_uid] == e);
    let ms: u128 = elapsed_ms(encounter);
    let inspected_player: PlayerRow = make_player_row(
        player_uid,
        player,
        &player.dmg_taken_stats,
        &encounter.dmg_taken_stats,
        ms,
        ConsumableTimes::default(),
    );
    let keys: Vec<i64> = key_list(&player.attacker_uid_to_dmg_taken_stats);
    let n: usize = keys.len();
    let mut rows: Vec<SkillRow> = Vec::new();
    for i in 0..n
        invariant
            n == keys@.len(),
            e == player@,
            v == encounter@,
            ms == elapsed(v),
            forall|k: i64| #[trigger] keys@.contains(k) <==> e.taken_by.contains_key(k),
            rows@.len() == i,
            forall|j: int|
                0 <= j < i ==> (#[trigger] rows@[j])@ == attacker_row(v, e, bosses@, keys@[j]),
    {
        broadcast use group_hash_axioms;

        let uid: i64 = keys[i];
        assert(keys@.contains(uid));
        if let Some(stats) = player.attacker_uid_to_dmg_taken_stats.get(&uid) {
            let row = SkillRow {
                uid,
                name: attacker_display_name(encounter, bosses, uid),
                element: 0,
                damage_mode: 0,
                stats: *stats,
                denominator: player.dmg_taken_stats.total,
                elapsed_ms: ms,
                time_series: Vec::new(),
            };
            assert(row@.series =~= Seq::<TimeSeriesPoint>::empty());
            rows.push(row);
        }
    }
    let ghost wanted = |uid: i64| e.taken_by.contains_key(uid);
    let ghost row = |uid: i64| attacker_row(v, e, bosses@, uid);
    proof {
        let views = skill_views(rows@);
        assert forall|i: int| 0 <= i < views.len() implies wanted((#[trigger] views[i]).uid)
            && views[i] == row(views[i].uid) by {
            assert(rows@[i]@ == views[i]);
            assert(keys@.contains(keys@[i]));
        }
        assert forall|i: int, j: int| 0 <= i < j < views.len() implies (#[trigger] views[i]).uid
            != (#[trigger] views[j]).uid by {
            assert(rows@[i]@ == views[i] && rows@[j]@ == views[j]);
            assert(keys@[i] != keys@[j]);
        }
        assert forall|uid: i64| #[trigger] wanted(uid) implies exists|i: int|
            0 <= i < views.len() && (#[trigger] views[i]).uid == uid by {
            assert(keys@.contains(uid));
            let i = choose|i: int| 0 <= i < keys@.len() && keys@[i] == uid;
            assert(rows@[i]@ == views[i]);
        }
    }
    Ok(
        window_of(
            inspected_player,
            rows,
            encounter.local_player_uid,
            Ghost(v),
            Ghost(wanted),
            Ghost(row),
        ),
    )
}

/// The skills with which an attacker hit a player, in some order, each once.
fn skills_of_attacker(m: &HashMap<i128, CombatStats>, attacker: i64) -> (skills: Vec<i32>)
    ensures
        skills@.no_duplicates(),
        forall|k: i32| #[trigger] skills@.contains(k) <==> m@.contains_key(pair_key(attacker, k)),
{
    broadcast use group_hash_axioms;

    let keys: Vec<i128> = key_list(m);
    let low: i128 = attacker as i128 * 0x1_0000_0000;
    let mut skills: Vec<i32> = Vec::new();
    let mut i: usize = 0;
    while i < keys.len()
        invariant
            i <= keys@.len(),
            low == attacker * 0x1_0000_0000,
            keys@.no_duplicates(),
            skills@.no_duplicates(),
            forall|k: i32| #[trigger]
                skills@.contains(k) <==> keys@.take(i as int).contains(pair_key(attacker, k)),
        decreases keys@.len() - i,
    {
        let key: i128 = keys[i];
        let ghost before = skills@;
        proof {
            lemma_next_key(keys@, i as int);
            assert forall|k: i32| pair_key(attacker, k) == low + k + 0x8000_0000 by {}
        }
        if low <= key && key < low + 0x1_0000_0000 {
            let skill: i32 = (key - low - 0x8000_0000) as i32;
            assert(pair_key(attacker, skill) == key);
            assert(!before.contains(skill));
            skills.push(skill);
            proof {
                assert forall|a: int, b: int|
                    0 <= a < b < skills@.len() implies skills@[a] != skills@[b] by {
                    if b == before.len() {
                        assert(before.contains(before[a]));
                    }
                }
                assert forall|k: i32| #[trigger] skills@.contains(k) <==> before.contains(k) || k
                    == skill by {
                    assert(skills@[before.len() as int] == skill);
                    if before.contains(k) {
                        let j = choose|j: int| 0 <= j < before.len() && before[j] == k;
                        assert(skills@[j] == k);
                    }
                }
                assert forall|k: i32| #[trigger] skills@.contains(k) <==> keys@.take(
                    i + 1,
                ).contains(pair_key(attacker, k)) by {
                    assert((pair_key(attacker, k) == key) == (k == skill));
                }
            }
        } else {
            assert forall|k: i32| #[trigger] skills@.contains(k) <==> keys@.take(i + 1).contains(
                pair_key(attacker, k),
            ) by {
                assert(pair_key(attacker, k) != key);
            }
        }
        i += 1;
    }
    assert(keys@.take(i as int) =~= keys@);
    skills
}

/// The skills with which an attacker hit a player.
pub fn get_dmg_taken_skills(
    encounter: &Encounter,
    names: &HashMap<i32, String>,
    player_uid: i64,
    attacker_uid: i64,
) -> (r: Result<SkillsWindow, String>)
    ensures
        r is Ok <==> encounter@.entities.contains_key(player_uid),
        r matches Err(e) ==> e@ == not_found(player_uid),
        r matches Ok(w) ==> ({
            let v = encounter@;
            let e = v.entities[player_uid];
            shows_rows(
                w,
                v,
                inspected(v, player_uid, e.taken, v.taken),
                |uid: i64| hit_with(e, attacker_uid, uid),
                |uid: i64| taken_skill_row(e, names@, elapsed(v), attacker_uid, uid),
            )
        }),
{
    broadcast use group_hash_axioms;

    let ghost v = encounter@;
    let player: &Entity = match encounter.entities.get(&player_uid) {
        Some(e) => e,
        None => {
            return Err(not_found_text(player_uid));
        },
    };
    let ghost e = player@;
    assert(v.entities[player_uid] == e);
    let ms: u128 = elapsed_ms(encounter);
    let inspected_player: PlayerRow = make_player_row(
        player_uid,
        player,
        &player.dmg_taken_stats,
        &encounter.dmg_taken_stats,
        ms,
        ConsumableTimes::default(),
    );
    let attacker_total: i64 = match player.attacker_uid_to_dmg_taken_stats.get(&attacker_uid) {
        Some(stats) => stats.total,
        None => 0,
    };
    let keys: Vec<i32> = skills_of_attacker(
        &player.attacker_skill_to_dmg_taken_stats,
        attacker_uid,
    );
    let n: usize = keys.len();
    let mut rows: Vec<SkillRow> = Vec::new();
    for i in 0..n
        invariant
            n == keys@.len(),
            e == player@,
            attacker_total == stats_at(e.taken_by, attacker_uid).total,
            forall|k: i32| #[trigger]
                keys@.contains(k) <==> e.taken_by_skill.contains_key(pair_key(attacker_uid, k)),
            rows@.len() == i,
            forall|j: int|
                0 <= j < i ==> (#[trigger] rows@[j])@ == taken_skill_row(
                    e,
                    names@,
                    ms,
                    attacker_uid,
                    keys@[j] as i64,
                ),
    {
        broadcast use group_hash_axioms;

        let skill: i32 = keys[i];
        assert(keys@.contains(skill));
        let key: i128 = pair_key_of(attacker_uid, skill);
        if let Some(stats) = player.attacker_skill_to_dmg_taken_stats.get(&key) {
            let meta: SkillMeta = meta_of_skill(&player.skill_meta, skill);
            let row = SkillRow {
                uid: skill as i64,
                name: get_skill_name(names, skill),
                element: meta.property,
                damage_mode: meta.damage_mode,
                stats: *stats,
                denominator: attacker_total,
                elapsed_ms: ms,
                time_series: Vec::new(),
            };
            assert(row@.series =~= Seq::<TimeSeriesPoint>::empty());
            rows.push(row);
        }
    }
    let ghost wanted = |uid: i64| hit_with(e, attacker_uid, uid);
    let ghost row = |uid: i64| taken_skill_row(e, names@, elapsed(v), attacker_uid, uid);
    proof {
        let views = skill_views(rows@);
        assert forall|i: int| 0 <= i < views.len() implies wanted((#[trigger] views[i]).uid)
            && views[i] == row(views[i].uid) by {
            assert(rows@[i]@ == views[i]);
            assert(keys@.contains(keys@[i]));
        }
        assert forall|i: int, j: int| 0 <= i < j < views.len() implies (#[trigger] views[i]).uid
            != (#[trigger] views[j]).uid by {
            assert(rows@[i]@ == views[i] && rows@[j]@ == views[j]);
            assert(keys@[i] != keys@[j]);
        }
        assert forall|uid: i64| #[trigger] wanted(uid) implies exists|i: int|
            0 <= i < views.len() && (#[trigger] views[i]).uid == uid by {
            assert(keys@.contains(uid as i32));
            let i = choose|i: int| 0 <= i < keys@.len() && keys@[i] == uid as i32;
            assert(rows@[i]@ == views[i]);
        }
    }
    Ok(
        window_of(
            inspected_player,
            rows,
            encounter.local_player_uid,
            Ghost(v),
            Ghost(wanted),
            Ghost(row),
        ),
    )
}

} // verus!
