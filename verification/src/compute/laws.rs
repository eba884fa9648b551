//! What every window shows.

use crate::compute::buffs::{
    is_shown, kind_at, lasts_longest, occurs, shown_places, shows_imagines, shows_longest,
    shows_statuses, shows_tracked, time_left, times_left,
};
use crate::compute::control::since;
use crate::compute::players::{listed, row_at, shows_players, StatType};
use crate::compute::skills::{
    attacker_name, attacker_row, hit_with, shows_rows, skill_row, taken_skill_row, used_skill,
};
use crate::compute::snapshot::is_snapshot;
use crate::engine::buff_dictionary::meta_of;
use crate::engine::buff_source::BuffSourceKind;
use crate::engine::buff_state::BuffStateSnapshot;
use crate::engine::combat_stats::CombatStats;
use crate::engine::encounter::EncounterView;
use crate::engine::entity::{pair_key, EntityView};
use crate::engine::name_cache::CachedView;
use crate::models::{
    player_row, row_views, skill_views, ConsumableTimes, PlayerRowView, PlayersWindow,
    SelfBuffSnapshot, SelfStatusEntry, SkillRowView, SkillsWindow, SnapshotView,
    TrackedBuffsData,
};
use crate::order::{is_descending, lemma_order_holds_all, stands_before};
use crate::protocol::messages::EntityKind;
use crate::text::decimal;
use vstd::prelude::*;

verus! {

/// The total that a window compares players by.
pub open spec fn compared(e: EntityView, stat: StatType) -> int {
    (if stat == StatType::Dmg {
        e.dmg.total
    } else if stat == StatType::DmgBossOnly {
        e.boss.total
    } else if stat == StatType::Heal {
        e.heal.total
    } else {
        e.taken.total
    }) as int
}

/// Nothing is shown of an encounter in which the chosen character takes no part. Else a player has a
/// row exactly where the total that is compared is not 0, or, where idle players are shown, where it
/// uses a meal or a potion. The largest total comes first.
pub proof fn law_players_are_listed(
    w: PlayersWindow,
    v: EncounterView,
    selected: Option<i64>,
    stat: StatType,
    idle: bool,
    now: u128,
    uid: i64,
)
    requires
        shows_players(w, v, selected, stat, idle, now),
    ensures
        selected is Some && !v.has_selected ==> w.player_rows@.len() == 0 && w.top_value == 0
            && w.local_player_uid == 0,
        selected is None || v.has_selected ==> {
            &&& (exists|i: int|
                0 <= i < w.player_rows@.len() && (#[trigger] w.player_rows@[i])@.uid == uid) <==> {
                &&& v.entities.contains_key(uid)
                &&& v.entities[uid].entity_type == EntityKind::Player
                &&& compared(v.entities[uid], stat) != 0 || (idle && v.consumables.contains_key(uid)
                    && (v.consumables[uid].food is Some || v.consumables[uid].syrup is Some))
            }
            &&& forall|i: int|
                0 <= i < w.player_rows@.len() ==> (#[trigger] w.player_rows@[i])@.stats.total
                    == compared(v.entities[w.player_rows@[i]@.uid], stat)
            &&& forall|i: int, j: int|
                0 <= i < j < w.player_rows@.len() ==> (#[trigger] w.player_rows@[i])@.uid != (
                #[trigger] w.player_rows@[j])@.uid && w.player_rows@[i]@.stats.total
                    >= w.player_rows@[j]@.stats.total
            &&& w.player_rows@.len() > 0 && w.player_rows@[0]@.stats.total >= 0 ==> w.top_value
                == w.player_rows@[0]@.stats.total
            &&& w.local_player_uid == if selected is Some {
                selected->Some_0
            } else {
                v.local_uid
            }
        },
{
    if selected is None || v.has_selected {
        let rows = row_views(w.player_rows@);
        assert(forall|i: int|
            0 <= i < rows.len() ==> (#[trigger] w.player_rows@[i])@ == rows[i]);
        if listed(v, stat, idle, uid) {
            let i = choose|i: int| 0 <= i < rows.len() && (#[trigger] rows[i]).uid == uid;
            assert(w.player_rows@[i]@.uid == uid);
        }
        if exists|i: int|
            0 <= i < w.player_rows@.len() && (#[trigger] w.player_rows@[i])@.uid == uid {
            let i = choose|i: int|
                0 <= i < w.player_rows@.len() && (#[trigger] w.player_rows@[i])@.uid == uid;
            assert(listed(v, stat, idle, rows[i].uid));
        }
        assert forall|i: int| 0 <= i < w.player_rows@.len() implies (
        #[trigger] w.player_rows@[i])@.stats.total == compared(
            v.entities[w.player_rows@[i]@.uid],
            stat,
        ) by {
            assert(rows[i] == row_at(v, stat, rows[i].uid, now));
        }
        assert forall|i: int, j: int| 0 <= i < j < w.player_rows@.len() implies (
        #[trigger] w.player_rows@[i])@.uid != (#[trigger] w.player_rows@[j])@.uid
            && w.player_rows@[i]@.stats.total >= w.player_rows@[j]@.stats.total by {
            assert(rows[i].uid != rows[j].uid);
        }
        if w.player_rows@.len() > 0 && w.player_rows@[0]@.stats.total >= 0 {
            assert(rows[0].stats.total <= w.top_value);
            if w.top_value != 0 {
                let i = choose|i: int|
                    0 <= i < rows.len() && (#[trigger] rows[i]).stats.total == w.top_value;
                assert(i == 0 || rows[0].stats.total >= rows[i].stats.total);
            }
        }
    }
}

/// What a row tells of a player: what was counted, of how much in all and over which time; the name
/// where it is known and not empty, else one with the low 16 bits of its number; the class; scores,
/// -1 where they are not known; and its course.
pub proof fn law_player_rows(
    uid: i64,
    e: EntityView,
    stats: CombatStats,
    total: i64,
    ms: u128,
    consumable: ConsumableTimes,
)
    ensures
        ({
            let r = player_row(uid, e, stats, total, ms, consumable);
            &&& r.uid == uid && r.stats == stats && r.encounter_total == total && r.elapsed_ms == ms
            &&& r.consumable == consumable && r.series == e.series
            &&& e.profile.name matches Some(name) ==> (name.len() > 0 ==> r.name == name
                && r.name_resolved)
            &&& e.profile.name is None || e.profile.name->Some_0.len() == 0 ==> !r.name_resolved
                && r.name == "プレイヤー#"@ + decimal(uid as int % 65536)
            &&& e.profile.class matches Some(c) ==> r.class == c
            &&& e.profile.class is None ==> r.class is Unknown
            &&& e.profile.class_spec matches Some(c) ==> r.class_spec == c
            &&& e.profile.class_spec is None ==> r.class_spec is Unknown
            &&& e.profile.ability_score matches Some(n) ==> r.ability_score == n
            &&& e.profile.ability_score is None ==> r.ability_score == -1
            &&& e.profile.season_level matches Some(n) ==> r.season_level == n
            &&& e.profile.season_level is None ==> r.season_level == -1
            &&& e.profile.season_strength matches Some(n) ==> r.season_strength == n
            &&& e.profile.season_strength is None ==> r.season_strength == -1
        }),
{
}

/// The row of a player is made of its own numbers, of the totals of the whole encounter, and of the
/// time from the first hit to the last.
pub proof fn law_rows_tell_players(v: EncounterView, stat: StatType, uid: i64, now: u128)
    requires
        v.start_ms <= v.last_ms,
    ensures
        ({
            let r = row_at(v, stat, uid, now);
            &&& r.uid == uid
            &&& r.elapsed_ms == v.last_ms - v.start_ms
            &&& stat == StatType::Dmg ==> r.stats == v.entities[uid].dmg && r.encounter_total
                == v.dmg.total
            &&& stat == StatType::DmgBossOnly ==> r.stats == v.entities[uid].boss
                && r.encounter_total == v.boss.total
            &&& stat == StatType::Heal ==> r.stats == v.entities[uid].heal && r.encounter_total
                == v.heal.total
            &&& stat == StatType::DmgTaken ==> r.stats == v.entities[uid].taken
                && r.encounter_total == v.taken.total
            &&& v.consumables.contains_key(uid) ==> {
                let c = v.consumables[uid];
                &&& c.food matches Some(t) ==> (t.ends_at_ms >= now
                    ==> r.consumable.food_remaining_ms == t.ends_at_ms - now)
                &&& c.food matches Some(t) ==> r.consumable.food_base_id == t.base_id
                    && r.consumable.food_duration_ms == t.duration_ms
                &&& c.syrup matches Some(t) ==> (t.ends_at_ms >= now
                    ==> r.consumable.syrup_remaining_ms == t.ends_at_ms - now)
                &&& c.syrup matches Some(t) ==> r.consumable.syrup_base_id == t.base_id
                    && r.consumable.syrup_duration_ms == t.duration_ms
            }
            &&& !v.consumables.contains_key(uid) ==> r.consumable.food_base_id == 0
                && r.consumable.syrup_base_id == 0
        }),
{
}

/// Where rows are wanted, each has a row of its own and there are no others; the largest total comes
/// first and is the top.
pub proof fn law_rows_are_those_wanted(
    w: SkillsWindow,
    v: EncounterView,
    player: PlayerRowView,
    wanted: spec_fn(i64) -> bool,
    row: spec_fn(i64) -> SkillRowView,
    uid: i64,
)
    requires
        shows_rows(w, v, player, wanted, row),
    ensures
        wanted(uid) <==> exists|i: int|
            0 <= i < w.skill_rows@.len() && (#[trigger] w.skill_rows@[i])@.uid == uid,
        forall|i: int|
            0 <= i < w.skill_rows@.len() ==> (#[trigger] w.skill_rows@[i])@ == row(
                w.skill_rows@[i]@.uid,
            ),
        forall|i: int, j: int|
            0 <= i < j < w.skill_rows@.len() ==> (#[trigger] w.skill_rows@[i])@.uid != (
            #[trigger] w.skill_rows@[j])@.uid && w.skill_rows@[i]@.stats.total
                >= w.skill_rows@[j]@.stats.total,
        w.skill_rows@.len() > 0 && w.skill_rows@[0]@.stats.total >= 0 ==> w.top_value
            == w.skill_rows@[0]@.stats.total,
        w.skill_rows@.len() == 0 ==> w.top_value == 0,
        w.inspected_player@ == player,
        w.local_player_uid == v.local_uid,
{
    let rows = skill_views(w.skill_rows@);
    assert(forall|i: int| 0 <= i < rows.len() ==> (#[trigger] w.skill_rows@[i])@ == rows[i]);
    if wanted(uid) {
        let i = choose|i: int| 0 <= i < rows.len() && (#[trigger] rows[i]).uid == uid;
        assert(w.skill_rows@[i]@.uid == uid);
    }
    if exists|i: int| 0 <= i < w.skill_rows@.len() && (#[trigger] w.skill_rows@[i])@.uid == uid {
        let i = choose|i: int|
            0 <= i < w.skill_rows@.len() && (#[trigger] w.skill_rows@[i])@.uid == uid;
        assert(wanted(rows[i].uid));
    }
    assert forall|i: int| 0 <= i < w.skill_rows@.len() implies (#[trigger] w.skill_rows@[i])@
        == row(w.skill_rows@[i]@.uid) by {
        assert(rows[i] == row(rows[i].uid));
    }
    assert forall|i: int, j: int| 0 <= i < j < w.skill_rows@.len() implies (
    #[trigger] w.skill_rows@[i])@.uid != (#[trigger] w.skill_rows@[j])@.uid
        && w.skill_rows@[i]@.stats.total >= w.skill_rows@[j]@.stats.total by {
        assert(rows[i].uid != rows[j].uid && rows[i].stats.total >= rows[j].stats.total);
    }
    if w.skill_rows@.len() > 0 && w.skill_rows@[0]@.stats.total >= 0 {
        assert(rows[0].stats.total <= w.top_value);
        if w.top_value != 0 {
            let i = choose|i: int|
                0 <= i < rows.len() && (#[trigger] rows[i]).stats.total == w.top_value;
            assert(i == 0 || rows[0].stats.total >= rows[i].stats.total);
        }
    }
}

/// What rows tell of skills and attackers: what was counted of each, and of how much in all.
pub proof fn law_skill_rows(
    v: EncounterView,
    e: EntityView,
    names: Map<i32, String>,
    bosses: Map<u32, String>,
    ms: u128,
    skill: i32,
    attacker: i64,
)
    ensures
        used_skill(e, skill as i64) <==> e.skill_dmg.contains_key(skill),
        skill_row(e, names, ms, skill as i64).stats == e.skill_dmg[skill],
        skill_row(e, names, ms, skill as i64).denominator == e.dmg.total,
        skill_row(e, names, ms, skill as i64).elapsed_ms == ms,
        e.skill_series.contains_key(skill) ==> skill_row(e, names, ms, skill as i64).series
            == e.skill_series[skill],
        e.skill_meta.contains_key(skill) ==> {
            &&& skill_row(e, names, ms, skill as i64).element == e.skill_meta[skill].property
            &&& skill_row(e, names, ms, skill as i64).damage_mode
                == e.skill_meta[skill].damage_mode
        },
        names.contains_key(skill) ==> skill_row(e, names, ms, skill as i64).name == names[skill]@,
        !names.contains_key(skill) ==> skill_row(e, names, ms, skill as i64).name == "不明な技 ("@
            + decimal(skill as int) + ")"@,
        attacker_row(v, e, bosses, attacker).stats == e.taken_by[attacker],
        attacker_row(v, e, bosses, attacker).denominator == e.taken.total,
        hit_with(e, attacker, skill as i64) <==> e.taken_by_skill.contains_key(
            pair_key(attacker, skill),
        ),
        taken_skill_row(e, names, ms, attacker, skill as i64).stats == e.taken_by_skill[pair_key(
            attacker,
            skill,
        )],
        e.taken_by.contains_key(attacker) ==> taken_skill_row(
            e,
            names,
            ms,
            attacker,
            skill as i64,
        ).denominator == e.taken_by[attacker].total,
{
}

/// Attackers are shown by name where they have one: players by their own, bosses by theirs. Others
/// are shown by number.
pub proof fn law_attacker_names(v: EncounterView, bosses: Map<u32, String>, uid: i64, id: u32)
    ensures
        !v.entities.contains_key(uid) ==> attacker_name(v, bosses, uid) == "#"@ + decimal(
            uid as int % 65536,
        ),
        v.entities.contains_key(uid) && v.entities[uid].entity_type == EntityKind::Player ==> {
            &&& v.entities[uid].profile.name matches Some(name) ==> attacker_name(v, bosses, uid)
                == name
            &&& v.entities[uid].profile.name is None ==> attacker_name(v, bosses, uid)
                == "プレイヤー#"@ + decimal(uid as int % 65536)
        },
        v.entities.contains_key(uid) && v.entities[uid].entity_type != EntityKind::Player ==> {
            &&& v.entities[uid].monster_id == Some(id) && bosses.contains_key(id) ==> attacker_name(
                v,
                bosses,
                uid,
            ) == bosses[id]@
            &&& v.entities[uid].monster_id == Some(id) && !bosses.contains_key(id)
                ==> attacker_name(v, bosses, uid) == "モンスター#"@ + decimal(id as int)
            &&& v.entities[uid].monster_id is None ==> attacker_name(v, bosses, uid) == "#"@
                + decimal(uid as int % 65536)
        },
{
}

/// What remains of an encounter: its times, its damage, its course, who took part, and a row for each
/// player who dealt damage.
pub proof fn law_snapshots(
    s: SnapshotView,
    v: EncounterView,
    selected: Option<i64>,
    now: u128,
    uid: i64,
)
    requires
        is_snapshot(s, v, selected, now),
        v.start_ms <= v.last_ms,
    ensures
        s.start_ms == v.start_ms && s.end_ms == v.last_ms && s.duration_ms == v.last_ms
            - v.start_ms,
        s.total_dmg == v.dmg.total,
        s.series == v.series,
        s.participants.contains(uid) <==> v.participants.contains(uid),
        selected is Some && !v.has_selected ==> s.rows.len() == 0,
        selected is None || v.has_selected ==> ((exists|i: int|
            0 <= i < s.rows.len() && (#[trigger] s.rows[i]).uid == uid) <==> (
        v.entities.contains_key(uid) && v.entities[uid].entity_type == EntityKind::Player
            && v.entities[uid].dmg.total != 0)),
{
    assert(s.participants.to_set().contains(uid) <==> s.participants.contains(uid));
    if selected is None || v.has_selected {
        if exists|i: int| 0 <= i < s.rows.len() && (#[trigger] s.rows[i]).uid == uid {
            let i = choose|i: int| 0 <= i < s.rows.len() && (#[trigger] s.rows[i]).uid == uid;
            assert(listed(v, StatType::Dmg, false, s.rows[i].uid));
        }
        if v.entities.contains_key(uid) && v.entities[uid].entity_type == EntityKind::Player
            && v.entities[uid].dmg.total != 0 {
            assert(listed(v, StatType::Dmg, false, uid));
        }
    }
}

/// The time since something was seen grows as time passes; there is none where nothing was seen.
pub proof fn law_time_since(at: u64, now: u64)
    ensures
        at == 0 <==> since(at, now) is None,
        0 < at <= now ==> since(at, now) == Some((now - at) as u64),
        at > now ==> since(at, now) == Some(0u64),
{
}

/// Of the effects of each imagine, the one that lasts longest is shown, with what is known of it,
/// and no other.
pub proof fn law_imagines_are_shown(
    buffs: Seq<SelfBuffSnapshot>,
    snaps: Seq<BuffStateSnapshot>,
    i: int,
)
    requires
        shows_imagines(buffs, snaps),
        0 <= i < snaps.len(),
        snaps[i].base_id == 2110050 || snaps[i].base_id == 2110055 || snaps[i].base_id == 2110056
            || snaps[i].base_id == 2110057,
    ensures
        exists|b: int|
            {
                &&& 0 <= b < buffs.len()
                &&& (#[trigger] buffs[b]).base_id == snaps[i].base_id
                &&& buffs[b].remaining_ms >= snaps[i].remaining_ms
                &&& buffs[b].kind@ == (if snaps[i].base_id == 2110050 {
                    "Basilisk"@
                } else if snaps[i].base_id == 2110055 {
                    "Tarta"@
                } else if snaps[i].base_id == 2110056 {
                    "Tina"@
                } else {
                    "Aluna"@
                })
            },
        forall|b: int|
            0 <= b < buffs.len() ==> exists|j: int|
                0 <= j < snaps.len() && (#[trigger] snaps[j]).base_id == (
                #[trigger] buffs[b]).base_id && snaps[j].remaining_ms == buffs[b].remaining_ms
                    && snaps[j].buff_uuid == buffs[b].buff_uuid && snaps[j].duration_ms
                    == buffs[b].duration_ms && snaps[j].layer == buffs[b].layer
                    && snaps[j].received_at_local_ms == buffs[b].received_at_ms,
{
    let kind = kind_at(snaps, i);
    assert(occurs(snaps, kind));
    let b = choose|b: int| 0 <= b < buffs.len() && #[trigger] shows_longest(buffs[b], snaps, kind);
    let j = choose|j: int| #[trigger]
        lasts_longest(snaps, kind, j) && crate::compute::buffs::shows_effect(
            buffs[b],
            snaps[j],
            kind,
        );
    assert(kind_at(snaps, i) == kind && kind_at(snaps, j) == kind);
    assert(buffs[b].base_id == snaps[i].base_id);
    assert forall|b: int| 0 <= b < buffs.len() implies exists|j: int|
        0 <= j < snaps.len() && (#[trigger] snaps[j]).base_id == (#[trigger] buffs[b]).base_id
            && snaps[j].remaining_ms == buffs[b].remaining_ms && snaps[j].buff_uuid
            == buffs[b].buff_uuid && snaps[j].duration_ms == buffs[b].duration_ms
            && snaps[j].layer == buffs[b].layer && snaps[j].received_at_local_ms
            == buffs[b].received_at_ms by {
        assert(crate::compute::buffs::shows_some_imagine(buffs[b], snaps));
        let kind = choose|kind: BuffSourceKind|
            kind != BuffSourceKind::Other && #[trigger] shows_longest(buffs[b], snaps, kind);
        let j = choose|j: int| #[trigger]
            lasts_longest(snaps, kind, j) && crate::compute::buffs::shows_effect(
                buffs[b],
                snaps[j],
                kind,
            );
        assert(snaps[j].base_id == buffs[b].base_id);
    }
}

/// The places of what is shown: all of them, in order.
proof fn lemma_shown_places(snaps: Seq<BuffStateSnapshot>, debuff: bool, i: int)
    ensures
        forall|x: int|
            0 <= x < shown_places(snaps, debuff).len() ==> 0 <= (#[trigger] shown_places(
                snaps,
                debuff,
            )[x]) < snaps.len() && is_shown(snaps[shown_places(snaps, debuff)[x]], debuff),
        0 <= i < snaps.len() && is_shown(snaps[i], debuff) ==> shown_places(
            snaps,
            debuff,
        ).contains(i),
    decreases snaps.len(),
{
    if snaps.len() > 0 {
        let rest = snaps.drop_last();
        let before = shown_places(rest, debuff);
        let now = shown_places(snaps, debuff);
        lemma_shown_places(rest, debuff, i);
        assert forall|x: int| 0 <= x < now.len() implies 0 <= (#[trigger] now[x]) < snaps.len()
            && is_shown(snaps[now[x]], debuff) by {
            if x < before.len() {
                assert(now[x] == before[x]);
                assert(rest[before[x]] == snaps[before[x]]);
            }
        }
        if 0 <= i < snaps.len() && is_shown(snaps[i], debuff) {
            if i < rest.len() {
                assert(rest[i] == snaps[i]);
                let x = choose|x: int| 0 <= x < before.len() && before[x] == i;
                assert(now[x] == i);
            } else {
                assert(now[now.len() - 1] == i);
            }
        }
    }
}

/// An effect on the own character is shown exactly where it is known and not hidden: harmful ones
/// apart from the others. What lasts longest comes first, and no time left is below 0.
pub proof fn law_effects_are_shown(
    list: Seq<SelfStatusEntry>,
    snaps: Seq<BuffStateSnapshot>,
    debuff: bool,
    i: int,
)
    requires
        shows_statuses(list, snaps, debuff),
    ensures
        0 <= i < snaps.len() && (meta_of(snaps[i].base_id) matches Some(meta) && !(meta.priority
            is Hidden) && (debuff <==> meta.category is Debuff)) ==> exists|x: int|
            0 <= x < list.len() && (#[trigger] list[x]).base_id == snaps[i].base_id
                && list[x].instance_id == snaps[i].buff_uuid && list[x].duration_ms
                == snaps[i].duration_ms && list[x].layer == snaps[i].layer
                && list[x].remaining_ms == (if snaps[i].remaining_ms < 0 {
                0
            } else {
                snaps[i].remaining_ms as int
            }),
        forall|x: int|
            0 <= x < list.len() ==> list[x].remaining_ms >= 0 && (meta_of(
                (#[trigger] list[x]).base_id,
            ) matches Some(meta) && !(meta.priority is Hidden) && (debuff <==> meta.category
                is Debuff) && list[x].category@ == meta.category.name() && list[x].priority@
                == meta.priority.name()),
        forall|x: int, y: int|
            0 <= x < y < list.len() ==> (#[trigger] list[x]).remaining_ms >= (
            #[trigger] list[y]).remaining_ms,
{
    let places = shown_places(snaps, debuff);
    let keys = times_left(snaps, places);
    let order = choose|order: Seq<usize>| #[trigger]
        is_descending(keys, order) && list.len() == places.len() && forall|i: int|
            0 <= i < list.len() ==> crate::compute::buffs::shows_status(
                #[trigger] list[i],
                snaps[places[order[i] as int]],
            );
    lemma_shown_places(snaps, debuff, i);
    if 0 <= i < snaps.len() && is_shown(snaps[i], debuff) {
        let p = choose|p: int| 0 <= p < places.len() && places[p] == i;
        lemma_order_holds_all(keys, order, p);
        let x = choose|x: int| 0 <= x < order.len() && order[x] == p;
        assert(crate::compute::buffs::shows_status(list[x], snaps[places[order[x] as int]]));
        assert(list[x].base_id == snaps[i].base_id);
    }
    assert forall|x: int| 0 <= x < list.len() implies list[x].remaining_ms >= 0 && (meta_of(
        (#[trigger] list[x]).base_id,
    ) matches Some(meta) && !(meta.priority is Hidden) && (debuff <==> meta.category is Debuff)
        && list[x].category@ == meta.category.name() && list[x].priority@
        == meta.priority.name()) by {
        assert(crate::compute::buffs::shows_status(list[x], snaps[places[order[x] as int]]));
        assert(order[x] < keys.len());
        assert(is_shown(snaps[places[order[x] as int]], debuff));
    }
    assert forall|x: int, y: int| 0 <= x < y < list.len() implies (#[trigger] list[x]).remaining_ms
        >= (#[trigger] list[y]).remaining_ms by {
        assert(stands_before(keys, order[x] as int, order[y] as int));
        assert(order[x] < keys.len() && order[y] < keys.len());
        assert(keys[order[x] as int] == time_left(snaps[places[order[x] as int]]));
        assert(keys[order[y] as int] == time_left(snaps[places[order[y] as int]]));
        assert(crate::compute::buffs::shows_status(list[x], snaps[places[order[x] as int]]));
        assert(crate::compute::buffs::shows_status(list[y], snaps[places[order[y] as int]]));
    }
}

/// Chosen players are shown in their order, under the names that are remembered of them.
pub proof fn law_chosen_players_are_shown(
    d: TrackedBuffsData,
    players: Seq<(i64, Vec<BuffStateSnapshot>)>,
    names: Map<i64, CachedView>,
    i: int,
)
    requires
        shows_tracked(d, players, names),
        0 <= i < players.len(),
    ensures
        d.players@.len() == players.len(),
        d.players@[i].uid == players[i].0,
        names.contains_key(players[i].0) ==> d.players@[i].name@ == names[players[i].0].name,
        !names.contains_key(players[i].0) ==> d.players@[i].name@.len() == 0,
        shows_imagines(d.players@[i].buffs@, players[i].1@),
{
}

} // verus!
