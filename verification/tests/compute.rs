use bpsr_module_optimizer::capture::status::{
    mark_game_packet, mark_packet, set_state, state_name, CaptureStatus, STATE_FAILED,
    STATE_RUNNING,
};
use bpsr_module_optimizer::compute::{
    aggregate_player_buffs, build_encounter_snapshot, cancel_3min_measure_mode, clear_consumables,
    clear_history, finalize_3min_locked, get_capture_status, get_dmg_taken_attackers,
    get_dmg_taken_players, get_dmg_taken_skills, get_dps_boss_players, get_dps_players,
    get_header_info, get_heal_players, get_history, get_measure_mode_status, get_selected_uid,
    get_self_buff_status, get_skills, get_tracked_buffs, is_paused, load_consumables,
    lookup_name_cache, refresh_consumables, reset_encounter, seal_3min_series, set_combat_exit_timeout,
    set_history_limit, set_imagine_only_mode, set_selected_uid, set_time_series_config,
    start_3min_measure_mode, toggle_pause,
};
use bpsr_module_optimizer::engine::buff_state::BuffStateSnapshot;
use bpsr_module_optimizer::engine::class::{Class, ClassTable};
use bpsr_module_optimizer::engine::consumables::ConsumableIds;
use bpsr_module_optimizer::engine::damage::apply_damages;
use bpsr_module_optimizer::engine::demo::{
    boss_uuid, make_record, player_uuid, set_stage, BOSS_UID,
};
use bpsr_module_optimizer::engine::encounter::{
    ConsumableTimer, Encounter, MeasureMode, PlayerConsumables,
};
use bpsr_module_optimizer::engine::entity::Entity;
use bpsr_module_optimizer::engine::history::{push, History};
use bpsr_module_optimizer::engine::name_cache::{NameCache, NameUpdate};
use bpsr_module_optimizer::engine::rules::Rules;
use bpsr_module_optimizer::engine::runtime_settings::RuntimeSettings;
use bpsr_module_optimizer::engine::selected_uid::SelectedUid;
use bpsr_module_optimizer::models::EncounterSnapshot;
use bpsr_module_optimizer::order::order_desc;
use bpsr_module_optimizer::protocol::messages::EntityKind;
use std::collections::HashMap;

/// When the windows are looked at.
const NOW: u128 = 1_000_000;

fn snap(base_id: i32, remaining_ms: i64) -> BuffStateSnapshot {
    BuffStateSnapshot {
        buff_uuid: base_id,
        base_id,
        fire_uuid: 0,
        received_at_local_ms: 0,
        duration_ms: remaining_ms,
        remaining_ms,
        layer: 1,
        count: 1,
        create_time_server: 0,
    }
}

#[test]
fn recast_id_is_ignored_even_when_mixed_with_debuff() {
    for snaps in [
        vec![snap(392101, 150_000), snap(2110056, 60_000)],
        vec![snap(2110056, 60_000), snap(392101, 150_000)],
    ] {
        let result = aggregate_player_buffs(snaps, 1, "self".into());
        assert_eq!(result.buffs.len(), 1);
        let b = &result.buffs[0];
        assert_eq!(b.kind, "Tina");
        assert_eq!(b.base_id, 2110056);
        assert_eq!(b.remaining_ms, 60_000);
    }
}

#[test]
fn recast_id_alone_shows_nothing() {
    let result = aggregate_player_buffs(vec![snap(392101, 150_000)], 1, "self".into());
    assert_eq!(result.buffs.len(), 0);
}

#[test]
fn debuff_only_is_kept() {
    let result = aggregate_player_buffs(vec![snap(2110056, 45_000)], 1, "self".into());
    assert_eq!(result.buffs.len(), 1);
    assert_eq!(result.buffs[0].base_id, 2110056);
}

#[test]
fn longest_remaining_wins_within_same_source() {
    let result = aggregate_player_buffs(
        vec![snap(2110056, 30_000), snap(2110056, 50_000)],
        1,
        "self".into(),
    );
    assert_eq!(result.buffs.len(), 1);
    assert_eq!(result.buffs[0].remaining_ms, 50_000);
}

#[test]
fn each_imagine_is_shown_once() {
    let mut names = NameCache::new();
    names.update(
        4,
        NameUpdate {
            name: Some("Nox".to_string()),
            class_id: None,
            ability_score: None,
            season_level: None,
            season_strength: None,
        },
    );
    let data = get_tracked_buffs(
        vec![
            (4, vec![snap(2110050, 5), snap(2110057, 9), snap(2110050, 7)]),
            (6, vec![]),
        ],
        &names,
        99,
        4,
    );
    assert_eq!((data.now_ms, data.local_player_uid), (99, 4));
    assert_eq!(data.players.len(), 2);
    assert_eq!(data.players[0].name, "Nox");
    let mut kinds: Vec<(String, i64)> = data.players[0]
        .buffs
        .iter()
        .map(|b| (b.kind.clone(), b.remaining_ms))
        .collect();
    kinds.sort();
    assert_eq!(kinds, vec![("Aluna".to_string(), 9), ("Basilisk".to_string(), 7)]);
    assert_eq!(data.players[1].name, "");
    assert!(data.players[1].buffs.is_empty());
}

#[test]
fn own_effects_are_sorted_by_time_left() {
    let snaps = vec![
        snap(802911, 100),
        snap(3210111, -5),
        snap(3210071, 300),
        snap(683624, 300),
        snap(1, 900),
    ];
    let d = get_self_buff_status(&snaps, 8, 55);
    assert_eq!((d.now_ms, d.local_player_uid), (55, 8));
    let ids: Vec<i32> = d.buffs.iter().map(|b| b.base_id).collect();
    assert_eq!(ids, vec![3210071, 683624, 3210111]);
    assert_eq!(d.buffs[2].remaining_ms, 0);
    assert_eq!((d.buffs[1].category.as_str(), d.buffs[1].priority.as_str()), ("recovery", "high"));
    assert_eq!(d.debuffs.len(), 1);
    assert_eq!(d.debuffs[0].category, "debuff");
    assert_eq!(d.debuffs[0].instance_id, 802911);
    let none = get_self_buff_status(&snaps, 0, 55);
    assert!(none.buffs.is_empty() && none.debuffs.is_empty());
    assert_eq!(none.now_ms, 0);
}

fn rules() -> Rules {
    let mut boss_names = HashMap::new();
    boss_names.insert(118u32, "dummy".to_string());
    let mut skill_names = HashMap::new();
    skill_names.insert(21, "slash".to_string());
    Rules {
        settings: RuntimeSettings::default(),
        selected: None,
        boss_names,
        skill_names,
        classes: ClassTable {
            professions: HashMap::new(),
            other: Class::Unknown,
            skill_specs: HashMap::new(),
            spec_classes: HashMap::new(),
        },
    }
}

fn fight() -> Encounter {
    let r = rules();
    let names = NameCache::new();
    let mut enc = Encounter::new();
    set_stage(&mut enc);
    let a = player_uuid(3);
    let b = player_uuid(70_004);
    let list = vec![
        make_record(a, 21, 100, false, false, false),
        make_record(a, 22, 400, true, false, false),
        make_record(b, 21, 900, false, false, false),
        make_record(b, 23, 50, false, false, true),
    ];
    apply_damages(&mut enc, &names, BOSS_UID, EntityKind::Monster, &list, &r);
    let taken = vec![
        make_record(boss_uuid(), 31, 7, false, false, false),
        make_record(boss_uuid(), 32, 9, false, false, false),
        make_record(b, 33, 20, false, false, false),
    ];
    apply_damages(&mut enc, &names, 3, EntityKind::Player, &taken, &r);
    enc.time_fight_start_ms = 1000;
    enc.time_last_combat_packet_ms = 4000;
    enc
}

#[test]
fn players_are_listed_from_the_largest_total_down() {
    let mut enc = fight();
    enc.entities.insert(55, Entity::new(EntityKind::Player));
    let w = get_dps_players(&enc, None, NOW);
    let rows: Vec<(i64, i64)> = w.player_rows.iter().map(|r| (r.uid, r.stats.total)).collect();
    assert_eq!(rows, vec![(70_004, 920), (3, 500)]);
    assert_eq!(w.top_value, 920);
    assert_eq!(w.local_player_uid, 90001);
    let row = &w.player_rows[0];
    assert_eq!(row.name, "プレイヤー#4468");
    assert!(!row.name_resolved);
    assert_eq!((row.ability_score, row.elapsed_ms), (-1, 3000));
    assert_eq!(row.encounter_total, 1436);
    let mut meals = HashMap::new();
    meals.insert(
        55,
        PlayerConsumables {
            food: Some(ConsumableTimer {
                base_id: 2032011,
                duration_ms: 1_800_000,
                ends_at_ms: NOW - 4,
            }),
            syrup: None,
        },
    );
    load_consumables(&mut enc, meals);
    let w = get_dps_players(&enc, None, NOW);
    assert_eq!(w.player_rows.len(), 3, "who only ate is listed");
    let last = &w.player_rows[2];
    assert_eq!((last.uid, last.consumable.food_base_id), (55, 2032011));
    assert_eq!(last.consumable.food_remaining_ms, 0);
    assert_eq!(build_encounter_snapshot(&enc, None, NOW).player_rows.len(), 2);
    clear_consumables(&mut enc);
    assert_eq!(get_dps_players(&enc, None, NOW).player_rows.len(), 2);

    let boss = get_dps_boss_players(&enc, None, NOW);
    assert_eq!(boss.player_rows[0].stats.total, 900);
    let heal = get_heal_players(&enc, None, NOW);
    assert_eq!(heal.player_rows.len(), 1);
    let taken = get_dmg_taken_players(&enc, None, NOW);
    assert_eq!((taken.player_rows.len(), taken.top_value), (1, 36));

    let hidden = get_dps_players(&enc, Some(8), NOW);
    assert!(hidden.player_rows.is_empty());
    assert_eq!((hidden.local_player_uid, hidden.top_value), (0, 0));
    assert_eq!(get_header_info(&enc, Some(8)).total_dmg, 0);
    let h = get_header_info(&enc, None);
    assert_eq!((h.total_dmg, h.elapsed_ms, h.time_last_combat_packet_ms), (1436, 3000, 4000));
    enc.has_selected_participant = true;
    assert_eq!(get_dps_players(&enc, Some(8), NOW).local_player_uid, 8);
}

#[test]
fn skills_and_attackers_are_listed() {
    let enc = fight();
    let r = rules();
    let w = get_skills(&enc, &r.skill_names, 3).unwrap();
    let rows: Vec<(i64, &str, i64)> = w
        .skill_rows
        .iter()
        .map(|s| (s.uid, s.name.as_str(), s.stats.total))
        .collect();
    assert_eq!(rows, vec![(22, "不明な技 (22)", 400), (21, "slash", 100)]);
    assert_eq!(w.skill_rows[0].denominator, 500);
    assert_eq!(w.inspected_player.stats.total, 500);
    let w = get_dmg_taken_attackers(&enc, &r.boss_names, 3).unwrap();
    let rows: Vec<(i64, &str, i64)> = w
        .skill_rows
        .iter()
        .map(|s| (s.uid, s.name.as_str(), s.stats.total))
        .collect();
    assert_eq!(rows, vec![(70_004, "プレイヤー#4468", 20), (BOSS_UID, "dummy", 16)]);
    let w = get_dmg_taken_skills(&enc, &r.skill_names, 3, BOSS_UID).unwrap();
    let rows: Vec<(i64, i64)> = w.skill_rows.iter().map(|s| (s.uid, s.stats.total)).collect();
    assert_eq!(rows, vec![(32, 9), (31, 7)]);
    assert_eq!((w.top_value, w.skill_rows[0].denominator), (9, 16));
    let none = get_dmg_taken_skills(&enc, &r.skill_names, 3, 12345).unwrap();
    assert!(none.skill_rows.is_empty());
    assert_eq!(none.top_value, 0);
    let error = "Could not find player with uid -9";
    assert_eq!(get_skills(&enc, &r.skill_names, -9).err().unwrap(), error);
    assert_eq!(get_dmg_taken_attackers(&enc, &r.boss_names, -9).err().unwrap(), error);
    assert_eq!(get_dmg_taken_skills(&enc, &r.skill_names, -9, 1).err().unwrap(), error);
}

#[test]
fn attackers_without_a_name_get_a_stand_in() {
    let r = rules();
    let names = NameCache::new();
    let mut enc = Encounter::new();
    let mut wolf = Entity::new(EntityKind::Monster);
    wolf.monster_id = Some(7);
    enc.entities.insert(12, wolf);
    let hits = vec![
        make_record((12 << 16) | 64, 1, 5, false, false, false),
        make_record((65_549 << 16) | 64, 1, 4, false, false, false),
    ];
    apply_damages(&mut enc, &names, 3, EntityKind::Player, &hits, &r);
    let w = get_dmg_taken_attackers(&enc, &r.boss_names, 3).unwrap();
    let list: Vec<&str> = w.skill_rows.iter().map(|s| s.name.as_str()).collect();
    assert_eq!(list, vec!["モンスター#7", "#13"]);
}

#[test]
fn measurements_start_run_and_end() {
    let mut enc = fight();
    let mut history = History::new();
    let s = RuntimeSettings::default();
    let normal = get_measure_mode_status(&enc, 0);
    assert_eq!((normal.kind.as_str(), normal.duration_ms), ("normal", None));
    start_3min_measure_mode(&mut enc, 10);
    assert_eq!(enc.measure_mode, MeasureMode::Pending3Min { duration_ms: 1000 });
    assert_eq!(enc.dmg_stats.total, 0);
    assert_eq!(get_measure_mode_status(&enc, 0).kind, "pending");
    let mut enc = fight();
    enc.measure_mode = MeasureMode::Active3Min {
        armed_at_ms: 1000,
        duration_ms: 180_000,
    };
    let m = get_measure_mode_status(&enc, 4000);
    assert_eq!((m.kind.as_str(), m.remaining_ms), ("active", Some(177_000)));
    assert_eq!(get_measure_mode_status(&enc, 500).remaining_ms, Some(180_000));
    assert_eq!(get_measure_mode_status(&enc, 999_000).remaining_ms, Some(0));
    seal_3min_series(&mut enc, &s);
    assert_eq!(enc.time_series.back().unwrap().t_ms, 3000);
    let snapshot = finalize_3min_locked(&mut enc, &mut history, &s, None, NOW);
    assert_eq!((snapshot.id, snapshot.total_dmg), (0, 1436));
    assert_eq!(enc.measure_mode, MeasureMode::Normal);
    assert_eq!(get_history(&history, None)[0].id, 1);
    let empty = finalize_3min_locked(&mut enc, &mut history, &s, None, NOW);
    assert!(empty.player_rows.is_empty());
    assert_eq!(get_history(&history, None).len(), 1, "nothing to remember");
    start_3min_measure_mode(&mut enc, 5000);
    cancel_3min_measure_mode(&mut enc);
    assert_eq!(enc.measure_mode, MeasureMode::Normal);
}

fn remembered(uids: &[i64]) -> EncounterSnapshot {
    EncounterSnapshot {
        id: 0,
        start_ms: 0,
        end_ms: 0,
        duration_ms: 0,
        total_dmg: 1,
        player_rows: Vec::new(),
        time_series: Vec::new(),
        participant_player_uids: uids.to_vec(),
    }
}

#[test]
fn history_keeps_the_newest() {
    let mut history = History::new();
    let mut s = RuntimeSettings::default();
    push(&mut history, remembered(&[1]), 3);
    push(&mut history, remembered(&[2]), 3);
    push(&mut history, remembered(&[]), 3);
    push(&mut history, remembered(&[1, 2]), 3);
    let ids: Vec<u64> = get_history(&history, None).iter().map(|h| h.id).collect();
    assert_eq!(ids, vec![4, 3, 2]);
    let ids: Vec<u64> = get_history(&history, Some(1)).iter().map(|h| h.id).collect();
    assert_eq!(ids, vec![4, 3]);
    set_history_limit(&mut s, &mut history, 1);
    assert_eq!((s.history_limit, get_history(&history, None).len()), (1, 1));
    clear_history(&mut history);
    assert!(get_history(&history, None).is_empty());
    push(&mut history, remembered(&[1]), 3);
    assert_eq!(get_history(&history, None)[0].id, 5);
}

#[test]
fn controls_change_what_they_say() {
    let mut enc = fight();
    toggle_pause(&mut enc);
    assert!(is_paused(&enc));
    toggle_pause(&mut enc);
    assert!(!is_paused(&enc));
    let mut s = RuntimeSettings::default();
    set_combat_exit_timeout(&mut s, 1234);
    set_time_series_config(&mut s, 0, 10);
    assert_eq!((s.combat_exit_timeout_ms, s.ts_samples, s.ts_interval_ms), (1234, 1, 50));
    set_time_series_config(&mut s, 9, 60);
    assert_eq!((s.ts_samples, s.ts_interval_ms), (9, 60));
    assert!(!set_imagine_only_mode(&mut s, &mut enc, false));
    assert_eq!(enc.dmg_stats.total, 1436);
    assert!(set_imagine_only_mode(&mut s, &mut enc, true));
    assert_eq!(enc.dmg_stats.total, 0);
    let mut enc = fight();
    enc.measure_mode = MeasureMode::Pending3Min { duration_ms: 1 };
    reset_encounter(&mut enc);
    assert_eq!(enc.measure_mode, MeasureMode::Normal);
    assert_eq!(enc.local_player_uid, 90001);
    let mut selected = SelectedUid { uid: None };
    set_selected_uid(&mut selected, &mut enc, Some(5));
    assert_eq!((get_selected_uid(&selected), enc.local_player_uid), (Some(5), 5));
    set_selected_uid(&mut selected, &mut enc, None);
    assert_eq!((get_selected_uid(&selected), enc.local_player_uid), (None, 0));
    let mut names = NameCache::new();
    assert!(lookup_name_cache(&names, 3).is_none());
    names.update(
        3,
        NameUpdate {
            name: Some("Tio".to_string()),
            class_id: Some(9),
            ability_score: None,
            season_level: None,
            season_strength: None,
        },
    );
    let d = lookup_name_cache(&names, 3).unwrap();
    assert_eq!((d.name.as_str(), d.class_id, d.ability_score), ("Tio", Some(9), None));
}

#[test]
fn capture_status_is_shown() {
    let mut status = CaptureStatus::new();
    let d = get_capture_status(&status, 10);
    assert_eq!((d.state, d.ms_since_last_packet), (0, None));
    set_state(&mut status, STATE_RUNNING);
    mark_packet(&mut status, 100);
    mark_game_packet(&mut status, 90);
    let d = get_capture_status(&status, 95);
    assert_eq!((d.state, d.packets_total), (1, 1));
    assert_eq!((d.ms_since_last_packet, d.ms_since_last_game_packet), (Some(0), Some(5)));
    assert_eq!(state_name(STATE_RUNNING), "running");
    assert_eq!(state_name(STATE_FAILED), "failed");
    assert_eq!(state_name(0), "init");
}

#[test]
fn order_is_stable() {
    assert_eq!(order_desc(&vec![3, 9, 3, -1, 9]), vec![1, 4, 0, 2, 3]);
    assert!(order_desc(&Vec::new()).is_empty());
}

#[test]
fn meals_last_until_they_end() {
    let mut enc = Encounter::new();
    let ids = ConsumableIds {
        food: vec![2032011],
        syrup: vec![2032012],
    };
    let seen = vec![
        (7, vec![snap(2032011, 60_000), snap(1, 5)]),
        (8, vec![snap(2032012, 30_000), snap(2032011, 0)]),
        (9, vec![snap(1, 5)]),
    ];
    refresh_consumables(&mut enc, &seen, &ids, NOW);
    assert_eq!(enc.consumables.len(), 2, "others are not remembered");
    let food = enc.consumables[&7].food.unwrap();
    assert_eq!((food.base_id, food.duration_ms), (2032011, 60_000));
    assert_eq!(food.ends_at_ms, NOW + 60_000);
    assert!(enc.consumables[&8].food.is_none());
    assert_eq!(enc.consumables[&8].syrup.unwrap().ends_at_ms, NOW + 30_000);

    let nothing = vec![];
    refresh_consumables(&mut enc, &nothing, &ids, NOW + 29_999);
    assert_eq!(enc.consumables.len(), 2, "what is not seen stays");
    enc.entities.insert(7, Entity::new(EntityKind::Player));
    let left = |enc: &Encounter, now| get_dps_players(enc, None, now).player_rows[0].consumable.food_remaining_ms;
    assert_eq!(left(&enc, NOW), 60_000);
    assert_eq!(left(&enc, NOW + 59_000), 1_000);
    refresh_consumables(&mut enc, &nothing, &ids, NOW + 30_000);
    assert_eq!(enc.consumables.len(), 1, "until it ends");

    let again = vec![(7, vec![snap(2032011, 90_000)])];
    refresh_consumables(&mut enc, &again, &ids, NOW + 40_000);
    assert_eq!(enc.consumables[&7].food.unwrap().ends_at_ms, NOW + 130_000);
    refresh_consumables(&mut enc, &nothing, &ids, NOW + 130_000);
    assert!(enc.consumables.is_empty());
}
