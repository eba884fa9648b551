use bpsr_module_optimizer::capture::server::Server;
use bpsr_module_optimizer::engine::attributes::process_player_attrs;
use bpsr_module_optimizer::engine::buff_action::BuffAction;
use bpsr_module_optimizer::engine::calculator::{DefaultCalculator, StatisticsCalculator};
use bpsr_module_optimizer::engine::class::{Class, ClassSpec, ClassTable};
use bpsr_module_optimizer::engine::combat_stats::{record_fits, CombatStats};
use bpsr_module_optimizer::engine::connection::should_accept;
use bpsr_module_optimizer::engine::damage::apply_damages;
use bpsr_module_optimizer::engine::demo::{
    boss_uuid, first_hit, is_alive, make_record, player_uuid, set_stage, Rng, BOSS_UID,
};
use bpsr_module_optimizer::engine::encounter::{Encounter, MeasureMode};
use bpsr_module_optimizer::engine::entity::{pair_key_of, Entity};
use bpsr_module_optimizer::engine::history::{self, History};
use bpsr_module_optimizer::engine::name_cache::{NameCache, NameUpdate};
use bpsr_module_optimizer::engine::processor::process_opcode;
use bpsr_module_optimizer::engine::room::{encounter_has_room, has_room_for, has_room_for_change};
use bpsr_module_optimizer::engine::rules::Rules;
use bpsr_module_optimizer::engine::runtime_settings::RuntimeSettings;
use bpsr_module_optimizer::engine::sampling::take_time_series_sample;
use bpsr_module_optimizer::engine::scene::process_scene_delta;
use bpsr_module_optimizer::protocol::constants::get_player_uid;
use bpsr_module_optimizer::protocol::messages::{
    AppearEntity, BuffEvent, BuffPayload, CharBase, DamageRecord, DmgKind, EntityKind, Item,
    LocalDelta, Message, Package, PlayerSnapshot, RawAttr, SceneDelta,
};
use bpsr_module_optimizer::protocol::opcodes::Pkt;
use std::collections::HashMap;

fn settings(samples: usize, interval_ms: u64) -> RuntimeSettings {
    RuntimeSettings {
        ts_samples: samples,
        ts_interval_ms: interval_ms,
        ..RuntimeSettings::default()
    }
}

fn classes() -> ClassTable {
    let mut professions = HashMap::new();
    professions.insert(1, Class::Known(1));
    let mut skill_specs = HashMap::new();
    skill_specs.insert(1714, ClassSpec::Known(7));
    let mut spec_classes = HashMap::new();
    spec_classes.insert(7, Class::Known(1));
    ClassTable {
        professions,
        other: Class::Unknown,
        skill_specs,
        spec_classes,
    }
}

fn rules() -> Rules {
    let mut boss_names = HashMap::new();
    boss_names.insert(118u32, "dummy".to_string());
    let mut skill_names = HashMap::new();
    skill_names.insert(1714, "thunder".to_string());
    Rules {
        settings: RuntimeSettings::default(),
        selected: None,
        boss_names,
        skill_names,
        classes: classes(),
    }
}

fn active(duration_ms: u128) -> Encounter {
    let mut enc = Encounter::new();
    enc.measure_mode = MeasureMode::Active3Min {
        armed_at_ms: 0,
        duration_ms,
    };
    enc.entities.insert(1, Entity::new(EntityKind::Player));
    enc
}

fn hits(uuid: i64, list: Vec<DamageRecord>) -> SceneDelta {
    SceneDelta {
        uuid,
        attrs: None,
        buff_list: None,
        damages: Some(list),
    }
}

fn conn(port: u16) -> Server {
    Server::new([1, 2, 3, 4], port, [10, 0, 0, 1], 5000)
}

#[test]
fn three_min_series_spans_full_window() {
    let s = settings(60, 1000);
    let window_ms: u128 = 90_000;
    let interval: u128 = 1000;
    let mut enc = active(window_ms);

    let mut ts: u128 = 0;
    while ts <= window_ms {
        enc.dmg_stats.total += 1000;
        enc.entities.get_mut(&1).unwrap().dmg_stats.total += 1000;
        enc.time_last_combat_packet_ms = ts;
        take_time_series_sample(&mut enc, &s, ts, false);
        ts += interval;
    }

    assert!(
        enc.time_series.len() > 60,
        "series truncated to cap: {}",
        enc.time_series.len()
    );
    assert_eq!(
        enc.time_series.front().unwrap().t_ms as f64,
        0.0,
        "left edge not at 0"
    );
    assert_eq!(
        enc.time_series.back().unwrap().t_ms as f64,
        window_ms as f64,
        "right edge not at window"
    );

    let p = &enc.entities[&1];
    assert_eq!(p.time_series.front().unwrap().t_ms as f64, 0.0);
    assert_eq!(p.time_series.back().unwrap().t_ms as f64, window_ms as f64);
}

#[test]
fn finalize_force_sample_closes_right_edge() {
    let s = settings(200, 1000);
    let mut enc = active(90_000);

    let mut ts: u128 = 0;
    while ts <= 5000 {
        enc.dmg_stats.total += 1000;
        enc.entities.get_mut(&1).unwrap().dmg_stats.total += 1000;
        enc.time_last_combat_packet_ms = ts;
        take_time_series_sample(&mut enc, &s, ts, false);
        ts += 1000;
    }
    enc.time_last_combat_packet_ms = 5300;
    assert_eq!(enc.time_series.back().unwrap().t_ms as f64, 5000.0);

    let end = enc.time_last_combat_packet_ms;
    take_time_series_sample(&mut enc, &s, end, true);
    assert_eq!(
        enc.time_series.back().unwrap().t_ms as f64,
        5300.0,
        "force sample didn't extend to last_combat"
    );
}

#[test]
fn samples_hold_totals_and_windows() {
    let s = settings(2, 1000);
    let mut enc = Encounter::new();
    enc.time_fight_start_ms = 10_000;
    enc.dmg_stats.total = 500;
    take_time_series_sample(&mut enc, &s, 10_000, false);
    enc.dmg_stats.total = 900;
    take_time_series_sample(&mut enc, &s, 10_500, false);
    assert_eq!(enc.time_series.len(), 1, "not due yet");
    take_time_series_sample(&mut enc, &s, 11_250, false);
    take_time_series_sample(&mut enc, &s, 11_250, true);
    assert_eq!(enc.time_series.len(), 2, "no second point at the same time");
    let p = enc.time_series[0];
    assert_eq!((p.t_ms, p.total_dmg, p.previous_dmg, p.window_ms), (0, 500, 0, 1000));
    let p = enc.time_series[1];
    assert_eq!((p.t_ms, p.total_dmg, p.previous_dmg, p.window_ms), (1250, 900, 500, 1250));
    take_time_series_sample(&mut enc, &s, 13_000, false);
    assert_eq!(enc.time_series.len(), 2, "only as many as set are kept");
    assert_eq!(enc.time_series[0].t_ms, 1250);
    let off = settings(2, 0);
    take_time_series_sample(&mut enc, &off, 20_000, true);
    assert_eq!(enc.time_series[1].t_ms, 3000);
}

#[test]
fn hits_count_for_attacker_target_and_everyone() {
    let rules = rules();
    let names = NameCache::new();
    let mut enc = Encounter::new();
    set_stage(&mut enc);
    let attacker = player_uuid(90001);
    let list = vec![
        make_record(attacker, 1714, 100, false, false, false),
        make_record(attacker, 1714, 200, true, false, false),
        make_record(attacker, 1714, 300, false, true, false),
        make_record(attacker, 20301, 40, false, false, true),
        make_record(0, 1714, 5, false, false, false),
        make_record(attacker, 0, 5, false, false, false),
    ];
    apply_damages(&mut enc, &names, BOSS_UID, EntityKind::Monster, &list, &rules);
    assert_eq!(enc.dmg_stats.total, 600);
    assert_eq!(enc.dmg_stats_boss_only.total, 600);
    assert_eq!(enc.heal_stats.total, 40);
    assert_eq!(enc.dmg_taken_stats.total, 0);
    assert_eq!((enc.dmg_stats.hit_count, enc.dmg_stats.crit_count), (3, 1));
    assert_eq!((enc.dmg_stats.crit_value, enc.dmg_stats.lucky_value), (200, 300));
    assert_eq!(enc.dmg_stats.normal_value, 100);
    let a = &enc.entities[&90001];
    assert_eq!(a.dmg_stats.total, 600);
    assert_eq!(a.skill_uid_to_dps_stats[&1714].hit_count, 3);
    assert_eq!(a.skill_uid_to_heal_stats[&20301].total, 40);
    assert!(matches!(a.class_spec, Some(ClassSpec::Known(7))));
    assert!(matches!(a.class, Some(Class::Known(1))));
    assert!(enc.participant_player_uids.contains(&90001));
    assert!(!enc.participant_player_uids.contains(&BOSS_UID));

    let back = vec![make_record(boss_uuid(), 999, 70, false, false, false)];
    apply_damages(&mut enc, &names, 90001, EntityKind::Player, &back, &rules);
    assert_eq!(enc.dmg_taken_stats.total, 70);
    assert_eq!(enc.dmg_stats.total, 670);
    let a = &enc.entities[&90001];
    assert_eq!(a.dmg_taken_stats.total, 70);
    assert_eq!(a.attacker_uid_to_dmg_taken_stats[&BOSS_UID].total, 70);
    let key = pair_key_of(BOSS_UID, 999);
    assert_eq!(a.attacker_skill_to_dmg_taken_stats[&key].total, 70);
    let sum: i64 = enc.entities.values().map(|e| e.dmg_stats.total).sum();
    assert_eq!(sum, enc.dmg_stats.total);
}

#[test]
fn summoned_hits_count_for_the_summoner() {
    let mut r = rules();
    r.selected = Some(5);
    let names = NameCache::new();
    let mut enc = Encounter::new();
    let mut d = make_record(player_uuid(4), 9, 10, false, false, false);
    d.top_summoner_id = player_uuid(5);
    apply_damages(&mut enc, &names, 7, EntityKind::Monster, &vec![d], &r);
    assert_eq!(enc.entities[&5].dmg_stats.total, 10);
    assert!(!enc.entities.contains_key(&4));
    assert!(enc.has_selected_participant);
    assert_eq!(enc.dmg_stats_boss_only.total, 0);
}

#[test]
fn calculator_adds_records() {
    let mut stats = CombatStats::default();
    let d = make_record(1, 1, 12, true, true, false);
    DefaultCalculator.apply(&d, &mut stats);
    assert_eq!((stats.total, stats.crit_count, stats.lucky_count), (12, 1, 1));
    assert_eq!(stats.normal_value, 0);
}

#[test]
fn clearing_forgets_players_and_keeps_monsters() {
    let r = rules();
    let names = NameCache::new();
    let mut enc = Encounter::new();
    set_stage(&mut enc);
    enc.conn_to_uid.push((conn(1), 90001));
    enc.active_connection = Some(conn(1));
    let list = vec![make_record(player_uuid(3), 1, 9, false, false, false)];
    apply_damages(&mut enc, &names, BOSS_UID, EntityKind::Monster, &list, &r);
    enc.is_paused = true;
    enc.clear_combat_stats();
    assert!(!enc.entities.contains_key(&3));
    assert_eq!(enc.entities[&BOSS_UID].monster_id, Some(118));
    assert_eq!(enc.entities[&BOSS_UID].curr_hp, Some(8_000_000_000));
    assert_eq!(enc.dmg_stats.total, 0);
    assert!(!enc.is_paused);
    assert_eq!(enc.conn_to_uid.len(), 1);
    assert!(enc.active_connection.is_some());
    assert_eq!(enc.local_player_uid, 90001);
}

#[test]
fn a_pause_in_combat_ends_the_encounter() {
    let r = rules();
    let mut names = NameCache::new();
    let mut history = History::new();
    let mut enc = Encounter::new();
    set_stage(&mut enc);
    let hit = |v: i64| hits(boss_uuid(), vec![make_record(player_uuid(3), 1, v, false, false, false)]);
    let first = Message::WorldDeltaBatch(vec![hit(10)]);
    process_opcode(&mut enc, &mut names, &mut history, &first, None, &r, 100_000);
    assert_eq!(enc.time_fight_start_ms, 100_000);
    process_opcode(&mut enc, &mut names, &mut history, &first, None, &r, 108_000);
    assert_eq!(enc.dmg_stats.total, 20, "exactly the timeout is not over it");
    let out = process_opcode(&mut enc, &mut names, &mut history, &first, None, &r, 116_001);
    assert_eq!(enc.dmg_stats.total, 10, "the hit counts for the new encounter");
    assert_eq!(enc.time_fight_start_ms, 116_001);
    assert!(matches!(out.buffs[..], [BuffAction::Clear]));
    let list = history::snapshot_list(&history);
    assert_eq!(list.len(), 1);
    assert_eq!((list[0].id, list[0].total_dmg), (1, 20));
    assert_eq!((list[0].start_ms, list[0].end_ms, list[0].duration_ms), (100_000, 108_000, 8000));
    assert_eq!(list[0].player_rows.len(), 1);
    assert_eq!(list[0].participant_player_uids, vec![3]);
}

#[test]
fn a_measurement_is_not_cut() {
    let r = rules();
    let mut names = NameCache::new();
    let mut history = History::new();
    let mut enc = Encounter::new();
    enc.measure_mode = MeasureMode::Pending3Min { duration_ms: 180_000 };
    let hit = hits(boss_uuid(), vec![make_record(player_uuid(3), 1, 5, false, false, false)]);
    let msg = Message::WorldDeltaBatch(vec![hit]);
    process_opcode(&mut enc, &mut names, &mut history, &msg, None, &r, 1000);
    assert_eq!(
        enc.measure_mode,
        MeasureMode::Active3Min {
            armed_at_ms: 1000,
            duration_ms: 180_000
        }
    );
    process_opcode(&mut enc, &mut names, &mut history, &msg, None, &r, 60_000);
    assert_eq!(enc.dmg_stats.total, 10);
    assert!(history::snapshot_list(&history).is_empty());
}

#[test]
fn only_effects_are_followed_in_imagine_mode() {
    let mut r = rules();
    r.settings.imagine_only_mode = true;
    let mut names = NameCache::new();
    let mut history = History::new();
    let mut enc = Encounter::new();
    let d = SceneDelta {
        uuid: player_uuid(3),
        attrs: None,
        buff_list: Some(vec![
            BuffEvent {
                buff_uuid: 1,
                event_type: 2,
                payload: None,
            },
            BuffEvent {
                buff_uuid: 2,
                event_type: 1,
                payload: Some(BuffPayload {
                    buff_type: 18,
                    detail_raw: vec![7, 8],
                }),
            },
            BuffEvent {
                buff_uuid: 3,
                event_type: 1,
                payload: Some(BuffPayload {
                    buff_type: 19,
                    detail_raw: vec![9],
                }),
            },
            BuffEvent {
                buff_uuid: 4,
                event_type: 1,
                payload: Some(BuffPayload {
                    buff_type: 19,
                    detail_raw: vec![],
                }),
            },
            BuffEvent {
                buff_uuid: 5,
                event_type: 1,
                payload: Some(BuffPayload {
                    buff_type: 20,
                    detail_raw: vec![1],
                }),
            },
        ]),
        damages: Some(vec![make_record(player_uuid(3), 1, 5, false, false, false)]),
    };
    let msg = Message::LocalDeltaBatch(Some(LocalDelta {
        effects: vec![vec![1, 2]],
        base_delta: Some(d),
    }));
    enc.local_player_uid = 3;
    let out = process_opcode(&mut enc, &mut names, &mut history, &msg, None, &r, 50);
    assert_eq!(out.buffs.len(), 4);
    assert!(matches!(&out.buffs[0], BuffAction::Effect { uid: 3, raw } if raw == &[1, 2]));
    assert!(matches!(&out.buffs[1], BuffAction::Remove { uid: 3, buff_uuid: 1 }));
    assert!(matches!(&out.buffs[2], BuffAction::Add { uid: 3, buff_uuid: 2, raw } if raw == &[7, 8]));
    assert!(matches!(&out.buffs[3], BuffAction::Change { uid: 3, buff_uuid: 3, raw } if raw == &[9]));
    assert!(enc.entities.is_empty());
    assert_eq!(enc.dmg_stats.total, 0);
}

#[test]
fn effects_are_handed_on() {
    let r = rules();
    let mut names = NameCache::new();
    let mut history = History::new();
    let mut enc = Encounter::new();
    let tick = Message::BuffTick(vec![1, 2, 3]);
    let out = process_opcode(&mut enc, &mut names, &mut history, &tick, None, &r, 1);
    assert!(matches!(&out.buffs[0], BuffAction::Full(raw) if raw == &[1, 2, 3]));
    assert!(matches!(&out.buffs[1], BuffAction::Tick(raw) if raw == &[1, 2, 3]));
    assert_eq!(out.buffs.len(), 2);
    let bundle = Message::BuffSnapshotBundle(vec![vec![4], vec![5, 6]]);
    let out = process_opcode(&mut enc, &mut names, &mut history, &bundle, None, &r, 1);
    assert_eq!(out.buffs.len(), 2);
    assert!(matches!(&out.buffs[1], BuffAction::Full(raw) if raw == &[5, 6]));
    enc.is_paused = true;
    let out = process_opcode(&mut enc, &mut names, &mut history, &bundle, None, &r, 1);
    assert!(out.buffs.is_empty());
}

fn own_snapshot(uid: i64, name: &str) -> PlayerSnapshot {
    let mut infos = HashMap::new();
    infos.insert(11i64, vec![20, 5]);
    PlayerSnapshot {
        char_id: uid,
        char_base: Some(CharBase {
            name: name.to_string(),
            fight_point: 6000,
        }),
        cur_profession_id: Some(1),
        packages: Some(vec![Package {
            items: vec![(
                11,
                Item {
                    uuid: 99,
                    config_id: 5500103,
                    quality: 4,
                    mod_parts: Some(vec![1110, 2104, 1409]),
                },
            )],
        }]),
        mod_infos: Some(infos),
    }
}

#[test]
fn entering_a_world_learns_the_own_character() {
    let mut r = rules();
    let mut names = NameCache::new();
    let mut history = History::new();
    let mut enc = Encounter::new();
    let msg = Message::WorldEnterSnapshot(Some(own_snapshot(77, "Sora")));
    let out = process_opcode(&mut enc, &mut names, &mut history, &msg, Some(conn(1)), &r, 1);
    let modules = out.modules.expect("the own character");
    assert_eq!(modules.len(), 1);
    assert_eq!((modules[0].key, modules[0].uuid), (11, 99));
    assert_eq!(modules[0].name, "Superior Attack");
    assert_eq!(modules[0].parts.len(), 2);
    assert_eq!(modules[0].parts[1].attr_name, "Ultra-Damage Stack");
    assert_eq!(modules[0].parts[1].value, 5);
    assert_eq!(enc.local_player_uid, 77);
    assert!(enc.active_connection.unwrap() == conn(1));
    assert_eq!(enc.entities[&77].name.as_deref(), Some("Sora"));
    assert_eq!(enc.entities[&77].ability_score, Some(6000));
    assert_eq!(names.lookup(77).unwrap().class_id, Some(1));

    let other = Message::WorldEnterSnapshot(Some(own_snapshot(78, "Kai")));
    let out = process_opcode(&mut enc, &mut names, &mut history, &other, Some(conn(2)), &r, 2);
    assert!(out.modules.is_none());
    assert!(!enc.entities.contains_key(&78), "the first one stays");
    assert_eq!(enc.conn_to_uid.len(), 1, "not even looked at");

    r.selected = Some(78);
    let mut enc = Encounter::new();
    process_opcode(&mut enc, &mut names, &mut history, &msg, Some(conn(1)), &r, 3);
    assert_eq!(enc.conn_to_uid.len(), 1);
    assert!(enc.active_connection.is_none());
    let out = process_opcode(&mut enc, &mut names, &mut history, &other, Some(conn(2)), &r, 4);
    assert!(out.modules.is_some());
    assert_eq!(enc.local_player_uid, 78);
    assert!(!should_accept(&mut enc, Some(conn(1)), Pkt::WorldDeltaBatch, r.selected));
    assert!(should_accept(&mut enc, Some(conn(1)), Pkt::ServerHandover, r.selected));
    assert!(should_accept(&mut enc, Some(conn(2)), Pkt::WorldDeltaBatch, r.selected));
    assert!(!should_accept(&mut enc, Some(conn(3)), Pkt::WorldDeltaBatch, r.selected));
    process_opcode(&mut enc, &mut names, &mut history, &Message::ServerHandover, None, &r, 5);
    assert!(enc.active_connection.is_none());
    assert!(enc.conn_to_uid.is_empty());
    assert!(should_accept(&mut enc, Some(conn(3)), Pkt::WorldDeltaBatch, r.selected));
}

fn attr(id: i32, raw: &[u8]) -> RawAttr {
    RawAttr {
        id,
        raw_data: raw.to_vec(),
    }
}

#[test]
fn attributes_are_read() {
    let mut names = NameCache::new();
    let mut e = Entity::new(EntityKind::Player);
    let attrs = vec![
        attr(0x01, b"\x04Sora"),
        attr(0xDC, &[1]),
        attr(0x272E, &[0xAC, 0x02]),
        attr(0x2C2E, &[0x80, 0x01]),
        attr(0, &[1]),
        attr(0x2C38, &[]),
    ];
    process_player_attrs(9, &mut e, &attrs, &mut names, &classes());
    assert_eq!(e.name.as_deref(), Some("Sora"));
    assert!(matches!(e.class, Some(Class::Known(1))));
    assert_eq!(e.ability_score, Some(300));
    assert_eq!(e.curr_hp, Some(128));
    assert_eq!(e.max_hp, None);
    let c = names.lookup(9).unwrap();
    assert_eq!((c.name.as_str(), c.ability_score), ("Sora", Some(300)));
    let bad = vec![attr(0x01, &[2, 0xFF, 0xFE])];
    process_player_attrs(9, &mut e, &bad, &mut names, &classes());
    assert_eq!(e.name.as_deref(), Some("Sora"), "bytes that are no text are left out");
}

#[test]
fn appearing_entities_are_told_of() {
    let r = rules();
    let mut names = NameCache::new();
    names.update(
        5,
        NameUpdate {
            name: Some("Kaede".to_string()),
            class_id: Some(1),
            ability_score: Some(0),
            season_level: Some(7),
            season_strength: None,
        },
    );
    let mut history = History::new();
    let mut enc = Encounter::new();
    let msg = Message::WorldEntityBatch(vec![
        AppearEntity {
            uuid: boss_uuid(),
            attrs: Some(vec![attr(0x0A, &[118])]),
        },
        AppearEntity {
            uuid: player_uuid(5),
            attrs: None,
        },
        AppearEntity {
            uuid: 0,
            attrs: None,
        },
    ]);
    process_opcode(&mut enc, &mut names, &mut history, &msg, None, &r, 1);
    assert_eq!(enc.entities.len(), 2);
    assert_eq!(enc.entities[&BOSS_UID].monster_id, Some(118));
    let e = &enc.entities[&5];
    assert_eq!(e.name.as_deref(), Some("Kaede"));
    assert_eq!((e.ability_score, e.season_level), (None, Some(7)));
}

#[test]
fn a_change_without_an_entity_is_left_out() {
    let r = rules();
    let mut names = NameCache::new();
    let mut enc = Encounter::new();
    let mut actions = Vec::new();
    let d = hits(0, vec![make_record(player_uuid(1), 1, 1, false, false, false)]);
    assert!(process_scene_delta(&mut enc, &mut names, &d, &r, 5, &mut actions).is_none());
    assert!(enc.entities.is_empty() && actions.is_empty());
    let empty = hits(boss_uuid(), vec![]);
    process_scene_delta(&mut enc, &mut names, &empty, &r, 6, &mut actions);
    assert_eq!(enc.time_last_combat_packet_ms, 6, "an empty list sets the time");
}

#[test]
fn room_is_told() {
    let r = rules();
    let mut enc = Encounter::new();
    enc.dmg_stats.total = i64::MAX - 10;
    assert!(encounter_has_room(&enc, 1, 10));
    assert!(!encounter_has_room(&enc, 1, 11));
    assert!(!encounter_has_room(&enc, 1, -1));
    let hit = |v: i64| {
        Message::WorldDeltaBatch(vec![hits(
            boss_uuid(),
            vec![make_record(player_uuid(1), 1, v, false, false, false)],
        )])
    };
    let names = NameCache::new();
    let room = |enc: &Encounter, msg: &Message| has_room_for(enc, &names, msg, None, &r, 5);
    assert!(room(&enc, &hit(10)));
    assert!(!room(&enc, &hit(11)));
    assert!(room(&enc, &hit(-11)), "it goes the other way");
    assert!(room(&enc, &hit(i64::MIN)));
    assert!(room(&enc, &Message::Unreadable));
}

#[test]
fn only_totals_that_change_need_room() {
    let r = rules();
    let names = NameCache::new();
    let mut enc = Encounter::new();
    enc.dmg_stats.total = i64::MAX;
    enc.dmg_stats.normal_value = i64::MAX;
    let record = |v: i64, heal: bool| make_record(player_uuid(1), 1, v, false, false, heal);
    let one = |v: i64, heal: bool| hits(player_uuid(2), vec![record(v, heal)]);
    let fits = |enc: &Encounter, d: &SceneDelta| has_room_for_change(enc, &names, d, &r, 5);
    assert!(fits(&enc, &one(7, true)), "healing adds to other totals");
    assert!(!fits(&enc, &one(7, false)));
    assert!(fits(&enc, &hits(player_uuid(2), vec![record(-7, false), record(7, false)])));
    assert!(!fits(&enc, &hits(player_uuid(2), vec![record(7, false), record(-7, false)])));
    assert!(fits(&enc, &hits(0, vec![record(7, false)])), "nothing is hit");
    let mut crit = record(7, false);
    crit.type_flag = 1;
    enc.dmg_stats.total = 0;
    assert!(fits(&enc, &hits(player_uuid(2), vec![crit])), "a critical hit is not a plain one");

    let batch = Message::WorldDeltaBatch(vec![one(-7, false), one(7, false)]);
    assert!(has_room_for(&enc, &names, &batch, None, &r, 5));
    let mut after = enc.duplicate();
    let mut known = names.duplicate();
    process_opcode(&mut after, &mut known, &mut History::new(), &batch, None, &r, 5);
    assert_eq!((after.dmg_stats.total, after.dmg_stats.hit_count), (0, 2));
    assert_eq!(enc.dmg_stats.hit_count, 0, "the copy stands for itself");
    let batch = Message::WorldDeltaBatch(vec![one(7, false), one(-7, false)]);
    assert!(!has_room_for(&enc, &names, &batch, None, &r, 5));

    enc.time_last_combat_packet_ms = 1;
    let late = 1 + 10 * r.settings.combat_exit_timeout_ms.max(1) as u128;
    let begins = has_room_for(&enc, &names, &batch, None, &r, late);
    assert_eq!(begins, r.settings.combat_exit_timeout_ms > 0, "a new encounter has room");
}

#[test]
fn a_paused_encounter_takes_any_message() {
    let mut r = rules();
    let mut names = NameCache::new();
    let mut history = History::new();
    let mut enc = Encounter::new();
    enc.is_paused = true;
    enc.dmg_stats.total = 1;
    let big = Message::WorldDeltaBatch(vec![hits(
        boss_uuid(),
        vec![make_record(player_uuid(1), 1, i64::MAX, false, false, false)],
    )]);
    assert!(has_room_for(&enc, &names, &big, None, &r, 5));
    let out = process_opcode(&mut enc, &mut names, &mut history, &big, None, &r, 5);
    assert!(out.buffs.is_empty() && out.modules.is_none());
    assert_eq!((enc.dmg_stats.total, enc.entities.len()), (1, 0));
    assert_eq!(enc.time_last_combat_packet_ms, 0);

    enc.is_paused = false;
    assert!(!has_room_for(&enc, &names, &big, None, &r, 5));
    enc.active_connection = Some(conn(1));
    assert!(has_room_for(&enc, &names, &big, Some(conn(2)), &r, 5), "another connection");
    assert!(!has_room_for(&enc, &names, &big, Some(conn(1)), &r, 5));
    enc.conn_to_uid = vec![(conn(2), 7), (conn(3), 8)];
    r.selected = Some(7);
    assert!(!has_room_for(&enc, &names, &big, Some(conn(2)), &r, 5));
    assert!(has_room_for(&enc, &names, &big, Some(conn(3)), &r, 5));
    enc.is_paused = true;
    process_opcode(&mut enc, &mut names, &mut history, &Message::ServerHandover, None, &r, 5);
    assert!(enc.active_connection.is_none() && enc.conn_to_uid.is_empty());
    assert_eq!((enc.dmg_stats.total, enc.is_paused), (1, true));
}

#[test]
fn a_hit_adds_to_the_numbers_of_its_kind() {
    let mut s = CombatStats::default();
    s.total = i64::MIN + 5;
    s.crit_count = u32::MAX;
    s.lucky_value = i64::MAX;
    s.record_hit(10, false, false);
    assert_eq!((s.total, s.hit_count, s.normal_value), (i64::MIN + 15, 1, 10));
    assert_eq!((s.crit_count, s.crit_value), (u32::MAX, 0));
    let mut both = CombatStats::default();
    both.record_hit(4, true, true);
    assert_eq!((both.total, both.hit_count, both.normal_value), (4, 1, 0));
    assert_eq!((both.crit_count, both.crit_value), (1, 4));
    assert_eq!((both.lucky_count, both.lucky_value), (1, 4));
    assert!(record_fits(&make_record(1, 1, 10, false, false, false), &both));
    both.total = i64::MAX - 9;
    assert!(!record_fits(&make_record(1, 1, 10, false, false, false), &both));
}

#[test]
fn entity_numbers_round_trip() {
    for uid in [1, 90001, -5, (1i64 << 47) - 1] {
        assert_eq!(get_player_uid(player_uuid(uid)), uid);
        assert!(EntityKind::from(player_uuid(uid)) == EntityKind::Player);
    }
    assert!(EntityKind::from(boss_uuid()) == EntityKind::Monster);
    assert!(EntityKind::from(1) == EntityKind::Unknown);
}

#[test]
fn demo_numbers_and_hits() {
    let mut rng = Rng::new(0);
    assert_eq!(rng.next(), 1 ^ (1 << 13) ^ ((1 ^ (1 << 13)) >> 7) ^ ((1 ^ (1 << 13) ^ ((1 ^ (1 << 13)) >> 7)) << 17));
    let d = first_hit(7, 13, Some(2306), Some(2307)).unwrap();
    assert_eq!(d.uuid, player_uuid(7));
    let hit = &d.damages.unwrap()[0];
    assert!(hit.kind == DmgKind::Heal && hit.owner_id == 2307 && hit.value == 1);
    let d = first_hit(7, 5, Some(1518), Some(20301)).unwrap();
    assert_eq!(d.uuid, boss_uuid());
    assert!(first_hit(7, 5, None, None).is_none());
    assert!(!is_alive(&Vec::new(), 1));
}
