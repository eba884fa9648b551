//! What holds of every encounter: what a hit adds, what attributes tell, whose messages count, and
//! how the course is drawn.

use crate::capture::server::ServerView;
use crate::compute::players::{listed, StatType};
use crate::engine::attributes::{
    monster_attr, monster_attrs, names_after, player_attr, player_attrs,
};
use crate::engine::buff_action::{event_actions, events_actions, BuffActionView};
use crate::engine::buff_source::{source_of, BuffSourceKind};
use crate::engine::class::ClassTable;
use crate::engine::combat_stats::{fits_record, no_hits, with_record, CombatStats};
use crate::engine::connection::{accepts, conn_learned, conn_uid, let_in};
use crate::engine::consumables::{noticed, players_noticed, swept, ConsumableIds};
use crate::engine::damage::{class_told, damage_step, damage_steps, step_fits};
use crate::engine::encounter::{cleared, EncounterView, MeasureMode, PlayerConsumables};
use crate::engine::entity::{pair_key, EntityView, Profile};
use crate::engine::buff_state::BuffStateSnapshot;
use crate::engine::name_cache::{new_entity, CachedView, UpdateView};
use crate::engine::processor::{
    after_message, changed_all, entered, message_actions, message_effect,
};
use crate::engine::rules::Rules;
use crate::engine::runtime_settings::RuntimeSettings;
use crate::engine::sampling::{sampled, sampled_entity, samples_now, Sampling};
use crate::engine::scene::{
    appeared, changed, delta_told, ends_encounter, kept_by_change, Scene,
};
use crate::protocol::decoding::{int32_in, int64_in};
use crate::protocol::messages::{
    kind_of, AppearEntity, BuffEvent, DamageRecord, DmgKind, EntityKind, Message, PlayerSnapshot,
    RawAttr, SceneDelta,
};
use vstd::prelude::*;
use vstd::utf8::{decode_utf8, valid_utf8};

verus! {

/// What a hit counts for: the lucky value where there is one, else the plain value.
pub open spec fn counted_value(d: DamageRecord) -> int {
    if d.lucky_value == 0 {
        d.value as int
    } else {
        d.lucky_value as int
    }
}

/// A hit counts once, with its value; as a critical one exactly where its flags are odd, as a lucky
/// one exactly where it has a lucky value, and as a plain one where it is neither.
pub proof fn law_hit_numbers(s: CombatStats, d: DamageRecord, half: int, odd: int)
    requires
        fits_record(s, d),
        d.type_flag == 2 * half + odd,
        0 <= odd <= 1,
    ensures
        with_record(s, d).hit_count == s.hit_count + 1,
        with_record(s, d).total == s.total + counted_value(d),
        with_record(s, d).crit_count == s.crit_count + odd,
        with_record(s, d).crit_value == s.crit_value + if odd == 1 {
            counted_value(d)
        } else {
            0
        },
        with_record(s, d).lucky_count == s.lucky_count + if d.lucky_value != 0 {
            1int
        } else {
            0
        },
        with_record(s, d).lucky_value == s.lucky_value + d.lucky_value,
        with_record(s, d).normal_value == s.normal_value + if odd == 0 && d.lucky_value == 0 {
            d.value as int
        } else {
            0
        },
{
}

/// The damage that an entity dealt.
pub open spec fn dealt(v: EncounterView, uid: i64) -> int {
    if v.entities.contains_key(uid) {
        v.entities[uid].dmg.total as int
    } else {
        0
    }
}

/// The damage that an entity dealt to bosses.
pub open spec fn dealt_to_bosses(v: EncounterView, uid: i64) -> int {
    if v.entities.contains_key(uid) {
        v.entities[uid].boss.total as int
    } else {
        0
    }
}

/// What an entity healed.
pub open spec fn healed(v: EncounterView, uid: i64) -> int {
    if v.entities.contains_key(uid) {
        v.entities[uid].heal.total as int
    } else {
        0
    }
}

/// The damage that an entity took.
pub open spec fn suffered(v: EncounterView, uid: i64) -> int {
    if v.entities.contains_key(uid) {
        v.entities[uid].taken.total as int
    } else {
        0
    }
}

/// The total of a key, 0 where there is none.
pub open spec fn total_at<K>(m: Map<K, CombatStats>, k: K) -> int {
    if m.contains_key(k) {
        m[k].total as int
    } else {
        0
    }
}

/// Who a hit is booked for: the summoner of what hit, where there is one.
pub open spec fn booked_for(d: DamageRecord) -> int {
    (if d.top_summoner_id == 0 {
        d.attacker_uuid
    } else {
        d.top_summoner_id
    }) as int / 0x1_0000
}

/// A hit without attacker or without skill changes nothing. A heal adds its value to what its
/// attacker healed, in all and with its skill, and to nothing else.
pub proof fn law_heals_are_booked(
    v: EncounterView,
    names: Map<i64, CachedView>,
    target: i64,
    kind: EntityKind,
    d: DamageRecord,
    rules: Rules,
    uid: i64,
)
    requires
        step_fits(v, names, target, kind, d, rules),
    ensures
        d.owner_id == 0 || (d.top_summoner_id == 0 && d.attacker_uuid == 0) ==> damage_step(
            v,
            names,
            target,
            kind,
            d,
            rules,
        ) == v,
        d.owner_id != 0 && (d.top_summoner_id != 0 || d.attacker_uuid != 0) && d.kind
            == DmgKind::Heal ==> {
            let after = damage_step(v, names, target, kind, d, rules);
            let x = counted_value(d);
            &&& after.heal.total == v.heal.total + x
            &&& after.heal.hit_count == v.heal.hit_count + 1
            &&& healed(after, uid) == healed(v, uid) + if uid == booked_for(d) {
                x
            } else {
                0
            }
            &&& dealt(after, uid) == dealt(v, uid)
            &&& dealt_to_bosses(after, uid) == dealt_to_bosses(v, uid)
            &&& suffered(after, uid) == suffered(v, uid)
            &&& after.dmg == v.dmg && after.boss == v.boss && after.taken == v.taken
            &&& uid == booked_for(d) ==> after.entities.contains_key(uid) && total_at(
                after.entities[uid].skill_heal,
                d.owner_id,
            ) == x + if v.entities.contains_key(uid) {
                total_at(v.entities[uid].skill_heal, d.owner_id)
            } else {
                0
            }
        },
{
}

/// A hit adds its value to what its attacker dealt, in all and with its skill; to what it dealt to
/// bosses exactly where it hit one; and to what its target took exactly where this is a player. It
/// adds the same to the whole encounter, and to nothing else.
pub proof fn law_hits_are_booked(
    v: EncounterView,
    names: Map<i64, CachedView>,
    target: i64,
    kind: EntityKind,
    d: DamageRecord,
    rules: Rules,
    uid: i64,
)
    requires
        step_fits(v, names, target, kind, d, rules),
        d.owner_id != 0,
        d.top_summoner_id != 0 || d.attacker_uuid != 0,
        d.kind != DmgKind::Heal,
    ensures
        ({
            let after = damage_step(v, names, target, kind, d, rules);
            let x = counted_value(d);
            let on_boss = v.entities.contains_key(target) && (v.entities[target].monster_id matches
                Some(id) && rules.boss_names@.contains_key(id));
            &&& after.dmg.total == v.dmg.total + x
            &&& after.dmg.hit_count == v.dmg.hit_count + 1
            &&& after.boss.total == v.boss.total + if on_boss {
                x
            } else {
                0
            }
            &&& after.taken.total == v.taken.total + if kind == EntityKind::Player {
                x
            } else {
                0
            }
            &&& after.heal == v.heal
            &&& dealt(after, uid) == dealt(v, uid) + if uid == booked_for(d) {
                x
            } else {
                0
            }
            &&& dealt_to_bosses(after, uid) == dealt_to_bosses(v, uid) + if uid == booked_for(d)
                && on_boss {
                x
            } else {
                0
            }
            &&& suffered(after, uid) == suffered(v, uid) + if uid == target && kind
                == EntityKind::Player {
                x
            } else {
                0
            }
            &&& healed(after, uid) == healed(v, uid)
            &&& uid == booked_for(d) ==> after.entities.contains_key(uid) && total_at(
                after.entities[uid].skill_dmg,
                d.owner_id,
            ) == x + if v.entities.contains_key(uid) {
                total_at(v.entities[uid].skill_dmg, d.owner_id)
            } else {
                0
            }
            &&& uid == target && kind == EntityKind::Player ==> total_at(
                after.entities[uid].taken_by,
                booked_for(d) as i64,
            ) == x + if v.entities.contains_key(uid) {
                total_at(v.entities[uid].taken_by, booked_for(d) as i64)
            } else {
                0
            }
        }),
{
}

/// Players that hit or are hit take part, and nobody else does; an encounter is one of the chosen
/// character once it hit or was hit.
pub proof fn law_who_takes_part(
    v: EncounterView,
    names: Map<i64, CachedView>,
    target: i64,
    kind: EntityKind,
    d: DamageRecord,
    rules: Rules,
    uid: i64,
)
    requires
        d.owner_id != 0,
        d.top_summoner_id != 0 || d.attacker_uuid != 0,
    ensures
        ({
            let after = damage_step(v, names, target, kind, d, rules);
            let hitter = if d.top_summoner_id == 0 {
                d.attacker_uuid
            } else {
                d.top_summoner_id
            };
            &&& after.participants.contains(uid) <==> {
                ||| v.participants.contains(uid)
                ||| uid == target && kind == EntityKind::Player
                ||| uid == booked_for(d) && hitter as int % 0x1_0000 == 640
            }
            &&& after.has_selected <==> v.has_selected || rules.selected == Some(target) || (
            rules.selected matches Some(s) && s == booked_for(d))
            &&& after.entities.contains_key(uid) && uid != booked_for(d) && uid != target ==> (
            v.entities.contains_key(uid) && after.entities[uid] == v.entities[uid])
            &&& v.entities.contains_key(uid) ==> after.entities.contains_key(uid)
        }),
{
}

/// Hits count one after the other.
pub proof fn law_hits_come_in_order(
    v: EncounterView,
    names: Map<i64, CachedView>,
    target: i64,
    kind: EntityKind,
    first: Seq<DamageRecord>,
    second: Seq<DamageRecord>,
    rules: Rules,
)
    ensures
        damage_steps(v, names, target, kind, first + second, rules) == damage_steps(
            damage_steps(v, names, target, kind, first, rules),
            names,
            target,
            kind,
            second,
            rules,
        ),
    decreases second.len(),
{
    if second.len() == 0 {
        assert(first + second =~= first);
    } else {
        law_hits_come_in_order(v, names, target, kind, first, second.drop_last(), rules);
        assert((first + second).drop_last() =~= first + second.drop_last());
        assert((first + second).last() == second.last());
    }
}

/// The class of a player is told by the first skill that tells a way of playing; what is known
/// stays.
pub proof fn law_skills_tell_classes(p: Profile, skill: i32, other: i32, classes: ClassTable)
    ensures
        class_told(p, skill, classes).name == p.name,
        p.class_spec matches Some(known) ==> (known is Known ==> class_told(p, skill, classes) == p),
        p.class_spec is None ==> class_told(p, skill, classes).class_spec == Some(
            classes.spec_of(skill),
        ),
        p.class matches Some(c) ==> (c is Known ==> class_told(p, skill, classes).class == p.class),
        p.class_spec is None && (p.class matches Some(c) ==> !(c is Known)) ==> class_told(
            p,
            skill,
            classes,
        ).class == Some(classes.class_of_spec(classes.spec_of(skill))),
        classes.spec_of(skill) is Known ==> class_told(
            class_told(p, skill, classes),
            other,
            classes,
        ) == class_told(p, skill, classes),
{
}

/// Each number that a player's attributes tell has an attribute of its own, and changes nothing
/// else of what is known.
pub proof fn law_player_numbers(
    p: Profile,
    u: UpdateView,
    id: i32,
    raw: Seq<u8>,
    n: i32,
    classes: ClassTable,
)
    requires
        int32_in(raw) == Some(n),
    ensures
        id == 220 ==> player_attr(p, u, id, raw, classes) == (
            Profile { class: Some(classes.class_of(n)), ..p },
            UpdateView { class_id: Some(n), ..u },
        ),
        id == 10030 ==> player_attr(p, u, id, raw, classes) == (
            Profile { ability_score: Some(n), ..p },
            UpdateView { ability_score: Some(n), ..u },
        ),
        id == 10070 ==> player_attr(p, u, id, raw, classes) == (
            Profile { season_level: Some(n), ..p },
            UpdateView { season_level: Some(n), ..u },
        ),
        id == 11440 ==> player_attr(p, u, id, raw, classes) == (
            Profile { season_strength: Some(n), ..p },
            UpdateView { season_strength: Some(n), ..u },
        ),
        id == 50 ==> player_attr(p, u, id, raw, classes) == (
            Profile { attack_power: Some(n), ..p },
            u,
        ),
        id == 51 ==> player_attr(p, u, id, raw, classes) == (
            Profile { defense_power: Some(n), ..p },
            u,
        ),
        id == 11040 ==> player_attr(p, u, id, raw, classes) == (
            Profile { endurance: Some(n), ..p },
            u,
        ),
        id == 11140 ==> player_attr(p, u, id, raw, classes) == (
            Profile { dexterity: Some(n), ..p },
            u,
        ),
        id == 11720 ==> player_attr(p, u, id, raw, classes) == (
            Profile { attack_speed: Some(n), ..p },
            u,
        ),
        id == 11930 ==> player_attr(p, u, id, raw, classes) == (
            Profile { haste: Some(n), ..p },
            u,
        ),
        id == 12680 ==> player_attr(p, u, id, raw, classes) == (
            Profile { lucky: Some(n), ..p },
            u,
        ),
{
}

/// The health of a player is told by two attributes and is never negative; the name by one, after
/// a byte for its length. All other attributes tell nothing.
pub proof fn law_player_health_and_name(
    p: Profile,
    u: UpdateView,
    id: i32,
    raw: Seq<u8>,
    classes: ClassTable,
)
    ensures
        id == 11310 ==> player_attr(p, u, id, raw, classes) == (match int64_in(raw) {
            Some(n) => if n >= 0 {
                (Profile { curr_hp: Some(n as u64), ..p }, u)
            } else {
                (p, u)
            },
            None => (p, u),
        }),
        id == 11320 ==> player_attr(p, u, id, raw, classes) == (match int64_in(raw) {
            Some(n) => if n >= 0 {
                (Profile { max_hp: Some(n as u64), ..p }, u)
            } else {
                (p, u)
            },
            None => (p, u),
        }),
        id == 1 && raw.len() > 0 && valid_utf8(raw.skip(1)) ==> player_attr(
            p,
            u,
            id,
            raw,
            classes,
        ) == (
            Profile { name: Some(decode_utf8(raw.skip(1))), ..p },
            UpdateView { name: Some(decode_utf8(raw.skip(1))), ..u },
        ),
        id == 1 && (raw.len() == 0 || !valid_utf8(raw.skip(1))) ==> player_attr(
            p,
            u,
            id,
            raw,
            classes,
        ) == (p, u),
        int32_in(raw) is None && int64_in(raw) is None && id != 1 ==> player_attr(
            p,
            u,
            id,
            raw,
            classes,
        ) == (p, u),
        id != 1 && id != 50 && id != 51 && id != 220 && id != 10030 && id != 10070 && id != 11040
            && id != 11140 && id != 11310 && id != 11320 && id != 11440 && id != 11720 && id
            != 11930 && id != 12680 ==> player_attr(p, u, id, raw, classes) == (p, u),
{
}

/// What a monster is and its health are told by three attributes; all others tell nothing.
pub proof fn law_monster_attributes(e: EntityView, id: i32, raw: Seq<u8>)
    ensures
        id == 10 ==> monster_attr(e, id, raw) == (match int32_in(raw) {
            Some(n) => if n >= 0 {
                EntityView { monster_id: Some(n as u32), ..e }
            } else {
                e
            },
            None => e,
        }),
        id == 11310 ==> (monster_attr(e, id, raw).profile.curr_hp == match int64_in(raw) {
            Some(n) => if n >= 0 {
                Some(n as u64)
            } else {
                e.profile.curr_hp
            },
            None => e.profile.curr_hp,
        }) && monster_attr(e, id, raw).profile.max_hp == e.profile.max_hp,
        id == 11320 ==> (monster_attr(e, id, raw).profile.max_hp == match int64_in(raw) {
            Some(n) => if n >= 0 {
                Some(n as u64)
            } else {
                e.profile.max_hp
            },
            None => e.profile.max_hp,
        }) && monster_attr(e, id, raw).profile.curr_hp == e.profile.curr_hp,
        id != 10 && id != 11310 && id != 11320 ==> monster_attr(e, id, raw) == e,
        id != 10 ==> monster_attr(e, id, raw).monster_id == e.monster_id,
        monster_attr(e, id, raw).dmg == e.dmg && monster_attr(e, id, raw).entity_type
            == e.entity_type,
{
}

/// What attributes tell comes in their order: the last word counts.
pub proof fn law_attributes_come_in_order(
    p: Profile,
    before: Seq<RawAttr>,
    last: RawAttr,
    classes: ClassTable,
)
    ensures
        player_attrs(p, before.push(last), classes) == player_attr(
            player_attrs(p, before, classes).0,
            player_attrs(p, before, classes).1,
            last.id,
            last.raw_data@,
            classes,
        ),
        player_attrs(p, Seq::empty(), classes) == (
            p,
            UpdateView {
                name: None,
                class_id: None,
                ability_score: None,
                season_level: None,
                season_strength: None,
            },
        ),
{
    assert(before.push(last).drop_last() =~= before);
    assert(before.push(last).last() == last);
}

/// What was learned last wins; what was not told stays, and nothing is learned of others.
pub proof fn law_names_are_learned(
    names: Map<i64, CachedView>,
    uid: i64,
    other: i64,
    u: UpdateView,
)
    ensures
        ({
            let after = names_after(names, uid, u);
            let nothing = u.name is None && u.class_id is None && u.ability_score is None
                && u.season_level is None && u.season_strength is None;
            &&& nothing ==> after == names
            &&& !nothing ==> after.contains_key(uid)
            &&& u.name matches Some(name) ==> after[uid].name == name
            &&& u.class_id is Some ==> after[uid].class_id == u.class_id
            &&& u.ability_score is Some ==> after[uid].ability_score == u.ability_score
            &&& u.season_level is Some ==> after[uid].season_level == u.season_level
            &&& u.season_strength is Some ==> after[uid].season_strength == u.season_strength
            &&& names.contains_key(uid) ==> {
                &&& u.name is None ==> after[uid].name == names[uid].name
                &&& u.class_id is None ==> after[uid].class_id == names[uid].class_id
                &&& u.ability_score is None ==> after[uid].ability_score
                    == names[uid].ability_score
                &&& u.season_level is None ==> after[uid].season_level == names[uid].season_level
                &&& u.season_strength is None ==> after[uid].season_strength
                    == names[uid].season_strength
            }
            &&& other != uid ==> (after.contains_key(other) <==> names.contains_key(other)) && (
            names.contains_key(other) ==> after[other] == names[other])
        }),
{
}

/// A player who comes back is known by what was remembered: the name where it is not empty, the
/// class where its number is not 0, scores where they are above 0. Of others nothing is known.
pub proof fn law_players_are_remembered(
    uid: i64,
    kind: EntityKind,
    names: Map<i64, CachedView>,
    classes: ClassTable,
)
    ensures
        ({
            let e = new_entity(uid, kind, names, classes);
            &&& e.entity_type == kind
            &&& e.dmg == no_hits() && e.heal == no_hits() && e.taken == no_hits() && e.boss
                == no_hits()
            &&& e.monster_id is None && e.profile.class_spec is None
            &&& kind != EntityKind::Player || !names.contains_key(uid) ==> {
                &&& e.profile.name is None && e.profile.class is None
                &&& e.profile.ability_score is None && e.profile.season_level is None
                &&& e.profile.season_strength is None
            }
            &&& kind == EntityKind::Player && names.contains_key(uid) ==> {
                let c = names[uid];
                &&& e.profile.name == if c.name.len() > 0 {
                    Some(c.name)
                } else {
                    None
                }
                &&& e.profile.class == (match c.class_id {
                    Some(id) => if id == 0 {
                        None
                    } else {
                        Some(classes.class_of(id))
                    },
                    None => None,
                })
                &&& c.ability_score matches Some(n) ==> (n > 0 ==> e.profile.ability_score == Some(n))
                &&& c.season_level matches Some(n) ==> (n > 0 ==> e.profile.season_level == Some(n))
                &&& c.season_strength matches Some(n) ==> (n > 0 ==> e.profile.season_strength
                    == Some(n))
            }
        }),
{
}

/// Whose messages count: those without a connection, those of the chosen character, and where none
/// is chosen or the character is not known, those of the connection that is followed or of any
/// where none is.
pub proof fn law_accepted_connections(
    v: EncounterView,
    c: ServerView,
    uid: i64,
    chosen: i64,
    selected: Option<i64>,
)
    ensures
        accepts(v, None, selected),
        conn_uid(v.conns, c) == Some(uid) ==> (accepts(v, Some(c), Some(chosen)) <==> uid
            == chosen),
        conn_uid(v.conns, c) is None ==> (accepts(v, Some(c), selected) <==> v.active is None
            || v.active == Some(c)),
        accepts(v, Some(c), None) <==> v.active is None || v.active == Some(c),
        conn_uid(v.conns, c) == Some(chosen) ==> let_in(v, Some(c), Some(chosen)).active == Some(
            c,
        ),
        conn_uid(v.conns, c) != Some(chosen) ==> let_in(v, Some(c), Some(chosen)) == v,
        let_in(v, Some(c), None) == v,
{
}

/// Entering a world tells whose connection it is. The chosen character, or any where none is chosen
/// and none is followed, is the own one from then on: its connection is followed, and its name,
/// class and score are known where they were told.
pub proof fn law_entering_a_world(s: Scene, p: PlayerSnapshot, conn: ServerView, rules: Rules)
    ensures
        p.char_id == 0 ==> entered(s, p, conn, rules) == s,
        p.char_id != 0 ==> {
            let after = entered(s, p, conn, rules);
            let own = rules.selected == Some(p.char_id) || (rules.selected is None && s.v.active
                is None);
            &&& after.v.conns == conn_learned(s.v.conns, conn, p.char_id)
            &&& own ==> {
                &&& after.v.active == Some(conn)
                &&& after.v.local_uid == p.char_id
                &&& after.v.entities.contains_key(p.char_id)
                &&& after.v.entities[p.char_id].entity_type == EntityKind::Player
                &&& p.char_base matches Some(b) ==> (b.name@.len() > 0 ==> {
                    &&& after.v.entities[p.char_id].profile.name == Some(b.name@)
                    &&& after.names[p.char_id].name == b.name@
                })
                &&& p.char_base matches Some(b) ==> (b.fight_point != 0 ==> {
                    &&& after.v.entities[p.char_id].profile.ability_score == Some(b.fight_point)
                    &&& after.names[p.char_id].ability_score == Some(b.fight_point)
                })
                &&& p.cur_profession_id matches Some(id) ==> (id != 0 ==> {
                    &&& after.v.entities[p.char_id].profile.class == Some(
                        rules.classes.class_of(id),
                    )
                    &&& after.names[p.char_id].class_id == Some(id)
                })
            }
            &&& !own ==> after.v.active == s.v.active && after.v.local_uid == s.v.local_uid
                && after.v.entities == s.v.entities && after.names == s.names
        },
{
}

/// A handover forgets all connections and nothing else; messages of the social service change
/// nothing.
pub proof fn law_handovers_forget_connections(
    s: Scene,
    conn: Option<ServerView>,
    rules: Rules,
    now: u128,
)
    ensures
        ({
            let after = after_message(s, conn, Message::ServerHandover, rules, now);
            &&& after.v.active is None && after.v.conns.len() == 0
            &&& after.v.entities == s.v.entities && after.v.dmg == s.v.dmg && after.v.start_ms
                == s.v.start_ms && after.v.last_ms == s.v.last_ms
            &&& after.v.local_uid == s.v.local_uid && after.names == s.names && after.v.mode
                == s.v.mode && after.v.is_paused == s.v.is_paused
        }),
        after_message(s, conn, Message::SocialEnvelope, rules, now) == s,
        after_message(s, conn, Message::Unreadable, rules, now).v.entities == s.v.entities,
        after_message(s, conn, Message::Unreadable, rules, now).names == s.names,
{
}

/// A new encounter begins with a hit that comes later after the last one than the settings say, and
/// only then: not at that time, not where the settings say 0, not before the first hit and not
/// while a measurement runs.
pub proof fn law_new_encounters(s: Scene, d: SceneDelta, rules: Rules, now: u128)
    ensures
        ends_encounter(s, d, rules, now) <==> {
            &&& d.uuid != 0
            &&& !rules.settings.imagine_only_mode
            &&& d.damages matches Some(hits) && hits@.len() > 0
            &&& s.v.mode == MeasureMode::Normal
            &&& s.v.last_ms > 0
            &&& rules.settings.combat_exit_timeout_ms > 0
            &&& now > s.v.last_ms + rules.settings.combat_exit_timeout_ms
        },
{
}

/// Clearing leaves nothing of what was counted: no totals, no course, no players. Monsters stay with
/// what is known of them, and so does what belongs to connections and measurements.
pub proof fn law_clearing(v: EncounterView, uid: i64)
    ensures
        ({
            let c = cleared(v);
            &&& c.dmg.total == 0 && c.boss.total == 0 && c.heal.total == 0 && c.taken.total == 0
            &&& c.dmg.hit_count == 0 && c.heal.hit_count == 0 && c.taken.hit_count == 0
            &&& c.start_ms == 0 && c.last_ms == 0 && c.last_sample_ms == 0 && c.last_sample == 0
            &&& c.series.len() == 0 && !c.has_selected && !c.is_paused
            &&& !c.participants.contains(uid)
            &&& c.local_uid == v.local_uid && c.mode == v.mode && c.active == v.active
            &&& c.conns == v.conns && c.consumables == v.consumables
            &&& c.entities.contains_key(uid) <==> v.entities.contains_key(uid)
                && v.entities[uid].entity_type != EntityKind::Player
            &&& c.entities.contains_key(uid) ==> {
                let e = c.entities[uid];
                &&& e.profile == v.entities[uid].profile
                &&& e.monster_id == v.entities[uid].monster_id
                &&& e.entity_type == v.entities[uid].entity_type
                &&& e.dmg.total == 0 && e.heal.total == 0 && e.taken.total == 0 && e.boss.total
                    == 0
                &&& e.series.len() == 0 && e.skill_dmg.dom() =~= Set::empty()
            }
        }),
{
}

/// A sample is taken where none was yet or the time between samples is over; where one is forced, as
/// soon as any time is over; where that time is 0, never.
pub proof fn law_when_samples_are_taken(v: EncounterView, settings: RuntimeSettings, ts: u128)
    requires
        v.last_sample_ms > 0,
        ts >= v.last_sample_ms,
    ensures
        samples_now(v, settings, ts, false) <==> settings.ts_interval_ms > 0 && ts
            >= v.last_sample_ms + settings.ts_interval_ms,
        samples_now(v, settings, ts, true) <==> settings.ts_interval_ms > 0 && ts
            > v.last_sample_ms,
        samples_now(EncounterView { last_sample_ms: 0, ..v }, settings, ts, false)
            <==> settings.ts_interval_ms > 0,
{
}

/// A sample holds the damage up to then and up to the sample before, the time since the encounter
/// began and the time that it covers. It comes last; of the others, the oldest go where there are
/// too many.
pub proof fn law_samples(v: EncounterView, settings: RuntimeSettings, ts: u128, force: bool)
    requires
        samples_now(v, settings, ts, force),
        settings.ts_samples > 0,
        ts >= v.start_ms,
    ensures
        ({
            let after = sampled(v, settings, ts, force);
            let point = after.series.last();
            &&& after.series.len() > 0
            &&& point.t_ms == ts - v.start_ms
            &&& point.total_dmg == v.dmg.total
            &&& point.previous_dmg == v.last_sample
            &&& v.last_sample_ms == 0 ==> point.window_ms == settings.ts_interval_ms
            &&& 0 < v.last_sample_ms <= ts ==> point.window_ms == ts - v.last_sample_ms
            &&& after.last_sample_ms == ts
            &&& after.last_sample == v.dmg.total
            &&& after.dmg == v.dmg && after.heal == v.heal && after.mode == v.mode
            &&& after.entities.dom() == v.entities.dom()
            &&& v.mode == MeasureMode::Normal ==> {
                &&& after.series.len() == if v.series.len() < settings.ts_samples {
                    v.series.len() + 1
                } else {
                    settings.ts_samples as nat
                }
                &&& forall|i: int|
                    1 < i <= after.series.len() ==> after.series[#[trigger] (after.series.len()
                        - i)] == v.series[v.series.len() + 1 - i]
            }
        }),
{
    let after = sampled(v, settings, ts, force);
    assert(after.entities.dom() =~= v.entities.dom());
}

/// A meal is noticed as a meal and a potion as a potion, each with the time at which it runs out,
/// in place of the one before; what ran out, or is neither, is not noticed.
pub proof fn law_consumables_are_noticed(
    c: PlayerConsumables,
    s: BuffStateSnapshot,
    ids: ConsumableIds,
    now: u128,
)
    requires
        now + s.remaining_ms <= u128::MAX,
    ensures
        ({
            let after = noticed(c, s, ids, now);
            let meal = s.remaining_ms > 0 && ids.food@.contains(s.base_id);
            let potion = s.remaining_ms > 0 && !ids.food@.contains(s.base_id)
                && ids.syrup@.contains(s.base_id);
            &&& meal ==> (after.food matches Some(t) && t.base_id == s.base_id && t.duration_ms
                == s.duration_ms && t.ends_at_ms == now + s.remaining_ms)
            &&& !meal ==> after.food == c.food
            &&& potion ==> (after.syrup matches Some(t) && t.base_id == s.base_id && t.duration_ms
                == s.duration_ms && t.ends_at_ms == now + s.remaining_ms)
            &&& !potion ==> after.syrup == c.syrup
        }),
{
}

/// What ran out is forgotten, from the very time at which it does; players who use nothing more are
/// forgotten too.
pub proof fn law_consumables_run_out(m: Map<i64, PlayerConsumables>, uid: i64, now: u128)
    ensures
        ({
            let after = swept(m, now);
            &&& after.contains_key(uid) <==> m.contains_key(uid) && ((m[uid].food matches Some(t)
                && now < t.ends_at_ms) || (m[uid].syrup matches Some(t) && now < t.ends_at_ms))
            &&& after.contains_key(uid) ==> {
                &&& after[uid].food is Some <==> (m[uid].food matches Some(t) && now
                    < t.ends_at_ms)
                &&& after[uid].food is Some ==> after[uid].food == m[uid].food
                &&& after[uid].syrup is Some <==> (m[uid].syrup matches Some(t) && now
                    < t.ends_at_ms)
                &&& after[uid].syrup is Some ==> after[uid].syrup == m[uid].syrup
            }
        }),
{
}

/// An event of type 2 removes an effect. Of the others, an effect of type 18 adds and one of type 19
/// changes, with what was sent of it; those without content, and all others, do nothing.
pub proof fn law_effect_events(uid: i64, event: BuffEvent)
    ensures
        event.event_type == 2 ==> event_actions(uid, event) == seq![
            BuffActionView::Remove { uid, buff_uuid: event.buff_uuid },
        ],
        event.event_type != 2 ==> (event.payload matches Some(p) ==> {
            &&& p.buff_type == 18 && p.detail_raw@.len() > 0 ==> event_actions(uid, event) == seq![
                BuffActionView::Add { uid, buff_uuid: event.buff_uuid, raw: p.detail_raw@ },
            ]
            &&& p.buff_type == 19 && p.detail_raw@.len() > 0 ==> event_actions(uid, event) == seq![
                BuffActionView::Change { uid, buff_uuid: event.buff_uuid, raw: p.detail_raw@ },
            ]
            &&& p.detail_raw@.len() == 0 || (p.buff_type != 18 && p.buff_type != 19)
                ==> event_actions(uid, event).len() == 0
        }),
        event.event_type != 2 && event.payload is None ==> event_actions(uid, event).len() == 0,
{
}

/// What events do comes in their order.
pub proof fn law_effect_events_come_in_order(uid: i64, a: Seq<BuffEvent>, b: Seq<BuffEvent>)
    ensures
        events_actions(uid, a + b) == events_actions(uid, a) + events_actions(uid, b),
    decreases b.len(),
{
    if b.len() == 0 {
        assert(a + b =~= a);
        assert(events_actions(uid, a) + events_actions(uid, b) =~= events_actions(uid, a));
    } else {
        law_effect_events_come_in_order(uid, a, b.drop_last());
        assert((a + b).drop_last() =~= a + b.drop_last());
        assert((a + b).last() == b.last());
        assert(events_actions(uid, a + b) =~= events_actions(uid, a) + events_actions(uid, b));
    }
}

/// Each source of effects has an id of its own.
pub proof fn law_sources(id: i64)
    ensures
        source_of(id) == BuffSourceKind::Basilisk <==> id == 2110050,
        source_of(id) == BuffSourceKind::Tarta <==> id == 2110055,
        source_of(id) == BuffSourceKind::Tina <==> id == 2110056,
        source_of(id) == BuffSourceKind::Aluna <==> id == 2110057,
{
}

/// What messages do to effects: an update of one is handed on whole and as an update, effects that
/// come together are handed on one by one, and the effects of the own character come before those of
/// what changed.
pub proof fn law_effect_messages(s: Scene, msg: Message, rules: Rules, now: u128, i: int)
    ensures
        msg matches Message::BuffTick(raw) ==> message_actions(s, msg, rules, now) == seq![
            BuffActionView::Full(raw@),
            BuffActionView::Tick(raw@),
        ],
        msg matches Message::BuffSnapshotBundle(list) ==> {
            let actions = message_actions(s, msg, rules, now);
            &&& actions.len() == list@.len()
            &&& 0 <= i < list@.len() ==> actions[i] == BuffActionView::Full(list@[i]@)
        },
        msg matches Message::LocalDeltaBatch(Some(l)) ==> {
            let actions = message_actions(s, msg, rules, now);
            &&& actions.len() >= l.effects@.len()
            &&& 0 <= i < l.effects@.len() ==> actions[i] == (BuffActionView::Effect {
                uid: s.v.local_uid,
                raw: l.effects@[i]@,
            })
        },
        msg is WorldEntityBatch || msg is WorldEnterSnapshot || msg is Unreadable ==> message_actions(
            s,
            msg,
            rules,
            now,
        ).len() == 0,
{
}

/// What a message does is what its changes do, one after the other; a message without changes does
/// nothing.
pub proof fn law_change_messages(s: Scene, msg: Message, rules: Rules, now: u128)
    ensures
        msg matches Message::WorldDeltaBatch(ds) ==> message_effect(s, None, msg, rules, now)
            == changed_all(s, ds@, rules, now),
        msg matches Message::LocalDeltaBatch(Some(l)) ==> (l.base_delta matches Some(d)
            ==> message_effect(s, None, msg, rules, now) == changed(s, d, rules, now)),
        msg matches Message::LocalDeltaBatch(None) ==> message_effect(s, None, msg, rules, now)
            == s,
        msg is BuffTick || msg is BuffSnapshotBundle || msg is Unreadable ==> message_effect(
            s,
            None,
            msg,
            rules,
            now,
        ) == s,
{
    reveal_with_fuel(changed_all, 2);
    if let Message::LocalDeltaBatch(Some(l)) = msg {
        if let Some(d) = l.base_delta {
            assert(seq![d].drop_last() =~= Seq::<SceneDelta>::empty());
            assert(seq![d].last() == d);
        }
    }
}

/// Changes count one after the other.
pub proof fn law_changes_come_in_order(
    s: Scene,
    first: Seq<SceneDelta>,
    second: Seq<SceneDelta>,
    rules: Rules,
    now: u128,
)
    ensures
        changed_all(s, first + second, rules, now) == changed_all(
            changed_all(s, first, rules, now),
            second,
            rules,
            now,
        ),
    decreases second.len(),
{
    if second.len() == 0 {
        assert(first + second =~= first);
    } else {
        law_changes_come_in_order(s, first, second.drop_last(), rules, now);
        assert((first + second).drop_last() =~= first + second.drop_last());
        assert((first + second).last() == second.last());
    }
}

/// An entity that appears is known from then on, under its number and as what its number says;
/// entities without a number are not. Nothing else is touched.
pub proof fn law_entities_appear(s: Scene, a: AppearEntity, rules: Rules, other: i64)
    ensures
        a.uuid == 0 ==> appeared(s, a, rules) == s,
        a.uuid != 0 ==> {
            let after = appeared(s, a, rules);
            let uid = (a.uuid as int / 0x1_0000) as i64;
            &&& after.v.entities.contains_key(uid)
            &&& a.attrs is None ==> after.v.entities[uid].entity_type == kind_of(a.uuid)
            &&& after.v.dmg == s.v.dmg && after.v.heal == s.v.heal && after.v.taken == s.v.taken
            &&& other != uid ==> (after.v.entities.contains_key(other)
                <==> s.v.entities.contains_key(other)) && (s.v.entities.contains_key(other)
                ==> after.v.entities[other] == s.v.entities[other])
        },
{
}

/// A sample of a player holds what it dealt up to then and up to the sample before, in all and with
/// each of its skills; monsters, and players who never dealt damage, have none.
pub proof fn law_player_samples(e: EntityView, how: Sampling, skill: i32)
    requires
        how.cap > 0,
    ensures
        ({
            let after = sampled_entity(e, how);
            let has_course = e.entity_type == EntityKind::Player && (e.dmg.total != 0
                || e.series.len() > 0);
            &&& !has_course ==> after == e
            &&& has_course ==> {
                &&& after.series.len() > 0
                &&& after.series.last().total_dmg == e.dmg.total
                &&& after.series.last().previous_dmg == e.last_sample
                &&& after.series.last().t_ms == how.t_ms
                &&& after.series.last().window_ms == how.window_ms
                &&& after.last_sample == e.dmg.total
                &&& e.skill_dmg.contains_key(skill) ==> {
                    &&& after.skill_series.contains_key(skill)
                    &&& after.skill_series[skill].len() > 0
                    &&& after.skill_series[skill].last().total_dmg == e.skill_dmg[skill].total
                    &&& after.skill_series[skill].last().previous_dmg == if e.skill_last.contains_key(
                        skill,
                    ) {
                        e.skill_last[skill] as int
                    } else {
                        0
                    }
                    &&& after.skill_last[skill] == e.skill_dmg[skill].total
                }
                &&& after.dmg == e.dmg && after.skill_dmg == e.skill_dmg && after.profile
                    == e.profile
            }
        }),
{
}

/// An encounter that ends is remembered exactly where it is shown, that is where no character is
/// chosen or the chosen one took part, and a player dealt damage.
pub proof fn law_finished_encounters_are_kept(s: Scene, d: SceneDelta, rules: Rules, now: u128)
    requires
        ends_encounter(s, d, rules, now),
        d.attrs is None,
        s.v.entities.contains_key((d.uuid as int / 0x1_0000) as i64),
    ensures
        kept_by_change(s, d, rules, now).len() <= 1,
        kept_by_change(s, d, rules, now).len() == 1 <==> {
            &&& rules.selected is None || s.v.has_selected
            &&& exists|uid: i64| #[trigger]
                s.v.entities.contains_key(uid) && s.v.entities[uid].entity_type
                    == EntityKind::Player && s.v.entities[uid].dmg.total != 0
        },
        kept_by_change(s, d, rules, now).len() == 1 ==> kept_by_change(s, d, rules, now)[0].dmg
            == s.v.dmg,
{
    let v = delta_told(s, d, rules).v;
    assert(v.entities =~= s.v.entities);
    if exists|uid: i64| #[trigger]
        s.v.entities.contains_key(uid) && s.v.entities[uid].entity_type == EntityKind::Player
            && s.v.entities[uid].dmg.total != 0 {
        let uid = choose|uid: i64| #[trigger]
            s.v.entities.contains_key(uid) && s.v.entities[uid].entity_type == EntityKind::Player
                && s.v.entities[uid].dmg.total != 0;
        assert(listed(v, StatType::Dmg, false, uid));
    }
    if exists|uid: i64| listed(v, StatType::Dmg, false, uid) {
        let uid = choose|uid: i64| listed(v, StatType::Dmg, false, uid);
        assert(s.v.entities.contains_key(uid));
    }
}

/// A skill is known by the first hit with it: of its element and kind, the low eight bits. Of a hit
/// on a boss, what the skill dealt to bosses grows; of a hit on a player, what it took from the
/// attacker with that skill.
pub proof fn law_skills_are_booked(
    v: EncounterView,
    names: Map<i64, CachedView>,
    target: i64,
    kind: EntityKind,
    d: DamageRecord,
    rules: Rules,
    uid: i64,
    skill: i32,
)
    requires
        step_fits(v, names, target, kind, d, rules),
        d.owner_id != 0,
        d.top_summoner_id != 0 || d.attacker_uuid != 0,
        uid == booked_for(d),
        v.entities.contains_key(uid),
        v.entities.contains_key(target),
    ensures
        ({
            let after = damage_step(v, names, target, kind, d, rules);
            let before = v.entities[uid];
            let e = after.entities[uid];
            let on_boss = v.entities[target].monster_id matches Some(id)
                && rules.boss_names@.contains_key(id);
            &&& before.skill_meta.contains_key(d.owner_id) ==> e.skill_meta[d.owner_id]
                == before.skill_meta[d.owner_id]
            &&& !before.skill_meta.contains_key(d.owner_id) ==> {
                &&& e.skill_meta[d.owner_id].property == d.property as int % 256
                &&& e.skill_meta[d.owner_id].damage_mode == d.damage_mode as int % 256
            }
            &&& skill != d.owner_id ==> {
                &&& e.skill_dmg.contains_key(skill) <==> before.skill_dmg.contains_key(skill)
                &&& e.skill_heal.contains_key(skill) <==> before.skill_heal.contains_key(skill)
                &&& e.skill_dmg.contains_key(skill) ==> e.skill_dmg[skill]
                    == before.skill_dmg[skill]
                &&& e.skill_heal.contains_key(skill) ==> e.skill_heal[skill]
                    == before.skill_heal[skill]
            }
            &&& d.kind != DmgKind::Heal ==> {
                &&& total_at(e.skill_boss, d.owner_id) == total_at(before.skill_boss, d.owner_id)
                    + if on_boss {
                    counted_value(d)
                } else {
                    0
                }
                &&& kind == EntityKind::Player ==> total_at(
                    after.entities[target].taken_by_skill,
                    pair_key(uid, d.owner_id),
                ) == total_at(
                    v.entities[target].taken_by_skill,
                    pair_key(uid, d.owner_id),
                ) + counted_value(d)
            }
        }),
{
}

/// What attributes tell of an entity depends on its kind: of players the profile, which is also
/// remembered; of monsters what they are; of others nothing.
pub proof fn law_attributes_are_told(s: Scene, a: AppearEntity, list: Vec<RawAttr>, rules: Rules)
    requires
        a.uuid != 0,
        a.attrs == Some(list),
        s.v.entities.contains_key((a.uuid as int / 0x1_0000) as i64),
    ensures
        ({
            let uid = (a.uuid as int / 0x1_0000) as i64;
            let after = appeared(s, a, rules);
            let before = s.v.entities[uid];
            let e = after.v.entities[uid];
            &&& e.dmg == before.dmg && e.heal == before.heal && e.taken == before.taken
            &&& a.uuid as int % 0x1_0000 == 640 ==> {
                &&& e.profile == player_attrs(before.profile, list@, rules.classes).0
                &&& e.monster_id == before.monster_id
                &&& after.names == names_after(
                    s.names,
                    uid,
                    player_attrs(before.profile, list@, rules.classes).1,
                )
            }
            &&& a.uuid as int % 0x1_0000 != 640 ==> after.names == s.names
            &&& a.uuid as int % 0x1_0000 == 64 ==> e == monster_attrs(
                EntityView { entity_type: EntityKind::Monster, ..before },
                list@,
            )
            &&& a.uuid as int % 0x1_0000 != 640 && a.uuid as int % 0x1_0000 != 64 ==> e.profile
                == before.profile && e.monster_id == before.monster_id
        }),
{
    let uid = (a.uuid as int / 0x1_0000) as i64;
    lemma_monster_attrs_keep(
        EntityView { entity_type: EntityKind::Monster, ..s.v.entities[uid] },
        list@,
    );
}

/// What attributes tell of a monster leaves what was counted.
proof fn lemma_monster_attrs_keep(e: EntityView, attrs: Seq<RawAttr>)
    ensures
        monster_attrs(e, attrs).dmg == e.dmg,
        monster_attrs(e, attrs).heal == e.heal,
        monster_attrs(e, attrs).taken == e.taken,
    decreases attrs.len(),
{
    if attrs.len() > 0 {
        lemma_monster_attrs_keep(e, attrs.drop_last());
    }
}

/// What a player uses is noticed for that player only.
pub proof fn law_players_are_told_apart(
    m: Map<i64, PlayerConsumables>,
    seen: Seq<(i64, Vec<BuffStateSnapshot>)>,
    ids: ConsumableIds,
    now: u128,
    uid: i64,
)
    requires
        forall|i: int| 0 <= i < seen.len() ==> (#[trigger] seen[i]).0 != uid,
    ensures
        players_noticed(m, seen, ids, now).contains_key(uid) <==> m.contains_key(uid),
        m.contains_key(uid) ==> players_noticed(m, seen, ids, now)[uid] == m[uid],
    decreases seen.len(),
{
    if seen.len() > 0 {
        let rest = seen.drop_last();
        assert forall|i: int| 0 <= i < rest.len() implies (#[trigger] rest[i]).0 != uid by {
            assert(rest[i] == seen[i]);
        }
        assert(seen[seen.len() - 1].0 != uid);
        law_players_are_told_apart(m, rest, ids, now, uid);
    }
}

} // verus!
