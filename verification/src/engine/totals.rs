//! The totals of an encounter are the sums of those of everyone in it.

use crate::capture::server::ServerView;
use crate::compute::players::{encounter_stat, entity_stat, StatType};
use crate::engine::class::ClassTable;
use crate::engine::combat_stats::{fits_record, hit_value, with_record, CombatStats};
use crate::engine::damage::{
    attacker_of, bumped, counts, damage_step, damage_steps, dealt_fits, hit_dealt, hit_taken,
    is_boss_entity, joined, stats_at, step_fits, steps_fit, taken_fits, totalled, totals_fit,
    uid_of, with_target_hit,
};
use crate::engine::encounter::{cleared, empty_encounter, EncounterView};
use crate::engine::entity::{pair_key, EntityView};
use crate::engine::name_cache::{entity_or_new, CachedView};
use crate::engine::processor::{
    after_message, changed_all, changes_fit, changes_in, entered, is_own, is_signal, message_fits,
    met, taken_in,
};
use crate::engine::rules::Rules;
use crate::engine::runtime_settings::RuntimeSettings;
use crate::engine::sampling::sampled;
use crate::engine::scene::{
    all_appeared, attrs_told, brings_hits, change_fits, changed, current, delta_told,
    lemma_monster_attrs_keep, stamped, told, Scene,
};
use crate::protocol::messages::{
    kind_of, AppearEntity, DamageRecord, DmgKind, EntityKind, Message, RawAttr, SceneDelta,
};
use vstd::prelude::*;

verus! {

/// The sum of the values of a map.
pub open spec fn map_sum<K>(m: Map<K, int>) -> int
    decreases m.dom().len(),
{
    if m.dom().finite() && m.dom().len() > 0 {
        let k = m.dom().choose();
        m[k] + map_sum(m.remove(k))
    } else {
        0
    }
}

/// One value apart from the others.
proof fn lemma_sum_remove<K>(m: Map<K, int>, k: K)
    requires
        m.dom().finite(),
        m.contains_key(k),
    ensures
        map_sum(m) == m[k] + map_sum(m.remove(k)),
    decreases m.dom().len(),
{
    let c = m.dom().choose();
    if c != k {
        lemma_sum_remove(m.remove(c), k);
        lemma_sum_remove(m.remove(k), c);
        assert(m.remove(c).remove(k) =~= m.remove(k).remove(c));
    }
}

/// One value set anew.
proof fn lemma_sum_insert<K>(m: Map<K, int>, k: K, x: int)
    requires
        m.dom().finite(),
    ensures
        map_sum(m.insert(k, x)) == map_sum(m) + x - if m.contains_key(k) {
            m[k]
        } else {
            0
        },
{
    let n = m.insert(k, x);
    lemma_sum_remove(n, k);
    assert(n.remove(k) =~= m.remove(k));
    if m.contains_key(k) {
        lemma_sum_remove(m, k);
    } else {
        assert(m.remove(k) =~= m);
    }
}

/// A sum of nothing.
proof fn lemma_sum_zero<K>(m: Map<K, int>)
    requires
        forall|k: K| #[trigger] m.contains_key(k) ==> m[k] == 0,
    ensures
        map_sum(m) == 0,
    decreases m.dom().len(),
{
    if m.dom().finite() && m.dom().len() > 0 {
        let k = m.dom().choose();
        assert(m.contains_key(k));
        assert forall|j: K| #[trigger] m.remove(k).contains_key(j) implies m.remove(k)[j] == 0 by {
            assert(m.contains_key(j));
        }
        lemma_sum_zero(m.remove(k));
    }
}

/// The totals of everyone.
pub open spec fn entity_totals(es: Map<i64, EntityView>, stat: StatType) -> Map<i64, int> {
    es.map_values(|e: EntityView| entity_stat(e, stat).total as int)
}

/// Whether the total of the encounter is the sum of those of everyone in it.
pub open spec fn adds_up(v: EncounterView, stat: StatType) -> bool {
    &&& v.entities.dom().finite()
    &&& encounter_stat(v, stat).total == map_sum(entity_totals(v.entities, stat))
}

/// The total of an entity, or 0 where it is not there.
spec fn total_at(es: Map<i64, EntityView>, uid: i64, stat: StatType) -> int {
    if es.contains_key(uid) {
        entity_stat(es[uid], stat).total as int
    } else {
        0
    }
}

/// An entity set anew changes the sum by as much as its total.
proof fn lemma_put(es: Map<i64, EntityView>, uid: i64, e: EntityView, stat: StatType)
    requires
        es.dom().finite(),
    ensures
        es.insert(uid, e).dom().finite(),
        map_sum(entity_totals(es.insert(uid, e), stat)) == map_sum(entity_totals(es, stat))
            + entity_stat(e, stat).total - total_at(es, uid, stat),
{
    let m = entity_totals(es, stat);
    let n = entity_totals(es.insert(uid, e), stat);
    assert(m.dom() =~= es.dom());
    assert(n =~= m.insert(uid, entity_stat(e, stat).total as int));
    lemma_sum_insert(m, uid, entity_stat(e, stat).total as int);
}

/// A new entity has no totals.
proof fn lemma_new_total(
    es: Map<i64, EntityView>,
    uid: i64,
    kind: EntityKind,
    names: Map<i64, CachedView>,
    classes: ClassTable,
    stat: StatType,
)
    ensures
        entity_stat(entity_or_new(es, uid, kind, names, classes), stat).total == total_at(
            es,
            uid,
            stat,
        ),
{
}

/// What a hit adds to a total.
spec fn added(d: DamageRecord, stat: StatType, boss: bool, on_player: bool) -> int {
    let counted = match stat {
        StatType::Dmg => d.kind != DmgKind::Heal,
        StatType::DmgBossOnly => d.kind != DmgKind::Heal && boss,
        StatType::Heal => d.kind == DmgKind::Heal,
        StatType::DmgTaken => d.kind != DmgKind::Heal && on_player,
    };
    if counted {
        hit_value(d) as int
    } else {
        0
    }
}

proof fn lemma_record_total(s: CombatStats, d: DamageRecord)
    requires
        fits_record(s, d),
    ensures
        with_record(s, d).total == s.total + hit_value(d),
{
}

/// What a hit adds to the totals of the encounter.
proof fn lemma_totalled(v: EncounterView, d: DamageRecord, boss: bool, on_player: bool, stat: StatType)
    requires
        totals_fit(v, d, boss, on_player),
    ensures
        encounter_stat(totalled(v, d, boss, on_player), stat).total == encounter_stat(v, stat).total
            + added(d, stat, boss, on_player),
        totalled(v, d, boss, on_player).entities == v.entities,
{
}

/// What a hit adds to the totals of its target.
proof fn lemma_taken_total(e: EntityView, d: DamageRecord, attacker: i64, stat: StatType)
    requires
        fits_record(e.taken, d),
    ensures
        entity_stat(hit_taken(e, d, attacker), stat).total == entity_stat(e, stat).total + if stat
            == StatType::DmgTaken {
            hit_value(d) as int
        } else {
            0
        },
{
    lemma_record_total(e.taken, d);
}

/// What a hit adds to the totals of its attacker.
proof fn lemma_dealt_total(
    e: EntityView,
    d: DamageRecord,
    boss: bool,
    classes: ClassTable,
    stat: StatType,
)
    requires
        dealt_fits(e, d, boss),
    ensures
        entity_stat(hit_dealt(e, d, boss, classes), stat).total == entity_stat(e, stat).total
            + added(d, stat, boss, false),
{
}

/// A hit counts for everyone together as it counts for those whom it concerns.
pub proof fn law_hit_adds_up(
    v: EncounterView,
    names: Map<i64, CachedView>,
    target: i64,
    target_kind: EntityKind,
    d: DamageRecord,
    rules: Rules,
    stat: StatType,
)
    requires
        adds_up(v, stat),
        step_fits(v, names, target, target_kind, d, rules),
    ensures
        adds_up(damage_step(v, names, target, target_kind, d, rules), stat),
{
    if counts(d) {
        let classes = rules.classes;
        let attacker = uid_of(attacker_of(d));
        let attacker_kind = kind_of(attacker_of(d));
        let boss = is_boss_entity(v, target, rules);
        let on_player = target_kind == EntityKind::Player;
        let j = joined(v, target, target_kind, attacker, attacker_kind, rules);
        lemma_totalled(j, d, boss, on_player, stat);
        let es = v.entities;
        let t = entity_or_new(es, target, target_kind, names, classes);
        lemma_new_total(es, target, target_kind, names, classes, stat);
        let hit = d.kind != DmgKind::Heal && on_player;
        if hit {
            lemma_taken_total(t, d, attacker, stat);
            lemma_put(es, target, hit_taken(t, d, attacker), stat);
        }
        let es1 = if hit {
            with_target_hit(es, names, target, target_kind, d, attacker, classes)
        } else {
            es
        };
        let a = entity_or_new(es1, attacker, attacker_kind, names, classes);
        lemma_new_total(es1, attacker, attacker_kind, names, classes, stat);
        lemma_dealt_total(a, d, boss, classes, stat);
        lemma_put(es1, attacker, hit_dealt(a, d, boss, classes), stat);
    }
}

/// Hits keep that totals add up.
proof fn lemma_hits_add_up(
    v: EncounterView,
    names: Map<i64, CachedView>,
    target: i64,
    kind: EntityKind,
    ds: Seq<DamageRecord>,
    rules: Rules,
    stat: StatType,
)
    requires
        adds_up(v, stat),
        steps_fit(v, names, target, kind, ds, rules),
    ensures
        adds_up(damage_steps(v, names, target, kind, ds, rules), stat),
    decreases ds.len(),
{
    if ds.len() > 0 {
        let r = ds.drop_last();
        lemma_hits_add_up(v, names, target, kind, r, rules, stat);
        law_hit_adds_up(
            damage_steps(v, names, target, kind, r, rules),
            names,
            target,
            kind,
            ds.last(),
            rules,
            stat,
        );
    }
}

/// A new encounter has no totals.
pub proof fn law_new_encounter_adds_up(v: EncounterView, stat: StatType)
    requires
        v.entities.dom().finite(),
    ensures
        adds_up(empty_encounter(), stat),
        adds_up(cleared(v), stat),
{
    let none = entity_totals(empty_encounter().entities, stat);
    lemma_sum_zero(none);
    let es = cleared(v).entities;
    let m = entity_totals(es, stat);
    assert(es.dom().subset_of(v.entities.dom()));
    vstd::set_lib::lemma_set_subset_finite(v.entities.dom(), es.dom());
    assert forall|k: i64| #[trigger] m.contains_key(k) implies m[k] == 0 by {
        assert(es.contains_key(k));
    }
    lemma_sum_zero(m);
}

/// A sample keeps that totals add up.
proof fn lemma_sampled_adds_up(
    v: EncounterView,
    settings: RuntimeSettings,
    now: u128,
    force: bool,
    stat: StatType,
)
    requires
        adds_up(v, stat),
    ensures
        adds_up(sampled(v, settings, now, force), stat),
{
    let w = sampled(v, settings, now, force);
    assert(w.entities.dom() =~= v.entities.dom());
    assert(entity_totals(w.entities, stat) =~= entity_totals(v.entities, stat));
}

/// What is told of an entity keeps that totals add up.
proof fn lemma_told_adds_up(
    s: Scene,
    uuid: i64,
    attrs: Option<Vec<RawAttr>>,
    retype: bool,
    classes: ClassTable,
    stat: StatType,
)
    requires
        adds_up(s.v, stat),
    ensures
        adds_up(told(s, uuid, attrs, retype, classes).v, stat),
{
    let uid = uid_of(uuid);
    let kind = kind_of(uuid);
    let found = entity_or_new(s.v.entities, uid, kind, s.names, classes);
    let e = if retype {
        EntityView { entity_type: kind, ..found }
    } else {
        found
    };
    if let Some(list) = attrs {
        lemma_monster_attrs_keep(e, list@);
    }
    let r = attrs_told(e, s.names, uid, kind, attrs, classes).0;
    lemma_new_total(s.v.entities, uid, kind, s.names, classes, stat);
    assert(entity_stat(r, stat) == entity_stat(found, stat));
    lemma_put(s.v.entities, uid, r, stat);
}

/// Entities that appear keep that totals add up.
proof fn lemma_appeared_adds_up(s: Scene, list: Seq<AppearEntity>, rules: Rules, stat: StatType)
    requires
        adds_up(s.v, stat),
    ensures
        adds_up(all_appeared(s, list, rules).v, stat),
    decreases list.len(),
{
    if list.len() > 0 {
        lemma_appeared_adds_up(s, list.drop_last(), rules, stat);
        let t = all_appeared(s, list.drop_last(), rules);
        let a = list.last();
        if a.uuid != 0 {
            lemma_told_adds_up(t, a.uuid, a.attrs, true, rules.classes, stat);
        }
    }
}

/// A change keeps that totals add up.
proof fn lemma_change_adds_up(s: Scene, d: SceneDelta, rules: Rules, now: u128, stat: StatType)
    requires
        adds_up(s.v, stat),
        change_fits(s, d, rules, now),
    ensures
        adds_up(changed(s, d, rules, now).v, stat),
{
    let t = delta_told(s, d, rules);
    if d.uuid != 0 && !rules.settings.imagine_only_mode {
        lemma_told_adds_up(s, d.uuid, d.attrs, false, rules.classes, stat);
    }
    if brings_hits(d, rules) {
        let ds = d.damages->Some_0@;
        law_new_encounter_adds_up(t.v, stat);
        let c = current(t.v, ds, rules.settings, now);
        let uid = uid_of(d.uuid);
        let kind = kind_of(d.uuid);
        lemma_hits_add_up(c, t.names, uid, kind, ds, rules, stat);
        let w = damage_steps(c, t.names, uid, kind, ds, rules);
        let x = stamped(w, now);
        assert(x.entities == w.entities && encounter_stat(x, stat) == encounter_stat(w, stat));
        lemma_sampled_adds_up(x, rules.settings, now, false, stat);
    }
}

/// Changes keep that totals add up.
proof fn lemma_changes_add_up(
    s: Scene,
    ds: Seq<SceneDelta>,
    rules: Rules,
    now: u128,
    stat: StatType,
)
    requires
        adds_up(s.v, stat),
        changes_fit(s, ds, rules, now),
    ensures
        adds_up(changed_all(s, ds, rules, now).v, stat),
    decreases ds.len(),
{
    if ds.len() > 0 {
        let r = ds.drop_last();
        lemma_changes_add_up(s, r, rules, now, stat);
        lemma_change_adds_up(changed_all(s, r, rules, now), ds.last(), rules, now, stat);
    }
}

/// Whatever a message does, the totals of the encounter are the sums of those of everyone in it:
/// damage, damage to bosses, healing and damage taken.
pub proof fn law_message_adds_up(
    s: Scene,
    conn: Option<ServerView>,
    msg: Message,
    rules: Rules,
    now: u128,
    stat: StatType,
)
    requires
        adds_up(s.v, stat),
        message_fits(s, conn, msg, rules, now),
    ensures
        adds_up(after_message(s, conn, msg, rules, now).v, stat),
{
    let m = met(s, conn, rules);
    assert(m.v.entities == s.v.entities && encounter_stat(m.v, stat) == encounter_stat(s.v, stat));
    if !is_signal(msg) && taken_in(s.v, conn, rules) {
        match msg {
            Message::WorldEntityBatch(list) => {
                lemma_appeared_adds_up(m, list@, rules, stat);
            },
            Message::WorldEnterSnapshot(Some(p)) => {
                let uid = p.char_id;
                let found = entity_or_new(
                    m.v.entities,
                    uid,
                    EntityKind::Player,
                    m.names,
                    rules.classes,
                );
                lemma_new_total(m.v.entities, uid, EntityKind::Player, m.names, rules.classes, stat);
                if let Some(c) = conn {
                    let e = entered(m, p, c, rules).v;
                    if uid != 0 && is_own(m.v.active, rules.selected, uid) {
                        assert(entity_stat(e.entities[uid], stat) == entity_stat(found, stat));
                        lemma_put(m.v.entities, uid, e.entities[uid], stat);
                    }
                }
            },
            _ => {
                lemma_changes_add_up(m, changes_in(msg), rules, now, stat);
            },
        }
    }
}

/// The totals under keys.
pub open spec fn key_totals<K>(m: Map<K, CombatStats>) -> Map<K, int> {
    m.map_values(|s: CombatStats| s.total as int)
}

/// Whether the totals of an entity are the sums of those of its skills, and of those who hit it.
pub open spec fn skills_add_up(e: EntityView) -> bool {
    &&& e.skill_dmg.dom().finite() && e.dmg.total == map_sum(key_totals(e.skill_dmg))
    &&& e.skill_boss.dom().finite() && e.boss.total == map_sum(key_totals(e.skill_boss))
    &&& e.skill_heal.dom().finite() && e.heal.total == map_sum(key_totals(e.skill_heal))
    &&& e.taken_by.dom().finite() && e.taken.total == map_sum(key_totals(e.taken_by))
    &&& e.taken_by_skill.dom().finite() && e.taken.total == map_sum(key_totals(e.taken_by_skill))
}

/// A hit under a key adds to the sum.
proof fn lemma_bumped_sum<K>(m: Map<K, CombatStats>, k: K, d: DamageRecord)
    requires
        m.dom().finite(),
        fits_record(stats_at(m, k), d),
    ensures
        bumped(m, k, d).dom().finite(),
        map_sum(key_totals(bumped(m, k, d))) == map_sum(key_totals(m)) + hit_value(d),
{
    let a = key_totals(m);
    let b = key_totals(bumped(m, k, d));
    assert(a.dom() =~= m.dom());
    lemma_record_total(stats_at(m, k), d);
    assert(b =~= a.insert(k, with_record(stats_at(m, k), d).total as int));
    lemma_sum_insert(a, k, with_record(stats_at(m, k), d).total as int);
}

/// A hit counts for an entity as it counts for one of its skills, or for the one who hit it.
pub proof fn law_skills_add_up(
    e: EntityView,
    d: DamageRecord,
    attacker: i64,
    boss: bool,
    classes: ClassTable,
)
    requires
        skills_add_up(e),
    ensures
        dealt_fits(e, d, boss) ==> skills_add_up(hit_dealt(e, d, boss, classes)),
        taken_fits(e, d, attacker) ==> skills_add_up(hit_taken(e, d, attacker)),
{
    if dealt_fits(e, d, boss) {
        if d.kind == DmgKind::Heal {
            lemma_bumped_sum(e.skill_heal, d.owner_id, d);
        } else {
            lemma_bumped_sum(e.skill_dmg, d.owner_id, d);
            if boss {
                lemma_bumped_sum(e.skill_boss, d.owner_id, d);
            }
        }
    }
    if taken_fits(e, d, attacker) {
        lemma_bumped_sum(e.taken_by, attacker, d);
        lemma_bumped_sum(e.taken_by_skill, pair_key(attacker, d.owner_id), d);
    }
}

} // verus!
