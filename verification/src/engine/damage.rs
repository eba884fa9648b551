//! What a hit does to the totals.

use crate::engine::class::{Class, ClassSpec, ClassTable};
use crate::engine::combat_stats::{
    fits_record, no_hits, process_stats, with_record, CombatStats,
};
use crate::engine::encounter::{entity_views, Encounter, EncounterView};
use crate::engine::entity::{pair_key, pair_key_of, Entity, EntityView, Profile, SkillMeta};
use crate::engine::name_cache::{create_entity, entity_or_new, CachedView, NameCache};
use crate::engine::monster_names::is_boss;
use crate::engine::rules::Rules;
use crate::protocol::constants::get_player_uid;
use crate::protocol::messages::{kind_of, DamageRecord, DmgKind, EntityKind};
use std::collections::HashMap;
use std::hash::Hash;
use vstd::prelude::*;
use vstd::std_specs::hash::*;

verus! {

/// The totals under a key.
pub open spec fn stats_at<K>(m: Map<K, CombatStats>, k: K) -> CombatStats {
    if m.contains_key(k) {
        m[k]
    } else {
        no_hits()
    }
}

/// The totals with a hit added under a key.
pub open spec fn bumped<K>(m: Map<K, CombatStats>, k: K, d: DamageRecord) -> Map<K, CombatStats> {
    m.insert(k, with_record(stats_at(m, k), d))
}

/// Adds a hit under a key.
fn bump_stats<K: Eq + Hash>(m: &mut HashMap<K, CombatStats>, k: K, d: &DamageRecord)
    requires
        obeys_key_model::<K>(),
        fits_record(stats_at(old(m)@, k), *d),
    ensures
        final(m)@ == bumped(old(m)@, k, *d),
{
    broadcast use group_hash_axioms;

    let stats: &mut CombatStats = m.entry(k).or_insert(CombatStats::default());
    process_stats(d, stats);
}

/// The low byte of a number.
pub open spec fn low_byte(x: i32) -> u8 {
    (x as int % 256) as u8
}

/// The low byte of a number.
fn byte_of(x: i32) -> (b: u8)
    ensures
        b == low_byte(x),
{
    let y: i64 = x as i64 + 0x8000_0000;
    assert(y % 256 == x as int % 256) by {
        assert(0x8000_0000 == 256 * 8388608);
        vstd::arithmetic::div_mod::lemma_mod_multiples_vanish(8388608, x as int, 256);
    }
    (y % 256) as u8
}

/// How a skill hits, as the first hit told.
pub open spec fn meta_noted(m: Map<i32, SkillMeta>, d: DamageRecord) -> Map<i32, SkillMeta> {
    if m.contains_key(d.owner_id) {
        m
    } else {
        m.insert(
            d.owner_id,
            SkillMeta { property: low_byte(d.property), damage_mode: low_byte(d.damage_mode) },
        )
    }
}

/// Notes how a skill hits.
fn note_meta(m: &mut HashMap<i32, SkillMeta>, d: &DamageRecord)
    ensures
        final(m)@ == meta_noted(old(m)@, *d),
{
    broadcast use group_hash_axioms;

    if !m.contains_key(&d.owner_id) {
        m.insert(
            d.owner_id,
            SkillMeta { property: byte_of(d.property), damage_mode: byte_of(d.damage_mode) },
        );
    }
}

/// A character that took a hit.
pub open spec fn hit_taken(e: EntityView, d: DamageRecord, attacker: i64) -> EntityView {
    EntityView {
        taken: with_record(e.taken, d),
        skill_meta: meta_noted(e.skill_meta, d),
        taken_by: bumped(e.taken_by, attacker, d),
        taken_by_skill: bumped(e.taken_by_skill, pair_key(attacker, d.owner_id), d),
        ..e
    }
}

/// The class and way of an attacker after a hit with a skill: told from the skill while not known.
pub open spec fn class_told(p: Profile, skill: i32, classes: ClassTable) -> Profile {
    if p.class_spec is None || p.class_spec == Some(ClassSpec::Unknown) {
        let spec = classes.spec_of(skill);
        Profile {
            class_spec: Some(spec),
            class: if p.class is None || p.class == Some(Class::Unknown) || p.class == Some(
                Class::Unimplemented,
            ) {
                Some(classes.class_of_spec(spec))
            } else {
                p.class
            },
            ..p
        }
    } else {
        p
    }
}

/// An attacker after a hit.
pub open spec fn hit_dealt(e: EntityView, d: DamageRecord, is_boss: bool, classes: ClassTable) -> EntityView {
    let skill = d.owner_id;
    let f = EntityView {
        profile: class_told(e.profile, skill, classes),
        skill_meta: meta_noted(e.skill_meta, d),
        ..e
    };
    if d.kind == DmgKind::Heal {
        EntityView {
            skill_heal: bumped(f.skill_heal, skill, d),
            heal: with_record(f.heal, d),
            ..f
        }
    } else if is_boss {
        EntityView {
            skill_dmg: bumped(f.skill_dmg, skill, d),
            dmg: with_record(f.dmg, d),
            skill_boss: bumped(f.skill_boss, skill, d),
            boss: with_record(f.boss, d),
            ..f
        }
    } else {
        EntityView {
            skill_dmg: bumped(f.skill_dmg, skill, d),
            dmg: with_record(f.dmg, d),
            ..f
        }
    }
}

/// Whether a hit fits the totals of a character that takes it.
pub open spec fn taken_fits(e: EntityView, d: DamageRecord, attacker: i64) -> bool {
    &&& fits_record(e.taken, d)
    &&& fits_record(stats_at(e.taken_by, attacker), d)
    &&& fits_record(stats_at(e.taken_by_skill, pair_key(attacker, d.owner_id)), d)
}

/// Whether a hit fits the totals of its attacker that it adds to.
pub open spec fn dealt_fits(e: EntityView, d: DamageRecord, is_boss: bool) -> bool {
    if d.kind == DmgKind::Heal {
        fits_record(e.heal, d) && fits_record(stats_at(e.skill_heal, d.owner_id), d)
    } else {
        &&& fits_record(e.dmg, d)
        &&& fits_record(stats_at(e.skill_dmg, d.owner_id), d)
        &&& is_boss ==> fits_record(e.boss, d) && fits_record(
            stats_at(e.skill_boss, d.owner_id),
            d,
        )
    }
}

/// Whether a hit fits the totals of the encounter that it adds to.
pub open spec fn totals_fit(v: EncounterView, d: DamageRecord, boss: bool, on_player: bool) -> bool {
    if d.kind == DmgKind::Heal {
        fits_record(v.heal, d)
    } else {
        &&& fits_record(v.dmg, d)
        &&& boss ==> fits_record(v.boss, d)
        &&& on_player ==> fits_record(v.taken, d)
    }
}

/// Takes a hit.
fn take_hit(e: &mut Entity, d: &DamageRecord, attacker: i64)
    requires
        taken_fits(old(e)@, *d, attacker),
    ensures
        final(e)@ == hit_taken(old(e)@, *d, attacker),
{
    broadcast use group_hash_axioms;

    process_stats(d, &mut e.dmg_taken_stats);
    note_meta(&mut e.skill_meta, d);
    bump_stats(&mut e.attacker_uid_to_dmg_taken_stats, attacker, d);
    bump_stats(
        &mut e.attacker_skill_to_dmg_taken_stats,
        pair_key_of(attacker, d.owner_id),
        d,
    );
}

/// Deals a hit.
fn deal_hit(e: &mut Entity, d: &DamageRecord, is_boss: bool, classes: &ClassTable)
    requires
        dealt_fits(old(e)@, *d, is_boss),
    ensures
        final(e)@ == hit_dealt(old(e)@, *d, is_boss, *classes),
{
    broadcast use group_hash_axioms;

    let spec_unknown: bool = match e.class_spec {
        Some(ClassSpec::Unknown) => true,
        None => true,
        _ => false,
    };
    if spec_unknown {
        let spec: ClassSpec = classes.spec_from_skill(d.owner_id);
        e.class_spec = Some(spec);
        let class_unknown: bool = match e.class {
            Some(Class::Unknown) => true,
            Some(Class::Unimplemented) => true,
            None => true,
            _ => false,
        };
        if class_unknown {
            e.class = Some(classes.class_from_spec(spec));
        }
    }
    note_meta(&mut e.skill_meta, d);
    if d.kind == DmgKind::Heal {
        bump_stats(&mut e.skill_uid_to_heal_stats, d.owner_id, d);
        process_stats(d, &mut e.heal_stats);
    } else {
        bump_stats(&mut e.skill_uid_to_dps_stats, d.owner_id, d);
        process_stats(d, &mut e.dmg_stats);
        if is_boss {
            bump_stats(&mut e.skill_uid_to_dps_stats_boss_only, d.owner_id, d);
            process_stats(d, &mut e.dmg_stats_boss_only);
        }
    }
}

/// The number of an entity without its kind.
pub open spec fn uid_of(uuid: i64) -> i64 {
    (uuid as int / 0x1_0000) as i64
}

/// Who deals a hit: the summoner where there is one.
pub open spec fn attacker_of(d: DamageRecord) -> i64 {
    if d.top_summoner_id != 0 {
        d.top_summoner_id
    } else {
        d.attacker_uuid
    }
}

/// Whether a hit counts: it has an attacker and a skill.
pub open spec fn counts(d: DamageRecord) -> bool {
    attacker_of(d) != 0 && d.owner_id != 0
}

/// Whether an entity is a boss.
pub open spec fn is_boss_entity(v: EncounterView, uid: i64, rules: Rules) -> bool {
    v.entities.contains_key(uid) && (v.entities[uid].monster_id matches Some(id) && rules.is_boss(
        id,
    ))
}

/// Who takes part after a hit.
pub open spec fn joined(
    v: EncounterView,
    target: i64,
    target_kind: EntityKind,
    attacker: i64,
    attacker_kind: EntityKind,
    rules: Rules,
) -> EncounterView {
    let p1 = if attacker_kind == EntityKind::Player {
        v.participants.insert(attacker)
    } else {
        v.participants
    };
    let p2 = if target_kind == EntityKind::Player {
        p1.insert(target)
    } else {
        p1
    };
    EncounterView {
        has_selected: v.has_selected || (rules.selected matches Some(s) && (attacker == s || target
            == s)),
        participants: p2,
        ..v
    }
}

/// The totals of the encounter after a hit.
pub open spec fn totalled(v: EncounterView, d: DamageRecord, boss: bool, on_player: bool) -> EncounterView {
    if d.kind == DmgKind::Heal {
        EncounterView { heal: with_record(v.heal, d), ..v }
    } else {
        EncounterView {
            dmg: with_record(v.dmg, d),
            boss: if boss {
                with_record(v.boss, d)
            } else {
                v.boss
            },
            taken: if on_player {
                with_record(v.taken, d)
            } else {
                v.taken
            },
            ..v
        }
    }
}

/// The encounter after a hit on `target`.
pub open spec fn damage_step(
    v: EncounterView,
    names: Map<i64, CachedView>,
    target: i64,
    target_kind: EntityKind,
    d: DamageRecord,
    rules: Rules,
) -> EncounterView {
    if !counts(d) {
        v
    } else {
        let attacker = uid_of(attacker_of(d));
        let attacker_kind = kind_of(attacker_of(d));
        let boss = is_boss_entity(v, target, rules);
        let on_player = target_kind == EntityKind::Player;
        let w = totalled(
            joined(v, target, target_kind, attacker, attacker_kind, rules),
            d,
            boss,
            on_player,
        );
        let es = if d.kind != DmgKind::Heal && on_player {
            with_target_hit(
                w.entities,
                names,
                target,
                target_kind,
                d,
                attacker,
                rules.classes,
            )
        } else {
            w.entities
        };
        EncounterView {
            entities: with_attacker_hit(
                es,
                names,
                attacker,
                attacker_kind,
                d,
                boss,
                rules.classes,
            ),
            ..w
        }
    }
}

/// The encounter after a list of hits on `target`.
pub open spec fn damage_steps(
    v: EncounterView,
    names: Map<i64, CachedView>,
    target: i64,
    target_kind: EntityKind,
    ds: Seq<DamageRecord>,
    rules: Rules,
) -> EncounterView
    decreases ds.len(),
{
    if ds.len() == 0 {
        v
    } else {
        damage_step(
            damage_steps(v, names, target, target_kind, ds.drop_last(), rules),
            names,
            target,
            target_kind,
            ds.last(),
            rules,
        )
    }
}

/// Whether a hit on `target` fits the totals that it adds to. One that does not count adds to none.
pub open spec fn step_fits(
    v: EncounterView,
    names: Map<i64, CachedView>,
    target: i64,
    target_kind: EntityKind,
    d: DamageRecord,
    rules: Rules,
) -> bool {
    counts(d) ==> {
        let attacker = uid_of(attacker_of(d));
        let attacker_kind = kind_of(attacker_of(d));
        let boss = is_boss_entity(v, target, rules);
        let on_player = target_kind == EntityKind::Player;
        &&& totals_fit(v, d, boss, on_player)
        &&& d.kind != DmgKind::Heal && on_player ==> taken_fits(
            entity_or_new(v.entities, target, target_kind, names, rules.classes),
            d,
            attacker,
        )
        &&& dealt_fits(
            entity_or_new(v.entities, attacker, attacker_kind, names, rules.classes),
            d,
            boss,
        )
    }
}

/// Whether hits on `target`, one by one, fit the totals that they add to.
pub open spec fn steps_fit(
    v: EncounterView,
    names: Map<i64, CachedView>,
    target: i64,
    target_kind: EntityKind,
    ds: Seq<DamageRecord>,
    rules: Rules,
) -> bool
    decreases ds.len(),
{
    ds.len() > 0 ==> {
        let before = ds.drop_last();
        &&& steps_fit(v, names, target, target_kind, before, rules)
        &&& step_fits(
            damage_steps(v, names, target, target_kind, before, rules),
            names,
            target,
            target_kind,
            ds.last(),
            rules,
        )
    }
}

/// Where hits fit, the first ones do.
pub proof fn lemma_steps_fit(
    v: EncounterView,
    names: Map<i64, CachedView>,
    target: i64,
    target_kind: EntityKind,
    ds: Seq<DamageRecord>,
    rules: Rules,
    n: int,
)
    requires
        0 <= n <= ds.len(),
        steps_fit(v, names, target, target_kind, ds, rules),
    ensures
        steps_fit(v, names, target, target_kind, ds.take(n), rules),
    decreases ds.len(),
{
    if n == ds.len() {
        assert(ds.take(n) =~= ds);
    } else {
        lemma_steps_fit(v, names, target, target_kind, ds.drop_last(), rules, n);
        assert(ds.drop_last().take(n) =~= ds.take(n));
    }
}

/// Notes who takes part.
fn join(
    encounter: &mut Encounter,
    target: i64,
    target_kind: EntityKind,
    attacker: i64,
    attacker_kind: EntityKind,
    rules: &Rules,
)
    ensures
        final(encounter)@ == joined(
            old(encounter)@,
            target,
            target_kind,
            attacker,
            attacker_kind,
            *rules,
        ),
{
    broadcast use group_hash_axioms;

    if let Some(s) = rules.selected {
        if attacker == s || target == s {
            encounter.has_selected_participant = true;
        }
    }
    if attacker_kind == EntityKind::Player {
        encounter.participant_player_uids.insert(attacker);
    }
    if target_kind == EntityKind::Player {
        encounter.participant_player_uids.insert(target);
    }
}

/// Adds a hit to the totals of the encounter.
fn add_totals(encounter: &mut Encounter, damage: &DamageRecord, boss: bool, on_player: bool)
    requires
        totals_fit(old(encounter)@, *damage, boss, on_player),
    ensures
        final(encounter)@ == totalled(old(encounter)@, *damage, boss, on_player),
{
    if damage.kind == DmgKind::Heal {
        process_stats(damage, &mut encounter.heal_stats);
    } else {
        process_stats(damage, &mut encounter.dmg_stats);
        if boss {
            process_stats(damage, &mut encounter.dmg_stats_boss_only);
        }
        if on_player {
            process_stats(damage, &mut encounter.dmg_taken_stats);
        }
    }
}

/// Takes an entity out of the encounter, or makes a new one.
pub(crate) fn take_entity(
    encounter: &mut Encounter,
    uid: i64,
    kind: EntityKind,
    names: &NameCache,
    classes: &ClassTable,
) -> (e: Entity)
    ensures
        e@ == entity_or_new(old(encounter)@.entities, uid, kind, names@, *classes),
        final(encounter)@ == (EncounterView {
            entities: old(encounter)@.entities.remove(uid),
            ..old(encounter)@
        }),
{
    broadcast use group_hash_axioms;

    let ghost m = encounter.entities@;
    assert(entity_views(m.remove(uid)) =~= entity_views(m).remove(uid));
    match encounter.entities.remove(&uid) {
        Some(e) => e,
        None => create_entity(uid, kind, names, classes),
    }
}

/// Puts an entity back into the encounter.
pub(crate) fn put_entity(encounter: &mut Encounter, uid: i64, e: Entity)
    ensures
        final(encounter)@ == (EncounterView {
            entities: old(encounter)@.entities.insert(uid, e@),
            ..old(encounter)@
        }),
{
    broadcast use group_hash_axioms;

    let ghost m = encounter.entities@;
    assert(entity_views(m.insert(uid, e)) =~= entity_views(m).insert(uid, e@));
    encounter.entities.insert(uid, e);
}

/// Whether the target of a hit is a boss.
pub(crate) fn targets_boss(encounter: &Encounter, target: i64, rules: &Rules) -> (b: bool)
    ensures
        b == is_boss_entity(encounter@, target, *rules),
{
    broadcast use group_hash_axioms;

    match encounter.entities.get(&target) {
        Some(e) => match e.monster_id {
            Some(id) => is_boss(&rules.boss_names, id),
            None => false,
        },
        None => false,
    }
}

/// The entities after a player took a hit.
pub open spec fn with_target_hit(
    es: Map<i64, EntityView>,
    names: Map<i64, CachedView>,
    target: i64,
    target_kind: EntityKind,
    d: DamageRecord,
    attacker: i64,
    classes: ClassTable,
) -> Map<i64, EntityView> {
    es.insert(
        target,
        hit_taken(entity_or_new(es, target, target_kind, names, classes), d, attacker),
    )
}

/// The entities after one dealt a hit.
pub open spec fn with_attacker_hit(
    es: Map<i64, EntityView>,
    names: Map<i64, CachedView>,
    attacker: i64,
    attacker_kind: EntityKind,
    d: DamageRecord,
    boss: bool,
    classes: ClassTable,
) -> Map<i64, EntityView> {
    es.insert(
        attacker,
        hit_dealt(entity_or_new(es, attacker, attacker_kind, names, classes), d, boss, classes),
    )
}

/// Lets the target take a hit.
fn target_takes(
    encounter: &mut Encounter,
    names: &NameCache,
    target: i64,
    target_kind: EntityKind,
    damage: &DamageRecord,
    attacker: i64,
    classes: &ClassTable,
)
    requires
        taken_fits(
            entity_or_new(old(encounter)@.entities, target, target_kind, names@, *classes),
            *damage,
            attacker,
        ),
    ensures
        final(encounter)@ == (EncounterView {
            entities: with_target_hit(
                old(encounter)@.entities,
                names@,
                target,
                target_kind,
                *damage,
                attacker,
                *classes,
            ),
            ..old(encounter)@
        }),
{
    let ghost es = encounter@.entities;
    let mut entity: Entity = take_entity(encounter, target, target_kind, names, classes);
    take_hit(&mut entity, damage, attacker);
    put_entity(encounter, target, entity);
    assert(encounter@.entities =~= es.insert(target, entity@));
}

/// Lets the attacker deal a hit.
fn attacker_deals(
    encounter: &mut Encounter,
    names: &NameCache,
    attacker: i64,
    attacker_kind: EntityKind,
    damage: &DamageRecord,
    boss: bool,
    classes: &ClassTable,
)
    requires
        dealt_fits(
            entity_or_new(old(encounter)@.entities, attacker, attacker_kind, names@, *classes),
            *damage,
            boss,
        ),
    ensures
        final(encounter)@ == (EncounterView {
            entities: with_attacker_hit(
                old(encounter)@.entities,
                names@,
                attacker,
                attacker_kind,
                *damage,
                boss,
                *classes,
            ),
            ..old(encounter)@
        }),
{
    let ghost es = encounter@.entities;
    let mut entity: Entity = take_entity(encounter, attacker, attacker_kind, names, classes);
    deal_hit(&mut entity, damage, boss, classes);
    put_entity(encounter, attacker, entity);
    assert(encounter@.entities =~= es.insert(attacker, entity@));
}

/// Takes one hit on `target_uid` in.
pub fn apply_damage(
    encounter: &mut Encounter,
    names: &NameCache,
    target_uid: i64,
    target_kind: EntityKind,
    damage: &DamageRecord,
    rules: &Rules,
)
    requires
        step_fits(old(encounter)@, names@, target_uid, target_kind, *damage, *rules),
    ensures
        final(encounter)@ == damage_step(
            old(encounter)@,
            names@,
            target_uid,
            target_kind,
            *damage,
            *rules,
        ),
{
    let attacker_uuid: i64 = if damage.top_summoner_id != 0 {
        damage.top_summoner_id
    } else {
        damage.attacker_uuid
    };
    if attacker_uuid == 0 || damage.owner_id == 0 {
        return;
    }
    let attacker_uid: i64 = get_player_uid(attacker_uuid);
    let attacker_kind = EntityKind::from(attacker_uuid);
    let boss: bool = targets_boss(encounter, target_uid, rules);
    let on_player: bool = target_kind == EntityKind::Player;
    join(encounter, target_uid, target_kind, attacker_uid, attacker_kind, rules);
    add_totals(encounter, damage, boss, on_player);
    if !(damage.kind == DmgKind::Heal) && on_player {
        target_takes(
            encounter,
            names,
            target_uid,
            target_kind,
            damage,
            attacker_uid,
            &rules.classes,
        );
    }
    attacker_deals(
        encounter,
        names,
        attacker_uid,
        attacker_kind,
        damage,
        boss,
        &rules.classes,
    );
}

/// Takes a list of hits on `target_uid` in.
pub fn apply_damages(
    encounter: &mut Encounter,
    names: &NameCache,
    target_uid: i64,
    target_kind: EntityKind,
    damages: &Vec<DamageRecord>,
    rules: &Rules,
)
    requires
        steps_fit(old(encounter)@, names@, target_uid, target_kind, damages@, *rules),
    ensures
        final(encounter)@ == damage_steps(
            old(encounter)@,
            names@,
            target_uid,
            target_kind,
            damages@,
            *rules,
        ),
{
    let ghost v = encounter@;
    let n: usize = damages.len();
    assert(damages@.take(0) =~= Seq::<DamageRecord>::empty());
    for i in 0..n
        invariant
            n == damages@.len(),
            steps_fit(v, names@, target_uid, target_kind, damages@, *rules),
            encounter@ == damage_steps(
                v,
                names@,
                target_uid,
                target_kind,
                damages@.take(i as int),
                *rules,
            ),
    {
        proof {
            let part = damages@.take(i + 1);
            assert(part.drop_last() =~= damages@.take(i as int));
            assert(part.last() == damages@[i as int]);
            lemma_steps_fit(v, names@, target_uid, target_kind, damages@, *rules, i + 1);
        }
        apply_damage(encounter, names, target_uid, target_kind, &damages[i], rules);
    }
    assert(damages@.take(n as int) =~= damages@);
}

} // verus!
