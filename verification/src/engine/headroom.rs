//! Room in all totals at once. It is more than hits need, but does not depend on where they go, and
//! so can be told without taking them in.

use crate::engine::class::ClassTable;
use crate::engine::combat_stats::{fits_record, hit_value, no_hits, with_record, CombatStats};
use crate::engine::damage::{
    attacker_of, bumped, counts, damage_step, damage_steps, dealt_fits, hit_dealt, hit_taken,
    is_boss_entity, stats_at, step_fits, steps_fit, taken_fits, uid_of,
};
use crate::engine::encounter::{cleared, EncounterView};
use crate::engine::entity::{pair_key, EntityView};
use crate::engine::name_cache::{entity_or_new, new_entity, CachedView};
use crate::engine::processor::{changed_all, changes_fit};
use crate::engine::rules::Rules;
use crate::engine::runtime_settings::RuntimeSettings;
use crate::engine::sampling::sampled;
use crate::engine::scene::{
    attrs_told, brings_hits, change_fits, changed, current, delta_told, lemma_monster_attrs_keep,
    stamped, told, Scene,
};
use crate::protocol::messages::{kind_of, DamageRecord, EntityKind, RawAttr, SceneDelta};
use vstd::prelude::*;

verus! {

/// The size of a number.
pub open spec fn size_of_value(v: int) -> int {
    if v < 0 {
        -v
    } else {
        v
    }
}

/// Whether totals have room for `hits` more hits of `amount` in all, taken without their signs,
/// whatever hits these are.
pub open spec fn has_room(s: CombatStats, hits: int, amount: int) -> bool {
    &&& s.hit_count + hits <= u32::MAX
    &&& s.crit_count + hits <= u32::MAX
    &&& s.lucky_count + hits <= u32::MAX
    &&& i64::MIN <= s.total - amount && s.total + amount <= i64::MAX
    &&& i64::MIN <= s.crit_value - amount && s.crit_value + amount <= i64::MAX
    &&& i64::MIN <= s.lucky_value - amount && s.lucky_value + amount <= i64::MAX
    &&& i64::MIN <= s.normal_value - amount && s.normal_value + amount <= i64::MAX
}

/// The size of a hit.
pub open spec fn hit_size(d: DamageRecord) -> int {
    size_of_value(hit_value(d) as int)
}

/// Whether all totals under keys have room.
pub open spec fn map_room<K>(m: Map<K, CombatStats>, hits: int, amount: int) -> bool {
    forall|k: K| #[trigger] m.contains_key(k) ==> has_room(m[k], hits, amount)
}

/// Whether all totals of an entity have room for `hits` more hits of `amount` in all.
pub open spec fn entity_room(e: EntityView, hits: int, amount: int) -> bool {
    &&& has_room(e.dmg, hits, amount)
    &&& has_room(e.boss, hits, amount)
    &&& has_room(e.heal, hits, amount)
    &&& has_room(e.taken, hits, amount)
    &&& map_room(e.skill_dmg, hits, amount)
    &&& map_room(e.skill_boss, hits, amount)
    &&& map_room(e.skill_heal, hits, amount)
    &&& map_room(e.taken_by, hits, amount)
    &&& map_room(e.taken_by_skill, hits, amount)
}

/// Whether all totals of an encounter have room for `hits` more hits of `amount` in all.
pub open spec fn encounter_room(v: EncounterView, hits: int, amount: int) -> bool {
    &&& 0 <= hits <= u32::MAX
    &&& 0 <= amount <= i64::MAX
    &&& has_room(v.dmg, hits, amount)
    &&& has_room(v.boss, hits, amount)
    &&& has_room(v.heal, hits, amount)
    &&& has_room(v.taken, hits, amount)
    &&& forall|uid: i64| #[trigger]
        v.entities.contains_key(uid) ==> entity_room(v.entities[uid], hits, amount)
}

/// The sizes of hits, summed.
pub open spec fn hit_sizes(ds: Seq<DamageRecord>) -> int
    decreases ds.len(),
{
    if ds.len() == 0 {
        0
    } else {
        hit_sizes(ds.drop_last()) + hit_size(ds.last())
    }
}

proof fn lemma_room_after(s: CombatStats, d: DamageRecord, hits: int, amount: int)
    requires
        has_room(s, hits, amount),
        hits >= 1,
        hit_size(d) <= amount,
    ensures
        fits_record(s, d),
        has_room(with_record(s, d), hits - 1, amount - hit_size(d)),
        has_room(s, hits - 1, amount - hit_size(d)),
{
}

proof fn lemma_room_fresh(d: DamageRecord, hits: int, amount: int)
    requires
        1 <= hits <= u32::MAX,
        hit_size(d) <= amount <= i64::MAX,
    ensures
        has_room(no_hits(), hits, amount),
        has_room(no_hits(), hits - 1, amount - hit_size(d)),
{
}

proof fn lemma_map_room<K>(m: Map<K, CombatStats>, k: K, d: DamageRecord, hits: int, amount: int)
    requires
        map_room(m, hits, amount),
        1 <= hits <= u32::MAX,
        hit_size(d) <= amount <= i64::MAX,
    ensures
        fits_record(stats_at(m, k), d),
        map_room(bumped(m, k, d), hits - 1, amount - hit_size(d)),
        map_room(m, hits - 1, amount - hit_size(d)),
{
    lemma_room_fresh(d, hits, amount);
    lemma_room_after(stats_at(m, k), d, hits, amount);
    assert forall|x: K| #[trigger] bumped(m, k, d).contains_key(x) implies has_room(
        bumped(m, k, d)[x],
        hits - 1,
        amount - hit_size(d),
    ) by {
        if x != k {
            assert(m.contains_key(x));
            lemma_room_after(m[x], d, hits, amount);
        }
    }
    assert forall|x: K| #[trigger] m.contains_key(x) implies has_room(
        m[x],
        hits - 1,
        amount - hit_size(d),
    ) by {
        lemma_room_after(m[x], d, hits, amount);
    }
}

proof fn lemma_entity_room(
    e: EntityView,
    d: DamageRecord,
    attacker: i64,
    boss: bool,
    classes: ClassTable,
    hits: int,
    amount: int,
)
    requires
        entity_room(e, hits, amount),
        1 <= hits <= u32::MAX,
        hit_size(d) <= amount <= i64::MAX,
    ensures
        entity_room(e, hits - 1, amount - hit_size(d)),
        entity_room(hit_taken(e, d, attacker), hits - 1, amount - hit_size(d)),
        entity_room(hit_dealt(e, d, boss, classes), hits - 1, amount - hit_size(d)),
        taken_fits(e, d, attacker),
        dealt_fits(e, d, boss),
{
    lemma_room_after(e.dmg, d, hits, amount);
    lemma_room_after(e.boss, d, hits, amount);
    lemma_room_after(e.heal, d, hits, amount);
    lemma_room_after(e.taken, d, hits, amount);
    lemma_map_room(e.skill_dmg, d.owner_id, d, hits, amount);
    lemma_map_room(e.skill_boss, d.owner_id, d, hits, amount);
    lemma_map_room(e.skill_heal, d.owner_id, d, hits, amount);
    lemma_map_room(e.taken_by, attacker, d, hits, amount);
    lemma_map_room(e.taken_by_skill, pair_key(attacker, d.owner_id), d, hits, amount);
}

/// A new entity has room.
proof fn lemma_new_room(
    entities: Map<i64, EntityView>,
    uid: i64,
    kind: EntityKind,
    names: Map<i64, CachedView>,
    classes: ClassTable,
    hits: int,
    amount: int,
)
    requires
        0 <= hits <= u32::MAX,
        0 <= amount <= i64::MAX,
        entities.contains_key(uid) ==> entity_room(entities[uid], hits, amount),
    ensures
        entity_room(entity_or_new(entities, uid, kind, names, classes), hits, amount),
{
    let e = new_entity(uid, kind, names, classes);
    assert(has_room(no_hits(), hits, amount));
    assert(e.skill_dmg =~= Map::<i32, CombatStats>::empty());
    assert(e.taken_by =~= Map::<i64, CombatStats>::empty());
    assert(e.taken_by_skill =~= Map::<i128, CombatStats>::empty());
}

/// `encounter_room`, unfolded on request only.
#[verifier::opaque]
pub open spec fn roomy(v: EncounterView, hits: int, amount: int) -> bool {
    encounter_room(v, hits, amount)
}

/// A hit uses up the room for one hit of its size.
proof fn lemma_step_roomy(
    v: EncounterView,
    names: Map<i64, CachedView>,
    target: i64,
    kind: EntityKind,
    d: DamageRecord,
    rules: Rules,
    hits: int,
    amount: int,
)
    requires
        roomy(v, hits, amount),
        hits >= 1,
        hit_size(d) <= amount,
    ensures
        roomy(damage_step(v, names, target, kind, d, rules), hits - 1, amount - hit_size(d)),
{
    reveal(roomy);
    lemma_step_room(v, names, target, kind, d, rules, hits, amount);
}

proof fn lemma_steps_roomy(
    v: EncounterView,
    names: Map<i64, CachedView>,
    target: i64,
    kind: EntityKind,
    ds: Seq<DamageRecord>,
    rules: Rules,
    hits: int,
    amount: int,
)
    requires
        roomy(v, hits, amount),
        ds.len() <= hits,
        hit_sizes(ds) <= amount,
    ensures
        roomy(
            damage_steps(v, names, target, kind, ds, rules),
            hits - ds.len(),
            amount - hit_sizes(ds),
        ),
        hit_sizes(ds) >= 0,
    decreases ds.len(),
{
    if ds.len() > 0 {
        lemma_steps_roomy(v, names, target, kind, ds.drop_last(), rules, hits, amount);
        lemma_step_roomy(
            damage_steps(v, names, target, kind, ds.drop_last(), rules),
            names,
            target,
            kind,
            ds.last(),
            rules,
            hits - (ds.len() - 1),
            amount - hit_sizes(ds.drop_last()),
        );
    }
}

/// Hits use up the room for them.
proof fn lemma_steps_room(
    v: EncounterView,
    names: Map<i64, CachedView>,
    target: i64,
    kind: EntityKind,
    ds: Seq<DamageRecord>,
    rules: Rules,
    hits: int,
    amount: int,
)
    requires
        encounter_room(v, hits, amount),
        ds.len() <= hits,
        hit_sizes(ds) <= amount,
    ensures
        encounter_room(
            damage_steps(v, names, target, kind, ds, rules),
            hits - ds.len(),
            amount - hit_sizes(ds),
        ),
        hit_sizes(ds) >= 0,
{
    reveal(roomy);
    lemma_steps_roomy(v, names, target, kind, ds, rules, hits, amount);
}

/// A part of the hits is not larger than all of them.
pub proof fn lemma_hit_sizes_grow(ds: Seq<DamageRecord>, n: int)
    requires
        0 <= n <= ds.len(),
    ensures
        0 <= hit_sizes(ds.take(n)) <= hit_sizes(ds),
    decreases ds.len(),
{
    if n == ds.len() {
        assert(ds.take(n) =~= ds);
        if n > 0 {
            lemma_hit_sizes_grow(ds.drop_last(), n - 1);
            assert(ds.drop_last().take(n - 1) =~= ds.drop_last());
        }
    } else {
        lemma_hit_sizes_grow(ds.drop_last(), n);
        assert(ds.drop_last().take(n) =~= ds.take(n));
    }
}

/// Room for more is room for less.
proof fn lemma_room_for_less(v: EncounterView, hits: int, amount: int, h: int, a: int)
    requires
        encounter_room(v, hits, amount),
        0 <= h <= hits,
        0 <= a <= amount,
    ensures
        encounter_room(v, h, a),
{
    assert forall|uid: i64| #[trigger] v.entities.contains_key(uid) implies entity_room(
        v.entities[uid],
        h,
        a,
    ) by {
        let e = v.entities[uid];
        assert(entity_room(e, hits, amount));
    }
}

/// A hit uses up the room for one hit of its size.
proof fn lemma_step_room(
    v: EncounterView,
    names: Map<i64, CachedView>,
    target: i64,
    target_kind: EntityKind,
    d: DamageRecord,
    rules: Rules,
    hits: int,
    amount: int,
)
    requires
        encounter_room(v, hits, amount),
        hits >= 1,
        hit_size(d) <= amount,
    ensures
        encounter_room(
            damage_step(v, names, target, target_kind, d, rules),
            hits - 1,
            amount - hit_size(d),
        ),
{
    lemma_room_for_less(v, hits, amount, hits - 1, amount - hit_size(d));
    if counts(d) {
        lemma_room_after(v.dmg, d, hits, amount);
        lemma_room_after(v.boss, d, hits, amount);
        lemma_room_after(v.heal, d, hits, amount);
        lemma_room_after(v.taken, d, hits, amount);
        lemma_step_entities(v, names, target, target_kind, d, rules, hits, amount);
        reveal(entity_roomy);
    }
}

/// `entity_room`, unfolded on request only.
#[verifier::opaque]
spec fn entity_roomy(e: EntityView, hits: int, amount: int) -> bool {
    entity_room(e, hits, amount)
}

/// The room that is left to an entity that takes or deals a hit.
proof fn lemma_roomy_after(
    v: EncounterView,
    uid: i64,
    kind: EntityKind,
    names: Map<i64, CachedView>,
    d: DamageRecord,
    attacker: i64,
    boss: bool,
    classes: ClassTable,
    hits: int,
    amount: int,
)
    requires
        encounter_room(v, hits, amount),
        hits >= 1,
        hit_size(d) <= amount,
    ensures
        ({
            let e = entity_or_new(v.entities, uid, kind, names, classes);
            let h = hits - 1;
            let a = amount - hit_size(d);
            &&& entity_roomy(e, h, a)
            &&& entity_roomy(hit_taken(e, d, attacker), h, a)
            &&& entity_roomy(hit_dealt(e, d, boss, classes), h, a)
            &&& entity_roomy(hit_dealt(hit_taken(e, d, attacker), d, boss, classes), h, a)
        }),
{
    reveal(entity_roomy);
    let e = entity_or_new(v.entities, uid, kind, names, classes);
    lemma_new_room(v.entities, uid, kind, names, classes, hits, amount);
    lemma_entity_room(e, d, attacker, boss, classes, hits, amount);
    lemma_self_hit_room(e, d, attacker, boss, classes, hits, amount);
}

/// The room that is left to everyone after a hit.
proof fn lemma_step_entities(
    v: EncounterView,
    names: Map<i64, CachedView>,
    target: i64,
    target_kind: EntityKind,
    d: DamageRecord,
    rules: Rules,
    hits: int,
    amount: int,
)
    requires
        encounter_room(v, hits, amount),
        hits >= 1,
        hit_size(d) <= amount,
        counts(d),
    ensures
        ({
            let w = damage_step(v, names, target, target_kind, d, rules);
            forall|uid: i64| #[trigger]
                w.entities.contains_key(uid) ==> entity_roomy(
                    w.entities[uid],
                    hits - 1,
                    amount - hit_size(d),
                )
        }),
{
    let classes = rules.classes;
    let w = damage_step(v, names, target, target_kind, d, rules);
    let attacker = uid_of(attacker_of(d));
    let kind = kind_of(attacker_of(d));
    let boss = is_boss_entity(v, target, rules);
    lemma_roomy_after(
        v,
        target,
        target_kind,
        names,
        d,
        attacker,
        boss,
        classes,
        hits,
        amount,
    );
    lemma_roomy_after(v, attacker, kind, names, d, attacker, boss, classes, hits, amount);
    assert forall|uid: i64| #[trigger] w.entities.contains_key(uid) implies entity_roomy(
        w.entities[uid],
        hits - 1,
        amount - hit_size(d),
    ) by {
        if uid != attacker && uid != target {
            lemma_roomy_after(v, uid, kind, names, d, attacker, boss, classes, hits, amount);
        }
    }
}

/// A character that hits itself: what it took and what it dealt are counted apart.
proof fn lemma_self_hit_room(
    e: EntityView,
    d: DamageRecord,
    attacker: i64,
    boss: bool,
    classes: ClassTable,
    hits: int,
    amount: int,
)
    requires
        entity_room(e, hits, amount),
        1 <= hits <= u32::MAX,
        hit_size(d) <= amount <= i64::MAX,
    ensures
        ({
            let t = hit_taken(e, d, attacker);
            entity_room(hit_dealt(t, d, boss, classes), hits - 1, amount - hit_size(d))
        }),
{
    lemma_entity_room(e, d, attacker, boss, classes, hits, amount);
    let t = hit_taken(e, d, attacker);
    let x = hit_dealt(e, d, boss, classes);
    let y = hit_dealt(t, d, boss, classes);
    assert(y.skill_dmg == x.skill_dmg && y.skill_boss == x.skill_boss && y.skill_heal
        == x.skill_heal);
    assert(y.taken_by == t.taken_by && y.taken_by_skill == t.taken_by_skill);
}

/// The number of hits in a change.
pub open spec fn change_hits(d: SceneDelta, rules: Rules) -> int {
    if brings_hits(d, rules) {
        d.damages->Some_0@.len() as int
    } else {
        0
    }
}

/// The size of the hits in a change.
pub open spec fn change_size(d: SceneDelta, rules: Rules) -> int {
    if brings_hits(d, rules) {
        hit_sizes(d.damages->Some_0@)
    } else {
        0
    }
}

/// What is told of an entity uses up no room.
proof fn lemma_told_room(
    s: Scene,
    uuid: i64,
    attrs: Option<Vec<RawAttr>>,
    retype: bool,
    classes: ClassTable,
    hits: int,
    amount: int,
)
    requires
        encounter_room(s.v, hits, amount),
    ensures
        encounter_room(told(s, uuid, attrs, retype, classes).v, hits, amount),
{
    let uid = uid_of(uuid);
    let kind = kind_of(uuid);
    lemma_new_room(s.v.entities, uid, kind, s.names, classes, hits, amount);
    let found = entity_or_new(s.v.entities, uid, kind, s.names, classes);
    let e = if retype {
        EntityView { entity_type: kind, ..found }
    } else {
        found
    };
    if let Some(list) = attrs {
        lemma_monster_attrs_keep(e, list@);
    }
    let r = attrs_told(e, s.names, uid, kind, attrs, classes).0;
    assert(entity_room(r, hits, amount));
}

/// A new encounter has room.
proof fn lemma_cleared_room(v: EncounterView, hits: int, amount: int)
    requires
        0 <= hits <= u32::MAX,
        0 <= amount <= i64::MAX,
    ensures
        encounter_room(cleared(v), hits, amount),
{
    let w = cleared(v);
    assert(has_room(no_hits(), hits, amount));
    assert forall|uid: i64| #[trigger] w.entities.contains_key(uid) implies entity_room(
        w.entities[uid],
        hits,
        amount,
    ) by {
        let e = w.entities[uid];
        assert(map_room(e.skill_dmg, hits, amount));
        assert(map_room(e.taken_by, hits, amount));
        assert(map_room(e.taken_by_skill, hits, amount));
    }
}

/// A sample uses up no room.
proof fn lemma_sampled_room(
    v: EncounterView,
    settings: RuntimeSettings,
    now: u128,
    force: bool,
    hits: int,
    amount: int,
)
    requires
        encounter_room(v, hits, amount),
    ensures
        encounter_room(sampled(v, settings, now, force), hits, amount),
{
    let w = sampled(v, settings, now, force);
    assert forall|uid: i64| #[trigger] w.entities.contains_key(uid) implies entity_room(
        w.entities[uid],
        hits,
        amount,
    ) by {
        assert(v.entities.contains_key(uid));
        assert(entity_room(v.entities[uid], hits, amount));
    }
}

/// A change uses up the room for its hits.
proof fn lemma_changed_room(
    s: Scene,
    d: SceneDelta,
    rules: Rules,
    now: u128,
    hits: int,
    amount: int,
)
    requires
        encounter_room(s.v, hits, amount),
        change_hits(d, rules) <= hits,
        change_size(d, rules) <= amount,
    ensures
        encounter_room(
            changed(s, d, rules, now).v,
            hits - change_hits(d, rules),
            amount - change_size(d, rules),
        ),
        change_fits(s, d, rules, now),
{
    let t = delta_told(s, d, rules);
    if d.uuid != 0 && !rules.settings.imagine_only_mode {
        lemma_told_room(s, d.uuid, d.attrs, false, rules.classes, hits, amount);
    }
    if brings_hits(d, rules) {
        let ds = d.damages->Some_0@;
        lemma_cleared_room(t.v, hits, amount);
        let c = current(t.v, ds, rules.settings, now);
        let uid = uid_of(d.uuid);
        let kind = kind_of(d.uuid);
        lemma_steps_have_room(c, t.names, uid, kind, ds, rules, hits, amount);
        lemma_steps_room(c, t.names, uid, kind, ds, rules, hits, amount);
        let w = damage_steps(c, t.names, uid, kind, ds, rules);
        lemma_sampled_room(
            stamped(w, now),
            rules.settings,
            now,
            false,
            hits - ds.len(),
            amount - hit_sizes(ds),
        );
    }
}

/// The number of hits in changes.
pub open spec fn changes_hits(ds: Seq<SceneDelta>, rules: Rules) -> int
    decreases ds.len(),
{
    if ds.len() == 0 {
        0
    } else {
        changes_hits(ds.drop_last(), rules) + change_hits(ds.last(), rules)
    }
}

/// The size of the hits in changes.
pub open spec fn changes_size(ds: Seq<SceneDelta>, rules: Rules) -> int
    decreases ds.len(),
{
    if ds.len() == 0 {
        0
    } else {
        changes_size(ds.drop_last(), rules) + change_size(ds.last(), rules)
    }
}

/// Changes leave what they do not use up.
pub proof fn lemma_changes_grow(ds: Seq<SceneDelta>, rules: Rules, n: int)
    requires
        0 <= n <= ds.len(),
    ensures
        0 <= changes_hits(ds.take(n), rules) <= changes_hits(ds, rules),
        0 <= changes_size(ds.take(n), rules) <= changes_size(ds, rules),
    decreases ds.len(),
{
    if ds.len() == 0 {
        assert(ds.take(n) =~= ds);
    } else {
        lemma_change_is_counted(ds.last(), rules);
        if n == ds.len() {
            assert(ds.take(n) =~= ds);
            lemma_changes_grow(ds.drop_last(), rules, n - 1);
            assert(ds.drop_last().take(n - 1) =~= ds.drop_last());
        } else {
            lemma_changes_grow(ds.drop_last(), rules, n);
            assert(ds.drop_last().take(n) =~= ds.take(n));
        }
    }
}

/// A change counts no less than nothing.
pub proof fn lemma_change_is_counted(d: SceneDelta, rules: Rules)
    ensures
        change_hits(d, rules) >= 0,
        change_size(d, rules) >= 0,
{
    if let Some(ds) = d.damages {
        lemma_hit_sizes_grow(ds@, 0);
    }
}

/// A change finds its room, and leaves the rest.
pub proof fn lemma_change_roomy(
    s: Scene,
    d: SceneDelta,
    rules: Rules,
    now: u128,
    hits: int,
    amount: int,
)
    requires
        roomy(s.v, hits, amount),
        change_hits(d, rules) <= hits,
        change_size(d, rules) <= amount,
    ensures
        change_fits(s, d, rules, now),
        roomy(
            changed(s, d, rules, now).v,
            hits - change_hits(d, rules),
            amount - change_size(d, rules),
        ),
{
    reveal(roomy);
    lemma_change_is_counted(d, rules);
    lemma_changed_room(s, d, rules, now, hits, amount);
}

/// Where there is room for a hit, it fits.
proof fn lemma_step_fits(
    v: EncounterView,
    names: Map<i64, CachedView>,
    target: i64,
    target_kind: EntityKind,
    d: DamageRecord,
    rules: Rules,
    hits: int,
    amount: int,
)
    requires
        encounter_room(v, hits, amount),
        hits >= 1,
        hit_size(d) <= amount,
    ensures
        step_fits(v, names, target, target_kind, d, rules),
{
    let classes = rules.classes;
    let attacker = uid_of(attacker_of(d));
    let kind = kind_of(attacker_of(d));
    let boss = is_boss_entity(v, target, rules);
    lemma_room_after(v.dmg, d, hits, amount);
    lemma_room_after(v.boss, d, hits, amount);
    lemma_room_after(v.heal, d, hits, amount);
    lemma_room_after(v.taken, d, hits, amount);
    let t = entity_or_new(v.entities, target, target_kind, names, classes);
    let a = entity_or_new(v.entities, attacker, kind, names, classes);
    lemma_new_room(v.entities, target, target_kind, names, classes, hits, amount);
    lemma_new_room(v.entities, attacker, kind, names, classes, hits, amount);
    lemma_entity_room(t, d, attacker, boss, classes, hits, amount);
    lemma_entity_room(a, d, attacker, boss, classes, hits, amount);
}

/// Where there is room for hits, they fit.
proof fn lemma_steps_have_room(
    v: EncounterView,
    names: Map<i64, CachedView>,
    target: i64,
    kind: EntityKind,
    ds: Seq<DamageRecord>,
    rules: Rules,
    hits: int,
    amount: int,
)
    requires
        encounter_room(v, hits, amount),
        ds.len() <= hits,
        hit_sizes(ds) <= amount,
    ensures
        steps_fit(v, names, target, kind, ds, rules),
    decreases ds.len(),
{
    if ds.len() > 0 {
        let r = ds.drop_last();
        lemma_steps_have_room(v, names, target, kind, r, rules, hits, amount);
        lemma_steps_room(v, names, target, kind, r, rules, hits, amount);
        lemma_step_fits(
            damage_steps(v, names, target, kind, r, rules),
            names,
            target,
            kind,
            ds.last(),
            rules,
            hits - r.len(),
            amount - hit_sizes(r),
        );
    }
}

/// Where there is room for the hits of changes, they fit.
pub proof fn lemma_changes_have_room(
    s: Scene,
    ds: Seq<SceneDelta>,
    rules: Rules,
    now: u128,
    hits: int,
    amount: int,
)
    requires
        roomy(s.v, hits, amount),
        changes_hits(ds, rules) <= hits,
        changes_size(ds, rules) <= amount,
    ensures
        changes_fit(s, ds, rules, now),
        roomy(
            changed_all(s, ds, rules, now).v,
            hits - changes_hits(ds, rules),
            amount - changes_size(ds, rules),
        ),
    decreases ds.len(),
{
    if ds.len() > 0 {
        let r = ds.drop_last();
        let d = ds.last();
        lemma_change_is_counted(d, rules);
        lemma_changes_have_room(s, r, rules, now, hits, amount);
        lemma_change_roomy(
            changed_all(s, r, rules, now),
            d,
            rules,
            now,
            hits - changes_hits(r, rules),
            amount - changes_size(r, rules),
        );
    }
}

} // verus!
