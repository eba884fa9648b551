//! Whether totals can take in hits without running over.

use crate::capture::server::Server;
use crate::engine::combat_stats::{fits_record, record_fits, CombatStats};
use crate::engine::connection::{is_accepted, should_accept};
use crate::engine::damage::{
    apply_damage, damage_steps, dealt_fits, lemma_steps_fit, stats_at, step_fits, steps_fit,
    taken_fits, targets_boss,
};
use crate::engine::encounter::{entity_views, server_view, Encounter};
use crate::engine::entity::{pair_key_of, Entity};
use crate::engine::headroom::{
    change_hits, change_size, changes_hits, changes_size, encounter_room, entity_room, has_room,
    hit_size, hit_sizes, lemma_change_is_counted, lemma_change_roomy, lemma_changes_grow,
    lemma_changes_have_room, lemma_hit_sizes_grow, map_room, roomy,
};
use crate::engine::name_cache::{CachedView, NameCache};
use crate::engine::processor::{
    changed_all, changes_fit, changes_in, lemma_next_fits, lemma_one_change, message_fits, met,
    op_of,
};
use crate::engine::rules::Rules;
use crate::engine::sampling::take_time_series_sample;
use crate::engine::scene::{change_fits, changed, is_over, stamp, tell, Scene};
use crate::engine::walk::key_list;
use crate::protocol::constants::get_player_uid;
use crate::protocol::messages::{DamageRecord, DmgKind, EntityKind, Message, SceneDelta};
use std::collections::HashMap;
use std::hash::Hash;
use vstd::prelude::*;
use vstd::std_specs::hash::*;

verus! {

/// Whether a sum can change by `amount` either way.
fn sum_has_room(x: i64, amount: i64) -> (b: bool)
    requires
        amount >= 0,
    ensures
        b == (i64::MIN <= x - amount && x + amount <= i64::MAX),
{
    x as i128 - amount as i128 >= i64::MIN as i128 && x as i128 + amount as i128 <= i64::MAX as i128
}

/// Whether totals have room for `hits` more hits of `amount` in all.
fn stats_have_room(s: &CombatStats, hits: u32, amount: i64) -> (b: bool)
    requires
        amount >= 0,
    ensures
        b == has_room(*s, hits as int, amount as int),
{
    s.hit_count <= u32::MAX - hits && s.crit_count <= u32::MAX - hits && s.lucky_count <= u32::MAX
        - hits && sum_has_room(s.total, amount) && sum_has_room(s.crit_value, amount)
        && sum_has_room(s.lucky_value, amount) && sum_has_room(s.normal_value, amount)
}

/// Whether all totals under keys have room.
fn map_has_room<K: Copy + Eq + Hash>(
    m: &HashMap<K, CombatStats>,
    hits: u32,
    amount: i64,
) -> (b: bool)
    requires
        obeys_key_model::<K>(),
        amount >= 0,
    ensures
        b == map_room(m@, hits as int, amount as int),
{
    broadcast use group_hash_axioms;

    let keys: Vec<K> = key_list(m);
    let n: usize = keys.len();
    for i in 0..n
        invariant
            n == keys@.len(),
            obeys_key_model::<K>(),
            amount >= 0,
            forall|k: K| #[trigger] keys@.contains(k) <==> m@.contains_key(k),
            forall|j: int|
                0 <= j < i ==> has_room(m@[#[trigger] keys@[j]], hits as int, amount as int),
    {
        broadcast use group_hash_axioms;

        assert(keys@.contains(keys@[i as int]));
        assert(m@.contains_key(keys@[i as int]));
        if let Some(s) = m.get(&keys[i]) {
            if !stats_have_room(s, hits, amount) {
                return false;
            }
        }
    }
    assert forall|k: K| #[trigger] m@.contains_key(k) implies has_room(
        m@[k],
        hits as int,
        amount as int,
    ) by {
        assert(keys@.contains(k));
        let j = choose|j: int| 0 <= j < keys@.len() && keys@[j] == k;
        assert(has_room(m@[keys@[j]], hits as int, amount as int));
    }
    true
}

/// Whether all totals of an entity have room.
fn entity_has_room(e: &Entity, hits: u32, amount: i64) -> (b: bool)
    requires
        amount >= 0,
    ensures
        b == entity_room(e@, hits as int, amount as int),
{
    broadcast use group_hash_axioms;

    stats_have_room(&e.dmg_stats, hits, amount) && stats_have_room(
        &e.dmg_stats_boss_only,
        hits,
        amount,
    ) && stats_have_room(&e.heal_stats, hits, amount) && stats_have_room(
        &e.dmg_taken_stats,
        hits,
        amount,
    ) && map_has_room(&e.skill_uid_to_dps_stats, hits, amount) && map_has_room(
        &e.skill_uid_to_dps_stats_boss_only,
        hits,
        amount,
    ) && map_has_room(&e.skill_uid_to_heal_stats, hits, amount) && map_has_room(
        &e.attacker_uid_to_dmg_taken_stats,
        hits,
        amount,
    ) && map_has_room(&e.attacker_skill_to_dmg_taken_stats, hits, amount)
}

/// Whether all totals of an encounter have room for `hits` more hits of `amount` in all.
pub fn encounter_has_room(encounter: &Encounter, hits: u32, amount: i64) -> (b: bool)
    ensures
        b == encounter_room(encounter@, hits as int, amount as int),
{
    broadcast use group_hash_axioms;

    if amount < 0 {
        return false;
    }
    if !(stats_have_room(&encounter.dmg_stats, hits, amount) && stats_have_room(
        &encounter.dmg_stats_boss_only,
        hits,
        amount,
    ) && stats_have_room(&encounter.heal_stats, hits, amount) && stats_have_room(
        &encounter.dmg_taken_stats,
        hits,
        amount,
    )) {
        return false;
    }
    let ghost es = encounter@.entities;
    let keys: Vec<i64> = key_list(&encounter.entities);
    let n: usize = keys.len();
    for i in 0..n
        invariant
            n == keys@.len(),
            amount >= 0,
            es == entity_views(encounter.entities@),
            es == encounter@.entities,
            forall|k: i64| #[trigger] keys@.contains(k) <==> encounter.entities@.contains_key(k),
            forall|j: int|
                0 <= j < i ==> entity_room(es[#[trigger] keys@[j]], hits as int, amount as int),
    {
        broadcast use group_hash_axioms;

        assert(keys@.contains(keys@[i as int]));
        if let Some(e) = encounter.entities.get(&keys[i]) {
            assert(es[keys@[i as int]] == e@);
            if !entity_has_room(e, hits, amount) {
                assert(es.contains_key(keys@[i as int]));
                return false;
            }
        }
    }
    assert forall|k: i64| #[trigger] es.contains_key(k) implies entity_room(
        es[k],
        hits as int,
        amount as int,
    ) by {
        assert(keys@.contains(k));
        let j = choose|j: int| 0 <= j < keys@.len() && keys@[j] == k;
        assert(entity_room(es[keys@[j]], hits as int, amount as int));
    }
    true
}

/// The size of a hit.
fn hit_size_of(d: &DamageRecord) -> (size: u64)
    ensures
        size == hit_size(*d),
{
    let v: i64 = if d.lucky_value != 0 {
        d.lucky_value
    } else {
        d.value
    };
    if v < 0 {
        (-(v as i128)) as u64
    } else {
        v as u64
    }
}

/// The size of the hits in a list, where it does not exceed the limits of a total.
fn hit_sizes_of(ds: &Vec<DamageRecord>) -> (size: Option<i64>)
    ensures
        size is Some <==> hit_sizes(ds@) <= i64::MAX,
        size matches Some(x) ==> x == hit_sizes(ds@),
{
    let mut sum: i64 = 0;
    let n: usize = ds.len();
    assert(ds@.take(0) =~= Seq::<DamageRecord>::empty());
    for i in 0..n
        invariant
            n == ds@.len(),
            sum == hit_sizes(ds@.take(i as int)),
            sum >= 0,
    {
        proof {
            assert(ds@.take(i + 1).drop_last() =~= ds@.take(i as int));
            lemma_hit_sizes_grow(ds@, i + 1);
        }
        let size: u64 = hit_size_of(&ds[i]);
        if size > (i64::MAX - sum) as u64 {
            return None;
        }
        sum = sum + size as i64;
    }
    assert(ds@.take(n as int) =~= ds@);
    Some(sum)
}

/// The number and size of the hits in a change, where they do not exceed the limits of a total.
fn change_load(d: &SceneDelta, rules: &Rules) -> (load: Option<(u32, i64)>)
    ensures
        load is Some <==> change_hits(*d, *rules) <= u32::MAX && change_size(*d, *rules)
            <= i64::MAX,
        load matches Some(x) ==> x.0 == change_hits(*d, *rules) && x.1 == change_size(*d, *rules)
            && x.1 >= 0,
{
    proof {
        lemma_change_is_counted(*d, *rules);
    }
    if d.uuid == 0 || rules.settings.imagine_only_mode {
        return Some((0, 0));
    }
    match &d.damages {
        None => Some((0, 0)),
        Some(ds) => {
            if ds.len() > u32::MAX as usize {
                return None;
            }
            match hit_sizes_of(ds) {
                Some(size) => Some((ds.len() as u32, size)),
                None => None,
            }
        },
    }
}

/// The number and size of the hits in changes, where they do not exceed the limits of a total.
fn changes_load(ds: &Vec<SceneDelta>, rules: &Rules) -> (load: Option<(u32, i64)>)
    ensures
        load is Some <==> changes_hits(ds@, *rules) <= u32::MAX && changes_size(ds@, *rules)
            <= i64::MAX,
        load matches Some(x) ==> x.0 == changes_hits(ds@, *rules) && x.1 == changes_size(
            ds@,
            *rules,
        ) && x.1 >= 0,
{
    let mut hits: u32 = 0;
    let mut size: i64 = 0;
    let n: usize = ds.len();
    assert(ds@.take(0) =~= Seq::<SceneDelta>::empty());
    for i in 0..n
        invariant
            n == ds@.len(),
            hits == changes_hits(ds@.take(i as int), *rules),
            size == changes_size(ds@.take(i as int), *rules),
            size >= 0,
    {
        proof {
            assert(ds@.take(i + 1).drop_last() =~= ds@.take(i as int));
            lemma_changes_grow(ds@, *rules, i + 1);
            lemma_change_is_counted(ds@[i as int], *rules);
        }
        match change_load(&ds[i], rules) {
            None => {
                return None;
            },
            Some(load) => {
                if load.0 > u32::MAX - hits || load.1 > i64::MAX - size {
                    return None;
                }
                hits = hits + load.0;
                size = size + load.1;
            },
        }
    }
    assert(ds@.take(n as int) =~= ds@);
    Some((hits, size))
}

/// The number and size of the hits in a message, where they do not exceed the limits of a total.
fn message_load(msg: &Message, rules: &Rules) -> (load: Option<(u32, i64)>)
    ensures
        load matches Some(x) ==> x.0 == changes_hits(changes_in(*msg), *rules) && x.1
            == changes_size(changes_in(*msg), *rules) && x.1 >= 0,
{
    match msg {
        Message::WorldDeltaBatch(ds) => changes_load(ds, rules),
        Message::LocalDeltaBatch(Some(local)) => match &local.base_delta {
            Some(d) => {
                proof {
                    lemma_one_load(*d, *rules);
                }
                change_load(d, rules)
            },
            None => Some((0, 0)),
        },
        _ => Some((0, 0)),
    }
}

/// The load of one change.
proof fn lemma_one_load(d: SceneDelta, rules: Rules)
    ensures
        changes_hits(seq![d], rules) == change_hits(d, rules),
        changes_size(seq![d], rules) == change_size(d, rules),
{
    let one = seq![d];
    assert(one.drop_last() =~= Seq::<SceneDelta>::empty());
    assert(changes_hits(one.drop_last(), rules) == 0);
    assert(changes_size(one.drop_last(), rules) == 0);
}

/// Whether a hit fits the totals under a key.
fn key_fits<K: Eq + Hash>(m: &HashMap<K, CombatStats>, k: &K, d: &DamageRecord) -> (b: bool)
    requires
        obeys_key_model::<K>(),
    ensures
        b == fits_record(stats_at(m@, *k), *d),
{
    broadcast use group_hash_axioms;

    match m.get(k) {
        Some(s) => record_fits(d, s),
        None => true,
    }
}

/// Whether a hit fits the totals of the one who takes it, who may be new.
fn target_fits(e: Option<&Entity>, d: &DamageRecord, attacker: i64) -> (b: bool)
    ensures
        e matches Some(x) ==> b == taken_fits(x@, *d, attacker),
        e is None ==> b,
{
    broadcast use group_hash_axioms;

    match e {
        Some(e) => record_fits(d, &e.dmg_taken_stats) && key_fits(
            &e.attacker_uid_to_dmg_taken_stats,
            &attacker,
            d,
        ) && key_fits(
            &e.attacker_skill_to_dmg_taken_stats,
            &pair_key_of(attacker, d.owner_id),
            d,
        ),
        None => true,
    }
}

/// Whether a hit fits the totals of its attacker, who may be new.
fn attacker_fits(e: Option<&Entity>, d: &DamageRecord, boss: bool) -> (b: bool)
    ensures
        e matches Some(x) ==> b == dealt_fits(x@, *d, boss),
        e is None ==> b,
{
    broadcast use group_hash_axioms;

    match e {
        Some(e) => if d.kind == DmgKind::Heal {
            record_fits(d, &e.heal_stats) && key_fits(&e.skill_uid_to_heal_stats, &d.owner_id, d)
        } else {
            record_fits(d, &e.dmg_stats) && key_fits(&e.skill_uid_to_dps_stats, &d.owner_id, d) && (
            !boss || (record_fits(d, &e.dmg_stats_boss_only) && key_fits(
                &e.skill_uid_to_dps_stats_boss_only,
                &d.owner_id,
                d,
            )))
        },
        None => true,
    }
}

/// Whether a hit on `target` fits the totals that it adds to.
fn hit_fits(
    encounter: &Encounter,
    Ghost(names): Ghost<Map<i64, CachedView>>,
    target: i64,
    target_kind: EntityKind,
    d: &DamageRecord,
    rules: &Rules,
) -> (b: bool)
    ensures
        b == step_fits(encounter@, names, target, target_kind, *d, *rules),
{
    broadcast use group_hash_axioms;

    let attacker_uuid: i64 = if d.top_summoner_id != 0 {
        d.top_summoner_id
    } else {
        d.attacker_uuid
    };
    if attacker_uuid == 0 || d.owner_id == 0 {
        return true;
    }
    let attacker: i64 = get_player_uid(attacker_uuid);
    let boss: bool = targets_boss(encounter, target, rules);
    let on_player: bool = target_kind == EntityKind::Player;
    let totals: bool = if d.kind == DmgKind::Heal {
        record_fits(d, &encounter.heal_stats)
    } else {
        record_fits(d, &encounter.dmg_stats) && (!boss || record_fits(
            d,
            &encounter.dmg_stats_boss_only,
        )) && (!on_player || record_fits(d, &encounter.dmg_taken_stats))
    };
    totals && (d.kind == DmgKind::Heal || !on_player || target_fits(
        encounter.entities.get(&target),
        d,
        attacker,
    )) && attacker_fits(encounter.entities.get(&attacker), d, boss)
}

/// Takes hits in as long as they fit.
fn try_hits(
    encounter: &mut Encounter,
    names: &NameCache,
    target: i64,
    target_kind: EntityKind,
    ds: &Vec<DamageRecord>,
    rules: &Rules,
) -> (b: bool)
    ensures
        b == steps_fit(old(encounter)@, names@, target, target_kind, ds@, *rules),
        b ==> final(encounter)@ == damage_steps(
            old(encounter)@,
            names@,
            target,
            target_kind,
            ds@,
            *rules,
        ),
{
    let ghost v = encounter@;
    let n: usize = ds.len();
    assert(ds@.take(0) =~= Seq::<DamageRecord>::empty());
    for i in 0..n
        invariant
            n == ds@.len(),
            v == old(encounter)@,
            steps_fit(v, names@, target, target_kind, ds@.take(i as int), *rules),
            encounter@ == damage_steps(
                v,
                names@,
                target,
                target_kind,
                ds@.take(i as int),
                *rules,
            ),
    {
        proof {
            let part = ds@.take(i + 1);
            assert(part.drop_last() =~= ds@.take(i as int));
            assert(part.last() == ds@[i as int]);
        }
        if !hit_fits(encounter, Ghost(names@), target, target_kind, &ds[i], rules) {
            proof {
                if steps_fit(v, names@, target, target_kind, ds@, *rules) {
                    lemma_steps_fit(v, names@, target, target_kind, ds@, *rules, i + 1);
                }
            }
            return false;
        }
        apply_damage(encounter, names, target, target_kind, &ds[i], rules);
    }
    assert(ds@.take(n as int) =~= ds@);
    true
}

/// Takes a change in as long as its hits fit.
fn try_change(
    encounter: &mut Encounter,
    names: &mut NameCache,
    d: &SceneDelta,
    rules: &Rules,
    now: u128,
) -> (b: bool)
    ensures
        ({
            let s = Scene { v: old(encounter)@, names: old(names)@ };
            &&& b == change_fits(s, *d, *rules, now)
            &&& b ==> (Scene { v: final(encounter)@, names: final(names)@ }) == changed(
                s,
                *d,
                *rules,
                now,
            )
        }),
{
    if d.uuid == 0 || rules.settings.imagine_only_mode {
        return true;
    }
    tell(encounter, names, d.uuid, &d.attrs, false, &rules.classes);
    if let Some(hits) = &d.damages {
        if hits.len() > 0 && is_over(encounter, &rules.settings, now) {
            encounter.clear_combat_stats();
        }
        let target: i64 = get_player_uid(d.uuid);
        let kind = EntityKind::from(d.uuid);
        if !try_hits(encounter, names, target, kind, hits, rules) {
            return false;
        }
        stamp(encounter, now);
        take_time_series_sample(encounter, &rules.settings, now, false);
    }
    true
}

/// Takes changes in as long as their hits fit.
fn try_changes(
    encounter: &mut Encounter,
    names: &mut NameCache,
    ds: &Vec<SceneDelta>,
    rules: &Rules,
    now: u128,
) -> (b: bool)
    ensures
        b == changes_fit(
            Scene { v: old(encounter)@, names: old(names)@ },
            ds@,
            *rules,
            now,
        ),
{
    let ghost s = Scene { v: encounter@, names: names@ };
    let n: usize = ds.len();
    assert(ds@.take(0) =~= Seq::<SceneDelta>::empty());
    for i in 0..n
        invariant
            n == ds@.len(),
            s == (Scene { v: old(encounter)@, names: old(names)@ }),
            changes_fit(s, ds@.take(i as int), *rules, now),
            (Scene { v: encounter@, names: names@ }) == changed_all(
                s,
                ds@.take(i as int),
                *rules,
                now,
            ),
    {
        proof {
            let part = ds@.take(i + 1);
            assert(part.drop_last() =~= ds@.take(i as int));
            assert(part.last() == ds@[i as int]);
        }
        if !try_change(encounter, names, &ds[i], rules, now) {
            proof {
                if changes_fit(s, ds@, *rules, now) {
                    lemma_next_fits(s, ds@, i as int, *rules, now);
                }
            }
            return false;
        }
    }
    assert(ds@.take(n as int) =~= ds@);
    true
}

/// Whether the hits of a change fit the totals that they add to, one after the other.
pub fn has_room_for_change(
    encounter: &Encounter,
    names: &NameCache,
    d: &SceneDelta,
    rules: &Rules,
    now: u128,
) -> (b: bool)
    ensures
        b == change_fits(Scene { v: encounter@, names: names@ }, *d, *rules, now),
{
    let ghost s = Scene { v: encounter@, names: names@ };
    if let Some(load) = change_load(d, rules) {
        if encounter_has_room(encounter, load.0, load.1) {
            proof {
                reveal(roomy);
                lemma_change_roomy(s, *d, *rules, now, load.0 as int, load.1 as int);
            }
            return true;
        }
    }
    let mut copy: Encounter = encounter.duplicate();
    let mut known: NameCache = names.duplicate();
    try_change(&mut copy, &mut known, d, rules, now)
}

/// Whether the hits of a message fit the totals that they add to, one after the other. Mostly there
/// is room for any hits as large as these; else they are tried on a copy.
pub fn has_room_for(
    encounter: &Encounter,
    names: &NameCache,
    msg: &Message,
    conn: Option<Server>,
    rules: &Rules,
    now: u128,
) -> (b: bool)
    ensures
        b == message_fits(
            Scene { v: encounter@, names: names@ },
            server_view(conn),
            *msg,
            *rules,
            now,
        ),
{
    let ghost s = Scene { v: encounter@, names: names@ };
    let ghost c = server_view(conn);
    let ghost m = met(s, c, *rules);
    let ghost ds = changes_in(*msg);
    let signal: bool = match msg {
        Message::ServerHandover => true,
        Message::SocialEnvelope => true,
        _ => false,
    };
    if signal || encounter.is_paused || !is_accepted(encounter, conn, rules.selected) {
        return true;
    }
    if let Some(load) = message_load(msg, rules) {
        if encounter_has_room(encounter, load.0, load.1) {
            proof {
                reveal(roomy);
                assert(encounter_room(m.v, load.0 as int, load.1 as int));
                lemma_changes_have_room(m, ds, *rules, now, load.0 as int, load.1 as int);
            }
            return true;
        }
    }
    let mut copy: Encounter = encounter.duplicate();
    let mut known: NameCache = names.duplicate();
    let _ = should_accept(&mut copy, conn, op_of(msg), rules.selected);
    assert(copy@ == m.v);
    match msg {
        Message::WorldDeltaBatch(list) => try_changes(&mut copy, &mut known, list, rules, now),
        Message::LocalDeltaBatch(Some(local)) => match &local.base_delta {
            Some(d) => {
                proof {
                    lemma_one_change(m, *d, *rules, now);
                }
                try_change(&mut copy, &mut known, d, rules, now)
            },
            None => true,
        },
        _ => true,
    }
}

} // verus!
