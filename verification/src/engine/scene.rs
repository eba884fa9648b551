//! What changes in the world do to the encounter.

use crate::compute::players::{hidden, listed, lists_players, StatType};
use crate::compute::snapshot::{build_encounter_snapshot, is_snapshot};
use crate::engine::attributes::{
    monster_attrs, names_after, player_attrs, process_monster_attrs, process_player_attrs,
};
use crate::engine::buff_action::{
    action_views, events_actions, push_action, push_events, BuffAction, BuffActionView,
};
use crate::engine::class::ClassTable;
use crate::engine::damage::{
    apply_damages, damage_steps, put_entity, steps_fit, take_entity, uid_of,
};
use crate::engine::encounter::{cleared, Encounter, EncounterView, MeasureMode};
use crate::engine::entity::{Entity, EntityView};
use crate::engine::name_cache::{entity_or_new, CachedView, NameCache};
use crate::engine::rules::Rules;
use crate::engine::runtime_settings::RuntimeSettings;
use crate::engine::sampling::{sampled, take_time_series_sample};
use crate::models::{EncounterSnapshot, SnapshotView};
use crate::protocol::constants::get_player_uid;
use crate::protocol::messages::{
    kind_of, AppearEntity, DamageRecord, EntityKind, RawAttr, SceneDelta,
};
use vstd::prelude::*;

verus! {

/// The encounter, and the characters that are remembered.
pub struct Scene {
    pub v: EncounterView,
    pub names: Map<i64, CachedView>,
}

/// An entity after its attributes were told, and the characters that are remembered then.
pub open spec fn attrs_told(
    e: EntityView,
    names: Map<i64, CachedView>,
    uid: i64,
    kind: EntityKind,
    attrs: Option<Vec<RawAttr>>,
    classes: ClassTable,
) -> (EntityView, Map<i64, CachedView>) {
    match attrs {
        None => (e, names),
        Some(list) => if kind == EntityKind::Player {
            let r = player_attrs(e.profile, list@, classes);
            (EntityView { profile: r.0, ..e }, names_after(names, uid, r.1))
        } else if kind == EntityKind::Monster {
            (monster_attrs(e, list@), names)
        } else {
            (e, names)
        },
    }
}

/// A scene after an entity was told of.
pub open spec fn told(
    s: Scene,
    uuid: i64,
    attrs: Option<Vec<RawAttr>>,
    retype: bool,
    classes: ClassTable,
) -> Scene {
    let uid = uid_of(uuid);
    let kind = kind_of(uuid);
    let found = entity_or_new(s.v.entities, uid, kind, s.names, classes);
    let e = if retype {
        EntityView { entity_type: kind, ..found }
    } else {
        found
    };
    let r = attrs_told(e, s.names, uid, kind, attrs, classes);
    Scene {
        v: EncounterView { entities: s.v.entities.insert(uid, r.0), ..s.v },
        names: r.1,
    }
}

/// A scene after an entity appeared.
pub open spec fn appeared(s: Scene, a: AppearEntity, rules: Rules) -> Scene {
    if a.uuid == 0 {
        s
    } else {
        told(s, a.uuid, a.attrs, true, rules.classes)
    }
}

/// A scene after entities appeared.
pub open spec fn all_appeared(s: Scene, list: Seq<AppearEntity>, rules: Rules) -> Scene
    decreases list.len(),
{
    if list.len() == 0 {
        s
    } else {
        appeared(all_appeared(s, list.drop_last(), rules), list.last(), rules)
    }
}

/// Tells of an entity.
pub(crate) fn tell(
    encounter: &mut Encounter,
    names: &mut NameCache,
    uuid: i64,
    attrs: &Option<Vec<RawAttr>>,
    retype: bool,
    classes: &ClassTable,
)
    ensures
        ({
            let s = told(
                Scene { v: old(encounter)@, names: old(names)@ },
                uuid,
                *attrs,
                retype,
                *classes,
            );
            final(encounter)@ == s.v && final(names)@ == s.names
        }),
{
    let uid: i64 = get_player_uid(uuid);
    let kind = EntityKind::from(uuid);
    let ghost es = encounter@.entities;
    let mut entity: Entity = take_entity(encounter, uid, kind, names, classes);
    if retype {
        entity.entity_type = kind;
    }
    if let Some(list) = attrs {
        if kind == EntityKind::Player {
            process_player_attrs(uid, &mut entity, list, names, classes);
        } else if kind == EntityKind::Monster {
            process_monster_attrs(&mut entity, list);
        }
    }
    put_entity(encounter, uid, entity);
    assert(encounter@.entities =~= es.insert(uid, entity@));
}

/// Takes in that entities appeared. Nothing is done where only effects are followed.
pub fn process_world_entity_batch(
    encounter: &mut Encounter,
    names: &mut NameCache,
    appear: &Vec<AppearEntity>,
    rules: &Rules,
)
    ensures
        ({
            let s = Scene { v: old(encounter)@, names: old(names)@ };
            let t = if rules.settings.imagine_only_mode {
                s
            } else {
                all_appeared(s, appear@, *rules)
            };
            final(encounter)@ == t.v && final(names)@ == t.names
        }),
{
    if rules.settings.imagine_only_mode {
        return;
    }
    let ghost s = Scene { v: encounter@, names: names@ };
    let n: usize = appear.len();
    assert(appear@.take(0) =~= Seq::<AppearEntity>::empty());
    for i in 0..n
        invariant
            n == appear@.len(),
            (Scene { v: encounter@, names: names@ }) == all_appeared(
                s,
                appear@.take(i as int),
                *rules,
            ),
    {
        proof {
            let part = appear@.take(i + 1);
            assert(part.drop_last() =~= appear@.take(i as int));
        }
        let a: &AppearEntity = &appear[i];
        if a.uuid != 0 {
            tell(encounter, names, a.uuid, &a.attrs, true, &rules.classes);
        }
    }
    assert(appear@.take(n as int) =~= appear@);
}

/// Whether a hit at `now` begins a new encounter: the last hit was longer ago than set, and no
/// measurement of fixed length is under way.
pub open spec fn begins_anew(v: EncounterView, settings: RuntimeSettings, now: u128) -> bool {
    &&& settings.combat_exit_timeout_ms > 0
    &&& v.mode == MeasureMode::Normal
    &&& v.last_ms != 0
    &&& now - v.last_ms > settings.combat_exit_timeout_ms
}

/// Whether an encounter is worth remembering: someone dealt damage, and the chosen character took
/// part.
pub open spec fn worth_keeping(v: EncounterView, selected: Option<i64>) -> bool {
    !hidden(v, selected) && exists|uid: i64| listed(v, StatType::Dmg, false, uid)
}

/// The encounter at the time of a list of hits.
pub open spec fn stamped(v: EncounterView, now: u128) -> EncounterView {
    if v.start_ms == 0 {
        EncounterView {
            start_ms: now,
            last_ms: now,
            mode: match v.mode {
                MeasureMode::Pending3Min { duration_ms } => MeasureMode::Active3Min {
                    armed_at_ms: now,
                    duration_ms,
                },
                mode => mode,
            },
            ..v
        }
    } else {
        EncounterView { last_ms: now, ..v }
    }
}

/// The encounter that hits belong to: a new one where the last is over.
pub open spec fn current(
    v: EncounterView,
    hits: Seq<DamageRecord>,
    settings: RuntimeSettings,
    now: u128,
) -> EncounterView {
    if hits.len() > 0 && begins_anew(v, settings, now) {
        cleared(v)
    } else {
        v
    }
}

/// The encounter after a list of hits on an entity.
pub open spec fn hits_taken_in(
    v: EncounterView,
    names: Map<i64, CachedView>,
    uuid: i64,
    hits: Seq<DamageRecord>,
    rules: Rules,
    now: u128,
) -> EncounterView {
    sampled(
        stamped(
            damage_steps(
                current(v, hits, rules.settings, now),
                names,
                uid_of(uuid),
                kind_of(uuid),
                hits,
                rules,
            ),
            now,
        ),
        rules.settings,
        now,
        false,
    )
}

/// Whether a list of hits on an entity fits the totals that it adds to.
pub open spec fn hits_fit(
    v: EncounterView,
    names: Map<i64, CachedView>,
    uuid: i64,
    hits: Seq<DamageRecord>,
    rules: Rules,
    now: u128,
) -> bool {
    steps_fit(
        current(v, hits, rules.settings, now),
        names,
        uid_of(uuid),
        kind_of(uuid),
        hits,
        rules,
    )
}

/// A scene after the attributes of a change.
pub open spec fn delta_told(s: Scene, d: SceneDelta, rules: Rules) -> Scene {
    if d.uuid == 0 || rules.settings.imagine_only_mode {
        s
    } else {
        told(s, d.uuid, d.attrs, false, rules.classes)
    }
}

/// Whether a change brings a list of hits that is taken in.
pub open spec fn brings_hits(d: SceneDelta, rules: Rules) -> bool {
    d.uuid != 0 && !rules.settings.imagine_only_mode && d.damages is Some
}

/// A scene after a change.
pub open spec fn changed(s: Scene, d: SceneDelta, rules: Rules, now: u128) -> Scene {
    let t = delta_told(s, d, rules);
    if brings_hits(d, rules) {
        Scene {
            v: hits_taken_in(t.v, t.names, d.uuid, d.damages->Some_0@, rules, now),
            ..t
        }
    } else {
        t
    }
}

/// Whether the hits of a change fit the totals that they add to.
pub open spec fn change_fits(s: Scene, d: SceneDelta, rules: Rules, now: u128) -> bool {
    brings_hits(d, rules) ==> {
        let t = delta_told(s, d, rules);
        hits_fit(t.v, t.names, d.uuid, d.damages->Some_0@, rules, now)
    }
}

/// Whether a change ends the encounter.
pub open spec fn ends_encounter(s: Scene, d: SceneDelta, rules: Rules, now: u128) -> bool {
    brings_hits(d, rules) && d.damages->Some_0@.len() > 0 && begins_anew(
        delta_told(s, d, rules).v,
        rules.settings,
        now,
    )
}

/// The encounter that a change ends, where it is worth remembering.
pub open spec fn kept_by_change(s: Scene, d: SceneDelta, rules: Rules, now: u128) -> Seq<
    EncounterView,
> {
    let v = delta_told(s, d, rules).v;
    if ends_encounter(s, d, rules, now) && worth_keeping(v, rules.selected) {
        seq![v]
    } else {
        seq![]
    }
}

/// What a change tells to do with effects.
pub open spec fn change_actions(s: Scene, d: SceneDelta, rules: Rules, now: u128) -> Seq<
    BuffActionView,
> {
    let events = if d.uuid != 0 && kind_of(d.uuid) == EntityKind::Player && d.buff_list is Some {
        events_actions(uid_of(d.uuid), d.buff_list->Some_0@)
    } else {
        seq![]
    };
    if ends_encounter(s, d, rules, now) {
        events.push(BuffActionView::Clear)
    } else {
        events
    }
}

/// Whether `list` are the snapshots of encounters.
pub open spec fn are_snapshots(
    list: Seq<SnapshotView>,
    kept: Seq<EncounterView>,
    selected: Option<i64>,
    now: u128,
) -> bool {
    &&& list.len() == kept.len()
    &&& forall|i: int| 0 <= i < list.len() ==> is_snapshot(
        #[trigger] list[i],
        kept[i],
        selected,
        now,
    )
}

/// What is known of a monster does not touch what it did.
pub proof fn lemma_monster_attrs_keep(e: EntityView, attrs: Seq<RawAttr>)
    ensures
        monster_attrs(e, attrs) == (EntityView {
            profile: monster_attrs(e, attrs).profile,
            monster_id: monster_attrs(e, attrs).monster_id,
            ..e
        }),
    decreases attrs.len(),
{
    if attrs.len() > 0 {
        lemma_monster_attrs_keep(e, attrs.drop_last());
    }
}

/// Sets the time of a list of hits.
pub(crate) fn stamp(encounter: &mut Encounter, now: u128)
    ensures
        final(encounter)@ == stamped(old(encounter)@, now),
{
    if encounter.time_fight_start_ms == 0 {
        encounter.time_fight_start_ms = now;
        if let MeasureMode::Pending3Min { duration_ms } = encounter.measure_mode {
            encounter.measure_mode = MeasureMode::Active3Min { armed_at_ms: now, duration_ms };
        }
    }
    encounter.time_last_combat_packet_ms = now;
}

/// Whether a hit at `now` begins a new encounter.
pub(crate) fn is_over(encounter: &Encounter, settings: &RuntimeSettings, now: u128) -> (b: bool)
    ensures
        b == begins_anew(encounter@, *settings, now),
{
    settings.combat_exit_timeout_ms > 0 && encounter.measure_mode == MeasureMode::Normal
        && encounter.time_last_combat_packet_ms != 0 && now > encounter.time_last_combat_packet_ms
        && now - encounter.time_last_combat_packet_ms > settings.combat_exit_timeout_ms as u128
}

/// The snapshot of an encounter, where it is worth remembering.
fn snapshot_worth_keeping(
    encounter: &Encounter,
    selected: Option<i64>,
    now: u128,
) -> (r: Option<EncounterSnapshot>)
    ensures
        r is Some <==> worth_keeping(encounter@, selected),
        r matches Some(s) ==> is_snapshot(s@, encounter@, selected, now),
{
    let s: EncounterSnapshot = build_encounter_snapshot(encounter, selected, now);
    let seen: bool = selected.is_none() || encounter.has_selected_participant;
    if seen && s.player_rows.len() > 0 {
        assert(listed(encounter@, StatType::Dmg, false, s@.rows[0].uid));
        Some(s)
    } else {
        proof {
            if worth_keeping(encounter@, selected) {
                let uid = choose|uid: i64| listed(encounter@, StatType::Dmg, false, uid);
                assert(lists_players(s@.rows, encounter@, StatType::Dmg, false, now));
                assert(s@.rows.len() == s.player_rows@.len());
            }
        }
        None
    }
}

/// Takes in a list of hits on an entity. Where it ends an encounter that is worth remembering, the
/// snapshot of that encounter is returned.
fn take_in_hits(
    encounter: &mut Encounter,
    names: &NameCache,
    uuid: i64,
    hits: &Vec<DamageRecord>,
    rules: &Rules,
    now: u128,
    actions: &mut Vec<BuffAction>,
) -> (ended: Option<EncounterSnapshot>)
    requires
        hits_fit(old(encounter)@, names@, uuid, hits@, *rules, now),
    ensures
        final(encounter)@ == hits_taken_in(
            old(encounter)@,
            names@,
            uuid,
            hits@,
            *rules,
            now,
        ),
        ({
            let ends = hits@.len() > 0 && begins_anew(old(encounter)@, rules.settings, now);
            &&& action_views(final(actions)@) == if ends {
                action_views(old(actions)@).push(BuffActionView::Clear)
            } else {
                action_views(old(actions)@)
            }
            &&& ended is Some <==> ends && worth_keeping(old(encounter)@, rules.selected)
        }),
        ended matches Some(s) ==> is_snapshot(s@, old(encounter)@, rules.selected, now),
{
    let mut ended: Option<EncounterSnapshot> = None;
    if hits.len() > 0 && is_over(encounter, &rules.settings, now) {
        ended = snapshot_worth_keeping(encounter, rules.selected, now);
        encounter.clear_combat_stats();
        push_action(actions, BuffAction::Clear);
    }
    let target_uid: i64 = get_player_uid(uuid);
    let target_kind = EntityKind::from(uuid);
    apply_damages(encounter, names, target_uid, target_kind, hits, rules);
    stamp(encounter, now);
    take_time_series_sample(encounter, &rules.settings, now, false);
    ended
}

/// Takes in a change at the time `now`. What it tells to do with effects is added to `actions`;
/// where it ends an encounter that is worth remembering, the snapshot of that encounter is returned.
pub fn process_scene_delta(
    encounter: &mut Encounter,
    names: &mut NameCache,
    delta: &SceneDelta,
    rules: &Rules,
    now: u128,
    actions: &mut Vec<BuffAction>,
) -> (ended: Option<EncounterSnapshot>)
    requires
        change_fits(Scene { v: old(encounter)@, names: old(names)@ }, *delta, *rules, now),
    ensures
        ({
            let s = Scene { v: old(encounter)@, names: old(names)@ };
            let t = changed(s, *delta, *rules, now);
            let kept = kept_by_change(s, *delta, *rules, now);
            &&& final(encounter)@ == t.v
            &&& final(names)@ == t.names
            &&& action_views(final(actions)@) == action_views(old(actions)@) + change_actions(
                s,
                *delta,
                *rules,
                now,
            )
            &&& ended is Some <==> kept.len() > 0
            &&& ended matches Some(e) ==> is_snapshot(e@, kept[0], rules.selected, now)
        }),
{
    let ghost s = Scene { v: encounter@, names: names@ };
    let ghost before = action_views(actions@);
    if delta.uuid == 0 {
        assert(action_views(actions@) =~= before + change_actions(s, *delta, *rules, now));
        return None;
    }
    if !rules.settings.imagine_only_mode {
        tell(encounter, names, delta.uuid, &delta.attrs, false, &rules.classes);
    }
    if EntityKind::from(delta.uuid) == EntityKind::Player {
        if let Some(events) = &delta.buff_list {
            push_events(actions, get_player_uid(delta.uuid), events);
        }
    }
    let mut ended: Option<EncounterSnapshot> = None;
    if !rules.settings.imagine_only_mode {
        if let Some(hits) = &delta.damages {
            ended = take_in_hits(encounter, names, delta.uuid, hits, rules, now, actions);
        }
    }
    assert(action_views(actions@) =~= before + change_actions(s, *delta, *rules, now));
    ended
}

} // verus!
