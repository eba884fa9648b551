//! What messages do.

use crate::capture::binary_reader::copy_bytes;
use crate::capture::server::{Server, ServerView};
use crate::engine::buff_action::{action_views, push_action, BuffAction, BuffActionView};
use crate::engine::class::ClassTable;
use crate::engine::connection::{accepts, conn_learned, conn_uid, learn_conn, let_in, should_accept};
use crate::engine::damage::{damage_steps, put_entity, take_entity, uid_of};
use crate::engine::encounter::{server_view, Encounter, EncounterView, MeasureMode};
use crate::engine::entity::{Entity, EntityView, Profile};
use crate::engine::history::{push, with_snapshot, History, HistoryView};
use crate::engine::modules::{are_modules_of, parse_modules, ModuleInfo};
use crate::engine::name_cache::{
    entity_or_new, learned, remembered, CachedView, NameCache, NameUpdate, UpdateView,
};
use crate::engine::rules::Rules;
use crate::engine::scene::{
    all_appeared, are_snapshots, brings_hits, change_actions, change_fits, changed, delta_told,
    ends_encounter, kept_by_change, process_scene_delta, process_world_entity_batch, Scene,
};
use crate::models::{EncounterSnapshot, SnapshotView};
use crate::protocol::messages::{
    kind_of, DamageRecord, EntityKind, LocalDelta, Message, PlayerSnapshot, SceneDelta,
};
use crate::protocol::opcodes::Pkt;
use vstd::prelude::*;

verus! {

/// A scene after changes, one by one.
pub open spec fn changed_all(s: Scene, ds: Seq<SceneDelta>, rules: Rules, now: u128) -> Scene
    decreases ds.len(),
{
    if ds.len() == 0 {
        s
    } else {
        changed(changed_all(s, ds.drop_last(), rules, now), ds.last(), rules, now)
    }
}

/// What changes tell to do with effects.
pub open spec fn changes_actions(s: Scene, ds: Seq<SceneDelta>, rules: Rules, now: u128) -> Seq<
    BuffActionView,
>
    decreases ds.len(),
{
    if ds.len() == 0 {
        seq![]
    } else {
        changes_actions(s, ds.drop_last(), rules, now) + change_actions(
            changed_all(s, ds.drop_last(), rules, now),
            ds.last(),
            rules,
            now,
        )
    }
}

/// The encounters that changes end and that are worth remembering.
pub open spec fn kept_by_changes(s: Scene, ds: Seq<SceneDelta>, rules: Rules, now: u128) -> Seq<
    EncounterView,
>
    decreases ds.len(),
{
    if ds.len() == 0 {
        seq![]
    } else {
        kept_by_changes(s, ds.drop_last(), rules, now) + kept_by_change(
            changed_all(s, ds.drop_last(), rules, now),
            ds.last(),
            rules,
            now,
        )
    }
}

/// Whether the hits of changes, one change after the other, fit the totals that they add to.
pub open spec fn changes_fit(s: Scene, ds: Seq<SceneDelta>, rules: Rules, now: u128) -> bool
    decreases ds.len(),
{
    ds.len() > 0 ==> {
        let before = ds.drop_last();
        &&& changes_fit(s, before, rules, now)
        &&& change_fits(changed_all(s, before, rules, now), ds.last(), rules, now)
    }
}

/// A history after encounters were remembered, one by one.
pub open spec fn with_snapshots(h: HistoryView, list: Seq<SnapshotView>, limit: usize) -> HistoryView
    decreases list.len(),
{
    if list.len() == 0 {
        h
    } else {
        with_snapshot(with_snapshots(h, list.drop_last(), limit), list.last(), limit)
    }
}

/// Whether `after` is the history `before` with the snapshots of encounters remembered.
pub open spec fn remembers(
    before: HistoryView,
    after: HistoryView,
    kept: Seq<EncounterView>,
    selected: Option<i64>,
    limit: usize,
    now: u128,
) -> bool {
    exists|list: Seq<SnapshotView>| #[trigger]
        are_snapshots(list, kept, selected, now) && after == with_snapshots(before, list, limit)
}

/// Whether the own character is told of by a connection: the first one while none is active, or the
/// one of the chosen character.
pub open spec fn is_own(
    active: Option<ServerView>,
    selected: Option<i64>,
    uid: i64,
) -> bool {
    match selected {
        None => active is None,
        Some(chosen) => chosen == uid,
    }
}

/// What is learned of the own character.
pub open spec fn own_update(p: PlayerSnapshot) -> UpdateView {
    UpdateView {
        name: match p.char_base {
            Some(b) => if b.name@.len() > 0 {
                Some(b.name@)
            } else {
                None
            },
            None => None,
        },
        class_id: match p.cur_profession_id {
            Some(id) => if id != 0 {
                Some(id)
            } else {
                None
            },
            None => None,
        },
        ability_score: match p.char_base {
            Some(b) => if b.fight_point != 0 {
                Some(b.fight_point)
            } else {
                None
            },
            None => None,
        },
        season_level: None,
        season_strength: None,
    }
}

/// What is known of a character after something was learned.
pub open spec fn profile_learned(p: Profile, u: UpdateView, classes: ClassTable) -> Profile {
    Profile {
        name: match u.name {
            Some(name) => Some(name),
            None => p.name,
        },
        class: match u.class_id {
            Some(id) => Some(classes.class_of(id)),
            None => p.class,
        },
        ability_score: match u.ability_score {
            Some(score) => Some(score),
            None => p.ability_score,
        },
        ..p
    }
}

/// A scene after a world told of a character on entering it: the connection is learned, and the own
/// character is known.
pub open spec fn entered(s: Scene, p: PlayerSnapshot, conn: ServerView, rules: Rules) -> Scene {
    if p.char_id == 0 {
        s
    } else {
        let v = EncounterView { conns: conn_learned(s.v.conns, conn, p.char_id), ..s.v };
        if is_own(v.active, rules.selected, p.char_id) {
            let found = entity_or_new(
                v.entities,
                p.char_id,
                EntityKind::Player,
                s.names,
                rules.classes,
            );
            let u = own_update(p);
            let e = EntityView {
                entity_type: EntityKind::Player,
                profile: profile_learned(found.profile, u, rules.classes),
                ..found
            };
            Scene {
                v: EncounterView {
                    active: Some(conn),
                    local_uid: p.char_id,
                    entities: v.entities.insert(p.char_id, e),
                    ..v
                },
                names: s.names.insert(p.char_id, learned(remembered(s.names, p.char_id), u)),
            }
        } else {
            Scene { v, ..s }
        }
    }
}

/// Takes in what a world tells of a character on entering it. The modules are returned where it is
/// the own character.
fn process_world_enter_snapshot(
    encounter: &mut Encounter,
    names: &mut NameCache,
    p: &PlayerSnapshot,
    conn: Server,
    rules: &Rules,
) -> (modules: Option<Vec<ModuleInfo>>)
    ensures
        ({
            let s = entered(Scene { v: old(encounter)@, names: old(names)@ }, *p, conn@, *rules);
            final(encounter)@ == s.v && final(names)@ == s.names
        }),
        modules is Some <==> p.char_id != 0 && is_own(
            old(encounter)@.active,
            rules.selected,
            p.char_id,
        ),
        modules matches Some(list) ==> are_modules_of(list@, *p),
{
    let uid: i64 = p.char_id;
    if uid == 0 {
        return None;
    }
    let ghost v = encounter@;
    learn_conn(&mut encounter.conn_to_uid, conn, uid);
    let own: bool = match rules.selected {
        None => encounter.active_connection.is_none(),
        Some(chosen) => chosen == uid,
    };
    if !own {
        return None;
    }
    encounter.active_connection = Some(conn);
    encounter.local_player_uid = uid;
    let mut update = NameUpdate {
        name: None,
        class_id: None,
        ability_score: None,
        season_level: None,
        season_strength: None,
    };
    let mut entity: Entity = take_entity(
        encounter,
        uid,
        EntityKind::Player,
        names,
        &rules.classes,
    );
    entity.entity_type = EntityKind::Player;
    if let Some(base) = &p.char_base {
        if !base.name.as_str().is_empty() {
            entity.name = Some(base.name.clone());
            update.name = Some(base.name.clone());
        }
        if base.fight_point != 0 {
            entity.ability_score = Some(base.fight_point);
            update.ability_score = Some(base.fight_point);
        }
    }
    if let Some(id) = p.cur_profession_id {
        if id != 0 {
            entity.class = Some(rules.classes.class_from_id(id));
            update.class_id = Some(id);
        }
    }
    put_entity(encounter, uid, entity);
    assert(update@ == own_update(*p));
    names.update(uid, update);
    assert(encounter@.entities =~= v.entities.insert(uid, entity@));
    Some(parse_modules(p))
}

/// What effects on the own character tell to do.
pub open spec fn effect_actions(uid: i64, effects: Seq<Vec<u8>>) -> Seq<BuffActionView> {
    effects.map_values(|raw: Vec<u8>| BuffActionView::Effect { uid, raw: raw@ })
}

/// The states of effects.
pub open spec fn full_actions(buffs: Seq<Vec<u8>>) -> Seq<BuffActionView> {
    buffs.map_values(|raw: Vec<u8>| BuffActionView::Full(raw@))
}

/// The changes that a message brings.
pub open spec fn changes_in(msg: Message) -> Seq<SceneDelta> {
    match msg {
        Message::LocalDeltaBatch(Some(l)) => match l.base_delta {
            Some(d) => seq![d],
            None => seq![],
        },
        Message::WorldDeltaBatch(ds) => ds@,
        _ => seq![],
    }
}

/// Whether a message is taken in as it comes over a connection: not while the encounter is paused,
/// and only over the right connection.
pub open spec fn taken_in(v: EncounterView, conn: Option<ServerView>, rules: Rules) -> bool {
    !v.is_paused && accepts(v, conn, rules.selected)
}

/// A scene after a message that is taken in.
pub open spec fn message_effect(
    s: Scene,
    conn: Option<ServerView>,
    msg: Message,
    rules: Rules,
    now: u128,
) -> Scene {
    match msg {
        Message::WorldEntityBatch(list) => if rules.settings.imagine_only_mode {
            s
        } else {
            all_appeared(s, list@, rules)
        },
        Message::WorldEnterSnapshot(Some(p)) => match conn {
            Some(c) => entered(s, p, c, rules),
            None => s,
        },
        _ => changed_all(s, changes_in(msg), rules, now),
    }
}

/// What a message that is taken in tells to do with effects.
pub open spec fn message_actions(s: Scene, msg: Message, rules: Rules, now: u128) -> Seq<
    BuffActionView,
> {
    let changes = changes_actions(s, changes_in(msg), rules, now);
    match msg {
        Message::LocalDeltaBatch(Some(l)) => effect_actions(s.v.local_uid, l.effects@) + changes,
        Message::BuffTick(raw) => seq![BuffActionView::Full(raw@), BuffActionView::Tick(raw@)],
        Message::BuffSnapshotBundle(list) => full_actions(list@),
        _ => changes,
    }
}

/// Whether a message tells of connections only.
pub open spec fn is_signal(msg: Message) -> bool {
    msg is ServerHandover || msg is SocialEnvelope
}

/// The scene that a message meets: over the connection of the chosen character.
pub open spec fn met(s: Scene, conn: Option<ServerView>, rules: Rules) -> Scene {
    Scene { v: let_in(s.v, conn, rules.selected), ..s }
}

/// A scene after a message.
pub open spec fn after_message(
    s: Scene,
    conn: Option<ServerView>,
    msg: Message,
    rules: Rules,
    now: u128,
) -> Scene {
    if msg is ServerHandover {
        Scene { v: EncounterView { active: None, conns: Seq::empty(), ..s.v }, ..s }
    } else if msg is SocialEnvelope || !taken_in(s.v, conn, rules) {
        s
    } else {
        message_effect(met(s, conn, rules), conn, msg, rules, now)
    }
}

/// Whether the hits of a message fit the totals that they add to. A message that is not taken in
/// adds to none.
pub open spec fn message_fits(
    s: Scene,
    conn: Option<ServerView>,
    msg: Message,
    rules: Rules,
    now: u128,
) -> bool {
    ||| is_signal(msg)
    ||| !taken_in(s.v, conn, rules)
    ||| changes_fit(met(s, conn, rules), changes_in(msg), rules, now)
}

/// Effects of a message beyond the encounter.
pub struct Outcome {
    /// What to do with the effects that are followed.
    pub buffs: Vec<BuffAction>,
    /// The modules of the own character, where they were told.
    pub modules: Option<Vec<ModuleInfo>>,
}

/// Adds effects on the own character.
fn push_effects(list: &mut Vec<BuffAction>, uid: i64, effects: &Vec<Vec<u8>>)
    ensures
        action_views(final(list)@) == action_views(old(list)@) + effect_actions(uid, effects@),
{
    let ghost before = action_views(list@);
    let n: usize = effects.len();
    for i in 0..n
        invariant
            n == effects@.len(),
            action_views(list@) =~= before + effect_actions(uid, effects@).take(i as int),
    {
        let raw: Vec<u8> = copy_bytes(&effects[i]);
        push_action(list, BuffAction::Effect { uid, raw });
    }
    assert(action_views(list@) =~= before + effect_actions(uid, effects@));
}

/// Adds the states of effects.
fn push_states(list: &mut Vec<BuffAction>, buffs: &Vec<Vec<u8>>)
    ensures
        action_views(final(list)@) == action_views(old(list)@) + full_actions(buffs@),
{
    let ghost before = action_views(list@);
    let n: usize = buffs.len();
    for i in 0..n
        invariant
            n == buffs@.len(),
            action_views(list@) =~= before + full_actions(buffs@).take(i as int),
    {
        let raw: Vec<u8> = copy_bytes(&buffs[i]);
        push_action(list, BuffAction::Full(raw));
    }
    assert(action_views(list@) =~= before + full_actions(buffs@));
}

/// One change more.
proof fn lemma_next_change(s: Scene, ds: Seq<SceneDelta>, i: int, rules: Rules, now: u128)
    requires
        0 <= i < ds.len(),
    ensures
        changed_all(s, ds.take(i + 1), rules, now) == changed(
            changed_all(s, ds.take(i), rules, now),
            ds[i],
            rules,
            now,
        ),
        changes_actions(s, ds.take(i + 1), rules, now) == changes_actions(
            s,
            ds.take(i),
            rules,
            now,
        ) + change_actions(changed_all(s, ds.take(i), rules, now), ds[i], rules, now),
        kept_by_changes(s, ds.take(i + 1), rules, now) == kept_by_changes(
            s,
            ds.take(i),
            rules,
            now,
        ) + kept_by_change(changed_all(s, ds.take(i), rules, now), ds[i], rules, now),
{
    let part = ds.take(i + 1);
    assert(part.drop_last() =~= ds.take(i));
    assert(part.last() == ds[i]);
}

/// Where changes fit, the first ones do, and then the next.
pub proof fn lemma_next_fits(s: Scene, ds: Seq<SceneDelta>, i: int, rules: Rules, now: u128)
    requires
        0 <= i < ds.len(),
        changes_fit(s, ds, rules, now),
    ensures
        changes_fit(s, ds.take(i), rules, now),
        change_fits(changed_all(s, ds.take(i), rules, now), ds[i], rules, now),
    decreases ds.len(),
{
    if i == ds.len() - 1 {
        assert(ds.take(i) =~= ds.drop_last());
    } else {
        lemma_next_fits(s, ds.drop_last(), i, rules, now);
        assert(ds.drop_last().take(i) =~= ds.take(i));
    }
}

/// How far changes were taken in: `i` of them, with what they did.
#[verifier::opaque]
spec fn reached(
    s: Scene,
    ds: Seq<SceneDelta>,
    i: int,
    rules: Rules,
    now: u128,
    scene: Scene,
    actions: Seq<BuffActionView>,
    list: Seq<SnapshotView>,
) -> bool {
    &&& scene == changed_all(s, ds.take(i), rules, now)
    &&& actions == changes_actions(s, ds.take(i), rules, now)
    &&& are_snapshots(list, kept_by_changes(s, ds.take(i), rules, now), rules.selected, now)
}

/// One change more.
proof fn lemma_reached_next(
    s: Scene,
    ds: Seq<SceneDelta>,
    i: int,
    rules: Rules,
    now: u128,
    scene: Scene,
    actions: Seq<BuffActionView>,
    list: Seq<SnapshotView>,
    more: Seq<SnapshotView>,
)
    requires
        0 <= i < ds.len(),
        reached(s, ds, i, rules, now, scene, actions, list),
        are_snapshots(more, kept_by_change(scene, ds[i], rules, now), rules.selected, now),
    ensures
        reached(
            s,
            ds,
            i + 1,
            rules,
            now,
            changed(scene, ds[i], rules, now),
            actions + change_actions(scene, ds[i], rules, now),
            list + more,
        ),
{
    reveal(reached);
    lemma_next_change(s, ds, i, rules, now);
    lemma_snapshots_join(
        list,
        kept_by_changes(s, ds.take(i), rules, now),
        more,
        kept_by_change(scene, ds[i], rules, now),
        rules.selected,
        now,
    );
}

/// Takes in changes, one by one, and remembers the encounters that they end.
fn process_deltas(
    encounter: &mut Encounter,
    names: &mut NameCache,
    history: &mut History,
    deltas: &Vec<SceneDelta>,
    rules: &Rules,
    now: u128,
    actions: &mut Vec<BuffAction>,
)
    requires
        changes_fit(Scene { v: old(encounter)@, names: old(names)@ }, deltas@, *rules, now),
    ensures
        ({
            let s = Scene { v: old(encounter)@, names: old(names)@ };
            let t = changed_all(s, deltas@, *rules, now);
            &&& final(encounter)@ == t.v
            &&& final(names)@ == t.names
            &&& action_views(final(actions)@) == action_views(old(actions)@) + changes_actions(
                s,
                deltas@,
                *rules,
                now,
            )
            &&& remembers(
                old(history)@,
                final(history)@,
                kept_by_changes(s, deltas@, *rules, now),
                rules.selected,
                rules.settings.history_limit,
                now,
            )
        }),
{
    let ghost s = Scene { v: encounter@, names: names@ };
    let ghost before = action_views(actions@);
    let ghost h = history@;
    let ghost limit = rules.settings.history_limit;
    let ghost mut list: Seq<SnapshotView> = Seq::empty();
    let ghost mut told: Seq<BuffActionView> = Seq::empty();
    let n: usize = deltas.len();
    proof {
        reveal(reached);
        assert(deltas@.take(0) =~= Seq::<SceneDelta>::empty());
        assert(action_views(actions@) =~= before + told);
    }
    for i in 0..n
        invariant
            n == deltas@.len(),
            limit == rules.settings.history_limit,
            changes_fit(s, deltas@, *rules, now),
            reached(
                s,
                deltas@,
                i as int,
                *rules,
                now,
                Scene { v: encounter@, names: names@ },
                told,
                list,
            ),
            action_views(actions@) == before + told,
            history@ == with_snapshots(h, list, limit),
    {
        let ghost scene = Scene { v: encounter@, names: names@ };
        proof {
            lemma_next_fits(s, deltas@, i as int, *rules, now);
            assert(scene == changed_all(s, deltas@.take(i as int), *rules, now)) by {
                reveal(reached);
            }
        }
        let more: Ghost<Seq<SnapshotView>> = process_next(
            encounter,
            names,
            history,
            &deltas[i],
            rules,
            now,
            actions,
        );
        proof {
            lemma_reached_next(s, deltas@, i as int, *rules, now, scene, told, list, more@);
            lemma_remember_join(h, list, more@, limit);
            let next = change_actions(scene, deltas@[i as int], *rules, now);
            assert(before + told + next =~= before + (told + next));
            told = told + next;
            list = list + more@;
        }
    }
    proof {
        reveal(reached);
        assert(deltas@.take(n as int) =~= deltas@);
    }
}

/// Takes in the next change. The snapshots that were remembered are returned.
fn process_next(
    encounter: &mut Encounter,
    names: &mut NameCache,
    history: &mut History,
    delta: &SceneDelta,
    rules: &Rules,
    now: u128,
    actions: &mut Vec<BuffAction>,
) -> (list: Ghost<Seq<SnapshotView>>)
    requires
        change_fits(Scene { v: old(encounter)@, names: old(names)@ }, *delta, *rules, now),
    ensures
        ({
            let s = Scene { v: old(encounter)@, names: old(names)@ };
            &&& (Scene { v: final(encounter)@, names: final(names)@ }) == changed(
                s,
                *delta,
                *rules,
                now,
            )
            &&& action_views(final(actions)@) == action_views(old(actions)@) + change_actions(
                s,
                *delta,
                *rules,
                now,
            )
            &&& are_snapshots(list@, kept_by_change(s, *delta, *rules, now), rules.selected, now)
            &&& final(history)@ == with_snapshots(
                old(history)@,
                list@,
                rules.settings.history_limit,
            )
        }),
{
    let ended: Option<EncounterSnapshot> = process_scene_delta(
        encounter,
        names,
        delta,
        rules,
        now,
        actions,
    );
    let ghost mut list: Seq<SnapshotView> = Seq::empty();
    if let Some(snapshot) = ended {
        proof {
            list = seq![snapshot@];
            assert(list.drop_last() =~= Seq::<SnapshotView>::empty());
            assert(with_snapshots(history@, list.drop_last(), rules.settings.history_limit)
                == history@);
        }
        push(history, snapshot, rules.settings.history_limit);
    }
    Ghost(list)
}

/// The snapshots of two lists of encounters.
proof fn lemma_snapshots_join(
    a: Seq<SnapshotView>,
    kept_a: Seq<EncounterView>,
    b: Seq<SnapshotView>,
    kept_b: Seq<EncounterView>,
    selected: Option<i64>,
    now: u128,
)
    requires
        are_snapshots(a, kept_a, selected, now),
        are_snapshots(b, kept_b, selected, now),
    ensures
        are_snapshots(a + b, kept_a + kept_b, selected, now),
{
}

/// Remembering two lists of encounters.
proof fn lemma_remember_join(
    h: HistoryView,
    a: Seq<SnapshotView>,
    b: Seq<SnapshotView>,
    limit: usize,
)
    ensures
        with_snapshots(with_snapshots(h, a, limit), b, limit) == with_snapshots(h, a + b, limit),
    decreases b.len(),
{
    if b.len() == 0 {
        assert(a + b =~= a);
    } else {
        lemma_remember_join(h, a, b.drop_last(), limit);
        assert((a + b).drop_last() =~= a + b.drop_last());
        assert((a + b).last() == b.last());
    }
}

/// One change alone.
pub proof fn lemma_one_change(s: Scene, d: SceneDelta, rules: Rules, now: u128)
    ensures
        changed_all(s, seq![d], rules, now) == changed(s, d, rules, now),
        changes_actions(s, seq![d], rules, now) == change_actions(s, d, rules, now),
        kept_by_changes(s, seq![d], rules, now) == kept_by_change(s, d, rules, now),
        changes_fit(s, seq![d], rules, now) == change_fits(s, d, rules, now),
{
    let one = seq![d];
    assert(one.drop_last() =~= Seq::<SceneDelta>::empty());
    assert(one.last() == d);
    assert(changed_all(s, one.drop_last(), rules, now) == s);
    assert(changes_actions(s, one.drop_last(), rules, now) + change_actions(s, d, rules, now)
        =~= change_actions(s, d, rules, now));
    assert(kept_by_changes(s, one.drop_last(), rules, now) + kept_by_change(s, d, rules, now)
        =~= kept_by_change(s, d, rules, now));
    assert(changes_fit(s, one.drop_last(), rules, now));
}

/// Takes in what changed for the own character.
fn process_local_delta_batch(
    encounter: &mut Encounter,
    names: &mut NameCache,
    history: &mut History,
    local: &LocalDelta,
    rules: &Rules,
    now: u128,
    actions: &mut Vec<BuffAction>,
)
    requires
        ({
            let ds = changes_in(Message::LocalDeltaBatch(Some(*local)));
            changes_fit(Scene { v: old(encounter)@, names: old(names)@ }, ds, *rules, now)
        }),
    ensures
        ({
            let s = Scene { v: old(encounter)@, names: old(names)@ };
            let ds = changes_in(Message::LocalDeltaBatch(Some(*local)));
            let t = changed_all(s, ds, *rules, now);
            &&& final(encounter)@ == t.v
            &&& final(names)@ == t.names
            &&& action_views(final(actions)@) == action_views(old(actions)@) + (effect_actions(
                s.v.local_uid,
                local.effects@,
            ) + changes_actions(s, ds, *rules, now))
            &&& remembers(
                old(history)@,
                final(history)@,
                kept_by_changes(s, ds, *rules, now),
                rules.selected,
                rules.settings.history_limit,
                now,
            )
        }),
{
    let ghost s = Scene { v: encounter@, names: names@ };
    let ghost ds = changes_in(Message::LocalDeltaBatch(Some(*local)));
    let ghost before = action_views(actions@);
    let uid: i64 = encounter.local_player_uid;
    push_effects(actions, uid, &local.effects);
    let ghost mut list: Seq<SnapshotView> = Seq::empty();
    if let Some(d) = &local.base_delta {
        proof {
            lemma_one_change(s, *d, *rules, now);
        }
        let more: Ghost<Seq<SnapshotView>> = process_next(
            encounter,
            names,
            history,
            d,
            rules,
            now,
            actions,
        );
        proof {
            list = more@;
        }
    }
    proof {
        assert(action_views(actions@) =~= before + (effect_actions(s.v.local_uid, local.effects@)
            + changes_actions(s, ds, *rules, now)));
        assert(are_snapshots(list, kept_by_changes(s, ds, *rules, now), rules.selected, now));
        assert(history@ == with_snapshots(old(history)@, list, rules.settings.history_limit));
    }
}

/// The kind of a message.
pub(crate) fn op_of(msg: &Message) -> (op: Pkt)
    ensures
        (op == Pkt::ServerHandover || op == Pkt::SocialEnvelope) == is_signal(*msg),
{
    match msg {
        Message::ServerHandover => Pkt::ServerHandover,
        Message::SocialEnvelope => Pkt::SocialEnvelope,
        Message::WorldEntityBatch(_) => Pkt::WorldEntityBatch,
        Message::WorldEnterSnapshot(_) => Pkt::WorldEnterSnapshot,
        Message::LocalDeltaBatch(_) => Pkt::LocalDeltaBatch,
        Message::WorldDeltaBatch(_) => Pkt::WorldDeltaBatch,
        Message::BuffTick(_) => Pkt::BuffTick,
        Message::BuffSnapshotBundle(_) => Pkt::BuffSnapshotBundle,
        Message::Unreadable => Pkt::WorldDeltaBatch,
    }
}

/// Whether a message tells of the own character.
pub open spec fn tells_own(s: Scene, conn: Option<ServerView>, msg: Message, rules: Rules) -> bool {
    &&& taken_in(s.v, conn, rules)
    &&& conn is Some
    &&& (msg matches Message::WorldEnterSnapshot(Some(p)) && p.char_id != 0 && is_own(
        met(s, conn, rules).v.active,
        rules.selected,
        p.char_id,
    ))
}

/// The encounters that a message ends and that are worth remembering.
pub open spec fn kept_by_message(
    s: Scene,
    conn: Option<ServerView>,
    msg: Message,
    rules: Rules,
    now: u128,
) -> Seq<EncounterView> {
    if is_signal(msg) || !taken_in(s.v, conn, rules) {
        seq![]
    } else {
        kept_by_changes(met(s, conn, rules), changes_in(msg), rules, now)
    }
}

/// Takes in a message at the time `now`: the encounter, the characters that are remembered and the
/// encounters that are over.
pub fn process_opcode(
    encounter: &mut Encounter,
    names: &mut NameCache,
    history: &mut History,
    msg: &Message,
    conn: Option<Server>,
    rules: &Rules,
    now: u128,
) -> (out: Outcome)
    requires
        message_fits(
            Scene { v: old(encounter)@, names: old(names)@ },
            server_view(conn),
            *msg,
            *rules,
            now,
        ),
    ensures
        ({
            let s = Scene { v: old(encounter)@, names: old(names)@ };
            let c = server_view(conn);
            let t = after_message(s, c, *msg, *rules, now);
            &&& final(encounter)@ == t.v
            &&& final(names)@ == t.names
            &&& action_views(out.buffs@) == if is_signal(*msg) || !taken_in(s.v, c, *rules) {
                seq![]
            } else {
                message_actions(met(s, c, *rules), *msg, *rules, now)
            }
            &&& remembers(
                old(history)@,
                final(history)@,
                kept_by_message(s, c, *msg, *rules, now),
                rules.selected,
                rules.settings.history_limit,
                now,
            )
            &&& out.modules is Some <==> tells_own(s, c, *msg, *rules)
            &&& out.modules matches Some(list) ==> (*msg matches Message::WorldEnterSnapshot(
                Some(p),
            ) && are_modules_of(list@, p))
        }),
{
    let ghost s = Scene { v: encounter@, names: names@ };
    let ghost c = server_view(conn);
    let mut out = Outcome { buffs: Vec::new(), modules: None };
    let ghost none: Seq<SnapshotView> = Seq::empty();
    proof {
        assert(action_views(out.buffs@) =~= seq![]);
        assert(are_snapshots(none, seq![], rules.selected, now));
        assert(history@ == with_snapshots(history@, none, rules.settings.history_limit));
    }
    if let Message::ServerHandover = msg {
        encounter.active_connection = None;
        encounter.conn_to_uid = Vec::new();
        assert(encounter@.conns =~= Seq::<(ServerView, i64)>::empty());
        return out;
    }
    if let Message::SocialEnvelope = msg {
        return out;
    }
    if encounter.is_paused {
        return out;
    }
    if !should_accept(encounter, conn, op_of(msg), rules.selected) {
        return out;
    }
    let ghost m = met(s, c, *rules);
    assert(encounter@ == m.v);
    match msg {
        Message::WorldEntityBatch(list) => {
            process_world_entity_batch(encounter, names, list, rules);
        },
        Message::WorldEnterSnapshot(Some(p)) => {
            if let Some(server) = conn {
                out.modules = process_world_enter_snapshot(encounter, names, p, server, rules);
            }
        },
        Message::LocalDeltaBatch(Some(local)) => {
            process_local_delta_batch(
                encounter,
                names,
                history,
                local,
                rules,
                now,
                &mut out.buffs,
            );
        },
        Message::WorldDeltaBatch(deltas) => {
            process_deltas(encounter, names, history, deltas, rules, now, &mut out.buffs);
        },
        Message::BuffTick(raw) => {
            let full: Vec<u8> = copy_bytes(raw);
            let tick: Vec<u8> = copy_bytes(raw);
            push_action(&mut out.buffs, BuffAction::Full(full));
            push_action(&mut out.buffs, BuffAction::Tick(tick));
        },
        Message::BuffSnapshotBundle(list) => {
            push_states(&mut out.buffs, list);
        },
        _ => {},
    }
    assert(action_views(out.buffs@) =~= message_actions(m, *msg, *rules, now));
    out
}

/// While the encounter is paused, any message may come, and changes nothing but what is known of
/// connections.
pub proof fn law_paused_ignores_messages(
    s: Scene,
    conn: Option<ServerView>,
    msg: Message,
    rules: Rules,
    now: u128,
)
    requires
        s.v.is_paused,
    ensures
        after_message(s, conn, msg, rules, now) == (Scene {
            v: EncounterView {
                active: after_message(s, conn, msg, rules, now).v.active,
                conns: after_message(s, conn, msg, rules, now).v.conns,
                ..s.v
            },
            ..s
        }),
        !(msg is ServerHandover) ==> after_message(s, conn, msg, rules, now) == s,
        message_fits(s, conn, msg, rules, now),
        kept_by_message(s, conn, msg, rules, now).len() == 0,
{
}

/// Any message may come over the connection of another character than the chosen one, and changes
/// nothing.
pub proof fn law_other_characters_are_ignored(
    s: Scene,
    conn: ServerView,
    uid: i64,
    chosen: i64,
    msg: Message,
    rules: Rules,
    now: u128,
)
    requires
        conn_uid(s.v.conns, conn) == Some(uid),
        rules.selected == Some(chosen),
        uid != chosen,
        !(msg is ServerHandover),
    ensures
        after_message(s, Some(conn), msg, rules, now) == s,
        message_fits(s, Some(conn), msg, rules, now),
{
}

/// Where only effects are followed, changes leave the encounter as it is.
pub proof fn law_effects_only(s: Scene, ds: Seq<SceneDelta>, rules: Rules, now: u128)
    requires
        rules.settings.imagine_only_mode,
    ensures
        changed_all(s, ds, rules, now) == s,
        kept_by_changes(s, ds, rules, now).len() == 0,
    decreases ds.len(),
{
    if ds.len() > 0 {
        law_effects_only(s, ds.drop_last(), rules, now);
    }
}

/// While a measurement of fixed length is awaited or under way, no change ends the encounter.
pub proof fn law_measurement_is_not_cut(s: Scene, d: SceneDelta, rules: Rules, now: u128)
    requires
        s.v.mode != MeasureMode::Normal,
    ensures
        kept_by_change(s, d, rules, now).len() == 0,
        changed(s, d, rules, now).v.mode != MeasureMode::Normal,
        s.v.mode is Active3Min ==> changed(s, d, rules, now).v.mode == s.v.mode,
        !ends_encounter(s, d, rules, now),
{
    let t = delta_told(s, d, rules);
    assert(t.v.mode == s.v.mode);
    if brings_hits(d, rules) {
        lemma_steps_keep(
            t.v,
            t.names,
            uid_of(d.uuid),
            kind_of(d.uuid),
            d.damages->Some_0@,
            rules,
        );
    }
}

/// Hits leave the time and the measurement as they are.
proof fn lemma_steps_keep(
    v: EncounterView,
    names: Map<i64, CachedView>,
    target: i64,
    kind: EntityKind,
    ds: Seq<DamageRecord>,
    rules: Rules,
)
    ensures
        damage_steps(v, names, target, kind, ds, rules).mode == v.mode,
        damage_steps(v, names, target, kind, ds, rules).start_ms == v.start_ms,
        damage_steps(v, names, target, kind, ds, rules).last_ms == v.last_ms,
    decreases ds.len(),
{
    if ds.len() > 0 {
        lemma_steps_keep(v, names, target, kind, ds.drop_last(), rules);
    }
}

/// A list of hits sets the time of the last hit, and of the first where there was none.
pub proof fn law_hits_set_the_time(s: Scene, d: SceneDelta, rules: Rules, now: u128)
    requires
        brings_hits(d, rules),
        !ends_encounter(s, d, rules, now),
    ensures
        changed(s, d, rules, now).v.last_ms == now,
        changed(s, d, rules, now).v.start_ms == if s.v.start_ms == 0 {
            now
        } else {
            s.v.start_ms
        },
        s.v.start_ms == 0 ==> (s.v.mode matches MeasureMode::Pending3Min { duration_ms }
            ==> changed(s, d, rules, now).v.mode == (MeasureMode::Active3Min {
            armed_at_ms: now,
            duration_ms,
        })),
{
    let t = delta_told(s, d, rules);
    lemma_steps_keep(
        t.v,
        t.names,
        uid_of(d.uuid),
        kind_of(d.uuid),
        d.damages->Some_0@,
        rules,
    );
}

} // verus!
