//! An encounter: everyone who takes part, and what they did.

use crate::capture::server::{Server, ServerView};
use crate::engine::combat_stats::{no_hits, CombatStats};
use crate::engine::entity::{cleared_entity, copy_series, Entity, EntityView, TimeSeriesPoint};
use crate::engine::walk::{copy_set, key_list, lemma_next_key};
use crate::protocol::messages::EntityKind;
use std::collections::{HashMap, HashSet, VecDeque};
use vstd::prelude::*;
use vstd::std_specs::hash::*;

verus! {

/// Whether a measurement of fixed length is under way.
#[derive(Debug, Clone, Copy, PartialEq, Eq, Structural)]
pub enum MeasureMode {
    Normal,
    /// It begins with the next hit.
    Pending3Min { duration_ms: u128 },
    /// It began.
    Active3Min { armed_at_ms: u128, duration_ms: u128 },
}

impl Default for MeasureMode {
    fn default() -> (m: MeasureMode)
        ensures
            m == MeasureMode::Normal,
    {
        MeasureMode::Normal
    }
}

/// A meal or a potion: which it is, how long it lasts in all, and when it ends.
#[derive(Debug, Clone, Copy, PartialEq, Eq, Structural)]
pub struct ConsumableTimer {
    pub base_id: i32,
    pub duration_ms: i64,
    pub ends_at_ms: u128,
}

/// The time that a meal or a potion still lasts at `now`: none where it has ended.
pub open spec fn time_remaining(t: ConsumableTimer, now: u128) -> u128 {
    if t.ends_at_ms > now {
        (t.ends_at_ms - now) as u128
    } else {
        0
    }
}

impl ConsumableTimer {
    /// The time that it still lasts at `now`.
    pub fn remaining_ms(&self, now: u128) -> (ms: u128)
        ensures
            ms == time_remaining(*self, now),
    {
        if self.ends_at_ms > now {
            self.ends_at_ms - now
        } else {
            0
        }
    }
}

/// The meal and the potion that a player used.
#[derive(Debug, Clone, Copy, PartialEq, Eq, Structural)]
pub struct PlayerConsumables {
    pub food: Option<ConsumableTimer>,
    pub syrup: Option<ConsumableTimer>,
}

/// An encounter.
pub struct Encounter {
    pub is_paused: bool,
    pub time_fight_start_ms: u128,
    pub time_last_combat_packet_ms: u128,
    pub entities: HashMap<i64, Entity>,
    pub dmg_stats: CombatStats,
    pub dmg_stats_boss_only: CombatStats,
    pub heal_stats: CombatStats,
    pub dmg_taken_stats: CombatStats,
    pub time_series: VecDeque<TimeSeriesPoint>,
    pub last_sample_ms: u128,
    pub last_sample_total_dmg: i64,
    pub local_player_uid: i64,
    pub has_selected_participant: bool,
    pub participant_player_uids: HashSet<i64>,
    pub measure_mode: MeasureMode,
    pub active_connection: Option<Server>,
    /// The character that each connection belongs to.
    pub conn_to_uid: Vec<(Server, i64)>,
    /// Meals and potions outlast an encounter.
    pub consumables: HashMap<i64, PlayerConsumables>,
}

pub struct EncounterView {
    pub is_paused: bool,
    pub start_ms: u128,
    pub last_ms: u128,
    pub entities: Map<i64, EntityView>,
    pub dmg: CombatStats,
    pub boss: CombatStats,
    pub heal: CombatStats,
    pub taken: CombatStats,
    pub series: Seq<TimeSeriesPoint>,
    pub last_sample_ms: u128,
    pub last_sample: i64,
    pub local_uid: i64,
    pub has_selected: bool,
    pub participants: Set<i64>,
    pub mode: MeasureMode,
    pub active: Option<ServerView>,
    pub conns: Seq<(ServerView, i64)>,
    pub consumables: Map<i64, PlayerConsumables>,
}

/// A connection that may be absent.
pub open spec fn server_view(s: Option<Server>) -> Option<ServerView> {
    match s {
        Some(x) => Some(x@),
        None => None,
    }
}

/// Entities by number.
pub open spec fn entity_views(m: Map<i64, Entity>) -> Map<i64, EntityView> {
    m.map_values(|e: Entity| e@)
}

/// Connections with their characters.
pub open spec fn conn_views(list: Seq<(Server, i64)>) -> Seq<(ServerView, i64)> {
    Seq::new(list.len(), |i: int| (list[i].0@, list[i].1))
}

impl View for Encounter {
    type V = EncounterView;

    open spec fn view(&self) -> EncounterView {
        EncounterView {
            is_paused: self.is_paused,
            start_ms: self.time_fight_start_ms,
            last_ms: self.time_last_combat_packet_ms,
            entities: entity_views(self.entities@),
            dmg: self.dmg_stats,
            boss: self.dmg_stats_boss_only,
            heal: self.heal_stats,
            taken: self.dmg_taken_stats,
            series: self.time_series@,
            last_sample_ms: self.last_sample_ms,
            last_sample: self.last_sample_total_dmg,
            local_uid: self.local_player_uid,
            has_selected: self.has_selected_participant,
            participants: self.participant_player_uids@,
            mode: self.measure_mode,
            active: server_view(self.active_connection),
            conns: conn_views(self.conn_to_uid@),
            consumables: self.consumables@,
        }
    }
}

/// An encounter in which nothing happened yet.
pub open spec fn empty_encounter() -> EncounterView {
    EncounterView {
        is_paused: false,
        start_ms: 0,
        last_ms: 0,
        entities: Map::empty(),
        dmg: no_hits(),
        boss: no_hits(),
        heal: no_hits(),
        taken: no_hits(),
        series: Seq::empty(),
        last_sample_ms: 0,
        last_sample: 0,
        local_uid: 0,
        has_selected: false,
        participants: Set::empty(),
        mode: MeasureMode::Normal,
        active: None,
        conns: Seq::empty(),
        consumables: Map::empty(),
    }
}

/// The encounter after its end: players are forgotten, monsters keep what is known of them but not
/// what they did. Connections, measurement, own character, meals and potions stay.
pub open spec fn cleared(v: EncounterView) -> EncounterView {
    EncounterView {
        entities: Map::new(
            |uid: i64|
                v.entities.contains_key(uid) && v.entities[uid].entity_type != EntityKind::Player,
            |uid: i64| cleared_entity(v.entities[uid]),
        ),
        local_uid: v.local_uid,
        mode: v.mode,
        active: v.active,
        conns: v.conns,
        consumables: v.consumables,
        ..empty_encounter()
    }
}

/// A copy of the characters of connections.
fn copy_conns(list: &Vec<(Server, i64)>) -> (copy: Vec<(Server, i64)>)
    ensures
        copy@ == list@,
{
    let mut copy: Vec<(Server, i64)> = Vec::new();
    let n: usize = list.len();
    for i in 0..n
        invariant
            n == list@.len(),
            copy@ == list@.take(i as int),
    {
        copy.push(list[i]);
        assert(copy@ =~= list@.take(i + 1));
    }
    assert(list@.take(n as int) =~= list@);
    copy
}

/// A copy of entities.
fn copy_entities(m: &HashMap<i64, Entity>) -> (copy: HashMap<i64, Entity>)
    ensures
        entity_views(copy@) == entity_views(m@),
{
    broadcast use group_hash_axioms;

    let keys: Vec<i64> = key_list(m);
    let mut copy: HashMap<i64, Entity> = HashMap::new();
    let n: usize = keys.len();
    for i in 0..n
        invariant
            n == keys@.len(),
            keys@.no_duplicates(),
            forall|k: i64| #[trigger] keys@.contains(k) <==> m@.contains_key(k),
            forall|k: i64| #[trigger] copy@.contains_key(k) <==> keys@.take(i as int).contains(k),
            forall|k: i64| copy@.contains_key(k) ==> (#[trigger] copy@[k])@ == m@[k]@,
    {
        broadcast use group_hash_axioms;

        proof {
            lemma_next_key(keys@, i as int);
            assert(m@.contains_key(keys@[i as int]));
        }
        if let Some(entity) = m.get(&keys[i]) {
            copy.insert(keys[i], entity.duplicate());
        }
    }
    proof {
        assert(keys@.take(n as int) =~= keys@);
        assert(entity_views(copy@) =~= entity_views(m@));
    }
    copy
}

impl Encounter {
    /// An encounter in which nothing happened yet.
    pub fn new() -> (e: Encounter)
        ensures
            e@ == empty_encounter(),
    {
        broadcast use group_hash_axioms;

        let e = Encounter {
            is_paused: false,
            time_fight_start_ms: 0,
            time_last_combat_packet_ms: 0,
            entities: HashMap::new(),
            dmg_stats: CombatStats::default(),
            dmg_stats_boss_only: CombatStats::default(),
            heal_stats: CombatStats::default(),
            dmg_taken_stats: CombatStats::default(),
            time_series: VecDeque::new(),
            last_sample_ms: 0,
            last_sample_total_dmg: 0,
            local_player_uid: 0,
            has_selected_participant: false,
            participant_player_uids: HashSet::new(),
            measure_mode: MeasureMode::Normal,
            active_connection: None,
            conn_to_uid: Vec::new(),
            consumables: HashMap::new(),
        };
        assert(e@.entities =~= Map::<i64, EntityView>::empty());
        assert(e@.conns =~= Seq::<(ServerView, i64)>::empty());
        assert(e@ == empty_encounter());
        e
    }

    /// A copy.
    pub fn duplicate(&self) -> (copy: Encounter)
        ensures
            copy@ == self@,
    {
        let copy = Encounter {
            is_paused: self.is_paused,
            time_fight_start_ms: self.time_fight_start_ms,
            time_last_combat_packet_ms: self.time_last_combat_packet_ms,
            entities: copy_entities(&self.entities),
            dmg_stats: self.dmg_stats,
            dmg_stats_boss_only: self.dmg_stats_boss_only,
            heal_stats: self.heal_stats,
            dmg_taken_stats: self.dmg_taken_stats,
            time_series: copy_series(&self.time_series),
            last_sample_ms: self.last_sample_ms,
            last_sample_total_dmg: self.last_sample_total_dmg,
            local_player_uid: self.local_player_uid,
            has_selected_participant: self.has_selected_participant,
            participant_player_uids: copy_set(&self.participant_player_uids),
            measure_mode: self.measure_mode,
            active_connection: self.active_connection,
            conn_to_uid: copy_conns(&self.conn_to_uid),
            consumables: self.consumables.clone(),
        };
        assert(copy@ == self@);
        copy
    }

    /// Ends the encounter. Players are forgotten, so that what is known of them is looked up anew;
    /// monsters stay, with what they did forgotten.
    pub fn clear_combat_stats(&mut self)
        ensures
            final(self)@ == cleared(old(self)@),
    {
        broadcast use group_hash_axioms;

        let ghost before = self.entities@;
        let keys: Vec<i64> = key_list(&self.entities);
        let mut i: usize = 0;
        assert(keys@.take(0) =~= Seq::<i64>::empty());
        while i < keys.len()
            invariant
                i <= keys@.len(),
                keys@.no_duplicates(),
                before == old(self).entities@,
                forall|k: i64| #[trigger] keys@.contains(k) <==> before.contains_key(k),
                *self == (Encounter { entities: self.entities, ..*old(self) }),
                forall|k: i64| #[trigger]
                    self.entities@.contains_key(k) <==> before.contains_key(k) && !(keys@.take(
                        i as int,
                    ).contains(k) && before[k].entity_type == EntityKind::Player),
                forall|k: i64|
                    self.entities@.contains_key(k) ==> (#[trigger] self.entities@[k])@
                        == if keys@.take(i as int).contains(k) {
                        cleared_entity(before[k]@)
                    } else {
                        before[k]@
                    },
            decreases keys@.len() - i,
        {
            broadcast use group_hash_axioms;

            let k: i64 = keys[i];
            let ghost now = self.entities@;
            proof {
                lemma_next_key(keys@, i as int);
                assert(now.contains_key(k));
                assert(now[k]@ == before[k]@);
            }
            match self.entities.remove(&k) {
                Some(mut entity) => {
                    assert(entity@ == before[k]@);
                    if entity.entity_type != EntityKind::Player {
                        entity.clear_stats();
                        self.entities.insert(k, entity);
                    }
                },
                None => {},
            }
            i += 1;
        }
        proof {
            assert(keys@.take(i as int) =~= keys@);
        }
        self.is_paused = false;
        self.time_fight_start_ms = 0;
        self.time_last_combat_packet_ms = 0;
        self.dmg_stats = CombatStats::default();
        self.dmg_stats_boss_only = CombatStats::default();
        self.heal_stats = CombatStats::default();
        self.dmg_taken_stats = CombatStats::default();
        self.time_series.clear();
        self.last_sample_ms = 0;
        self.last_sample_total_dmg = 0;
        self.has_selected_participant = false;
        self.participant_player_uids.clear();
        proof {
            assert(self@.entities =~= cleared(old(self)@).entities) by {
                assert forall|k: i64| self@.entities.contains_key(k) == cleared(
                    old(self)@,
                ).entities.contains_key(k) by {
                    assert(self.entities@.contains_key(k) == self@.entities.contains_key(k));
                }
            }
            assert(self@.series =~= Seq::<TimeSeriesPoint>::empty());
            assert(self@ == cleared(old(self)@));
        }
    }
}

/// Ending an encounter keeps what outlasts it: connections, measurement, own character, meals and
/// potions.
pub proof fn law_clearing_keeps_connections(v: EncounterView)
    ensures
        cleared(v).active == v.active,
        cleared(v).conns == v.conns,
        cleared(v).consumables == v.consumables,
        cleared(v).mode == v.mode,
        cleared(v).local_uid == v.local_uid,
        cleared(cleared(v)) == cleared(v),
{
    assert(cleared(cleared(v)).entities =~= cleared(v).entities);
}


} // verus!
