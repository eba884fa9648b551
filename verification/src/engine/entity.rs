//! Characters and monsters.

use crate::engine::class::{Class, ClassSpec};
use crate::engine::combat_stats::{no_hits, CombatStats};
use crate::engine::walk::{key_list, lemma_next_key};
use crate::protocol::messages::EntityKind;
use std::collections::{HashMap, VecDeque};
use vstd::prelude::*;
use vstd::std_specs::hash::*;

verus! {

/// How a skill hits.
#[derive(Debug, Clone, Copy, PartialEq, Eq, Structural)]
pub struct SkillMeta {
    pub property: u8,
    pub damage_mode: u8,
}

impl Default for SkillMeta {
    fn default() -> (m: SkillMeta)
        ensures
            m == (SkillMeta { property: 0, damage_mode: 0 }),
    {
        SkillMeta { property: 0, damage_mode: 0 }
    }
}

/// A sample of the course of an encounter.
#[derive(Debug, Clone, Copy, PartialEq, Eq, Structural)]
pub struct TimeSeriesPoint {
    /// Milliseconds since the beginning.
    pub t_ms: u128,
    /// The total until then.
    pub total_dmg: i64,
    /// The total at the sample before.
    pub previous_dmg: i64,
    /// Milliseconds since the sample before.
    pub window_ms: u128,
}

/// A character or a monster, and what it did.
pub struct Entity {
    pub entity_type: EntityKind,
    pub dmg_stats: CombatStats,
    pub skill_uid_to_dps_stats: HashMap<i32, CombatStats>,
    pub skill_meta: HashMap<i32, SkillMeta>,
    pub dmg_stats_boss_only: CombatStats,
    pub skill_uid_to_dps_stats_boss_only: HashMap<i32, CombatStats>,
    pub heal_stats: CombatStats,
    pub skill_uid_to_heal_stats: HashMap<i32, CombatStats>,
    pub dmg_taken_stats: CombatStats,
    pub attacker_uid_to_dmg_taken_stats: HashMap<i64, CombatStats>,
    /// By attacker and skill (see `pair_key`).
    pub attacker_skill_to_dmg_taken_stats: HashMap<i128, CombatStats>,
    pub name: Option<String>,
    pub class: Option<Class>,
    pub class_spec: Option<ClassSpec>,
    pub ability_score: Option<i32>,
    pub season_level: Option<i32>,
    pub season_strength: Option<i32>,
    pub attack_power: Option<i32>,
    pub defense_power: Option<i32>,
    pub endurance: Option<i32>,
    pub dexterity: Option<i32>,
    /// In hundredths of a percent.
    pub attack_speed: Option<i32>,
    /// In hundredths of a percent.
    pub haste: Option<i32>,
    /// In hundredths of a percent.
    pub lucky: Option<i32>,
    pub monster_id: Option<u32>,
    pub curr_hp: Option<u64>,
    pub max_hp: Option<u64>,
    pub time_series: VecDeque<TimeSeriesPoint>,
    pub last_sample_total_dmg: i64,
    pub skill_time_series: HashMap<i32, VecDeque<TimeSeriesPoint>>,
    pub skill_last_sample_total_dmg: HashMap<i32, i64>,
}

pub struct EntityView {
    pub entity_type: EntityKind,
    pub dmg: CombatStats,
    pub skill_dmg: Map<i32, CombatStats>,
    pub skill_meta: Map<i32, SkillMeta>,
    pub boss: CombatStats,
    pub skill_boss: Map<i32, CombatStats>,
    pub heal: CombatStats,
    pub skill_heal: Map<i32, CombatStats>,
    pub taken: CombatStats,
    pub taken_by: Map<i64, CombatStats>,
    pub taken_by_skill: Map<i128, CombatStats>,
    pub profile: Profile,
    pub monster_id: Option<u32>,
    pub series: Seq<TimeSeriesPoint>,
    pub last_sample: i64,
    pub skill_series: Map<i32, Seq<TimeSeriesPoint>>,
    pub skill_last: Map<i32, i64>,
}

/// What is known of a character or monster besides what it did.
pub struct Profile {
    pub name: Option<Seq<char>>,
    pub class: Option<Class>,
    pub class_spec: Option<ClassSpec>,
    pub ability_score: Option<i32>,
    pub season_level: Option<i32>,
    pub season_strength: Option<i32>,
    pub attack_power: Option<i32>,
    pub defense_power: Option<i32>,
    pub endurance: Option<i32>,
    pub dexterity: Option<i32>,
    pub attack_speed: Option<i32>,
    pub haste: Option<i32>,
    pub lucky: Option<i32>,
    pub curr_hp: Option<u64>,
    pub max_hp: Option<u64>,
}

/// Text that may be absent.
pub open spec fn text_view(s: Option<String>) -> Option<Seq<char>> {
    match s {
        Some(t) => Some(t@),
        None => None,
    }
}

/// The courses of skills.
pub open spec fn series_views(m: Map<i32, VecDeque<TimeSeriesPoint>>) -> Map<
    i32,
    Seq<TimeSeriesPoint>,
> {
    m.map_values(|d: VecDeque<TimeSeriesPoint>| d@)
}

impl View for Entity {
    type V = EntityView;

    open spec fn view(&self) -> EntityView {
        EntityView {
            entity_type: self.entity_type,
            dmg: self.dmg_stats,
            skill_dmg: self.skill_uid_to_dps_stats@,
            skill_meta: self.skill_meta@,
            boss: self.dmg_stats_boss_only,
            skill_boss: self.skill_uid_to_dps_stats_boss_only@,
            heal: self.heal_stats,
            skill_heal: self.skill_uid_to_heal_stats@,
            taken: self.dmg_taken_stats,
            taken_by: self.attacker_uid_to_dmg_taken_stats@,
            taken_by_skill: self.attacker_skill_to_dmg_taken_stats@,
            profile: Profile {
                name: text_view(self.name),
                class: self.class,
                class_spec: self.class_spec,
                ability_score: self.ability_score,
                season_level: self.season_level,
                season_strength: self.season_strength,
                attack_power: self.attack_power,
                defense_power: self.defense_power,
                endurance: self.endurance,
                dexterity: self.dexterity,
                attack_speed: self.attack_speed,
                haste: self.haste,
                lucky: self.lucky,
                curr_hp: self.curr_hp,
                max_hp: self.max_hp,
            },
            monster_id: self.monster_id,
            series: self.time_series@,
            last_sample: self.last_sample_total_dmg,
            skill_series: series_views(self.skill_time_series@),
            skill_last: self.skill_last_sample_total_dmg@,
        }
    }
}

/// Nothing is known.
pub open spec fn empty_profile() -> Profile {
    Profile {
        name: None,
        class: None,
        class_spec: None,
        ability_score: None,
        season_level: None,
        season_strength: None,
        attack_power: None,
        defense_power: None,
        endurance: None,
        dexterity: None,
        attack_speed: None,
        haste: None,
        lucky: None,
        curr_hp: None,
        max_hp: None,
    }
}

/// An entity of which only the kind is known.
pub open spec fn empty_entity(kind: EntityKind) -> EntityView {
    EntityView {
        entity_type: kind,
        dmg: no_hits(),
        skill_dmg: Map::empty(),
        skill_meta: Map::empty(),
        boss: no_hits(),
        skill_boss: Map::empty(),
        heal: no_hits(),
        skill_heal: Map::empty(),
        taken: no_hits(),
        taken_by: Map::empty(),
        taken_by_skill: Map::empty(),
        profile: empty_profile(),
        monster_id: None,
        series: Seq::empty(),
        last_sample: 0,
        skill_series: Map::empty(),
        skill_last: Map::empty(),
    }
}

/// A copy of text that may be absent.
fn copy_text(text: &Option<String>) -> (copy: Option<String>)
    ensures
        text_view(copy) == text_view(*text),
{
    match text {
        Some(t) => Some(t.clone()),
        None => None,
    }
}

/// A copy of samples.
pub(crate) fn copy_series(series: &VecDeque<TimeSeriesPoint>) -> (copy: VecDeque<TimeSeriesPoint>)
    ensures
        copy@ == series@,
{
    let copy = series.clone();
    assert(copy@ =~= series@);
    copy
}

/// A copy of the samples of skills.
fn copy_skill_series(m: &HashMap<i32, VecDeque<TimeSeriesPoint>>) -> (copy: HashMap<
    i32,
    VecDeque<TimeSeriesPoint>,
>)
    ensures
        series_views(copy@) == series_views(m@),
{
    broadcast use group_hash_axioms;

    let keys: Vec<i32> = key_list(m);
    let mut copy: HashMap<i32, VecDeque<TimeSeriesPoint>> = HashMap::new();
    let n: usize = keys.len();
    for i in 0..n
        invariant
            n == keys@.len(),
            keys@.no_duplicates(),
            forall|k: i32| #[trigger] keys@.contains(k) <==> m@.contains_key(k),
            forall|k: i32| #[trigger] copy@.contains_key(k) <==> keys@.take(i as int).contains(k),
            forall|k: i32| copy@.contains_key(k) ==> (#[trigger] copy@[k])@ == m@[k]@,
    {
        broadcast use group_hash_axioms;

        proof {
            lemma_next_key(keys@, i as int);
            assert(m@.contains_key(keys@[i as int]));
        }
        if let Some(series) = m.get(&keys[i]) {
            copy.insert(keys[i], copy_series(series));
        }
    }
    proof {
        assert(keys@.take(n as int) =~= keys@);
        assert(series_views(copy@) =~= series_views(m@));
    }
    copy
}

impl Entity {
    /// An entity of which only the kind is known.
    pub fn new(entity_type: EntityKind) -> (e: Entity)
        ensures
            e@ == empty_entity(entity_type),
    {
        let e = Entity {
            entity_type,
            dmg_stats: CombatStats::default(),
            skill_uid_to_dps_stats: HashMap::new(),
            skill_meta: HashMap::new(),
            dmg_stats_boss_only: CombatStats::default(),
            skill_uid_to_dps_stats_boss_only: HashMap::new(),
            heal_stats: CombatStats::default(),
            skill_uid_to_heal_stats: HashMap::new(),
            dmg_taken_stats: CombatStats::default(),
            attacker_uid_to_dmg_taken_stats: HashMap::new(),
            attacker_skill_to_dmg_taken_stats: HashMap::new(),
            name: None,
            class: None,
            class_spec: None,
            ability_score: None,
            season_level: None,
            season_strength: None,
            attack_power: None,
            defense_power: None,
            endurance: None,
            dexterity: None,
            attack_speed: None,
            haste: None,
            lucky: None,
            monster_id: None,
            curr_hp: None,
            max_hp: None,
            time_series: VecDeque::new(),
            last_sample_total_dmg: 0,
            skill_time_series: HashMap::new(),
            skill_last_sample_total_dmg: HashMap::new(),
        };
        assert(e@.skill_series =~= Map::<i32, Seq<TimeSeriesPoint>>::empty());
        assert(e@ == empty_entity(entity_type));
        e
    }

    /// A copy.
    pub fn duplicate(&self) -> (copy: Entity)
        ensures
            copy@ == self@,
    {
        let copy = Entity {
            entity_type: self.entity_type,
            dmg_stats: self.dmg_stats,
            skill_uid_to_dps_stats: self.skill_uid_to_dps_stats.clone(),
            skill_meta: self.skill_meta.clone(),
            dmg_stats_boss_only: self.dmg_stats_boss_only,
            skill_uid_to_dps_stats_boss_only: self.skill_uid_to_dps_stats_boss_only.clone(),
            heal_stats: self.heal_stats,
            skill_uid_to_heal_stats: self.skill_uid_to_heal_stats.clone(),
            dmg_taken_stats: self.dmg_taken_stats,
            attacker_uid_to_dmg_taken_stats: self.attacker_uid_to_dmg_taken_stats.clone(),
            attacker_skill_to_dmg_taken_stats: self.attacker_skill_to_dmg_taken_stats.clone(),
            name: copy_text(&self.name),
            class: self.class,
            class_spec: self.class_spec,
            ability_score: self.ability_score,
            season_level: self.season_level,
            season_strength: self.season_strength,
            attack_power: self.attack_power,
            defense_power: self.defense_power,
            endurance: self.endurance,
            dexterity: self.dexterity,
            attack_speed: self.attack_speed,
            haste: self.haste,
            lucky: self.lucky,
            monster_id: self.monster_id,
            curr_hp: self.curr_hp,
            max_hp: self.max_hp,
            time_series: copy_series(&self.time_series),
            last_sample_total_dmg: self.last_sample_total_dmg,
            skill_time_series: copy_skill_series(&self.skill_time_series),
            skill_last_sample_total_dmg: self.skill_last_sample_total_dmg.clone(),
        };
        assert(copy@ == self@);
        copy
    }

    /// Forgets what the entity did. What is known of it stays.
    pub fn clear_stats(&mut self)
        ensures
            final(self)@ == cleared_entity(old(self)@),
    {
        self.dmg_stats = CombatStats::default();
        self.dmg_stats_boss_only = CombatStats::default();
        self.heal_stats = CombatStats::default();
        self.dmg_taken_stats = CombatStats::default();
        self.skill_uid_to_dps_stats.clear();
        self.skill_uid_to_dps_stats_boss_only.clear();
        self.skill_uid_to_heal_stats.clear();
        self.skill_meta.clear();
        self.attacker_uid_to_dmg_taken_stats.clear();
        self.attacker_skill_to_dmg_taken_stats.clear();
        self.time_series.clear();
        self.last_sample_total_dmg = 0;
        self.skill_time_series.clear();
        self.skill_last_sample_total_dmg.clear();
        assert(self@.skill_series =~= Map::<i32, Seq<TimeSeriesPoint>>::empty());
        assert(self@.series =~= Seq::<TimeSeriesPoint>::empty());
        assert(self@ == cleared_entity(old(self)@));
    }
}

/// An entity that did nothing yet.
pub open spec fn cleared_entity(e: EntityView) -> EntityView {
    EntityView {
        profile: e.profile,
        monster_id: e.monster_id,
        ..empty_entity(e.entity_type)
    }
}

/// An attacker and a skill as one number.
pub open spec fn pair_key(attacker: i64, skill: i32) -> i128 {
    (attacker * 0x1_0000_0000 + skill + 0x8000_0000) as i128
}

/// An attacker and a skill as one number.
pub fn pair_key_of(attacker: i64, skill: i32) -> (key: i128)
    ensures
        key == pair_key(attacker, skill),
        key == attacker * 0x1_0000_0000 + skill + 0x8000_0000,
{
    attacker as i128 * 0x1_0000_0000 + skill as i128 + 0x8000_0000
}

/// The attacker in such a number.
pub open spec fn key_attacker(key: i128) -> int {
    key as int / 0x1_0000_0000
}

/// The skill in such a number.
pub open spec fn key_skill(key: i128) -> int {
    key as int % 0x1_0000_0000 - 0x8000_0000
}

/// The number tells attacker and skill.
pub proof fn law_pair_key_round_trip(attacker: i64, skill: i32)
    ensures
        key_attacker(pair_key(attacker, skill)) == attacker,
        key_skill(pair_key(attacker, skill)) == skill,
{
    vstd::arithmetic::div_mod::lemma_fundamental_div_mod_converse(
        attacker * 0x1_0000_0000 + skill + 0x8000_0000,
        0x1_0000_0000,
        attacker as int,
        skill + 0x8000_0000,
    );
}

} // verus!
