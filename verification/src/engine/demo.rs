//! Made-up fights, to look at without playing.

use crate::engine::buff_state::BuffStateSnapshot;
use crate::engine::damage::uid_of;
use crate::engine::encounter::{Encounter, EncounterView};
use crate::engine::entity::{empty_entity, Entity, EntityView, Profile};
use crate::protocol::messages::{kind_of, DamageRecord, DmgKind, EntityKind, SceneDelta};
use vstd::prelude::*;
use vstd::std_specs::hash::*;

verus! {

/// The kind of players in the number of an entity.
pub const PLAYER_TYPE: i64 = 640;

/// The kind of monsters in the number of an entity.
pub const MONSTER_TYPE: i64 = 64;

/// The own character.
pub const SELF_UID: i64 = 90001;

pub const BOSS_UID: i64 = 80001;

/// A training dummy.
pub const BOSS_MONSTER_ID: u32 = 118;

pub const BOSS_HP: u64 = 8_000_000_000;

/// The number of the class that is told from its first healing skill.
pub const PERFORMER_CLASS: i32 = 13;

/// An effect that lasts no longer than this is renewed.
pub const RENEW_BELOW_MS: i64 = 500;

/// The number of a player as an entity.
pub fn player_uuid(uid: i64) -> (uuid: i64)
    requires
        -0x8000_0000_0000 <= uid < 0x8000_0000_0000,
    ensures
        uuid == uid * 0x1_0000 + PLAYER_TYPE,
{
    uid * 0x1_0000 + PLAYER_TYPE
}

/// The number of the boss as an entity.
pub fn boss_uuid() -> (uuid: i64)
    ensures
        uuid == BOSS_UID * 0x1_0000 + MONSTER_TYPE,
{
    BOSS_UID * 0x1_0000 + MONSTER_TYPE
}

/// The number of an entity tells the player, or the monster.
pub proof fn law_uuid_round_trip(uid: i64)
    requires
        -0x8000_0000_0000 <= uid < 0x8000_0000_0000,
    ensures
        uid_of((uid * 0x1_0000 + PLAYER_TYPE) as i64) == uid,
        kind_of((uid * 0x1_0000 + PLAYER_TYPE) as i64) == EntityKind::Player,
        uid_of((uid * 0x1_0000 + MONSTER_TYPE) as i64) == uid,
        kind_of((uid * 0x1_0000 + MONSTER_TYPE) as i64) == EntityKind::Monster,
{
    vstd::arithmetic::div_mod::lemma_fundamental_div_mod_converse(
        uid * 0x1_0000 + PLAYER_TYPE,
        0x1_0000,
        uid as int,
        PLAYER_TYPE as int,
    );
    vstd::arithmetic::div_mod::lemma_fundamental_div_mod_converse(
        uid * 0x1_0000 + MONSTER_TYPE,
        0x1_0000,
        uid as int,
        MONSTER_TYPE as int,
    );
}

/// The number after `x`.
pub open spec fn scrambled(x: u64) -> u64 {
    let a = x ^ (x << 13);
    let b = a ^ (a >> 7);
    b ^ (b << 17)
}

/// Numbers that look like chance.
#[derive(Debug, Clone, Copy, PartialEq, Eq, Structural)]
pub struct Rng {
    pub state: u64,
}

impl Rng {
    /// Numbers that begin with a seed, which is made odd.
    pub fn new(seed: u64) -> (r: Rng)
        ensures
            r.state == seed | 1,
            r.state != 0,
    {
        assert(seed | 1 != 0) by (bit_vector);
        Rng { state: seed | 1 }
    }

    /// The next number.
    pub fn next(&mut self) -> (x: u64)
        ensures
            x == scrambled(old(self).state),
            final(self).state == x,
    {
        let mut x: u64 = self.state;
        x = x ^ (x << 13);
        x = x ^ (x >> 7);
        x = x ^ (x << 17);
        self.state = x;
        x
    }
}

/// The numbers never stick at 0, and different ones have different successors.
pub proof fn law_numbers_do_not_stick(x: u64, y: u64)
    ensures
        x != 0 ==> scrambled(x) != 0,
        x != y ==> scrambled(x) != scrambled(y),
{
    let x1 = x ^ (x << 13);
    let y1 = y ^ (y << 13);
    let x2 = x1 ^ (x1 >> 7);
    let y2 = y1 ^ (y1 >> 7);
    let x3 = x2 ^ (x2 << 17);
    let y3 = y2 ^ (y2 << 17);
    assert(x != y ==> x ^ (x << 13) != y ^ (y << 13)) by (bit_vector);
    assert(x1 != y1 ==> x1 ^ (x1 >> 7) != y1 ^ (y1 >> 7)) by (bit_vector);
    assert(x2 != y2 ==> x2 ^ (x2 << 17) != y2 ^ (y2 << 17)) by (bit_vector);
    assert(x != 0 ==> x ^ (x << 13) != 0) by (bit_vector);
    assert(x1 != 0 ==> x1 ^ (x1 >> 7) != 0) by (bit_vector);
    assert(x2 != 0 ==> x2 ^ (x2 << 17) != 0) by (bit_vector);
}

/// A hit.
pub open spec fn demo_record(
    attacker_uuid: i64,
    skill: i32,
    value: i64,
    crit: bool,
    lucky: bool,
    heal: bool,
) -> DamageRecord {
    DamageRecord {
        is_miss: false,
        kind: if heal {
            DmgKind::Heal
        } else {
            DmgKind::Normal
        },
        type_flag: if crit {
            1
        } else {
            0
        },
        value,
        lucky_value: if lucky {
            value
        } else {
            0
        },
        hp_lessen_value: value,
        attacker_uuid,
        owner_id: skill,
        is_dead: false,
        property: 0,
        top_summoner_id: 0,
        damage_mode: 0,
    }
}

/// A hit.
pub fn make_record(
    attacker_uuid: i64,
    skill: i32,
    value: i64,
    crit: bool,
    lucky: bool,
    heal: bool,
) -> (d: DamageRecord)
    ensures
        d == demo_record(attacker_uuid, skill, value, crit, lucky, heal),
{
    DamageRecord {
        is_miss: false,
        kind: if heal {
            DmgKind::Heal
        } else {
            DmgKind::Normal
        },
        type_flag: if crit {
            1
        } else {
            0
        },
        value,
        lucky_value: if lucky {
            value
        } else {
            0
        },
        hp_lessen_value: value,
        attacker_uuid,
        owner_id: skill,
        is_dead: false,
        property: 0,
        top_summoner_id: 0,
        damage_mode: 0,
    }
}

/// A change that is nothing but hits on an entity.
pub fn hits_on(uuid: i64, hits: Vec<DamageRecord>) -> (d: SceneDelta)
    ensures
        d.uuid == uuid,
        d.attrs is None,
        d.buff_list is None,
        d.damages == Some(hits),
{
    SceneDelta { uuid, attrs: None, buff_list: None, damages: Some(hits) }
}

/// The skill that tells the way of a player, and whether it heals: the first attack, but the first
/// healing skill where there is no attack or where the class is told from it.
pub open spec fn telling_skill(
    class_id: i32,
    attack: Option<i32>,
    heal: Option<i32>,
) -> Option<(i32, bool)> {
    match (attack, heal) {
        (None, None) => None,
        (Some(a), None) => Some((a, false)),
        (None, Some(h)) => Some((h, true)),
        (Some(a), Some(h)) => if class_id == PERFORMER_CLASS {
            Some((h, true))
        } else {
            Some((a, false))
        },
    }
}

/// The first hit of a player, of size 1: on itself where it heals, else on the boss.
pub fn first_hit(
    uid: i64,
    class_id: i32,
    attack: Option<i32>,
    heal: Option<i32>,
) -> (d: Option<SceneDelta>)
    requires
        -0x8000_0000_0000 <= uid < 0x8000_0000_0000,
    ensures
        match telling_skill(class_id, attack, heal) {
            None => d is None,
            Some(t) => d is Some && ({
                let x = d->Some_0;
                let own = (uid * 0x1_0000 + PLAYER_TYPE) as i64;
                &&& x.uuid == if t.1 {
                    own as int
                } else {
                    BOSS_UID * 0x1_0000 + MONSTER_TYPE
                }
                &&& x.attrs is None
                &&& x.buff_list is None
                &&& x.damages is Some
                &&& x.damages->Some_0@ =~= seq![demo_record(own, t.0, 1, false, false, t.1)]
            }),
        },
{
    let own: i64 = player_uuid(uid);
    let told: (i32, bool) = match (attack, heal) {
        (None, None) => {
            return None;
        },
        (Some(a), None) => (a, false),
        (None, Some(h)) => (h, true),
        (Some(a), Some(h)) => if class_id == PERFORMER_CLASS {
            (h, true)
        } else {
            (a, false)
        },
    };
    let target: i64 = if told.1 {
        own
    } else {
        boss_uuid()
    };
    let mut hits: Vec<DamageRecord> = Vec::new();
    hits.push(make_record(own, told.0, 1, false, false, told.1));
    Some(hits_on(target, hits))
}

/// Whether an effect need not be renewed.
pub fn is_alive(snaps: &Vec<BuffStateSnapshot>, base_id: i32) -> (b: bool)
    ensures
        b == exists|i: int|
            0 <= i < snaps@.len() && (#[trigger] snaps@[i]).base_id == base_id
                && snaps@[i].remaining_ms > RENEW_BELOW_MS,
{
    let n: usize = snaps.len();
    for i in 0..n
        invariant
            n == snaps@.len(),
            forall|j: int|
                0 <= j < i ==> !((#[trigger] snaps@[j]).base_id == base_id && snaps@[j].remaining_ms
                    > RENEW_BELOW_MS),
    {
        if snaps[i].base_id == base_id && snaps[i].remaining_ms > RENEW_BELOW_MS {
            assert(snaps@[i as int].base_id == base_id);
            return true;
        }
    }
    false
}

/// The boss.
pub open spec fn demo_boss() -> EntityView {
    let e = empty_entity(EntityKind::Monster);
    EntityView {
        monster_id: Some(BOSS_MONSTER_ID),
        profile: Profile { curr_hp: Some(BOSS_HP), max_hp: Some(BOSS_HP), ..e.profile },
        ..e
    }
}

/// Sets the stage: the own character is known, and the boss is there.
pub fn set_stage(encounter: &mut Encounter)
    ensures
        final(encounter)@ == (EncounterView {
            local_uid: SELF_UID,
            entities: if old(encounter)@.entities.contains_key(BOSS_UID) {
                old(encounter)@.entities
            } else {
                old(encounter)@.entities.insert(BOSS_UID, demo_boss())
            },
            ..old(encounter)@
        }),
{
    broadcast use group_hash_axioms;

    encounter.local_player_uid = SELF_UID;
    let ghost before = encounter@.entities;
    if !encounter.entities.contains_key(&BOSS_UID) {
        let mut boss = Entity::new(EntityKind::Monster);
        boss.monster_id = Some(BOSS_MONSTER_ID);
        boss.curr_hp = Some(BOSS_HP);
        boss.max_hp = Some(BOSS_HP);
        encounter.entities.insert(BOSS_UID, boss);
        assert(encounter@.entities =~= before.insert(BOSS_UID, demo_boss()));
    }
}

} // verus!
