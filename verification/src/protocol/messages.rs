//! Decoded messages, as far as they are used.

use crate::protocol::constants::ENTITY_TYPE_MASK;
use std::collections::HashMap;
use vstd::prelude::*;

verus! {

/// What an entity is.
#[derive(Debug, Clone, Copy, PartialEq, Eq, Structural)]
pub enum EntityKind {
    Unknown,
    Monster,
    Player,
}

/// What the number of an entity says it is: its low 16 bits tell.
pub open spec fn kind_of(uuid: i64) -> EntityKind {
    if uuid as int % 0x1_0000 == 64 {
        EntityKind::Monster
    } else if uuid as int % 0x1_0000 == 640 {
        EntityKind::Player
    } else {
        EntityKind::Unknown
    }
}

impl From<i64> for EntityKind {
    fn from(uuid: i64) -> (kind: EntityKind) {
        assert(uuid & 0xFFFF == uuid % 0x1_0000) by (bit_vector);
        match uuid & ENTITY_TYPE_MASK {
            64 => EntityKind::Monster,
            640 => EntityKind::Player,
            _ => EntityKind::Unknown,
        }
    }
}

impl vstd::std_specs::convert::FromSpecImpl<i64> for EntityKind {
    open spec fn obeys_from_spec() -> bool {
        true
    }

    open spec fn from_spec(uuid: i64) -> EntityKind {
        kind_of(uuid)
    }
}

/// What a hit does.
#[derive(Debug, Clone, Copy, PartialEq, Eq, Structural)]
pub enum DmgKind {
    Normal,
    Heal,
    Other,
}

/// A hit.
#[derive(Debug, Clone, Copy, PartialEq, Eq, Structural)]
pub struct DamageRecord {
    pub is_miss: bool,
    pub kind: DmgKind,
    pub type_flag: i32,
    pub value: i64,
    pub lucky_value: i64,
    pub hp_lessen_value: i64,
    pub attacker_uuid: i64,
    pub owner_id: i32,
    pub is_dead: bool,
    pub property: i32,
    pub top_summoner_id: i64,
    pub damage_mode: i32,
}

/// An attribute of an entity, not decoded.
#[derive(Debug, Clone)]
pub struct RawAttr {
    pub id: i32,
    pub raw_data: Vec<u8>,
}

/// What an event of an effect is about: its kind and its content, not decoded.
#[derive(Debug, Clone)]
pub struct BuffPayload {
    pub buff_type: i32,
    pub detail_raw: Vec<u8>,
}

/// An event of an effect on a player. The payload is `None` where there is none or where it cannot
/// be read.
#[derive(Debug, Clone)]
pub struct BuffEvent {
    pub buff_uuid: i32,
    pub event_type: i32,
    pub payload: Option<BuffPayload>,
}

/// What changed for an entity.
#[derive(Debug, Clone)]
pub struct SceneDelta {
    pub uuid: i64,
    pub attrs: Option<Vec<RawAttr>>,
    pub buff_list: Option<Vec<BuffEvent>>,
    /// The hits that it took, where there is a list of them.
    pub damages: Option<Vec<DamageRecord>>,
}

/// An entity that appears.
#[derive(Debug, Clone)]
pub struct AppearEntity {
    pub uuid: i64,
    pub attrs: Option<Vec<RawAttr>>,
}

/// What changed for the own character.
#[derive(Debug, Clone)]
pub struct LocalDelta {
    /// Effects on it, not decoded.
    pub effects: Vec<Vec<u8>>,
    pub base_delta: Option<SceneDelta>,
}

/// A message, decoded as far as it is used.
#[derive(Debug, Clone)]
pub enum Message {
    ServerHandover,
    SocialEnvelope,
    WorldEntityBatch(Vec<AppearEntity>),
    WorldEnterSnapshot(Option<PlayerSnapshot>),
    LocalDeltaBatch(Option<LocalDelta>),
    WorldDeltaBatch(Vec<SceneDelta>),
    /// An update of an effect, not decoded.
    BuffTick(Vec<u8>),
    /// Effects, not decoded.
    BuffSnapshotBundle(Vec<Vec<u8>>),
    /// The message could not be decoded.
    Unreadable,
}

/// An item in a bag.
#[derive(Debug, Clone)]
pub struct Item {
    pub uuid: i64,
    pub config_id: i32,
    pub quality: i32,
    /// The attributes of a module, `None` for items that carry no module data.
    pub mod_parts: Option<Vec<i32>>,
}

/// A bag: its items with their keys, in the order in which they were received.
#[derive(Debug, Clone)]
pub struct Package {
    pub items: Vec<(i64, Item)>,
}

/// The name and score of a character.
#[derive(Debug, Clone)]
pub struct CharBase {
    pub name: String,
    pub fight_point: i32,
}

/// Everything about the own character that a world sends on entering it.
#[derive(Debug, Clone)]
pub struct PlayerSnapshot {
    pub char_id: i64,
    pub char_base: Option<CharBase>,
    /// The current profession, where professions were sent.
    pub cur_profession_id: Option<i32>,
    /// The bags, where they were sent.
    pub packages: Option<Vec<Package>>,
    /// The attribute values of each module by item key, where they were sent.
    pub mod_infos: Option<HashMap<i64, Vec<i32>>>,
}

} // verus!
