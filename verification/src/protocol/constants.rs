//! Numbers of the protocol.

use vstd::prelude::*;

verus! {

/// The service whose notifications are forwarded.
pub const SERVICE_UUID: u64 = 0x63335342;

/// The service of social notifications.
pub const SOCIAL_NTF_SERVICE_ID: u64 = 0x254C89A3;

/// The method of social notifications.
pub const SOCIAL_NTF_NOTIFY_METHOD_ID: u32 = 1;

/// Set in the type word of a frame whose content is compressed.
pub const COMPRESSION_FLAG: u16 = 0x8000;

/// The bits of the type word that hold the type.
pub const TYPE_MASK: u16 = 0x7FFF;

/// The type in the type word of a frame.
pub fn extract_type(packet_type: u16) -> (kind: u16)
    ensures
        kind == packet_type % 0x8000,
{
    assert(packet_type & 0x7FFF == packet_type % 0x8000) by (bit_vector);
    packet_type & TYPE_MASK
}

/// Whether the type word of a frame says that its content is compressed.
pub fn is_compressed(packet_type: u16) -> (b: bool)
    ensures
        b == (packet_type >= 0x8000),
{
    assert((packet_type & 0x8000 != 0) == (packet_type >= 0x8000)) by (bit_vector);
    packet_type & COMPRESSION_FLAG != 0
}

/// Where the signature of a scene server begins in a fragment.
pub const SERVER_SIGNATURE_OFFSET: usize = 5;

/// The signature of a scene server.
pub const SERVER_SIGNATURE: [u8; 6] = [0x00, 0x63, 0x33, 0x53, 0x42, 0x00];

/// The beginning of the answer to a login.
pub const LOGIN_RETURN_SIGNATURE_1: [u8; 10] = [
    0x00, 0x00, 0x00, 0x62, 0x00, 0x03, 0x00, 0x00, 0x00, 0x01,
];

/// What the answer to a login holds at its 15th byte.
pub const LOGIN_RETURN_SIGNATURE_2: [u8; 6] = [0x00, 0x00, 0x00, 0x00, 0x0a, 0x4e];

/// The length of the answer to a login.
pub const LOGIN_RETURN_SIGNATURE_SIZE: usize = 0x62;

/// The bits of an entity's number that tell its kind.
pub const ENTITY_TYPE_MASK: i64 = 0xFFFF;

/// The number of an entity without its kind.
pub fn get_player_uid(uuid: i64) -> (uid: i64)
    ensures
        uid == uuid as int / 0x1_0000,
{
    assert(uuid >> 16 == uuid / 0x1_0000) by (bit_vector);
    uuid >> 16
}

/// The attributes of an entity that are read.
pub const ATTR_NAME: i32 = 0x01;

pub const ATTR_ID: i32 = 0x0A;

pub const ATTR_HP: i32 = 0x2C2E;

pub const ATTR_MAX_HP: i32 = 0x2C38;

pub const ATTR_PROFESSION_ID: i32 = 0xDC;

pub const ATTR_FIGHT_POINT: i32 = 0x272E;

pub const ATTR_SEASON_LEVEL: i32 = 0x2756;

pub const ATTR_SEASON_STRENGTH: i32 = 0x2CB0;

pub const ATTR_POS: i32 = 0x34;

/// Attack power.
pub const ATTR_ATTACK_POWER: i32 = 0x32;

/// Defense power.
pub const ATTR_DEFENSE_POWER: i32 = 0x33;

/// Endurance.
pub const ATTR_ENDURANCE: i32 = 0x2B20;

/// Dexterity.
pub const ATTR_DEXTERITY: i32 = 0x2B84;

/// Attack speed, in hundredths of a percent.
pub const ATTR_ATTACK_SPEED: i32 = 0x2DC8;

/// Haste, in hundredths of a percent.
pub const ATTR_HASTE: i32 = 0x2E9A;

/// Luck, in hundredths of a percent.
pub const ATTR_LUCKY: i32 = 0x3188;

/// Set in the flags of a critical hit.
pub const CRIT_BIT: i32 = 1;

} // verus!
