//! What the attributes of an entity tell.

use crate::capture::binary_reader::copy_range;
use crate::engine::class::ClassTable;
use crate::engine::entity::{Entity, EntityView, Profile};
use crate::engine::name_cache::{
    learned, no_update, remembered, CachedView, NameCache, NameUpdate, UpdateView,
};
use crate::protocol::constants::{
    ATTR_ATTACK_POWER, ATTR_ATTACK_SPEED, ATTR_DEFENSE_POWER, ATTR_DEXTERITY, ATTR_ENDURANCE,
    ATTR_FIGHT_POINT, ATTR_HASTE, ATTR_HP, ATTR_ID, ATTR_LUCKY, ATTR_MAX_HP, ATTR_NAME,
    ATTR_PROFESSION_ID, ATTR_SEASON_LEVEL, ATTR_SEASON_STRENGTH,
};
use crate::protocol::decoding::{
    decode_protobuf_int32, decode_protobuf_int64, decode_text, int32_in, int64_in,
};
use crate::protocol::messages::RawAttr;
use vstd::prelude::*;
use vstd::utf8::{decode_utf8, valid_utf8};

verus! {

/// What one attribute tells of a character, and what of it is remembered.
pub open spec fn player_attr(
    p: Profile,
    u: UpdateView,
    id: i32,
    raw: Seq<u8>,
    classes: ClassTable,
) -> (Profile, UpdateView) {
    if raw.len() == 0 || id == 0 {
        (p, u)
    } else if id == ATTR_NAME {
        if valid_utf8(raw.skip(1)) {
            let name = Some(decode_utf8(raw.skip(1)));
            (Profile { name, ..p }, UpdateView { name, ..u })
        } else {
            (p, u)
        }
    } else if id == ATTR_PROFESSION_ID {
        match int32_in(raw) {
            Some(v) => (
                Profile { class: Some(classes.class_of(v)), ..p },
                UpdateView { class_id: Some(v), ..u },
            ),
            None => (p, u),
        }
    } else if id == ATTR_FIGHT_POINT {
        match int32_in(raw) {
            Some(v) => (
                Profile { ability_score: Some(v), ..p },
                UpdateView { ability_score: Some(v), ..u },
            ),
            None => (p, u),
        }
    } else if id == ATTR_SEASON_LEVEL {
        match int32_in(raw) {
            Some(v) => (
                Profile { season_level: Some(v), ..p },
                UpdateView { season_level: Some(v), ..u },
            ),
            None => (p, u),
        }
    } else if id == ATTR_SEASON_STRENGTH {
        match int32_in(raw) {
            Some(v) => (
                Profile { season_strength: Some(v), ..p },
                UpdateView { season_strength: Some(v), ..u },
            ),
            None => (p, u),
        }
    } else if id == ATTR_HP {
        match int64_in(raw) {
            Some(v) => if v >= 0 {
                (Profile { curr_hp: Some(v as u64), ..p }, u)
            } else {
                (p, u)
            },
            None => (p, u),
        }
    } else if id == ATTR_MAX_HP {
        match int64_in(raw) {
            Some(v) => if v >= 0 {
                (Profile { max_hp: Some(v as u64), ..p }, u)
            } else {
                (p, u)
            },
            None => (p, u),
        }
    } else if id == ATTR_ATTACK_POWER {
        match int32_in(raw) {
            Some(v) => (Profile { attack_power: Some(v), ..p }, u),
            None => (p, u),
        }
    } else if id == ATTR_DEFENSE_POWER {
        match int32_in(raw) {
            Some(v) => (Profile { defense_power: Some(v), ..p }, u),
            None => (p, u),
        }
    } else if id == ATTR_ENDURANCE {
        match int32_in(raw) {
            Some(v) => (Profile { endurance: Some(v), ..p }, u),
            None => (p, u),
        }
    } else if id == ATTR_DEXTERITY {
        match int32_in(raw) {
            Some(v) => (Profile { dexterity: Some(v), ..p }, u),
            None => (p, u),
        }
    } else if id == ATTR_ATTACK_SPEED {
        match int32_in(raw) {
            Some(v) => (Profile { attack_speed: Some(v), ..p }, u),
            None => (p, u),
        }
    } else if id == ATTR_HASTE {
        match int32_in(raw) {
            Some(v) => (Profile { haste: Some(v), ..p }, u),
            None => (p, u),
        }
    } else if id == ATTR_LUCKY {
        match int32_in(raw) {
            Some(v) => (Profile { lucky: Some(v), ..p }, u),
            None => (p, u),
        }
    } else {
        (p, u)
    }
}

/// What a list of attributes tells of a character.
pub open spec fn player_attrs(p: Profile, attrs: Seq<RawAttr>, classes: ClassTable) -> (
    Profile,
    UpdateView,
)
    decreases attrs.len(),
{
    if attrs.len() == 0 {
        (p, no_update())
    } else {
        let before = player_attrs(p, attrs.drop_last(), classes);
        player_attr(before.0, before.1, attrs.last().id, attrs.last().raw_data@, classes)
    }
}

/// The characters remembered after `u` was learned of one.
pub open spec fn names_after(names: Map<i64, CachedView>, uid: i64, u: UpdateView) -> Map<
    i64,
    CachedView,
> {
    if u == no_update() {
        names
    } else {
        names.insert(uid, learned(remembered(names, uid), u))
    }
}

/// What one attribute tells of a monster.
pub open spec fn monster_attr(e: EntityView, id: i32, raw: Seq<u8>) -> EntityView {
    if raw.len() == 0 || id == 0 {
        e
    } else if id == ATTR_ID {
        match int32_in(raw) {
            Some(v) => if v >= 0 {
                EntityView { monster_id: Some(v as u32), ..e }
            } else {
                e
            },
            None => e,
        }
    } else if id == ATTR_HP {
        match int64_in(raw) {
            Some(v) => if v >= 0 {
                EntityView { profile: Profile { curr_hp: Some(v as u64), ..e.profile }, ..e }
            } else {
                e
            },
            None => e,
        }
    } else if id == ATTR_MAX_HP {
        match int64_in(raw) {
            Some(v) => if v >= 0 {
                EntityView { profile: Profile { max_hp: Some(v as u64), ..e.profile }, ..e }
            } else {
                e
            },
            None => e,
        }
    } else {
        e
    }
}

/// What a list of attributes tells of a monster.
pub open spec fn monster_attrs(e: EntityView, attrs: Seq<RawAttr>) -> EntityView
    decreases attrs.len(),
{
    if attrs.len() == 0 {
        e
    } else {
        monster_attr(
            monster_attrs(e, attrs.drop_last()),
            attrs.last().id,
            attrs.last().raw_data@,
        )
    }
}

/// Takes one attribute of a character in.
fn apply_player_attr(
    e: &mut Entity,
    update: &mut NameUpdate,
    id: i32,
    raw: &[u8],
    classes: &ClassTable,
)
    ensures
        ({
            let r = player_attr(old(e)@.profile, old(update)@, id, raw@, *classes);
            final(e)@ == (EntityView { profile: r.0, ..old(e)@ }) && final(update)@ == r.1
        }),
{
    if raw.len() == 0 || id == 0 {
        return;
    }
    if id == ATTR_NAME {
        let bytes: Vec<u8> = copy_range(raw, 1, raw.len());
        assert(bytes@ =~= raw@.skip(1));
        if let Ok(name) = decode_text(bytes) {
            update.name = Some(name.clone());
            e.name = Some(name);
        }
    } else if id == ATTR_PROFESSION_ID {
        if let Ok(v) = decode_protobuf_int32(raw) {
            e.class = Some(classes.class_from_id(v));
            update.class_id = Some(v);
        }
    } else if id == ATTR_FIGHT_POINT {
        if let Ok(v) = decode_protobuf_int32(raw) {
            e.ability_score = Some(v);
            update.ability_score = Some(v);
        }
    } else if id == ATTR_SEASON_LEVEL {
        if let Ok(v) = decode_protobuf_int32(raw) {
            e.season_level = Some(v);
            update.season_level = Some(v);
        }
    } else if id == ATTR_SEASON_STRENGTH {
        if let Ok(v) = decode_protobuf_int32(raw) {
            e.season_strength = Some(v);
            update.season_strength = Some(v);
        }
    } else if id == ATTR_HP {
        if let Ok(v) = decode_protobuf_int64(raw) {
            if v >= 0 {
                e.curr_hp = Some(v as u64);
            }
        }
    } else if id == ATTR_MAX_HP {
        if let Ok(v) = decode_protobuf_int64(raw) {
            if v >= 0 {
                e.max_hp = Some(v as u64);
            }
        }
    } else if id == ATTR_ATTACK_POWER {
        if let Ok(v) = decode_protobuf_int32(raw) {
            e.attack_power = Some(v);
        }
    } else if id == ATTR_DEFENSE_POWER {
        if let Ok(v) = decode_protobuf_int32(raw) {
            e.defense_power = Some(v);
        }
    } else if id == ATTR_ENDURANCE {
        if let Ok(v) = decode_protobuf_int32(raw) {
            e.endurance = Some(v);
        }
    } else if id == ATTR_DEXTERITY {
        if let Ok(v) = decode_protobuf_int32(raw) {
            e.dexterity = Some(v);
        }
    } else if id == ATTR_ATTACK_SPEED {
        if let Ok(v) = decode_protobuf_int32(raw) {
            e.attack_speed = Some(v);
        }
    } else if id == ATTR_HASTE {
        if let Ok(v) = decode_protobuf_int32(raw) {
            e.haste = Some(v);
        }
    } else if id == ATTR_LUCKY {
        if let Ok(v) = decode_protobuf_int32(raw) {
            e.lucky = Some(v);
        }
    }
}

/// Takes the attributes of a character in, and remembers what is remembered of characters.
pub fn process_player_attrs(
    uid: i64,
    player_entity: &mut Entity,
    attrs: &Vec<RawAttr>,
    names: &mut NameCache,
    classes: &ClassTable,
)
    ensures
        ({
            let r = player_attrs(old(player_entity)@.profile, attrs@, *classes);
            final(player_entity)@ == (EntityView { profile: r.0, ..old(player_entity)@ }) && final(
                names)@ == names_after(old(names)@, uid, r.1)
        }),
{
    let ghost start = player_entity@;
    let mut update = NameUpdate {
        name: None,
        class_id: None,
        ability_score: None,
        season_level: None,
        season_strength: None,
    };
    let mut i: usize = 0;
    assert(attrs@.take(0) =~= Seq::<RawAttr>::empty());
    while i < attrs.len()
        invariant
            i <= attrs@.len(),
            start == old(player_entity)@,
            ({
                let r = player_attrs(start.profile, attrs@.take(i as int), *classes);
                player_entity@ == (EntityView { profile: r.0, ..start }) && update@ == r.1
            }),
        decreases attrs@.len() - i,
    {
        proof {
            let next = attrs@.take(i + 1);
            assert(next.drop_last() =~= attrs@.take(i as int));
            assert(next.last() == attrs@[i as int]);
        }
        apply_player_attr(
            player_entity,
            &mut update,
            attrs[i].id,
            attrs[i].raw_data.as_slice(),
            classes,
        );
        i += 1;
    }
    assert(attrs@.take(i as int) =~= attrs@);
    if update.name.is_some() || update.class_id.is_some() || update.ability_score.is_some()
        || update.season_level.is_some() || update.season_strength.is_some() {
        names.update(uid, update);
    }
}

/// Takes the attributes of a monster in.
pub fn process_monster_attrs(monster_entity: &mut Entity, attrs: &Vec<RawAttr>)
    ensures
        final(monster_entity)@ == monster_attrs(old(monster_entity)@, attrs@),
{
    let ghost start = monster_entity@;
    let mut i: usize = 0;
    assert(attrs@.take(0) =~= Seq::<RawAttr>::empty());
    while i < attrs.len()
        invariant
            i <= attrs@.len(),
            start == old(monster_entity)@,
            monster_entity@ == monster_attrs(start, attrs@.take(i as int)),
        decreases attrs@.len() - i,
    {
        proof {
            let next = attrs@.take(i + 1);
            assert(next.drop_last() =~= attrs@.take(i as int));
            assert(next.last() == attrs@[i as int]);
        }
        let id: i32 = attrs[i].id;
        let raw: &[u8] = attrs[i].raw_data.as_slice();
        if raw.len() != 0 && id != 0 {
            if id == ATTR_ID {
                if let Ok(v) = decode_protobuf_int32(raw) {
                    if v >= 0 {
                        monster_entity.monster_id = Some(v as u32);
                    }
                }
            } else if id == ATTR_HP {
                if let Ok(v) = decode_protobuf_int64(raw) {
                    if v >= 0 {
                        monster_entity.curr_hp = Some(v as u64);
                    }
                }
            } else if id == ATTR_MAX_HP {
                if let Ok(v) = decode_protobuf_int64(raw) {
                    if v >= 0 {
                        monster_entity.max_hp = Some(v as u64);
                    }
                }
            }
        }
        i += 1;
    }
    assert(attrs@.take(i as int) =~= attrs@);
}

} // verus!
