//! Names of bosses.

use std::collections::HashMap;
use vstd::prelude::*;
use vstd::std_specs::hash::*;

verus! {

/// Whether a monster is among the bosses `names`.
pub fn is_boss(names: &HashMap<u32, String>, monster_id: u32) -> (b: bool)
    ensures
        b == names@.contains_key(monster_id),
{
    broadcast use group_hash_axioms;

    names.contains_key(&monster_id)
}

/// The name of a boss.
pub fn get_boss_name(names: &HashMap<u32, String>, monster_id: u32) -> (name: Option<&str>)
    ensures
        name is Some <==> names@.contains_key(monster_id),
        name matches Some(n) ==> n@ == names@[monster_id]@,
{
    broadcast use group_hash_axioms;

    match names.get(&monster_id) {
        Some(name) => Some(name.as_str()),
        None => None,
    }
}

} // verus!
