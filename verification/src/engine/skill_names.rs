//! Names of skills.

use crate::text::{append_decimal, decimal};
use std::collections::HashMap;
use vstd::prelude::*;
use vstd::std_specs::hash::*;
use vstd::string::*;

verus! {

/// The name of a skill among `names`, or one that tells its number.
pub open spec fn skill_name(names: Map<i32, String>, id: i32) -> Seq<char> {
    if names.contains_key(id) {
        names[id]@
    } else {
        "不明な技 ("@ + decimal(id as int) + ")"@
    }
}

/// The name of a skill among `names`, or one that tells its number.
pub fn get_skill_name(names: &HashMap<i32, String>, id: i32) -> (name: String)
    ensures
        name@ == skill_name(names@, id),
{
    broadcast use group_hash_axioms;

    match names.get(&id) {
        Some(name) => name.clone(),
        None => {
            let mut name: String = String::from_str("不明な技 (");
            append_decimal(&mut name, id as i64);
            name.append(")");
            name
        },
    }
}

} // verus!
