//! What the processing of messages goes by.

use crate::engine::class::ClassTable;
use crate::engine::runtime_settings::RuntimeSettings;
use std::collections::HashMap;
use vstd::prelude::*;

verus! {

/// Settings and tables.
pub struct Rules {
    pub settings: RuntimeSettings,
    /// The character that the user chose.
    pub selected: Option<i64>,
    /// The bosses with their names.
    pub boss_names: HashMap<u32, String>,
    pub skill_names: HashMap<i32, String>,
    pub classes: ClassTable,
}

impl Rules {
    /// Whether a monster is a boss.
    pub open spec fn is_boss(self, monster_id: u32) -> bool {
        self.boss_names@.contains_key(monster_id)
    }
}

} // verus!
