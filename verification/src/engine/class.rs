//! Classes of characters.

use std::collections::HashMap;
use vstd::prelude::*;
use vstd::std_specs::hash::*;

verus! {

/// The class of a character.
#[derive(Debug, Clone, Copy, PartialEq, Eq, Structural)]
pub enum Class {
    Unknown,
    Unimplemented,
    /// A class of the game, by its number.
    Known(i32),
}

/// How a character plays its class.
#[derive(Debug, Clone, Copy, PartialEq, Eq, Structural)]
pub enum ClassSpec {
    Unknown,
    /// A way of the game, by its number.
    Known(i32),
}

/// What is known of classes.
pub struct ClassTable {
    /// The class of each profession number; other numbers stand for `other`.
    pub professions: HashMap<i32, Class>,
    pub other: Class,
    /// The ways that can be told from a skill.
    pub skill_specs: HashMap<i32, ClassSpec>,
    /// The class of each way.
    pub spec_classes: HashMap<i32, Class>,
}

impl ClassTable {
    /// The class of a profession number.
    pub open spec fn class_of(self, id: i32) -> Class {
        if self.professions@.contains_key(id) {
            self.professions@[id]
        } else {
            self.other
        }
    }

    /// The way that a skill tells.
    pub open spec fn spec_of(self, skill: i32) -> ClassSpec {
        if self.skill_specs@.contains_key(skill) {
            self.skill_specs@[skill]
        } else {
            ClassSpec::Unknown
        }
    }

    /// The class of a way.
    pub open spec fn class_of_spec(self, spec: ClassSpec) -> Class {
        match spec {
            ClassSpec::Unknown => Class::Unknown,
            ClassSpec::Known(id) => if self.spec_classes@.contains_key(id) {
                self.spec_classes@[id]
            } else {
                Class::Unknown
            },
        }
    }

    /// The class of a profession number.
    pub fn class_from_id(&self, id: i32) -> (class: Class)
        ensures
            class == self.class_of(id),
    {
        broadcast use group_hash_axioms;

        match self.professions.get(&id) {
            Some(class) => *class,
            None => self.other,
        }
    }

    /// The way that a skill tells.
    pub fn spec_from_skill(&self, skill: i32) -> (spec: ClassSpec)
        ensures
            spec == self.spec_of(skill),
    {
        broadcast use group_hash_axioms;

        match self.skill_specs.get(&skill) {
            Some(spec) => *spec,
            None => ClassSpec::Unknown,
        }
    }

    /// The class of a way.
    pub fn class_from_spec(&self, spec: ClassSpec) -> (class: Class)
        ensures
            class == self.class_of_spec(spec),
    {
        broadcast use group_hash_axioms;

        match spec {
            ClassSpec::Unknown => Class::Unknown,
            ClassSpec::Known(id) => {
                match self.spec_classes.get(&id) {
                    Some(class) => *class,
                    None => Class::Unknown,
                }
            },
        }
    }
}

} // verus!
