//! What is remembered of characters between encounters.

use crate::engine::class::ClassTable;
use crate::engine::entity::{empty_entity, text_view, Entity, EntityView, Profile};
use crate::engine::walk::{key_list, lemma_next_key};
use crate::protocol::messages::EntityKind;
use std::collections::HashMap;
use vstd::prelude::*;
use vstd::std_specs::hash::*;

verus! {

/// What is remembered of a character.
#[derive(Debug)]
pub struct CachedName {
    pub name: String,
    pub class_id: Option<i32>,
    pub ability_score: Option<i32>,
    pub season_level: Option<i32>,
    pub season_strength: Option<i32>,
}

pub struct CachedView {
    pub name: Seq<char>,
    pub class_id: Option<i32>,
    pub ability_score: Option<i32>,
    pub season_level: Option<i32>,
    pub season_strength: Option<i32>,
}

impl View for CachedName {
    type V = CachedView;

    open spec fn view(&self) -> CachedView {
        CachedView {
            name: self.name@,
            class_id: self.class_id,
            ability_score: self.ability_score,
            season_level: self.season_level,
            season_strength: self.season_strength,
        }
    }
}

/// What was learned of a character.
pub struct NameUpdate {
    pub name: Option<String>,
    pub class_id: Option<i32>,
    pub ability_score: Option<i32>,
    pub season_level: Option<i32>,
    pub season_strength: Option<i32>,
}

pub struct UpdateView {
    pub name: Option<Seq<char>>,
    pub class_id: Option<i32>,
    pub ability_score: Option<i32>,
    pub season_level: Option<i32>,
    pub season_strength: Option<i32>,
}

impl View for NameUpdate {
    type V = UpdateView;

    open spec fn view(&self) -> UpdateView {
        UpdateView {
            name: text_view(self.name),
            class_id: self.class_id,
            ability_score: self.ability_score,
            season_level: self.season_level,
            season_strength: self.season_strength,
        }
    }
}

/// Nothing was learned.
pub open spec fn no_update() -> UpdateView {
    UpdateView {
        name: None,
        class_id: None,
        ability_score: None,
        season_level: None,
        season_strength: None,
    }
}

/// The characters that are remembered.
pub open spec fn cache_view(m: Map<i64, CachedName>) -> Map<i64, CachedView> {
    m.map_values(|c: CachedName| c@)
}

/// One value over another, where it is there.
pub open spec fn over<T>(new: Option<T>, before: Option<T>) -> Option<T> {
    match new {
        Some(v) => Some(v),
        None => before,
    }
}

/// What is remembered of a character after something was learned.
pub open spec fn learned(before: Option<CachedView>, u: UpdateView) -> CachedView {
    let b = match before {
        Some(c) => c,
        None => CachedView {
            name: Seq::empty(),
            class_id: None,
            ability_score: None,
            season_level: None,
            season_strength: None,
        },
    };
    CachedView {
        name: match u.name {
            Some(n) => n,
            None => b.name,
        },
        class_id: over(u.class_id, b.class_id),
        ability_score: over(u.ability_score, b.ability_score),
        season_level: over(u.season_level, b.season_level),
        season_strength: over(u.season_strength, b.season_strength),
    }
}

/// What is remembered of a character.
pub open spec fn remembered(names: Map<i64, CachedView>, uid: i64) -> Option<CachedView> {
    if names.contains_key(uid) {
        Some(names[uid])
    } else {
        None
    }
}

/// The characters that are remembered.
pub struct NameCache {
    pub entries: HashMap<i64, CachedName>,
}

impl View for NameCache {
    type V = Map<i64, CachedView>;

    open spec fn view(&self) -> Map<i64, CachedView> {
        cache_view(self.entries@)
    }
}

/// One value over another, where it is there.
fn pick(new: Option<i32>, before: Option<i32>) -> (v: Option<i32>)
    ensures
        v == over(new, before),
{
    match new {
        Some(x) => Some(x),
        None => before,
    }
}

impl NameCache {
    /// Nobody is remembered.
    pub fn new() -> (c: NameCache)
        ensures
            c@ == Map::<i64, CachedView>::empty(),
    {
        let c = NameCache { entries: HashMap::new() };
        assert(c@ =~= Map::<i64, CachedView>::empty());
        c
    }

    /// A copy.
    pub fn duplicate(&self) -> (copy: NameCache)
        ensures
            copy@ == self@,
    {
        broadcast use group_hash_axioms;

        let keys: Vec<i64> = key_list(&self.entries);
        let mut entries: HashMap<i64, CachedName> = HashMap::new();
        let n: usize = keys.len();
        for i in 0..n
            invariant
                n == keys@.len(),
                keys@.no_duplicates(),
                forall|k: i64| #[trigger] keys@.contains(k) <==> self.entries@.contains_key(k),
                forall|k: i64| #[trigger]
                    entries@.contains_key(k) <==> keys@.take(i as int).contains(k),
                forall|k: i64|
                    entries@.contains_key(k) ==> (#[trigger] entries@[k])@ == self.entries@[k]@,
        {
            broadcast use group_hash_axioms;

            proof {
                lemma_next_key(keys@, i as int);
                assert(self.entries@.contains_key(keys@[i as int]));
            }
            if let Some(c) = self.entries.get(&keys[i]) {
                let copied = CachedName {
                    name: c.name.clone(),
                    class_id: c.class_id,
                    ability_score: c.ability_score,
                    season_level: c.season_level,
                    season_strength: c.season_strength,
                };
                entries.insert(keys[i], copied);
            }
        }
        let copy = NameCache { entries };
        proof {
            assert(keys@.take(n as int) =~= keys@);
            assert(copy@ =~= self@);
        }
        copy
    }

    /// What is remembered of a character.
    pub fn lookup(&self, uid: i64) -> (cached: Option<&CachedName>)
        ensures
            cached is Some <==> remembered(self@, uid) is Some,
            cached matches Some(c) ==> remembered(self@, uid) == Some(c@),
    {
        broadcast use group_hash_axioms;

        self.entries.get(&uid)
    }

    /// Remembers what was learned of a character; what was not learned stays.
    pub fn update(&mut self, uid: i64, update: NameUpdate)
        ensures
            final(self)@ == old(self)@.insert(
                uid,
                learned(remembered(old(self)@, uid), update@),
            ),
    {
        broadcast use group_hash_axioms;

        let ghost before = self.entries@;
        let cached: CachedName = match self.entries.remove(&uid) {
            Some(c) => CachedName {
                name: match update.name {
                    Some(n) => n,
                    None => c.name,
                },
                class_id: pick(update.class_id, c.class_id),
                ability_score: pick(update.ability_score, c.ability_score),
                season_level: pick(update.season_level, c.season_level),
                season_strength: pick(update.season_strength, c.season_strength),
            },
            None => CachedName {
                name: match update.name {
                    Some(n) => n,
                    None => String::new(),
                },
                class_id: update.class_id,
                ability_score: update.ability_score,
                season_level: update.season_level,
                season_strength: update.season_strength,
            },
        };
        let ghost view = cached@;
        self.entries.insert(uid, cached);
        assert(self@ =~= cache_view(before).insert(uid, view));
        assert(view == learned(remembered(cache_view(before), uid), update@));
    }
}

/// A number that counts only where it is positive.
pub open spec fn positive_only(v: Option<i32>) -> Option<i32> {
    match v {
        Some(x) => if x > 0 {
            Some(x)
        } else {
            None
        },
        None => None,
    }
}

/// What is known of a character from the cache.
pub open spec fn known_profile(p: Profile, c: CachedView, classes: ClassTable) -> Profile {
    Profile {
        name: if c.name.len() > 0 {
            Some(c.name)
        } else {
            p.name
        },
        class: match c.class_id {
            Some(id) => if id != 0 {
                Some(classes.class_of(id))
            } else {
                p.class
            },
            None => p.class,
        },
        ability_score: over(positive_only(c.ability_score), p.ability_score),
        season_level: over(positive_only(c.season_level), p.season_level),
        season_strength: over(positive_only(c.season_strength), p.season_strength),
        ..p
    }
}

/// A new entity: of a player, what is remembered is known.
pub open spec fn new_entity(
    uid: i64,
    kind: EntityKind,
    names: Map<i64, CachedView>,
    classes: ClassTable,
) -> EntityView {
    let e = empty_entity(kind);
    if kind == EntityKind::Player && names.contains_key(uid) {
        EntityView { profile: known_profile(e.profile, names[uid], classes), ..e }
    } else {
        e
    }
}

/// The entity with this number, or a new one.
pub open spec fn entity_or_new(
    entities: Map<i64, EntityView>,
    uid: i64,
    kind: EntityKind,
    names: Map<i64, CachedView>,
    classes: ClassTable,
) -> EntityView {
    if entities.contains_key(uid) {
        entities[uid]
    } else {
        new_entity(uid, kind, names, classes)
    }
}

/// A new entity: of a player, what is remembered is known.
pub fn create_entity(uid: i64, kind: EntityKind, names: &NameCache, classes: &ClassTable) -> (e:
    Entity)
    ensures
        e@ == new_entity(uid, kind, names@, *classes),
{
    let mut e = Entity::new(kind);
    if kind == EntityKind::Player {
        if let Some(c) = names.lookup(uid) {
            if !c.name.as_str().is_empty() {
                e.name = Some(c.name.clone());
            }
            if let Some(id) = c.class_id {
                if id != 0 {
                    e.class = Some(classes.class_from_id(id));
                }
            }
            if let Some(score) = c.ability_score {
                if score > 0 {
                    e.ability_score = Some(score);
                }
            }
            if let Some(lv) = c.season_level {
                if lv > 0 {
                    e.season_level = Some(lv);
                }
            }
            if let Some(st) = c.season_strength {
                if st > 0 {
                    e.season_strength = Some(st);
                }
            }
        }
    }
    e
}

} // verus!
