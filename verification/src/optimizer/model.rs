//! Modules, and what a set of modules achieves.

use crate::attrs::{attr_name, attr_name_of, module_name, module_name_of};
use crate::engine::modules::{ModuleInfo, ModulePart};
use crate::optimizer::accum::{key_of, RankMode, Score};
use crate::optimizer::levels::level;
use crate::optimizer::ranking::Entry;
use crate::optimizer::space::is_choice;
use vstd::prelude::*;

verus! {

/// One attribute of a module.
#[derive(Debug, Clone)]
pub struct Part {
    pub attr_id: i32,
    pub attr_name: String,
    pub value: i32,
}

/// A module that can be equipped.
#[derive(Debug, Clone)]
pub struct Module {
    /// The key of the item in its inventory: it tells modules apart.
    pub key: i64,
    pub uuid: i64,
    pub config_id: i32,
    pub name: String,
    /// "attack", "guardian", "support" or "unknown".
    pub category: String,
    pub quality: i32,
    pub parts: Vec<Part>,
}

pub struct PartView {
    pub attr_id: i32,
    pub attr_name: Seq<char>,
    pub value: i32,
}

pub struct ModuleView {
    pub key: i64,
    pub uuid: i64,
    pub config_id: i32,
    pub name: Seq<char>,
    pub category: Seq<char>,
    pub quality: i32,
    pub parts: Seq<PartView>,
}

impl View for Part {
    type V = PartView;

    open spec fn view(&self) -> PartView {
        PartView { attr_id: self.attr_id, attr_name: self.attr_name@, value: self.value }
    }
}

impl View for Module {
    type V = ModuleView;

    open spec fn view(&self) -> ModuleView {
        ModuleView {
            key: self.key,
            uuid: self.uuid,
            config_id: self.config_id,
            name: self.name@,
            category: self.category@,
            quality: self.quality,
            parts: Seq::new(self.parts@.len(), |i: int| self.parts@[i]@),
        }
    }
}

/// The modules of a list.
pub open spec fn module_views(modules: Seq<Module>) -> Seq<ModuleView> {
    Seq::new(modules.len(), |i: int| modules[i]@)
}

impl Part {
    /// A copy.
    pub fn duplicate(&self) -> (copy: Part)
        ensures
            copy@ == self@,
    {
        Part { attr_id: self.attr_id, attr_name: self.attr_name.clone(), value: self.value }
    }
}

/// The category of a module type: its hundreds digit tells it.
pub open spec fn category_text(config_id: i32) -> Seq<char> {
    if config_id < 0 {
        "unknown"@
    } else if (config_id / 100) % 10 == 1 {
        "attack"@
    } else if (config_id / 100) % 10 == 2 {
        "support"@
    } else if (config_id / 100) % 10 == 3 {
        "guardian"@
    } else {
        "unknown"@
    }
}

/// The category of a module type.
pub fn category_of(config_id: i32) -> (category: &'static str)
    ensures
        category@ == category_text(config_id),
{
    if config_id < 0 {
        return "unknown";
    }
    match config_id / 100 % 10 {
        1 => "attack",
        2 => "support",
        3 => "guardian",
        _ => "unknown",
    }
}

/// An owned part under the name that is shown.
pub open spec fn shown_part(p: ModulePart) -> PartView {
    PartView {
        attr_id: p.attr_id,
        attr_name: match attr_name_of(p.attr_id) {
            Some(name) => name,
            None => p.attr_name@,
        },
        value: p.value,
    }
}

/// An owned module under the names that are shown: known names win over those it came with.
pub open spec fn shown_module(m: ModuleInfo) -> ModuleView {
    ModuleView {
        key: m.key,
        uuid: m.uuid,
        config_id: m.config_id,
        name: match module_name_of(m.config_id) {
            Some(name) => name,
            None => m.name@,
        },
        category: category_text(m.config_id),
        quality: m.quality,
        parts: Seq::new(m.parts@.len(), |i: int| shown_part(m.parts@[i])),
    }
}

impl Module {
    /// The module that an owned module is shown as.
    pub fn from_core(m: &ModuleInfo) -> (module: Module)
        ensures
            module@ == shown_module(*m),
    {
        let mut parts: Vec<Part> = Vec::new();
        let mut i: usize = 0;
        while i < m.parts.len()
            invariant
                i <= m.parts@.len(),
                parts@.len() == i,
                forall|j: int| 0 <= j < i ==> (#[trigger] parts@[j])@ == shown_part(m.parts@[j]),
            decreases m.parts@.len() - i,
        {
            let p: &ModulePart = &m.parts[i];
            let shown: &str = match attr_name(p.attr_id) {
                Some(known) => known,
                None => p.attr_name,
            };
            parts.push(
                Part { attr_id: p.attr_id, attr_name: shown.to_owned(), value: p.value },
            );
            i += 1;
        }
        let shown: &str = match module_name(m.config_id) {
            Some(known) => known,
            None => m.name,
        };
        let module = Module {
            key: m.key,
            uuid: m.uuid,
            config_id: m.config_id,
            name: shown.to_owned(),
            category: category_of(m.config_id).to_owned(),
            quality: m.quality,
            parts,
        };
        assert(module@.parts =~= shown_module(*m).parts);
        module
    }

    /// A copy.
    pub fn duplicate(&self) -> (copy: Module)
        ensures
            copy@ == self@,
    {
        let mut parts: Vec<Part> = Vec::new();
        let mut i: usize = 0;
        while i < self.parts.len()
            invariant
                i <= self.parts@.len(),
                parts@.len() == i,
                forall|j: int| 0 <= j < i ==> (#[trigger] parts@[j])@ == self.parts@[j]@,
            decreases self.parts@.len() - i,
        {
            parts.push(self.parts[i].duplicate());
            i += 1;
        }
        let copy = Module {
            key: self.key,
            uuid: self.uuid,
            config_id: self.config_id,
            name: self.name.clone(),
            category: self.category.clone(),
            quality: self.quality,
            parts,
        };
        assert(copy@.parts =~= self@.parts);
        copy
    }
}

/// The sum of the values that `parts` hold for attribute `id`.
pub open spec fn part_sum(parts: Seq<PartView>, id: i32) -> int
    decreases parts.len(),
{
    if parts.len() == 0 {
        0
    } else {
        part_sum(parts.drop_last(), id) + if parts.last().attr_id == id {
            parts.last().value as int
        } else {
            0
        }
    }
}

/// The sum of the values whose attribute is (`listed`) or is not (`!listed`) among `ids`.
pub open spec fn listed_sum(parts: Seq<PartView>, ids: Seq<i32>, listed: bool) -> int
    decreases parts.len(),
{
    if parts.len() == 0 {
        0
    } else {
        listed_sum(parts.drop_last(), ids, listed) + if ids.contains(parts.last().attr_id)
            == listed {
            parts.last().value as int
        } else {
            0
        }
    }
}

/// The total of attribute `id` over `mods`.
pub open spec fn attr_total(mods: Seq<ModuleView>, id: i32) -> int
    decreases mods.len(),
{
    if mods.len() == 0 {
        0
    } else {
        attr_total(mods.drop_last(), id) + part_sum(mods.last().parts, id)
    }
}

/// The total over `mods` of the values whose attribute is or is not among `ids`.
pub open spec fn listed_total(mods: Seq<ModuleView>, ids: Seq<i32>, listed: bool) -> int
    decreases mods.len(),
{
    if mods.len() == 0 {
        0
    } else {
        listed_total(mods.drop_last(), ids, listed) + listed_sum(mods.last().parts, ids, listed)
    }
}

/// The sum of all values of `mods`.
pub open spec fn value_sum(mods: Seq<ModuleView>) -> int {
    listed_total(mods, Seq::empty(), false)
}

/// The attributes that are not left out and whose level over `mods` satisfies `f`.
pub open spec fn attrs_at(
    mods: Seq<ModuleView>,
    soft: Seq<i32>,
    f: spec_fn(i32, int) -> bool,
) -> Set<i32> {
    Set::new(|id: i32| !soft.contains(id) && f(id, level(attr_total(mods, id))))
}

/// What `mods` achieve for the targets `selected` when the attributes `soft` do not count.
pub open spec fn module_score(
    mods: Seq<ModuleView>,
    selected: Seq<i32>,
    soft: Seq<i32>,
) -> Score {
    Score {
        present: attrs_at(mods, soft, |id: i32, lv: int| selected.contains(id) && lv >= 1).len() as int,
        sel6: attrs_at(mods, soft, |id: i32, lv: int| selected.contains(id) && lv == 6).len() as int,
        lv6: attrs_at(mods, soft, |id: i32, lv: int| lv == 6).len() as int,
        lv5: attrs_at(mods, soft, |id: i32, lv: int| lv == 5).len() as int,
        link: listed_total(mods, soft, false),
        excl: listed_total(mods, soft, true),
    }
}

/// Whether `mods` reach every required level.
pub open spec fn meets_levels(mods: Seq<ModuleView>, requirements: Seq<(i32, usize)>) -> bool {
    forall|j: int|
        0 <= j < requirements.len() ==> level(attr_total(mods, (#[trigger] requirements[j]).0))
            >= requirements[j].1
}

/// Whether a module may be used: it is of the wanted category and has none of the attributes
/// `hard`.
pub open spec fn usable(m: ModuleView, category: Option<Seq<char>>, hard: Seq<i32>) -> bool {
    &&& (category matches Some(c) ==> c == "all"@ || m.category == c)
    &&& forall|j: int| 0 <= j < m.parts.len() ==> !hard.contains((#[trigger] m.parts[j]).attr_id)
}

/// The modules that may be used, in their order.
pub open spec fn usable_modules(
    modules: Seq<ModuleView>,
    category: Option<Seq<char>>,
    hard: Seq<i32>,
) -> Seq<ModuleView> {
    modules.filter(|m: ModuleView| usable(m, category, hard))
}

/// The modules at the positions `c`.
pub open spec fn mods_at(candidates: Seq<ModuleView>, c: Seq<int>) -> Seq<ModuleView> {
    Seq::new(c.len(), |j: int| candidates[c[j]])
}

/// The combinations of `k` candidates that reach every required level, each with its key.
pub open spec fn ranked_combos(
    candidates: Seq<ModuleView>,
    selected: Seq<i32>,
    soft: Seq<i32>,
    requirements: Seq<(i32, usize)>,
    k: int,
    mode: RankMode,
) -> Set<Entry> {
    Set::new(
        |e: Entry|
            k >= 1 && is_choice(e.combo, candidates.len() as int, k) && meets_levels(
                mods_at(candidates, e.combo),
                requirements,
            ) && e.key == key_of(
                module_score(mods_at(candidates, e.combo), selected, soft),
                mode,
            ),
    )
}

} // verus!
