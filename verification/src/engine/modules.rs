//! The modules that a character owns.

use crate::attrs::{attr_ids, module_ids, ATTRS, MODULES};
use crate::protocol::messages::{Item, Package, PlayerSnapshot};
use std::collections::HashMap;
use vstd::prelude::*;
use vstd::std_specs::hash::*;

verus! {

/// One attribute of an owned module.
#[derive(Debug, Clone)]
pub struct ModulePart {
    pub attr_id: i32,
    pub attr_name: &'static str,
    pub value: i32,
}

/// An owned module.
#[derive(Debug, Clone)]
pub struct ModuleInfo {
    /// The key of the item in its bag.
    pub key: i64,
    pub uuid: i64,
    pub config_id: i32,
    pub name: &'static str,
    pub quality: i32,
    pub parts: Vec<ModulePart>,
}

/// The known module types.
pub const MODULE_NAMES: [(i32, &'static str); 12] = [
    (5500101, "Basic Attack"),
    (5500102, "High-Perf Attack"),
    (5500103, "Superior Attack"),
    (5500104, "Superior Attack-Select"),
    (5500201, "Basic Healing"),
    (5500202, "High-Perf Healing"),
    (5500203, "Superior Support"),
    (5500204, "Superior Support-Select"),
    (5500301, "Basic Defense"),
    (5500302, "High-Perf Guardian"),
    (5500303, "Superior Guardian"),
    (5500304, "Superior Guardian-Select"),
];

/// The known attributes.
pub const ATTR_NAMES: [(i32, &'static str); 21] = [
    (1110, "STR Boost"),
    (1111, "DEX Boost"),
    (1112, "INT Boost"),
    (1113, "Special ATK Damage"),
    (1114, "Elite Strike"),
    (1205, "Special Heal Boost"),
    (1206, "Spec Heal Boost"),
    (1307, "Magic Resist"),
    (1308, "Physical Resist"),
    (1407, "Cast Focus"),
    (1408, "ATK Speed Focus"),
    (1409, "Crit Focus"),
    (1410, "Luck Focus"),
    (2104, "Ultra-Damage Stack"),
    (2105, "Ultra-Agile Movement"),
    (2204, "Ultra-Life Condense"),
    (2205, "Ultra-First Aid"),
    (2304, "Ultra-Last Stand"),
    (2404, "Ultra-Life Surge"),
    (2405, "Ultra-Life Drain"),
    (2406, "Ultra-Team Luck Crit"),
];

/// The name in the first row at `i` or later with this id, or "Unknown".
pub open spec fn name_from(table: Seq<(i32, &'static str)>, id: i32, i: int) -> Seq<char>
    decreases table.len() - i,
{
    if i < 0 || i >= table.len() {
        "Unknown"@
    } else if table[i].0 == id {
        table[i].1@
    } else {
        name_from(table, id, i + 1)
    }
}

/// The name of a module type, or "Unknown".
fn module_name(config_id: i32) -> (name: &'static str)
    ensures
        name@ == name_from(MODULE_NAMES@, config_id, 0),
{
    let mut i: usize = 0;
    while i < 12
        invariant
            i <= 12,
            name_from(MODULE_NAMES@, config_id, 0) == name_from(
                MODULE_NAMES@,
                config_id,
                i as int,
            ),
        decreases 12 - i,
    {
        if MODULE_NAMES[i].0 == config_id {
            return MODULE_NAMES[i].1;
        }
        i += 1;
    }
    "Unknown"
}

/// The name of an attribute, or "Unknown".
fn attr_name(attr_id: i32) -> (name: &'static str)
    ensures
        name@ == name_from(ATTR_NAMES@, attr_id, 0),
{
    let mut i: usize = 0;
    while i < 21
        invariant
            i <= 21,
            name_from(ATTR_NAMES@, attr_id, 0) == name_from(ATTR_NAMES@, attr_id, i as int),
        decreases 21 - i,
    {
        if ATTR_NAMES[i].0 == attr_id {
            return ATTR_NAMES[i].1;
        }
        i += 1;
    }
    "Unknown"
}

/// The attribute values that are known for the item with this key.
pub open spec fn link_nums(infos: Map<i64, Vec<i32>>, key: i64) -> Seq<i32> {
    if infos.contains_key(key) {
        infos[key]@
    } else {
        Seq::empty()
    }
}

/// Whether an item is a module.
pub open spec fn is_module(item: Item) -> bool {
    item.mod_parts matches Some(parts) && parts@.len() > 0
}

/// `part` holds the `i`-th attribute of an item.
pub open spec fn is_part(part: ModulePart, ids: Seq<i32>, nums: Seq<i32>, i: int) -> bool {
    &&& part.attr_id == ids[i]
    &&& part.attr_name@ == name_from(ATTR_NAMES@, ids[i], 0)
    &&& part.value == nums[i]
}

/// `info` is the module that `item` is, with as many parts as there are both attributes and
/// values.
pub open spec fn is_info(info: ModuleInfo, key: i64, item: Item, nums: Seq<i32>) -> bool {
    let ids = item.mod_parts->0@;
    let n = if ids.len() < nums.len() {
        ids.len()
    } else {
        nums.len()
    };
    &&& info.key == key
    &&& info.uuid == item.uuid
    &&& info.config_id == item.config_id
    &&& info.name@ == name_from(MODULE_NAMES@, item.config_id, 0)
    &&& info.quality == item.quality
    &&& info.parts@.len() == n
    &&& forall|i: int| 0 <= i < n ==> is_part(#[trigger] info.parts@[i], ids, nums, i)
}

/// The modules among the items of a bag.
pub open spec fn bag_modules(items: Seq<(i64, Item)>) -> Seq<(i64, Item)> {
    items.filter(|x: (i64, Item)| is_module(x.1))
}

/// The modules in all bags, bag by bag.
pub open spec fn all_modules(packages: Seq<Package>) -> Seq<(i64, Item)>
    decreases packages.len(),
{
    if packages.len() == 0 {
        Seq::empty()
    } else {
        all_modules(packages.drop_last()) + bag_modules(packages.last().items@)
    }
}

/// `list` holds the modules `mods`, in order.
pub open spec fn lists_modules(
    list: Seq<ModuleInfo>,
    mods: Seq<(i64, Item)>,
    infos: Map<i64, Vec<i32>>,
) -> bool {
    &&& list.len() == mods.len()
    &&& forall|i: int|
        0 <= i < list.len() ==> is_info(
            #[trigger] list[i],
            mods[i].0,
            mods[i].1,
            link_nums(infos, mods[i].0),
        )
}

/// The module that an item is.
fn module_info(key: i64, item: &Item, ids: &Vec<i32>, nums: &[i32]) -> (info: ModuleInfo)
    requires
        item.mod_parts == Some(*ids),
    ensures
        is_info(info, key, *item, nums@),
{
    let n: usize = if ids.len() < nums.len() {
        ids.len()
    } else {
        nums.len()
    };
    let mut parts: Vec<ModulePart> = Vec::new();
    let mut i: usize = 0;
    while i < n
        invariant
            i <= n,
            n <= ids@.len(),
            n <= nums@.len(),
            parts@.len() == i,
            forall|j: int| 0 <= j < i ==> is_part(#[trigger] parts@[j], ids@, nums@, j),
        decreases n - i,
    {
        let attr_id: i32 = ids[i];
        parts.push(ModulePart { attr_id, attr_name: attr_name(attr_id), value: nums[i] });
        i += 1;
    }
    ModuleInfo {
        key,
        uuid: item.uuid,
        config_id: item.config_id,
        name: module_name(item.config_id),
        quality: item.quality,
        parts,
    }
}

/// Adds the modules of one bag.
fn parse_bag(list: &mut Vec<ModuleInfo>, items: &Vec<(i64, Item)>, infos: &HashMap<i64, Vec<i32>>, Ghost(before): Ghost<Seq<(i64, Item)>>)
    requires
        lists_modules(old(list)@, before, infos@),
    ensures
        lists_modules(final(list)@, before + bag_modules(items@), infos@),
{
    broadcast use group_hash_axioms;

    let ghost pred = |x: (i64, Item)| is_module(x.1);
    let mut i: usize = 0;
    assert(items@.take(0) =~= Seq::<(i64, Item)>::empty());
    assert(before + items@.take(0).filter(pred) =~= before) by {
        reveal(Seq::filter);
    }
    while i < items.len()
        invariant
            i <= items@.len(),
            pred == (|x: (i64, Item)| is_module(x.1)),
            lists_modules(list@, before + items@.take(i as int).filter(pred), infos@),
        decreases items@.len() - i,
    {
        broadcast use group_hash_axioms;

        let pair: &(i64, Item) = &items[i];
        let key: i64 = pair.0;
        let item: &Item = &pair.1;
        let ghost seen = items@.take(i as int).filter(pred);
        proof {
            reveal(Seq::filter);
            let next = items@.take(i + 1);
            assert(next.drop_last() =~= items@.take(i as int));
            assert(next.last() == *pair);
        }
        if let Some(ids) = &item.mod_parts {
            if ids.len() > 0 {
                assert(before + seen.push(*pair) =~= (before + seen).push(*pair));
                let none: Vec<i32> = Vec::new();
                let nums: &[i32] = match infos.get(&key) {
                    Some(nums) => nums.as_slice(),
                    None => none.as_slice(),
                };
                assert(nums@ =~= link_nums(infos@, key));
                list.push(module_info(key, item, ids, nums));
            }
        }
        i += 1;
    }
    assert(items@.take(i as int) =~= items@);
}

/// Whether `list` are the modules in a snapshot: bag by bag, in the order of the items; none
/// without bags or without values.
pub open spec fn are_modules_of(list: Seq<ModuleInfo>, snapshot: PlayerSnapshot) -> bool {
    match (snapshot.packages, snapshot.mod_infos) {
        (Some(packages), Some(infos)) => lists_modules(list, all_modules(packages@), infos@),
        _ => list.len() == 0,
    }
}

/// The modules in a snapshot: bag by bag, in the order of the items. Items of unknown module
/// types are kept. Without bags or without values there are none.
pub fn parse_modules(snapshot: &PlayerSnapshot) -> (list: Vec<ModuleInfo>)
    ensures
        are_modules_of(list@, *snapshot),
{
    let mut list: Vec<ModuleInfo> = Vec::new();
    match &snapshot.mod_infos {
        None => {},
        Some(infos) => {
            match &snapshot.packages {
                None => {},
                Some(packages) => {
                    let mut i: usize = 0;
                    assert(packages@.take(0) =~= Seq::<Package>::empty());
                    while i < packages.len()
                        invariant
                            i <= packages@.len(),
                            lists_modules(list@, all_modules(packages@.take(i as int)), infos@),
                        decreases packages@.len() - i,
                    {
                        let ghost before = all_modules(packages@.take(i as int));
                        parse_bag(&mut list, &packages[i].items, infos, Ghost(before));
                        proof {
                            let next = packages@.take(i + 1);
                            assert(next.drop_last() =~= packages@.take(i as int));
                            assert(next.last() == packages@[i as int]);
                        }
                        i += 1;
                    }
                    assert(packages@.take(i as int) =~= packages@);
                },
            }
        },
    }
    list
}

/// An item keeps all that is known of it: the module has as many parts as the item has both
/// attributes and values, and at each position the attribute and the value that stand there.
pub proof fn law_no_attribute_is_lost(info: ModuleInfo, key: i64, item: Item, nums: Seq<i32>)
    requires
        is_module(item),
        is_info(info, key, item, nums),
    ensures
        info.parts@.len() <= item.mod_parts->0@.len(),
        info.parts@.len() <= nums.len(),
        info.parts@.len() == item.mod_parts->0@.len() || info.parts@.len() == nums.len(),
        forall|x: int|
            0 <= x < item.mod_parts->0@.len() && x < nums.len() ==> x < info.parts@.len() && (
            #[trigger] info.parts@[x]).attr_id == item.mod_parts->0@[x] && info.parts@[x].value
                == nums[x],
{
}

/// The modules in bags that come one after the other come one after the other.
pub proof fn law_bags_are_listed_in_order(first: Seq<Package>, second: Seq<Package>)
    ensures
        all_modules(first + second) == all_modules(first) + all_modules(second),
    decreases second.len(),
{
    if second.len() == 0 {
        assert(first + second =~= first);
        assert(all_modules(first) + all_modules(second) =~= all_modules(first));
    } else {
        law_bags_are_listed_in_order(first, second.drop_last());
        assert((first + second).drop_last() =~= first + second.drop_last());
        assert((first + second).last() == second.last());
        assert(all_modules(first + second) =~= all_modules(first) + all_modules(second));
    }
}

/// An item is among the modules of all bags exactly where it is in a bag and has attributes.
proof fn lemma_all_modules(packages: Seq<Package>, x: (i64, Item))
    ensures
        all_modules(packages).contains(x) <==> is_module(x.1) && exists|b: int|
            0 <= b < packages.len() && (#[trigger] packages[b]).items@.contains(x),
    decreases packages.len(),
{
    if packages.len() > 0 {
        let rest = packages.drop_last();
        let bag = packages.last().items@;
        let f = |x: (i64, Item)| is_module(x.1);
        lemma_all_modules(rest, x);
        vstd::seq_lib::lemma_seq_concat_contains_all_elements(
            all_modules(rest),
            bag_modules(bag),
            x,
        );
        if bag_modules(bag).contains(x) {
            bag.lemma_filter_contains_rev(f, x);
            let i = choose|i: int| 0 <= i < bag.filter(f).len() && bag.filter(f)[i] == x;
            bag.lemma_filter_pred(f, i);
            assert(packages[packages.len() - 1].items@.contains(x));
        }
        if all_modules(rest).contains(x) {
            let b = choose|b: int| 0 <= b < rest.len() && (#[trigger] rest[b]).items@.contains(x);
            assert(packages[b].items@.contains(x));
        }
        if is_module(x.1) && exists|b: int|
            0 <= b < packages.len() && (#[trigger] packages[b]).items@.contains(x) {
            let b = choose|b: int|
                0 <= b < packages.len() && (#[trigger] packages[b]).items@.contains(x);
            if b == packages.len() - 1 {
                let i = choose|i: int| 0 <= i < bag.len() && bag[i] == x;
                bag.filter_lemma(f);
                assert(bag.filter(f).contains(bag[i]));
            } else {
                assert(rest[b].items@.contains(x));
            }
        }
    }
}

/// No module is overlooked: an item with attributes, in any bag, is listed under its key, with its
/// id, type and quality, and with the attribute and the value at each position that has both.
pub proof fn law_every_module_is_listed(
    list: Seq<ModuleInfo>,
    snapshot: PlayerSnapshot,
    b: int,
    i: int,
    ids: Seq<i32>,
    nums: Seq<i32>,
)
    requires
        are_modules_of(list, snapshot),
        snapshot.packages is Some,
        snapshot.mod_infos is Some,
        0 <= b < snapshot.packages->0@.len(),
        0 <= i < snapshot.packages->0@[b].items@.len(),
        snapshot.packages->0@[b].items@[i].1.mod_parts matches Some(parts) && parts@ == ids,
        ids.len() > 0,
        snapshot.mod_infos->0@.contains_key(snapshot.packages->0@[b].items@[i].0),
        nums == snapshot.mod_infos->0@[snapshot.packages->0@[b].items@[i].0]@,
    ensures
        exists|j: int|
            {
                let (key, item) = snapshot.packages->0@[b].items@[i];
                &&& 0 <= j < list.len()
                &&& (#[trigger] list[j]).key == key
                &&& list[j].uuid == item.uuid
                &&& list[j].config_id == item.config_id
                &&& list[j].quality == item.quality
                &&& list[j].parts@.len() <= ids.len()
                &&& list[j].parts@.len() <= nums.len()
                &&& forall|x: int|
                    0 <= x < ids.len() && x < nums.len() ==> x < list[j].parts@.len() && (
                    #[trigger] list[j].parts@[x]).attr_id == ids[x] && list[j].parts@[x].value
                        == nums[x]
            },
{
    let packages = snapshot.packages->0@;
    let pair = packages[b].items@[i];
    assert(packages[b].items@.contains(pair));
    lemma_all_modules(packages, pair);
    let j = choose|j: int| 0 <= j < all_modules(packages).len() && all_modules(packages)[j] == pair;
    law_no_attribute_is_lost(list[j], pair.0, pair.1, nums);
}

/// Nothing is made up: each listed module is an item with attributes in one of the bags.
pub proof fn law_listed_modules_are_items(list: Seq<ModuleInfo>, snapshot: PlayerSnapshot, j: int)
    requires
        are_modules_of(list, snapshot),
        0 <= j < list.len(),
    ensures
        snapshot.packages matches Some(packages) && exists|b: int, i: int|
            0 <= b < packages@.len() && 0 <= i < packages@[b].items@.len() && {
                let (key, item) = #[trigger] packages@[b].items@[i];
                &&& item.mod_parts matches Some(ids) && ids@.len() > 0
                &&& list[j].key == key
                &&& list[j].uuid == item.uuid
                &&& list[j].config_id == item.config_id
                &&& list[j].quality == item.quality
            },
{
    let packages = snapshot.packages->0@;
    let x = all_modules(packages)[j];
    assert(all_modules(packages).contains(x));
    lemma_all_modules(packages, x);
    let b = choose|b: int|
        0 <= b < packages.len() && (#[trigger] packages[b]).items@.contains(x);
    let i = choose|i: int| 0 <= i < packages[b].items@.len() && packages[b].items@[i] == x;
    assert(packages[b].items@[i] == x);
}

/// The first row with an id gives its name; an id without a row is unknown.
pub proof fn law_names(table: Seq<(i32, &'static str)>, id: i32, i: int, row: int)
    requires
        0 <= i <= row <= table.len(),
        forall|j: int| i <= j < row ==> (#[trigger] table[j]).0 != id,
        row < table.len() ==> table[row].0 == id,
    ensures
        row < table.len() ==> name_from(table, id, i) == table[row].1@,
        row == table.len() ==> name_from(table, id, i) == "Unknown"@,
    decreases row - i,
{
    if i < row {
        assert(table[i].0 != id);
        law_names(table, id, i + 1, row);
    }
}

/// What a module came with and what it is shown with are names of the same attributes and module
/// types.
pub proof fn law_tables_agree()
    ensures
        forall|i: int| 0 <= i < 21 ==> (#[trigger] ATTR_NAMES@[i]).0 == ATTRS@[i].0,
        forall|i: int| 0 <= i < 12 ==> (#[trigger] MODULE_NAMES@[i]).0 == MODULES@[i].0,
{
}

/// A module of a known type, and a part with a known attribute, come with the name in the row of
/// their id; others come as "Unknown", and are listed all the same.
pub proof fn law_modules_come_with_names(
    info: ModuleInfo,
    key: i64,
    item: Item,
    nums: Seq<i32>,
    row: int,
    x: int,
)
    requires
        is_module(item),
        is_info(info, key, item, nums),
        0 <= x < info.parts@.len(),
    ensures
        0 <= row < 12 && MODULE_NAMES@[row].0 == item.config_id ==> info.name@
            == MODULE_NAMES@[row].1@,
        !module_ids().contains(item.config_id) ==> info.name@ == "Unknown"@,
        0 <= row < 21 && ATTR_NAMES@[row].0 == item.mod_parts->0@[x] ==> info.parts@[x].attr_name@
            == ATTR_NAMES@[row].1@,
        !attr_ids().contains(item.mod_parts->0@[x]) ==> info.parts@[x].attr_name@ == "Unknown"@,
{
    let ids = item.mod_parts->0@;
    let part = info.parts@[x];
    assert(is_part(part, ids, nums, x));
    if 0 <= row < 12 && MODULE_NAMES@[row].0 == item.config_id {
        law_names(MODULE_NAMES@, item.config_id, 0, row);
    }
    if 0 <= row < 21 && ATTR_NAMES@[row].0 == ids[x] {
        law_names(ATTR_NAMES@, ids[x], 0, row);
    }
    if !module_ids().contains(item.config_id) {
        assert forall|j: int| 0 <= j < 12 implies (#[trigger] MODULE_NAMES@[j]).0
            != item.config_id by {
            assert(module_ids().contains(module_ids()[j]));
        }
        law_names(MODULE_NAMES@, item.config_id, 0, 12);
    }
    if !attr_ids().contains(ids[x]) {
        assert forall|j: int| 0 <= j < 21 implies (#[trigger] ATTR_NAMES@[j]).0 != ids[x] by {
            assert(attr_ids().contains(attr_ids()[j]));
        }
        law_names(ATTR_NAMES@, ids[x], 0, 21);
    }
}

} // verus!
