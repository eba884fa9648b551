//! Names of module attributes and module types.

use vstd::prelude::*;

verus! {

/// An attribute as the selection list shows it.
#[derive(Debug, Clone)]
pub struct AttrMeta {
    pub id: i32,
    pub name: String,
    /// Whether the attribute is of the upper kind.
    pub special: bool,
    /// The group under which it is listed.
    pub group: String,
}

/// The known attributes: id, name, upper kind, group.
pub const ATTRS: [(i32, &'static str, bool, &'static str); 21] = [
    (1110, "筋力強化", false, "Basic"),
    (1111, "敏捷強化", false, "Basic"),
    (1112, "知力強化", false, "Basic"),
    (1113, "特攻ダメージ強化", false, "Combat"),
    (1114, "精鋭打撃", false, "Combat"),
    (1205, "特攻回復強化", false, "Support"),
    (1206, "マスタリー回復強化", false, "Support"),
    (1307, "魔法耐性", false, "Resist"),
    (1308, "物理耐性", false, "Resist"),
    (1407, "集中・詠唱", false, "Focus"),
    (1408, "集中・攻撃速度", false, "Focus"),
    (1409, "集中・会心", false, "Focus"),
    (1410, "集中・幸運", false, "Focus"),
    (2104, "極・ダメージ増強", true, "Ultra"),
    (2105, "極・適応力", true, "Ultra"),
    (2204, "極・HP凝縮", true, "Ultra"),
    (2205, "極・応急処置", true, "Ultra"),
    (2304, "極・絶境守護", true, "Ultra"),
    (2404, "極・HP変動", true, "Ultra"),
    (2405, "極・HP吸収", true, "Ultra"),
    (2406, "極・幸運会心", true, "Ultra"),
];

/// The known module types: configuration id and name.
pub const MODULES: [(i32, &'static str); 12] = [
    (5500101, "基本攻撃型モジュール"),
    (5500102, "高性能攻撃型モジュール"),
    (5500103, "卓越攻撃型モジュール"),
    (5500104, "卓越攻撃型モジュール（選択）"),
    (5500201, "基本支援型モジュール"),
    (5500202, "高性能支援型モジュール"),
    (5500203, "卓越支援型モジュール"),
    (5500204, "卓越支援型モジュール（選択）"),
    (5500301, "基本防御型モジュール"),
    (5500302, "高性能防御型モジュール"),
    (5500303, "卓越防御型モジュール"),
    (5500304, "卓越防御型モジュール（選択）"),
];

/// The name in the first row of `ATTRS` at `i` or later with this id.
pub open spec fn attr_name_from(attr_id: i32, i: int) -> Option<Seq<char>>
    decreases 21 - i,
{
    if i < 0 || i >= 21 {
        None
    } else if ATTRS@[i].0 == attr_id {
        Some(ATTRS@[i].1@)
    } else {
        attr_name_from(attr_id, i + 1)
    }
}

/// The name of a known attribute.
pub open spec fn attr_name_of(attr_id: i32) -> Option<Seq<char>> {
    attr_name_from(attr_id, 0)
}

/// The name in the first row of `MODULES` at `i` or later with this id.
pub open spec fn module_name_from(config_id: i32, i: int) -> Option<Seq<char>>
    decreases 12 - i,
{
    if i < 0 || i >= 12 {
        None
    } else if MODULES@[i].0 == config_id {
        Some(MODULES@[i].1@)
    } else {
        module_name_from(config_id, i + 1)
    }
}

/// The name of a known module type.
pub open spec fn module_name_of(config_id: i32) -> Option<Seq<char>> {
    module_name_from(config_id, 0)
}

/// A name as text.
pub open spec fn name_view(name: Option<&'static str>) -> Option<Seq<char>> {
    match name {
        Some(n) => Some(n@),
        None => None,
    }
}

/// All attributes, in the order of the list.
pub fn all() -> (list: Vec<AttrMeta>)
    ensures
        list@.len() == 21,
        forall|i: int|
            0 <= i < 21 ==> (#[trigger] list@[i]).id == ATTRS@[i].0 && list@[i].name@ == ATTRS@[i].1@
                && list@[i].special == ATTRS@[i].2 && list@[i].group@ == ATTRS@[i].3@,
{
    let mut list: Vec<AttrMeta> = Vec::new();
    let mut i: usize = 0;
    while i < 21
        invariant
            i <= 21,
            list@.len() == i,
            forall|j: int|
                0 <= j < i ==> (#[trigger] list@[j]).id == ATTRS@[j].0 && list@[j].name@
                    == ATTRS@[j].1@ && list@[j].special == ATTRS@[j].2 && list@[j].group@
                    == ATTRS@[j].3@,
        decreases 21 - i,
    {
        let row: (i32, &'static str, bool, &'static str) = ATTRS[i];
        list.push(
            AttrMeta { id: row.0, name: row.1.to_owned(), special: row.2, group: row.3.to_owned() },
        );
        i += 1;
    }
    list
}

/// The name of an attribute, where it is known.
pub fn attr_name(attr_id: i32) -> (name: Option<&'static str>)
    ensures
        name_view(name) == attr_name_of(attr_id),
{
    let mut i: usize = 0;
    while i < 21
        invariant
            i <= 21,
            attr_name_of(attr_id) == attr_name_from(attr_id, i as int),
        decreases 21 - i,
    {
        if ATTRS[i].0 == attr_id {
            return Some(ATTRS[i].1);
        }
        i += 1;
    }
    None
}

/// The name of a module type, where it is known.
pub fn module_name(config_id: i32) -> (name: Option<&'static str>)
    ensures
        name_view(name) == module_name_of(config_id),
{
    let mut i: usize = 0;
    while i < 12
        invariant
            i <= 12,
            module_name_of(config_id) == module_name_from(config_id, i as int),
        decreases 12 - i,
    {
        if MODULES[i].0 == config_id {
            return Some(MODULES[i].1);
        }
        i += 1;
    }
    None
}

/// The ids of the known attributes, in the order of the list.
pub open spec fn attr_ids() -> Seq<i32> {
    seq![
        1110i32, 1111, 1112, 1113, 1114, 1205, 1206, 1307, 1308, 1407, 1408, 1409, 1410, 2104,
        2105, 2204, 2205, 2304, 2404, 2405, 2406,
    ]
}

/// The ids of the known module types, in the order of the list.
pub open spec fn module_ids() -> Seq<i32> {
    seq![
        5500101i32, 5500102, 5500103, 5500104, 5500201, 5500202, 5500203, 5500204, 5500301,
        5500302, 5500303, 5500304,
    ]
}

/// From row `i` on, the first row that matches gives the name.
proof fn lemma_attr_name_from(attr_id: i32, i: int, row: int)
    requires
        0 <= i <= row < 21,
        ATTRS@[row].0 == attr_id,
        forall|j: int| i <= j < row ==> (#[trigger] ATTRS@[j]).0 != attr_id,
    ensures
        attr_name_from(attr_id, i) == Some(ATTRS@[row].1@),
    decreases row - i,
{
    if i < row {
        assert(ATTRS@[i].0 != attr_id);
        lemma_attr_name_from(attr_id, i + 1, row);
    }
}

/// Without a row that matches there is no name.
proof fn lemma_attr_name_none(attr_id: i32, i: int)
    requires
        0 <= i <= 21,
        forall|j: int| i <= j < 21 ==> (#[trigger] ATTRS@[j]).0 != attr_id,
    ensures
        attr_name_from(attr_id, i) is None,
    decreases 21 - i,
{
    if i < 21 {
        assert(ATTRS@[i].0 != attr_id);
        lemma_attr_name_none(attr_id, i + 1);
    }
}

/// From row `i` on, the first row that matches gives the name.
proof fn lemma_module_name_from(config_id: i32, i: int, row: int)
    requires
        0 <= i <= row < 12,
        MODULES@[row].0 == config_id,
        forall|j: int| i <= j < row ==> (#[trigger] MODULES@[j]).0 != config_id,
    ensures
        module_name_from(config_id, i) == Some(MODULES@[row].1@),
    decreases row - i,
{
    if i < row {
        assert(MODULES@[i].0 != config_id);
        lemma_module_name_from(config_id, i + 1, row);
    }
}

/// Without a row that matches there is no name.
proof fn lemma_module_name_none(config_id: i32, i: int)
    requires
        0 <= i <= 12,
        forall|j: int| i <= j < 12 ==> (#[trigger] MODULES@[j]).0 != config_id,
    ensures
        module_name_from(config_id, i) is None,
    decreases 12 - i,
{
    if i < 12 {
        assert(MODULES@[i].0 != config_id);
        lemma_module_name_none(config_id, i + 1);
    }
}

/// Each known attribute has a row of its own: its id is there once, the row gives its name, and it
/// is of the upper kind, in the group of these, exactly where its id is above 2000. No other
/// attribute has a name.
pub proof fn law_known_attributes(i: int, attr_id: i32)
    requires
        0 <= i < 21,
    ensures
        ATTRS@[i].0 == attr_ids()[i],
        attr_name_of(ATTRS@[i].0) == Some(ATTRS@[i].1@),
        ATTRS@[i].2 <==> ATTRS@[i].0 > 2000,
        ATTRS@[i].3@ == (if i < 3 {
            "Basic"@
        } else if i < 5 {
            "Combat"@
        } else if i < 7 {
            "Support"@
        } else if i < 9 {
            "Resist"@
        } else if i < 13 {
            "Focus"@
        } else {
            "Ultra"@
        }),
        attr_name_of(attr_id) is Some <==> attr_ids().contains(attr_id),
{
    lemma_attr_name_from(ATTRS@[i].0, 0, i);
    assert forall|j: int| 0 <= j < 21 implies (#[trigger] ATTRS@[j]).0 == attr_ids()[j] by {}
    if attr_ids().contains(attr_id) {
        let row = choose|row: int| 0 <= row < 21 && attr_ids()[row] == attr_id;
        assert(ATTRS@[row].0 == attr_id);
        lemma_attr_name_from(attr_id, 0, row);
    } else {
        assert forall|j: int| 0 <= j < 21 implies (#[trigger] ATTRS@[j]).0 != attr_id by {
            assert(attr_ids().contains(attr_ids()[j]));
        }
        lemma_attr_name_none(attr_id, 0);
    }
}

/// Each known module type has a row of its own, which gives its name. No other has a name.
pub proof fn law_known_modules(i: int, config_id: i32)
    requires
        0 <= i < 12,
    ensures
        MODULES@[i].0 == module_ids()[i],
        module_name_of(MODULES@[i].0) == Some(MODULES@[i].1@),
        module_name_of(config_id) is Some <==> module_ids().contains(config_id),
{
    lemma_module_name_from(MODULES@[i].0, 0, i);
    assert forall|j: int| 0 <= j < 12 implies (#[trigger] MODULES@[j]).0 == module_ids()[j] by {}
    if module_ids().contains(config_id) {
        let row = choose|row: int| 0 <= row < 12 && module_ids()[row] == config_id;
        assert(MODULES@[row].0 == config_id);
        lemma_module_name_from(config_id, 0, row);
    } else {
        assert forall|j: int| 0 <= j < 12 implies (#[trigger] MODULES@[j]).0 != config_id by {
            assert(module_ids().contains(module_ids()[j]));
        }
        lemma_module_name_none(config_id, 0);
    }
}

} // verus!
