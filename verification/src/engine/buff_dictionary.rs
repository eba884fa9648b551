//! Which effects on a player are shown, and how.

use vstd::prelude::*;

verus! {

/// The kinds of effects.
#[derive(Debug, Clone, Copy, PartialEq, Eq, Structural)]
pub enum BuffCategory {
    Buff,
    Debuff,
    Recovery,
    Item,
}

impl BuffCategory {
    /// The name of the kind.
    pub open spec fn name(self) -> Seq<char> {
        match self {
            BuffCategory::Buff => "buff"@,
            BuffCategory::Debuff => "debuff"@,
            BuffCategory::Recovery => "recovery"@,
            BuffCategory::Item => "item"@,
        }
    }

    /// The name of the kind.
    pub fn as_str(self) -> (name: &'static str)
        ensures
            name@ == self.name(),
    {
        match self {
            BuffCategory::Buff => "buff",
            BuffCategory::Debuff => "debuff",
            BuffCategory::Recovery => "recovery",
            BuffCategory::Item => "item",
        }
    }
}

/// How prominently an effect is shown.
#[derive(Debug, Clone, Copy, PartialEq, Eq, PartialOrd, Ord, Structural)]
pub enum DisplayPriority {
    /// Not at all.
    Hidden,
    Low,
    Normal,
    High,
    Alert,
}

impl DisplayPriority {
    /// The name of the priority.
    pub open spec fn name(self) -> Seq<char> {
        match self {
            DisplayPriority::Hidden => "hidden"@,
            DisplayPriority::Low => "low"@,
            DisplayPriority::Normal => "normal"@,
            DisplayPriority::High => "high"@,
            DisplayPriority::Alert => "alert"@,
        }
    }

    /// The name of the priority.
    pub fn as_str(self) -> (name: &'static str)
        ensures
            name@ == self.name(),
    {
        match self {
            DisplayPriority::Hidden => "hidden",
            DisplayPriority::Low => "low",
            DisplayPriority::Normal => "normal",
            DisplayPriority::High => "high",
            DisplayPriority::Alert => "alert",
        }
    }
}

/// How an effect is shown.
#[derive(Debug, Clone, Copy, PartialEq, Eq, Structural)]
pub struct BuffMeta {
    pub category: BuffCategory,
    pub priority: DisplayPriority,
}

impl BuffMeta {
    /// An effect of this kind and priority.
    pub fn new(category: BuffCategory, priority: DisplayPriority) -> (meta: BuffMeta)
        ensures
            meta == (BuffMeta { category, priority }),
    {
        BuffMeta { category, priority }
    }
}

/// The number of known effects.
pub const DICT_LEN: usize = 216;

/// The known effects.
pub const DICT: [(i32, BuffCategory, DisplayPriority); 216] = [
    (4501, BuffCategory::Debuff, DisplayPriority::High),
    (21416, BuffCategory::Debuff, DisplayPriority::Normal),
    (25201, BuffCategory::Debuff, DisplayPriority::Normal),
    (25202, BuffCategory::Debuff, DisplayPriority::Normal),
    (25205, BuffCategory::Debuff, DisplayPriority::High),
    (25206, BuffCategory::Debuff, DisplayPriority::High),
    (32201, BuffCategory::Debuff, DisplayPriority::Normal),
    (44501, BuffCategory::Debuff, DisplayPriority::Normal),
    (55239, BuffCategory::Debuff, DisplayPriority::Low),
    (55412, BuffCategory::Buff, DisplayPriority::Normal),
    (55417, BuffCategory::Buff, DisplayPriority::Normal),
    (55425, BuffCategory::Debuff, DisplayPriority::Normal),
    (55426, BuffCategory::Debuff, DisplayPriority::Normal),
    (2100008, BuffCategory::Debuff, DisplayPriority::Normal),
    (2100201, BuffCategory::Debuff, DisplayPriority::High),
    (2110026, BuffCategory::Debuff, DisplayPriority::Normal),
    (2110050, BuffCategory::Debuff, DisplayPriority::Normal),
    (2110055, BuffCategory::Debuff, DisplayPriority::Normal),
    (2110056, BuffCategory::Debuff, DisplayPriority::Normal),
    (2110057, BuffCategory::Debuff, DisplayPriority::Normal),
    (2110069, BuffCategory::Debuff, DisplayPriority::Normal),
    (2110070, BuffCategory::Debuff, DisplayPriority::Normal),
    (2110078, BuffCategory::Debuff, DisplayPriority::Normal),
    (2110100, BuffCategory::Debuff, DisplayPriority::Normal),
    (2110111, BuffCategory::Buff, DisplayPriority::High),
    (2110099, BuffCategory::Debuff, DisplayPriority::Hidden),
    (21421, BuffCategory::Recovery, DisplayPriority::High),
    (21422, BuffCategory::Buff, DisplayPriority::High),
    (21423, BuffCategory::Buff, DisplayPriority::High),
    (50024, BuffCategory::Buff, DisplayPriority::High),
    (50040, BuffCategory::Buff, DisplayPriority::High),
    (50042, BuffCategory::Buff, DisplayPriority::High),
    (55402, BuffCategory::Buff, DisplayPriority::High),
    (55403, BuffCategory::Buff, DisplayPriority::High),
    (55405, BuffCategory::Buff, DisplayPriority::High),
    (55413, BuffCategory::Buff, DisplayPriority::High),
    (55414, BuffCategory::Buff, DisplayPriority::High),
    (55416, BuffCategory::Buff, DisplayPriority::High),
    (55422, BuffCategory::Buff, DisplayPriority::High),
    (500113, BuffCategory::Buff, DisplayPriority::Low),
    (21404, BuffCategory::Buff, DisplayPriority::High),
    (21412, BuffCategory::Buff, DisplayPriority::High),
    (27002, BuffCategory::Buff, DisplayPriority::High),
    (27007, BuffCategory::Buff, DisplayPriority::Normal),
    (27012, BuffCategory::Buff, DisplayPriority::High),
    (30003, BuffCategory::Buff, DisplayPriority::High),
    (30501, BuffCategory::Buff, DisplayPriority::High),
    (31201, BuffCategory::Buff, DisplayPriority::Normal),
    (31301, BuffCategory::Buff, DisplayPriority::High),
    (31602, BuffCategory::Buff, DisplayPriority::High),
    (43101, BuffCategory::Buff, DisplayPriority::Normal),
    (43201, BuffCategory::Buff, DisplayPriority::Normal),
    (45108, BuffCategory::Buff, DisplayPriority::High),
    (55221, BuffCategory::Buff, DisplayPriority::High),
    (55223, BuffCategory::Buff, DisplayPriority::Normal),
    (55330, BuffCategory::Buff, DisplayPriority::Alert),
    (55333, BuffCategory::Buff, DisplayPriority::High),
    (510011, BuffCategory::Buff, DisplayPriority::High),
    (510012, BuffCategory::Buff, DisplayPriority::Normal),
    (510021, BuffCategory::Buff, DisplayPriority::High),
    (501706, BuffCategory::Buff, DisplayPriority::Normal),
    (501707, BuffCategory::Buff, DisplayPriority::Normal),
    (501710, BuffCategory::Buff, DisplayPriority::Normal),
    (501712, BuffCategory::Buff, DisplayPriority::Normal),
    (2100002, BuffCategory::Buff, DisplayPriority::High),
    (2100106, BuffCategory::Buff, DisplayPriority::High),
    (2100151, BuffCategory::Buff, DisplayPriority::High),
    (2100152, BuffCategory::Buff, DisplayPriority::High),
    (2100154, BuffCategory::Buff, DisplayPriority::Normal),
    (2100203, BuffCategory::Buff, DisplayPriority::Normal),
    (2100211, BuffCategory::Buff, DisplayPriority::High),
    (2110024, BuffCategory::Buff, DisplayPriority::High),
    (2110034, BuffCategory::Buff, DisplayPriority::High),
    (2110042, BuffCategory::Buff, DisplayPriority::High),
    (2110053, BuffCategory::Buff, DisplayPriority::High),
    (2110060, BuffCategory::Buff, DisplayPriority::Normal),
    (2110061, BuffCategory::Buff, DisplayPriority::Normal),
    (2110062, BuffCategory::Buff, DisplayPriority::Normal),
    (2110065, BuffCategory::Buff, DisplayPriority::Normal),
    (2110066, BuffCategory::Buff, DisplayPriority::Normal),
    (2110068, BuffCategory::Buff, DisplayPriority::Normal),
    (2110075, BuffCategory::Buff, DisplayPriority::High),
    (2110077, BuffCategory::Buff, DisplayPriority::Normal),
    (2110084, BuffCategory::Buff, DisplayPriority::Normal),
    (2110095, BuffCategory::Buff, DisplayPriority::High),
    (2110096, BuffCategory::Buff, DisplayPriority::High),
    (2110101, BuffCategory::Buff, DisplayPriority::High),
    (2110102, BuffCategory::Buff, DisplayPriority::High),
    (2110103, BuffCategory::Buff, DisplayPriority::High),
    (2110107, BuffCategory::Buff, DisplayPriority::High),
    (2110108, BuffCategory::Buff, DisplayPriority::High),
    (2110109, BuffCategory::Buff, DisplayPriority::High),
    (2110110, BuffCategory::Buff, DisplayPriority::High),
    (2200151, BuffCategory::Buff, DisplayPriority::Normal),
    (2201311, BuffCategory::Buff, DisplayPriority::Alert),
    (2201511, BuffCategory::Buff, DisplayPriority::Alert),
    (2201611, BuffCategory::Buff, DisplayPriority::Alert),
    (2202751, BuffCategory::Buff, DisplayPriority::Alert),
    (2204371, BuffCategory::Buff, DisplayPriority::Normal),
    (2204551, BuffCategory::Buff, DisplayPriority::Alert),
    (2205211, BuffCategory::Buff, DisplayPriority::Normal),
    (2206031, BuffCategory::Buff, DisplayPriority::Normal),
    (2206551, BuffCategory::Buff, DisplayPriority::Alert),
    (510022, BuffCategory::Buff, DisplayPriority::Normal),
    (510031, BuffCategory::Buff, DisplayPriority::High),
    (510032, BuffCategory::Buff, DisplayPriority::Normal),
    (510041, BuffCategory::Buff, DisplayPriority::Normal),
    (510042, BuffCategory::Buff, DisplayPriority::High),
    (510045, BuffCategory::Buff, DisplayPriority::High),
    (510099, BuffCategory::Buff, DisplayPriority::Normal),
    (997020, BuffCategory::Buff, DisplayPriority::Normal),
    (997021, BuffCategory::Buff, DisplayPriority::Normal),
    (997022, BuffCategory::Buff, DisplayPriority::Normal),
    (997023, BuffCategory::Buff, DisplayPriority::Normal),
    (997024, BuffCategory::Buff, DisplayPriority::Normal),
    (997025, BuffCategory::Buff, DisplayPriority::Normal),
    (510501, BuffCategory::Debuff, DisplayPriority::High),
    (510511, BuffCategory::Debuff, DisplayPriority::High),
    (510521, BuffCategory::Debuff, DisplayPriority::High),
    (510541, BuffCategory::Debuff, DisplayPriority::Normal),
    (510542, BuffCategory::Debuff, DisplayPriority::Normal),
    (510543, BuffCategory::Debuff, DisplayPriority::Normal),
    (510571, BuffCategory::Debuff, DisplayPriority::Normal),
    (2206011, BuffCategory::Buff, DisplayPriority::Normal),
    (2206111, BuffCategory::Buff, DisplayPriority::High),
    (2206381, BuffCategory::Buff, DisplayPriority::Normal),
    (2206421, BuffCategory::Buff, DisplayPriority::Normal),
    (2206451, BuffCategory::Buff, DisplayPriority::Normal),
    (2206481, BuffCategory::Buff, DisplayPriority::Normal),
    (2206540, BuffCategory::Buff, DisplayPriority::Hidden),
    (2206542, BuffCategory::Buff, DisplayPriority::High),
    (50029, BuffCategory::Buff, DisplayPriority::High),
    (50046, BuffCategory::Buff, DisplayPriority::High),
    (50050, BuffCategory::Buff, DisplayPriority::Normal),
    (50052, BuffCategory::Buff, DisplayPriority::High),
    (50057, BuffCategory::Buff, DisplayPriority::High),
    (50058, BuffCategory::Buff, DisplayPriority::High),
    (50062, BuffCategory::Buff, DisplayPriority::High),
    (2201021, BuffCategory::Buff, DisplayPriority::Normal),
    (2201191, BuffCategory::Buff, DisplayPriority::Normal),
    (2201201, BuffCategory::Buff, DisplayPriority::Normal),
    (2201241, BuffCategory::Buff, DisplayPriority::Normal),
    (2201252, BuffCategory::Buff, DisplayPriority::Normal),
    (2201271, BuffCategory::Buff, DisplayPriority::High),
    (2201361, BuffCategory::Buff, DisplayPriority::Normal),
    (2201461, BuffCategory::Buff, DisplayPriority::Normal),
    (2201491, BuffCategory::Recovery, DisplayPriority::Normal),
    (2201651, BuffCategory::Buff, DisplayPriority::Normal),
    (2203161, BuffCategory::Buff, DisplayPriority::High),
    (2205121, BuffCategory::Buff, DisplayPriority::Normal),
    (2205131, BuffCategory::Buff, DisplayPriority::Normal),
    (2205161, BuffCategory::Buff, DisplayPriority::High),
    (2205261, BuffCategory::Buff, DisplayPriority::High),
    (2205481, BuffCategory::Buff, DisplayPriority::High),
    (2204151, BuffCategory::Buff, DisplayPriority::Normal),
    (2204171, BuffCategory::Buff, DisplayPriority::Normal),
    (2204191, BuffCategory::Buff, DisplayPriority::High),
    (2204261, BuffCategory::Buff, DisplayPriority::Normal),
    (2202081, BuffCategory::Buff, DisplayPriority::Normal),
    (2202131, BuffCategory::Buff, DisplayPriority::Normal),
    (2202142, BuffCategory::Recovery, DisplayPriority::Normal),
    (2202241, BuffCategory::Buff, DisplayPriority::Normal),
    (2202321, BuffCategory::Buff, DisplayPriority::Normal),
    (2202322, BuffCategory::Buff, DisplayPriority::Normal),
    (2202331, BuffCategory::Buff, DisplayPriority::Normal),
    (2202441, BuffCategory::Buff, DisplayPriority::Normal),
    (2202561, BuffCategory::Buff, DisplayPriority::Normal),
    (2202621, BuffCategory::Buff, DisplayPriority::Normal),
    (2202651, BuffCategory::Buff, DisplayPriority::High),
    (2202671, BuffCategory::Buff, DisplayPriority::High),
    (55313, BuffCategory::Buff, DisplayPriority::Normal),
    (55327, BuffCategory::Buff, DisplayPriority::Normal),
    (2207461, BuffCategory::Buff, DisplayPriority::High),
    (2207462, BuffCategory::Buff, DisplayPriority::High),
    (2207521, BuffCategory::Buff, DisplayPriority::Normal),
    (2203231, BuffCategory::Buff, DisplayPriority::Normal),
    (2203292, BuffCategory::Buff, DisplayPriority::Normal),
    (2203371, BuffCategory::Buff, DisplayPriority::Normal),
    (2203591, BuffCategory::Buff, DisplayPriority::Normal),
    (2200051, BuffCategory::Buff, DisplayPriority::High),
    (2200111, BuffCategory::Buff, DisplayPriority::High),
    (2200112, BuffCategory::Buff, DisplayPriority::Normal),
    (2200221, BuffCategory::Buff, DisplayPriority::High),
    (2200241, BuffCategory::Buff, DisplayPriority::Normal),
    (2200342, BuffCategory::Buff, DisplayPriority::High),
    (2200401, BuffCategory::Buff, DisplayPriority::Normal),
    (2200602, BuffCategory::Buff, DisplayPriority::Normal),
    (2203031, BuffCategory::Debuff, DisplayPriority::Normal),
    (2203051, BuffCategory::Buff, DisplayPriority::Normal),
    (2203061, BuffCategory::Buff, DisplayPriority::Normal),
    (2205031, BuffCategory::Debuff, DisplayPriority::Normal),
    (2205081, BuffCategory::Buff, DisplayPriority::Normal),
    (2205221, BuffCategory::Buff, DisplayPriority::Normal),
    (2205241, BuffCategory::Buff, DisplayPriority::Normal),
    (2205371, BuffCategory::Buff, DisplayPriority::Normal),
    (2205391, BuffCategory::Buff, DisplayPriority::Normal),
    (2205501, BuffCategory::Buff, DisplayPriority::Normal),
    (2205591, BuffCategory::Buff, DisplayPriority::Normal),
    (881547, BuffCategory::Debuff, DisplayPriority::Alert),
    (881076, BuffCategory::Debuff, DisplayPriority::Alert),
    (881080, BuffCategory::Debuff, DisplayPriority::High),
    (800026, BuffCategory::Debuff, DisplayPriority::High),
    (800010, BuffCategory::Debuff, DisplayPriority::Normal),
    (802911, BuffCategory::Debuff, DisplayPriority::Normal),
    (803057, BuffCategory::Debuff, DisplayPriority::Normal),
    (803063, BuffCategory::Debuff, DisplayPriority::Normal),
    (683311, BuffCategory::Debuff, DisplayPriority::High),
    (821051, BuffCategory::Debuff, DisplayPriority::High),
    (683115, BuffCategory::Buff, DisplayPriority::High),
    (683624, BuffCategory::Recovery, DisplayPriority::High),
    (3200010, BuffCategory::Buff, DisplayPriority::High),
    (3200018, BuffCategory::Buff, DisplayPriority::High),
    (3200023, BuffCategory::Buff, DisplayPriority::High),
    (3200024, BuffCategory::Buff, DisplayPriority::High),
    (3210071, BuffCategory::Buff, DisplayPriority::High),
    (3210111, BuffCategory::Buff, DisplayPriority::Normal),
];

/// The first row at `i` or later of an effect.
pub open spec fn meta_from(base_id: i32, i: int) -> Option<BuffMeta>
    decreases DICT_LEN - i,
{
    if i < 0 || i >= DICT_LEN {
        None
    } else if DICT@[i].0 == base_id {
        Some(BuffMeta { category: DICT@[i].1, priority: DICT@[i].2 })
    } else {
        meta_from(base_id, i + 1)
    }
}

/// How a known effect is shown.
pub open spec fn meta_of(base_id: i32) -> Option<BuffMeta> {
    meta_from(base_id, 0)
}

/// How an effect is shown, where it is known.
pub fn lookup(base_id: i32) -> (meta: Option<BuffMeta>)
    ensures
        meta == meta_of(base_id),
{
    let table: [(i32, BuffCategory, DisplayPriority); 216] = DICT;
    let mut i: usize = 0;
    while i < DICT_LEN
        invariant
            i <= DICT_LEN,
            table == DICT,
            meta_of(base_id) == meta_from(base_id, i as int),
        decreases DICT_LEN - i,
    {
        let row: (i32, BuffCategory, DisplayPriority) = table[i];
        if row.0 == base_id {
            return Some(BuffMeta::new(row.1, row.2));
        }
        i += 1;
    }
    None
}

/// Whether an effect is shown: it is known, and not hidden.
pub fn is_visible(base_id: i32) -> (b: bool)
    ensures
        b == (meta_of(base_id) matches Some(meta) && meta.priority != DisplayPriority::Hidden),
{
    match lookup(base_id) {
        Some(meta) => meta.priority != DisplayPriority::Hidden,
        None => false,
    }
}

/// An effect is known exactly where it has a row, and the first such row tells how it is shown.
pub proof fn law_effects_are_looked_up(base_id: i32, i: int, row: int)
    requires
        0 <= i <= row <= 216,
        forall|j: int| i <= j < row ==> (#[trigger] DICT@[j]).0 != base_id,
        row < 216 ==> DICT@[row].0 == base_id,
    ensures
        row < 216 ==> (meta_from(base_id, i) matches Some(meta) && meta.category == DICT@[row].1
            && meta.priority == DICT@[row].2),
        row == 216 ==> meta_from(base_id, i) is None,
        meta_of(base_id) == meta_from(base_id, 0),
    decreases row - i,
{
    if i < row {
        assert(DICT@[i].0 != base_id);
        law_effects_are_looked_up(base_id, i + 1, row);
    }
}

/// Each kind and each priority has a name of its own.
pub proof fn law_effect_names(a: BuffCategory, b: BuffCategory, p: DisplayPriority, q: DisplayPriority)
    ensures
        a.name() == b.name() <==> a == b,
        p.name() == q.name() <==> p == q,
        a is Buff ==> a.name() == seq!['b', 'u', 'f', 'f'],
        a is Debuff ==> a.name() == seq!['d', 'e', 'b', 'u', 'f', 'f'],
        p is Hidden ==> p.name() == seq!['h', 'i', 'd', 'd', 'e', 'n'],
        p is Alert ==> p.name() == seq!['a', 'l', 'e', 'r', 't'],
{
    reveal_strlit("buff");
    reveal_strlit("debuff");
    reveal_strlit("recovery");
    reveal_strlit("item");
    reveal_strlit("hidden");
    reveal_strlit("low");
    reveal_strlit("normal");
    reveal_strlit("high");
    reveal_strlit("alert");
    assert("buff"@ =~= seq!['b', 'u', 'f', 'f']);
    assert("debuff"@ =~= seq!['d', 'e', 'b', 'u', 'f', 'f']);
    assert("hidden"@ =~= seq!['h', 'i', 'd', 'd', 'e', 'n']);
    assert("alert"@ =~= seq!['a', 'l', 'e', 'r', 't']);
    assert("item"@[0] == 'i' && "buff"@[0] == 'b' && "recovery"@[0] == 'r');
    assert("low"@[0] == 'l' && "normal"@[0] == 'n' && "high"@.len() == 4 && "hidden"@.len() == 6);
    assert("high"@[0] == 'h');
}

} // verus!
