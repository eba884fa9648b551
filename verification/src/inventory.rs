//! The modules that were read last, and when they are worth saving.

use crate::attrs::{
    attr_ids, attr_name, attr_name_of, law_known_attributes, law_known_modules, module_ids,
    module_name, module_name_of,
};
use crate::engine::modules::ModuleInfo;
use crate::optimizer::model::{
    category_of, category_text, module_views, shown_module, Module, ModuleView, Part, PartView,
};
use vstd::prelude::*;

verus! {

/// The least time between two saves.
pub const MIN_SAVE_INTERVAL_MS: u64 = 5000;

/// The modules that were read last.
pub struct Inventory {
    pub modules: Vec<Module>,
    /// When they were read.
    pub last_update_ms: Option<u64>,
    /// Where they came from: "capture", "dump" or "none".
    pub source: String,
}

impl Inventory {
    /// Nothing was read yet.
    pub fn new() -> (s: Inventory)
        ensures
            s.modules@.len() == 0,
            s.last_update_ms is None,
            s.source@ == "none"@,
    {
        Inventory { modules: Vec::new(), last_update_ms: None, source: "none".to_owned() }
    }

    /// Takes over modules that were read. Where no time is given, the last one stays.
    pub fn replace(&mut self, modules: Vec<Module>, now: Option<u64>, source: &str)
        ensures
            final(self).modules == modules,
            final(self).source@ == source@,
            final(self).last_update_ms == match now {
                Some(t) => Some(t),
                None => old(self).last_update_ms,
            },
    {
        self.modules = modules;
        self.source = source.to_owned();
        if let Some(t) = now {
            self.last_update_ms = Some(t);
        }
    }
}

/// The sum of the values of parts.
pub open spec fn part_values(parts: Seq<PartView>) -> int
    decreases parts.len(),
{
    if parts.len() == 0 {
        0
    } else {
        part_values(parts.drop_last()) + parts.last().value
    }
}

/// A number reduced to 64 bits.
pub open spec fn low64(x: int) -> u64 {
    (x % 0x1_0000_0000_0000_0000) as u64
}

/// What a module adds to the signature.
pub open spec fn module_mark(m: ModuleView) -> u64 {
    low64(low64(m.uuid as int) * 0x9E37_79B9_7F4A_7C15) ^ low64(
        low64(m.quality as int) * 0x0100_0000_01B3,
    ) ^ low64(part_values(m.parts))
}

/// The signature of modules: it does not depend on their order.
pub open spec fn signature(mods: Seq<ModuleView>) -> u64
    decreases mods.len(),
{
    if mods.len() == 0 {
        0
    } else {
        signature(mods.drop_last()) ^ module_mark(mods.last())
    }
}

/// A signed number reduced to 64 bits.
fn low64_of(x: i64) -> (y: u64)
    ensures
        y == low64(x as int),
{
    if x >= 0 {
        x as u64
    } else {
        let y: u64 = (x as i128 + 0x1_0000_0000_0000_0000) as u64;
        proof {
            vstd::arithmetic::div_mod::lemma_fundamental_div_mod_converse(
                x as int,
                0x1_0000_0000_0000_0000,
                -1,
                y as int,
            );
        }
        y
    }
}

/// What a module adds to the signature.
fn mark_of(m: &Module) -> (mark: u64)
    requires
        m.parts@.len() <= u32::MAX,
    ensures
        mark == module_mark(m@),
{
    let mut sum: i64 = 0;
    let n: usize = m.parts.len();
    let ghost parts = m@.parts;
    assert(parts.take(0) =~= Seq::<PartView>::empty());
    for i in 0..n
        invariant
            n == m.parts@.len(),
            n <= u32::MAX,
            parts == m@.parts,
            sum == part_values(parts.take(i as int)),
            -(i as int) * 0x8000_0000 <= sum <= (i as int) * 0x8000_0000,
    {
        assert(parts.take(i + 1).drop_last() =~= parts.take(i as int));
        assert(parts[i as int] == m.parts@[i as int]@);
        sum = sum + m.parts[i].value as i64;
    }
    assert(parts.take(n as int) =~= parts);
    low64_of(m.uuid).wrapping_mul(0x9E37_79B9_7F4A_7C15) ^ low64_of(m.quality as i64).wrapping_mul(
        0x0100_0000_01B3,
    ) ^ low64_of(sum)
}

/// The signature of modules: their number, kinds, qualities and values, in any order. Modules with
/// the same signature are taken as the same.
pub fn module_signature(mods: &[Module]) -> (sig: u64)
    requires
        forall|i: int| 0 <= i < mods@.len() ==> (#[trigger] mods@[i]).parts@.len() <= u32::MAX,
    ensures
        sig == mods@.len() as u64 ^ signature(module_views(mods@)),
{
    let mut sig: u64 = mods.len() as u64;
    let ghost first = sig;
    let ghost views = module_views(mods@);
    let n: usize = mods.len();
    assert(views.take(0) =~= Seq::<ModuleView>::empty());
    assert(first ^ 0 == first) by (bit_vector);
    for i in 0..n
        invariant
            n == mods@.len(),
            views == module_views(mods@),
            forall|i: int| 0 <= i < mods@.len() ==> (#[trigger] mods@[i]).parts@.len() <= u32::MAX,
            sig == first ^ signature(views.take(i as int)),
    {
        let mark: u64 = mark_of(&mods[i]);
        proof {
            let s = signature(views.take(i as int));
            assert(views.take(i + 1).drop_last() =~= views.take(i as int));
            assert(signature(views.take(i + 1)) == s ^ mark);
            assert((first ^ s) ^ mark == first ^ (s ^ mark)) by (bit_vector);
        }
        sig = sig ^ mark;
    }
    assert(views.take(n as int) =~= views);
    sig
}

/// Whether modules are saved: they differ from those that were saved last, and that was not a
/// moment ago.
pub fn should_save(last_sig: Option<u64>, sig: u64, ms_since_save: Option<u64>) -> (b: bool)
    ensures
        b == (last_sig != Some(sig) && (ms_since_save matches Some(ms) ==> ms
            >= MIN_SAVE_INTERVAL_MS)),
        last_sig == Some(sig) ==> !b,
        ms_since_save matches Some(ms) ==> (ms < 5000 ==> !b),
        ms_since_save is None || ms_since_save->Some_0 >= 5000 ==> b == (last_sig != Some(sig)),
{
    let throttled: bool = match ms_since_save {
        Some(ms) => ms < MIN_SAVE_INTERVAL_MS,
        None => false,
    };
    let same: bool = match last_sig {
        Some(s) => s == sig,
        None => false,
    };
    !same && !throttled
}

/// One module apart from the others.
proof fn lemma_signature_remove(mods: Seq<ModuleView>, j: int)
    requires
        0 <= j < mods.len(),
    ensures
        signature(mods) == signature(mods.remove(j)) ^ module_mark(mods[j]),
    decreases mods.len(),
{
    if j == mods.len() - 1 {
        assert(mods.remove(j) =~= mods.drop_last());
    } else {
        lemma_signature_remove(mods.drop_last(), j);
        assert(mods.drop_last().remove(j) =~= mods.remove(j).drop_last());
        assert(mods.remove(j).last() == mods.last());
        let s = signature(mods.remove(j).drop_last());
        let x = module_mark(mods[j]);
        let y = module_mark(mods.last());
        assert(signature(mods) == (s ^ x) ^ y);
        assert((s ^ x) ^ y == (s ^ y) ^ x) by (bit_vector);
    }
}

/// The signature does not depend on the order of the modules.
pub proof fn law_signature_ignores_order(a: Seq<ModuleView>, b: Seq<ModuleView>)
    requires
        a.to_multiset() =~= b.to_multiset(),
    ensures
        signature(a) == signature(b),
        a.len() == b.len(),
    decreases a.len(),
{
    broadcast use vstd::seq_lib::group_to_multiset_ensures;

    assert(a.len() == a.to_multiset().len());
    assert(b.len() == b.to_multiset().len());
    if a.len() > 0 {
        let x = a.last();
        assert(a.contains(x));
        assert(b.to_multiset().count(x) > 0);
        assert(b.contains(x));
        let j = choose|j: int| 0 <= j < b.len() && b[j] == x;
        assert(a.drop_last() =~= a.remove(a.len() - 1));
        assert(a.drop_last().to_multiset() =~= a.to_multiset().remove(x));
        assert(b.remove(j).to_multiset() =~= b.to_multiset().remove(x));
        law_signature_ignores_order(a.drop_last(), b.remove(j));
        lemma_signature_remove(b, j);
    }
}

/// A part as it was saved.
pub struct DumpPart {
    pub attr_id: i32,
    pub attr_name: String,
    pub value: i32,
}

/// A module as it was saved.
pub struct DumpModule {
    pub key: i64,
    pub uuid: i64,
    pub config_id: i32,
    pub name: String,
    pub quality: i32,
    pub parts: Vec<DumpPart>,
}

/// A saved part under the name that is shown.
pub open spec fn restored_part(p: DumpPart) -> PartView {
    PartView {
        attr_id: p.attr_id,
        attr_name: match attr_name_of(p.attr_id) {
            Some(name) => name,
            None => p.attr_name@,
        },
        value: p.value,
    }
}

/// A saved module under the names that are shown: known names win over those that were saved.
pub open spec fn restored_module(d: DumpModule) -> ModuleView {
    ModuleView {
        key: d.key,
        uuid: d.uuid,
        config_id: d.config_id,
        name: match module_name_of(d.config_id) {
            Some(name) => name,
            None => d.name@,
        },
        category: category_text(d.config_id),
        quality: d.quality,
        parts: Seq::new(d.parts@.len(), |i: int| restored_part(d.parts@[i])),
    }
}

impl Module {
    /// The module that a saved one is shown as.
    pub fn from_dump(d: DumpModule) -> (module: Module)
        ensures
            module@ == restored_module(d),
    {
        let n: usize = d.parts.len();
        let mut parts: Vec<Part> = Vec::new();
        for i in 0..n
            invariant
                n == d.parts@.len(),
                parts@.len() == i,
                forall|j: int|
                    0 <= j < i ==> (#[trigger] parts@[j])@ == restored_part(d.parts@[j]),
        {
            let p: &DumpPart = &d.parts[i];
            let shown: String = match attr_name(p.attr_id) {
                Some(known) => known.to_owned(),
                None => p.attr_name.clone(),
            };
            parts.push(Part { attr_id: p.attr_id, attr_name: shown, value: p.value });
        }
        let shown: String = match module_name(d.config_id) {
            Some(known) => known.to_owned(),
            None => d.name.clone(),
        };
        let module = Module {
            key: d.key,
            uuid: d.uuid,
            config_id: d.config_id,
            name: shown,
            category: category_of(d.config_id).to_owned(),
            quality: d.quality,
            parts,
        };
        assert(module@.parts =~= restored_module(d).parts);
        module
    }
}

/// The number of solutions and of slots that a request can ask for.
pub fn clamp_request(top_k: usize, slot_count: usize) -> (r: (usize, usize))
    ensures
        r.0 == if top_k < 1 {
            1
        } else if top_k > 100 {
            100
        } else {
            top_k
        },
        r.1 == if slot_count < 4 {
            4int
        } else if slot_count > 5 {
            5
        } else {
            slot_count as int
        },
        1 <= r.0 <= 100,
        4 <= r.1 <= 5,
        1 <= top_k <= 100 ==> r.0 == top_k,
        4 <= slot_count <= 5 ==> r.1 == slot_count,
{
    let k: usize = if top_k < 1 {
        1
    } else if top_k > 100 {
        100
    } else {
        top_k
    };
    let slots: usize = if slot_count < 4 {
        4
    } else if slot_count > 5 {
        5
    } else {
        slot_count
    };
    (k, slots)
}

/// Saving a module and loading it gives back its attributes and values: a loaded module has the
/// saved key, id, type and quality, and at each position the saved attribute and value.
pub proof fn law_dump_keeps_values(d: DumpModule)
    ensures
        restored_module(d).key == d.key,
        restored_module(d).uuid == d.uuid,
        restored_module(d).config_id == d.config_id,
        restored_module(d).quality == d.quality,
        restored_module(d).parts.len() == d.parts@.len(),
        forall|i: int|
            0 <= i < d.parts@.len() ==> (#[trigger] restored_module(d).parts[i]).attr_id
                == d.parts@[i].attr_id && restored_module(d).parts[i].value == d.parts@[i].value,
{
}

/// `d` is what is saved of `m`.
pub open spec fn is_dump_of(d: DumpModule, m: ModuleView) -> bool {
    &&& d.key == m.key && d.uuid == m.uuid && d.config_id == m.config_id
    &&& d.name@ == m.name && d.quality == m.quality
    &&& d.parts@.len() == m.parts.len()
    &&& forall|i: int|
        #![trigger d.parts@[i]]
        0 <= i < m.parts.len() ==> d.parts@[i].attr_id == m.parts[i].attr_id
            && d.parts@[i].attr_name@ == m.parts[i].attr_name && d.parts@[i].value
            == m.parts[i].value
}

/// Loading what was saved of a module gives back its attributes and values in their order; of a
/// module as it is shown, or of one that was loaded, it gives back all of it.
pub proof fn law_dump_round_trip(d: DumpModule, m: ModuleView, owned: ModuleInfo, before: DumpModule)
    requires
        is_dump_of(d, m),
    ensures
        restored_module(d).parts.map_values(|p: PartView| (p.attr_id, p.value))
            == m.parts.map_values(|p: PartView| (p.attr_id, p.value)),
        m == shown_module(owned) ==> restored_module(d) == m,
        m == restored_module(before) ==> restored_module(d) == m,
{
    let r = restored_module(d);
    assert forall|i: int| 0 <= i < m.parts.len() implies (#[trigger] r.parts[i]).attr_id
        == m.parts[i].attr_id && r.parts[i].value == m.parts[i].value by {
        assert(d.parts@[i].attr_id == m.parts[i].attr_id);
    }
    assert(r.parts.map_values(|p: PartView| (p.attr_id, p.value)) =~= m.parts.map_values(
        |p: PartView| (p.attr_id, p.value),
    ));
    if m == shown_module(owned) || m == restored_module(before) {
        assert forall|i: int| 0 <= i < m.parts.len() implies #[trigger] r.parts[i] == m.parts[i] by {
            assert(d.parts@[i].attr_name@ == m.parts[i].attr_name);
        }
        assert(r.parts =~= m.parts);
    }
}

/// A module as it is shown has the key, id, type and quality that it came with, and at each
/// position the attribute and the value that it came with.
pub proof fn law_shown_module_keeps_values(owned: ModuleInfo)
    ensures
        shown_module(owned).key == owned.key,
        shown_module(owned).uuid == owned.uuid,
        shown_module(owned).config_id == owned.config_id,
        shown_module(owned).quality == owned.quality,
        shown_module(owned).parts.len() == owned.parts@.len(),
        forall|i: int|
            0 <= i < owned.parts@.len() ==> (#[trigger] shown_module(owned).parts[i]).attr_id
                == owned.parts@[i].attr_id && shown_module(owned).parts[i].value
                == owned.parts@[i].value,
{
}

/// Known names win: a module and its parts are shown under the names of the tables where these
/// have them, else under those that were saved.
pub proof fn law_known_names_win(d: DumpModule, i: int)
    requires
        0 <= i < d.parts@.len(),
    ensures
        module_ids().contains(d.config_id) ==> module_name_of(d.config_id) == Some(
            restored_module(d).name,
        ),
        !module_ids().contains(d.config_id) ==> restored_module(d).name == d.name@,
        attr_ids().contains(d.parts@[i].attr_id) ==> attr_name_of(d.parts@[i].attr_id) == Some(
            restored_module(d).parts[i].attr_name,
        ),
        !attr_ids().contains(d.parts@[i].attr_id) ==> restored_module(d).parts[i].attr_name
            == d.parts@[i].attr_name@,
{
    law_known_modules(0, d.config_id);
    law_known_attributes(0, d.parts@[i].attr_id);
}

/// The signature of modules that come one after the other is made of both; a module counts with its
/// own mark.
pub proof fn law_signatures_combine(a: Seq<ModuleView>, b: Seq<ModuleView>, m: ModuleView)
    ensures
        signature(a + b) == signature(a) ^ signature(b),
        signature(seq![m]) == module_mark(m),
    decreases b.len(),
{
    reveal_with_fuel(signature, 2);
    let x = module_mark(m);
    assert(seq![m].drop_last() =~= Seq::empty());
    assert(seq![m].last() == m);
    assert(0u64 ^ x == x) by (bit_vector);
    if b.len() == 0 {
        let s = signature(a);
        assert(a + b =~= a);
        assert(s ^ 0u64 == s) by (bit_vector);
    } else {
        law_signatures_combine(a, b.drop_last(), m);
        assert((a + b).drop_last() =~= a + b.drop_last());
        assert((a + b).last() == b.last());
        let s = signature(a);
        let t = signature(b.drop_last());
        let y = module_mark(b.last());
        assert((s ^ t) ^ y == s ^ (t ^ y)) by (bit_vector);
    }
}

/// A changed value is noticed: modules that differ in the sum of their values only have different
/// marks. The sum is that of all parts.
pub proof fn law_changed_values_are_noticed(a: ModuleView, b: ModuleView, p: PartView)
    requires
        a.uuid == b.uuid,
        a.quality == b.quality,
        0 <= part_values(a.parts) < 0x1_0000_0000_0000_0000,
        0 <= part_values(b.parts) < 0x1_0000_0000_0000_0000,
    ensures
        part_values(a.parts) != part_values(b.parts) <==> module_mark(a) != module_mark(b),
        part_values(a.parts.push(p)) == part_values(a.parts) + p.value,
        part_values(Seq::empty()) == 0,
{
    assert(a.parts.push(p).drop_last() =~= a.parts);
    let x = low64(low64(a.uuid as int) * 0x9E37_79B9_7F4A_7C15);
    let y = low64(low64(a.quality as int) * 0x0100_0000_01B3);
    let s = low64(part_values(a.parts));
    let t = low64(part_values(b.parts));
    assert(s == part_values(a.parts) && t == part_values(b.parts));
    assert((x ^ y ^ s == x ^ y ^ t) == (s == t)) by (bit_vector);
}

} // verus!
