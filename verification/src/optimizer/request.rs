//! What is asked of the optimizer, and when it is refused.

use crate::optimizer::levels::choose_fits;
use crate::optimizer::model::{mods_at, value_sum, ModuleView};
use crate::optimizer::sums::{increasing, within};
use crate::text::{append_list, list_text};
use vstd::prelude::*;
use vstd::string::*;

verus! {

/// Whether `id` is left out of the ranking or bars a module.
pub open spec fn excluded(id: i32, hard: Seq<i32>, soft: Seq<i32>) -> bool {
    hard.contains(id) || soft.contains(id)
}

/// The targets that are excluded too.
pub open spec fn bad_targets(selected: Seq<i32>, hard: Seq<i32>, soft: Seq<i32>) -> Seq<i32> {
    selected.filter(|id: i32| excluded(id, hard, soft))
}

/// The attributes with a required level above 0 that are excluded too.
pub open spec fn bad_requirements(
    requirements: Seq<(i32, usize)>,
    hard: Seq<i32>,
    soft: Seq<i32>,
) -> Seq<i32> {
    requirements.filter(|r: (i32, usize)| r.1 > 0 && excluded(r.0, hard, soft)).map_values(
        |r: (i32, usize)| r.0,
    )
}

/// The message for targets that are excluded too.
pub open spec fn target_message(ids: Seq<i32>) -> Seq<char> {
    "目標属性と除外属性が重複しています（属性ID: "@ + list_text(ids)
        + "）。同じ属性を目標と除外の両方に指定することはできません。"@
}

/// The message for required levels of excluded attributes.
pub open spec fn requirement_message(ids: Seq<i32>) -> Seq<char> {
    "下限Lv指定と除外属性が重複しています（属性ID: "@ + list_text(ids)
        + "）。除外指定した属性に下限Lvは設定できません。"@
}

/// Whether a request contradicts itself, and with which message.
pub open spec fn refusal(
    selected: Seq<i32>,
    hard: Seq<i32>,
    soft: Seq<i32>,
    requirements: Seq<(i32, usize)>,
) -> Option<Seq<char>> {
    if bad_targets(selected, hard, soft).len() > 0 {
        Some(target_message(bad_targets(selected, hard, soft)))
    } else if bad_requirements(requirements, hard, soft).len() > 0 {
        Some(requirement_message(bad_requirements(requirements, hard, soft)))
    } else {
        None
    }
}

/// Whether the values of `candidates` are not negative and those of any `k` of them sum within
/// 32 bits.
pub open spec fn values_fit(candidates: Seq<ModuleView>, k: int) -> bool {
    &&& forall|i: int, j: int|
        0 <= i < candidates.len() && 0 <= j < candidates[i].parts.len()
            ==> (#[trigger] candidates[i].parts[j]).value >= 0
    &&& forall|c: Seq<int>|
        increasing(c) && within(c, 0, candidates.len() as int) && c.len() <= k
            ==> #[trigger] value_sum(mods_at(candidates, c)) <= i32::MAX
}

/// The machine limits within which a search over `candidates` works.
pub open spec fn searchable(candidates: Seq<ModuleView>, k: int) -> bool {
    &&& candidates.len() < u32::MAX
    &&& values_fit(candidates, k)
    &&& 0 <= k <= candidates.len() ==> choose_fits(candidates.len(), k as nat)
}

/// Whether `id` is among `ids`.
pub fn contains_id(ids: &[i32], id: i32) -> (found: bool)
    ensures
        found == ids@.contains(id),
{
    let mut i: usize = 0;
    while i < ids.len()
        invariant
            i <= ids@.len(),
            forall|j: int| 0 <= j < i ==> ids@[j] != id,
        decreases ids@.len() - i,
    {
        if ids[i] == id {
            return true;
        }
        i += 1;
    }
    false
}

/// Refuses targets and required levels that are excluded at the same time.
pub fn validate_inputs(
    selected_ids: &[i32],
    hard_exclude_ids: &[i32],
    soft_exclude_ids: &[i32],
    requirements: &[(i32, usize)],
) -> (verdict: Result<(), String>)
    ensures
        verdict is Ok <==> refusal(
            selected_ids@,
            hard_exclude_ids@,
            soft_exclude_ids@,
            requirements@,
        ) is None,
        verdict matches Err(message) ==> refusal(
            selected_ids@,
            hard_exclude_ids@,
            soft_exclude_ids@,
            requirements@,
        ) == Some(message@),
{
    let ghost hard = hard_exclude_ids@;
    let ghost soft = soft_exclude_ids@;
    let ghost bad = |id: i32| excluded(id, hard, soft);
    let mut targets: Vec<i32> = Vec::new();
    let mut i: usize = 0;
    assert(selected_ids@.take(0) =~= Seq::<i32>::empty());
    assert(targets@ =~= selected_ids@.take(0).filter(bad)) by {
        reveal(Seq::filter);
    }
    while i < selected_ids.len()
        invariant
            i <= selected_ids@.len(),
            hard == hard_exclude_ids@,
            soft == soft_exclude_ids@,
            bad == (|id: i32| excluded(id, hard, soft)),
            targets@ == selected_ids@.take(i as int).filter(bad),
        decreases selected_ids@.len() - i,
    {
        let id: i32 = selected_ids[i];
        proof {
            reveal(Seq::filter);
            let next = selected_ids@.take(i + 1);
            assert(next.drop_last() =~= selected_ids@.take(i as int));
            assert(next.last() == id);
        }
        if contains_id(hard_exclude_ids, id) || contains_id(soft_exclude_ids, id) {
            targets.push(id);
        }
        i += 1;
    }
    assert(selected_ids@.take(i as int) =~= selected_ids@);
    if targets.len() > 0 {
        let mut message: String = String::from_str(
            "目標属性と除外属性が重複しています（属性ID: ",
        );
        append_list(&mut message, &targets);
        message.append("）。同じ属性を目標と除外の両方に指定することはできません。");
        return Err(message);
    }
    let ghost bad_req = |r: (i32, usize)| r.1 > 0 && excluded(r.0, hard, soft);
    let ghost first = |r: (i32, usize)| r.0;
    let mut reqs: Vec<i32> = Vec::new();
    let mut j: usize = 0;
    assert(requirements@.take(0) =~= Seq::<(i32, usize)>::empty());
    assert(reqs@ =~= requirements@.take(0).filter(bad_req).map_values(first)) by {
        reveal(Seq::filter);
    }
    while j < requirements.len()
        invariant
            j <= requirements@.len(),
            hard == hard_exclude_ids@,
            soft == soft_exclude_ids@,
            bad_req == (|r: (i32, usize)| r.1 > 0 && excluded(r.0, hard, soft)),
            first == (|r: (i32, usize)| r.0),
            reqs@ == requirements@.take(j as int).filter(bad_req).map_values(first),
        decreases requirements@.len() - j,
    {
        let r: (i32, usize) = requirements[j];
        let ghost before = requirements@.take(j as int).filter(bad_req);
        proof {
            reveal(Seq::filter);
            let next = requirements@.take(j + 1);
            assert(next.drop_last() =~= requirements@.take(j as int));
            assert(next.last() == r);
        }
        if r.1 > 0 && (contains_id(hard_exclude_ids, r.0) || contains_id(soft_exclude_ids, r.0)) {
            reqs.push(r.0);
            assert(before.push(r).map_values(first) =~= before.map_values(first).push(r.0));
        }
        j += 1;
    }
    assert(requirements@.take(j as int) =~= requirements@);
    if reqs.len() > 0 {
        let mut message: String = String::from_str(
            "下限Lv指定と除外属性が重複しています（属性ID: ",
        );
        append_list(&mut message, &reqs);
        message.append("）。除外指定した属性に下限Lvは設定できません。");
        return Err(message);
    }
    Ok(())
}

} // verus!
