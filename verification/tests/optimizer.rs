use bpsr_module_optimizer::attrs::attr_name;
use bpsr_module_optimizer::optimizer::accum::Key;
use bpsr_module_optimizer::optimizer::levels::{level_of, n_choose_k};
use bpsr_module_optimizer::optimizer::optimize::optimize_with_opts;
use bpsr_module_optimizer::optimizer::solution::build_solution;
use bpsr_module_optimizer::optimizer::{
    category_of, optimize, Module, OptimizeResult, Part, RankMode, Solution,
};
use std::collections::HashMap;

fn module(key: i64, config_id: i32, parts: &[(i32, i32)]) -> Module {
    Module {
        key,
        uuid: key,
        config_id,
        name: "Test".into(),
        category: category_of(config_id).to_string(),
        quality: 4,
        parts: parts
            .iter()
            .map(|&(attr_id, value)| Part {
                attr_id,
                attr_name: format!("attr{attr_id}"),
                value,
            })
            .collect(),
    }
}

#[test]
fn level_thresholds() {
    assert_eq!(level_of(0), 0);
    assert_eq!(level_of(3), 1);
    assert_eq!(level_of(8), 3);
    assert_eq!(level_of(20), 6);
    assert_eq!(level_of(21), 6);
}

#[test]
fn rank_mode_serde_snake_case() {
    assert_eq!(serde_json::to_string(RankMode::Link.as_str()).unwrap(), "\"link\"");
    assert_eq!(serde_json::to_string(RankMode::Lv5.as_str()).unwrap(), "\"lv5\"");
    let link: String = serde_json::from_str("\"link\"").unwrap();
    let lv5: String = serde_json::from_str("\"lv5\"").unwrap();
    assert_eq!(RankMode::from_name(&link).unwrap(), RankMode::Link);
    assert_eq!(RankMode::from_name(&lv5).unwrap(), RankMode::Lv5);
    assert!(RankMode::from_name("Link").is_none());
}

#[test]
fn prefers_more_lv6() {
    let modules = vec![
        module(1, 5500103, &[(1, 10)]),
        module(2, 5500103, &[(1, 10)]),
        module(3, 5500103, &[(1, 8), (2, 8)]),
        module(4, 5500103, &[(1, 8), (2, 8)]),
    ];
    let res = optimize(&modules, &[], None, &[], &[], &[], 5, 4, RankMode::Link)
        .expect("optimize should succeed");
    let best = &res.solutions[0];
    assert_eq!(best.lv6_count, 1);
    assert_eq!(best.lv5_count, 1);
    assert_eq!(best.link_effect, 52);
    assert_eq!(best.eval_link, 52);
}

#[test]
fn selected_lv6_takes_priority() {
    let modules = vec![
        module(1, 5500103, &[(9, 10)]),
        module(2, 5500103, &[(9, 10)]),
        module(3, 5500103, &[(9, 1), (5, 20)]),
        module(4, 5500103, &[(9, 1), (5, 20)]),
    ];
    let res = optimize(&modules, &[9], None, &[], &[], &[], 5, 4, RankMode::Link)
        .expect("optimize should succeed");
    let best = &res.solutions[0];
    assert!(best.selected_lv6 >= 1);
}

#[test]
fn require_level_filters() {
    let modules = vec![
        module(1, 5500103, &[(9, 3)]),
        module(2, 5500103, &[(9, 3)]),
        module(3, 5500103, &[(9, 3)]),
        module(4, 5500103, &[(9, 3)]),
    ];
    let res = optimize(
        &modules,
        &[9],
        None,
        &[],
        &[],
        &[(9, 6)],
        5,
        4,
        RankMode::Link,
    )
    .expect("optimize should succeed");
    assert!(res.solutions.is_empty());
    let res2 = optimize(
        &modules,
        &[9],
        None,
        &[],
        &[],
        &[(9, 4)],
        5,
        4,
        RankMode::Link,
    )
    .expect("optimize should succeed");
    assert_eq!(res2.solutions.len(), 1);
}

#[test]
fn prefers_including_selected_over_dropping_it() {
    let modules = vec![
        module(1, 5500103, &[(9, 3)]),
        module(2, 5500103, &[(5, 20)]),
        module(3, 5500103, &[(6, 20)]),
    ];
    let res = optimize(&modules, &[9], None, &[], &[], &[], 5, 2, RankMode::Link)
        .expect("optimize should succeed");
    let best = &res.solutions[0];
    assert_eq!(best.selected_present, 1, "選択属性9が結果に含まれるはず");
    assert!(
        best.modules.iter().any(|m| m.key == 1),
        "9を持つモジュール1が採用されるはず"
    );
    let keys: std::collections::BTreeSet<i64> = best.modules.iter().map(|m| m.key).collect();
    assert_ne!(keys, [2, 3].into_iter().collect());
}

#[test]
fn unincludable_selected_is_silently_ignored() {
    let modules = vec![
        module(1, 5500103, &[(1, 5)]),
        module(2, 5500103, &[(1, 5)]),
        module(3, 5500103, &[(1, 5)]),
    ];
    let res = optimize(&modules, &[999], None, &[], &[], &[], 5, 2, RankMode::Link)
        .expect("optimize should succeed");
    assert!(
        !res.solutions.is_empty(),
        "含められない目標でも解は消えない"
    );
    assert_eq!(res.solutions[0].selected_present, 0);
}

#[test]
fn maximizes_included_targets_over_more_lv6() {
    let modules = vec![
        module(1, 5500103, &[(7, 3)]),
        module(2, 5500103, &[(8, 3)]),
        module(3, 5500103, &[(9, 20)]),
        module(4, 5500103, &[(5, 20)]),
    ];
    let res = optimize(
        &modules,
        &[7, 8, 9],
        None,
        &[],
        &[],
        &[],
        5,
        2,
        RankMode::Link,
    )
    .expect("optimize should succeed");
    let best = &res.solutions[0];
    assert_eq!(
        best.selected_present, 2,
        "含められる目標2つを最大限含むはず"
    );
    let keys: std::collections::BTreeSet<i64> = best.modules.iter().map(|m| m.key).collect();
    assert_ne!(
        keys,
        [3, 4].into_iter().collect(),
        "Lv6数が多くても存在数の少ない案は選ばれない"
    );
    assert!(best.lv6_count <= 1, "存在数優先の結果Lv6数は1以下のはず");
}

#[test]
fn five_slots_selects_five_modules() {
    let modules = vec![
        module(1, 5500103, &[(1, 5)]),
        module(2, 5500103, &[(1, 5)]),
        module(3, 5500103, &[(1, 5)]),
        module(4, 5500103, &[(1, 5)]),
        module(5, 5500103, &[(1, 5)]),
        module(6, 5500103, &[(1, 1)]),
    ];
    let res = optimize(&modules, &[1], None, &[], &[], &[], 5, 5, RankMode::Link)
        .expect("optimize should succeed");
    let best = &res.solutions[0];
    assert_eq!(best.modules.len(), 5);
    assert_eq!(best.link_effect, 25);
    assert_eq!(best.lv6_count, 1);
    assert_eq!(res.combinations, 6);
}

#[test]
fn validation_rejects_target_exclude_overlap() {
    let modules = vec![module(1, 5500103, &[(9, 5)])];
    let err = optimize(&modules, &[9], None, &[9], &[], &[], 5, 4, RankMode::Link)
        .expect_err("重複はエラーのはず");
    assert!(
        err.contains('9'),
        "エラーメッセージに属性IDを含むべき: {err}"
    );
    let err2 = optimize(&modules, &[9], None, &[], &[9], &[], 5, 4, RankMode::Link)
        .expect_err("重複はエラーのはず");
    assert!(
        err2.contains('9'),
        "エラーメッセージに属性IDを含むべき: {err2}"
    );
}

#[test]
fn validation_rejects_requirement_on_excluded_attr() {
    let modules = vec![module(1, 5500103, &[(9, 5)])];
    let err = optimize(
        &modules,
        &[],
        None,
        &[],
        &[9],
        &[(9, 3)],
        5,
        4,
        RankMode::Link,
    )
    .expect_err("除外属性への下限Lv指定はエラーのはず");
    assert!(
        err.contains('9'),
        "エラーメッセージに属性IDを含むべき: {err}"
    );
}

#[test]
fn soft_exclude_prefers_more_real_lv6() {
    let a: i32 = 101;
    let b: i32 = 102;
    let c: i32 = 103;
    let d: i32 = 104;
    let e: i32 = 105;
    let modules = vec![
        module(1, 5500103, &[(a, 20)]),
        module(2, 5500103, &[(b, 20)]),
        module(3, 5500103, &[(c, 20)]),
        module(4, 5500103, &[(d, 20)]),
        module(5, 5500103, &[(e, 20)]),
    ];
    let res = optimize(&modules, &[], None, &[], &[e], &[], 5, 4, RankMode::Link)
        .expect("optimize should succeed");
    let best = &res.solutions[0];
    let best_keys: std::collections::BTreeSet<i64> =
        best.modules.iter().map(|m| m.key).collect();
    assert_eq!(
        best_keys,
        [1, 2, 3, 4].into_iter().collect(),
        "ABCD（4つとも実質Lv6）が最良のはず"
    );
    assert_eq!(best.lv6_count, 4);
    assert_eq!(best.selected_lv6, 0);
}

#[test]
fn soft_exclude_breakdown_shows_excluded_attr_without_counting() {
    let a: i32 = 101;
    let b: i32 = 102;
    let c: i32 = 103;
    let d: i32 = 104;
    let e_id: i32 = 105;
    let f: i32 = 106;
    let modules = vec![
        module(1, 5500103, &[(a, 20)]),
        module(2, 5500103, &[(b, 20)]),
        module(3, 5500103, &[(c, 20)]),
        module(4, 5500103, &[(d, 16)]),
        module(5, 5500103, &[(f, 16), (e_id, 8)]),
    ];
    let res = optimize(&modules, &[], None, &[], &[e_id], &[], 5, 5, RankMode::Link)
        .expect("optimize should succeed");
    let best = &res.solutions[0];
    assert_eq!(best.modules.len(), 5);
    assert_eq!(best.lv6_count, 3, "A,B,C の3つが実質Lv6");
    assert_eq!(best.lv5_count, 2, "D,F の2つが実質Lv5");
    assert_eq!(best.eval_link, 20 + 20 + 20 + 16 + 16);
    assert_eq!(
        best.link_effect,
        20 + 20 + 20 + 16 + 16 + 8,
        "真値はEの8も含む"
    );
    let e = best
        .breakdown
        .iter()
        .find(|b| b.attr_id == e_id)
        .expect("E は breakdown に含まれるはず");
    assert_eq!(e.level, 3);
    assert!(e.soft_excluded);
    assert_eq!(e.value, 8);
}

#[test]
fn soft_exclude_excl_does_not_affect_counted_metrics() {
    let counted: i32 = 201;
    let excl: i32 = 202;
    let filler = |k: i64| module(k, 5500103, &[(900 + k as i32, 1)]);
    let modules_low = vec![
        module(1, 5500103, &[(counted, 10), (excl, 5)]),
        filler(2),
        filler(3),
        filler(4),
    ];
    let modules_high = vec![
        module(1, 5500103, &[(counted, 10), (excl, 15)]),
        filler(2),
        filler(3),
        filler(4),
    ];
    let low = optimize(
        &modules_low,
        &[],
        None,
        &[],
        &[excl],
        &[],
        5,
        4,
        RankMode::Link,
    )
    .expect("optimize should succeed")
    .solutions
    .remove(0);
    let high = optimize(
        &modules_high,
        &[],
        None,
        &[],
        &[excl],
        &[],
        5,
        4,
        RankMode::Link,
    )
    .expect("optimize should succeed")
    .solutions
    .remove(0);
    assert_eq!(low.lv6_count, high.lv6_count);
    assert_eq!(low.lv5_count, high.lv5_count);
    assert_eq!(
        low.eval_link, high.eval_link,
        "counted 側は excl の値に左右されない"
    );
    assert_eq!(
        high.link_effect - low.link_effect,
        10,
        "真値の差は excl 分の差(15-5)のみ"
    );
}

fn naive_ranked(
    modules: &[Module],
    selected_ids: &[i32],
    soft_exclude_ids: &[i32],
    requirements: &[(i32, usize)],
    slot_count: usize,
    top_k: usize,
    mode: RankMode,
) -> Vec<(Key, Vec<usize>)> {
    let n = modules.len();
    let mut out: Vec<(Key, Vec<usize>)> = Vec::new();
    let mut combo: Vec<usize> = (0..slot_count).collect();
    loop {
        let mut totals: HashMap<i32, i32> = HashMap::new();
        for &c in &combo {
            for p in &modules[c].parts {
                *totals.entry(p.attr_id).or_insert(0) += p.value;
            }
        }
        let meets_requirements = requirements.iter().all(|&(attr_id, lv)| {
            lv == 0 || level_of(*totals.get(&attr_id).unwrap_or(&0)) >= lv
        });
        if !meets_requirements {
            let k = slot_count;
            let mut i = k;
            let mut advanced = false;
            while i > 0 {
                i -= 1;
                if combo[i] != i + n - k {
                    combo[i] += 1;
                    for j in (i + 1)..k {
                        combo[j] = combo[j - 1] + 1;
                    }
                    advanced = true;
                    break;
                }
            }
            if !advanced {
                break;
            }
            continue;
        }
        let (mut lv6, mut lv5, mut sel_lv6, mut sel_present, mut eval_link, mut excl) =
            (0, 0, 0, 0usize, 0i32, 0i32);
        for (&id, &v) in &totals {
            if soft_exclude_ids.contains(&id) {
                excl += v;
                continue;
            }
            let lv = level_of(v);
            eval_link += v;
            if lv == 6 {
                lv6 += 1;
            } else if lv == 5 {
                lv5 += 1;
            }
            if selected_ids.contains(&id) {
                if lv == 6 {
                    sel_lv6 += 1;
                }
                if lv >= 1 {
                    sel_present += 1;
                }
            }
        }
        let neg_excl = -(excl as i64);
        let key: Key = match mode {
            RankMode::Link => [
                sel_present as i64,
                sel_lv6 as i64,
                lv6 as i64,
                eval_link as i64,
                lv5 as i64,
                neg_excl,
            ],
            RankMode::Lv5 => [
                sel_present as i64,
                sel_lv6 as i64,
                lv6 as i64,
                lv5 as i64,
                eval_link as i64,
                neg_excl,
            ],
        };
        out.push((key, combo.clone()));
        let k = slot_count;
        let mut i = k;
        let mut advanced = false;
        while i > 0 {
            i -= 1;
            if combo[i] != i + n - k {
                combo[i] += 1;
                for j in (i + 1)..k {
                    combo[j] = combo[j - 1] + 1;
                }
                advanced = true;
                break;
            }
        }
        if !advanced {
            break;
        }
    }
    out.sort_by(|a, b| b.0.cmp(&a.0).then_with(|| a.1.cmp(&b.1)));
    out.truncate(top_k);
    out
}

fn synth_modules(count: usize) -> Vec<Module> {
    let mut s: u64 = 0x9E3779B97F4A7C15;
    let mut next = || {
        s ^= s << 13;
        s ^= s >> 7;
        s ^= s << 17;
        s
    };
    (0..count)
        .map(|k| {
            let n_parts = 3 + (next() % 2) as usize;
            let parts = (0..n_parts)
                .map(|_| {
                    let attr_id = 1000 + (next() % 15) as i32;
                    let value = 1 + (next() % 9) as i32;
                    Part {
                        attr_id,
                        attr_name: format!("a{attr_id}"),
                        value,
                    }
                })
                .collect();
            module_with_parts(k as i64, 5500103, parts)
        })
        .collect()
}

fn module_with_parts(key: i64, config_id: i32, parts: Vec<Part>) -> Module {
    Module {
        key,
        uuid: key,
        config_id,
        name: "S".into(),
        category: category_of(config_id).to_string(),
        quality: 4,
        parts,
    }
}

#[test]
fn matches_naive_reference() {
    let modules = synth_modules(28);
    let selected = [1003, 1007, 1011];
    let soft_exclude = [1002];
    for &mode in &[RankMode::Link, RankMode::Lv5] {
        for &slot in &[4usize, 5usize] {
            let top_k = 12;
            let res = optimize(
                &modules,
                &selected,
                None,
                &[],
                &soft_exclude,
                &[],
                top_k,
                slot,
                mode,
            )
            .expect("optimize should succeed");
            let reference =
                naive_ranked(&modules, &selected, &soft_exclude, &[], slot, top_k, mode);

            assert_eq!(
                res.solutions.len(),
                reference.len(),
                "解の件数 mode={mode:?} slot={slot}"
            );
            assert_eq!(
                res.combinations,
                n_choose_k(modules.len(), slot),
                "combinations は C(n,k) と一致すべき mode={mode:?} slot={slot}"
            );

            for (i, (sol, (key, combo))) in
                res.solutions.iter().zip(reference.iter()).enumerate()
            {
                assert_matches_reference(
                    sol,
                    key,
                    combo,
                    &modules,
                    mode,
                    &format!("mode={mode:?} slot={slot} rank={i}"),
                );
            }
        }
    }
}

#[test]
fn deterministic_across_runs() {
    let modules = synth_modules(40);
    let a = optimize(
        &modules,
        &[1005],
        None,
        &[],
        &[],
        &[],
        10,
        5,
        RankMode::Link,
    )
    .expect("optimize should succeed");
    let b = optimize(
        &modules,
        &[1005],
        None,
        &[],
        &[],
        &[],
        10,
        5,
        RankMode::Link,
    )
    .expect("optimize should succeed");
    let keys = |r: &OptimizeResult| -> Vec<(i32, i32, Vec<i64>)> {
        r.solutions
            .iter()
            .map(|s| {
                let mut ks: Vec<i64> = s.modules.iter().map(|m| m.key).collect();
                ks.sort_unstable();
                (s.eval_link, s.link_effect, ks)
            })
            .collect()
    };
    assert_eq!(keys(&a), keys(&b));
}

#[test]
fn too_few_candidates_for_slots() {
    let modules = vec![
        module(1, 5500103, &[(1, 5)]),
        module(2, 5500103, &[(1, 5)]),
        module(3, 5500103, &[(1, 5)]),
        module(4, 5500103, &[(1, 5)]),
    ];
    let res = optimize(&modules, &[1], None, &[], &[], &[], 5, 5, RankMode::Link)
        .expect("optimize should succeed");
    assert!(res.solutions.is_empty());
    assert_eq!(res.candidate_count, 4);
}

fn key_seq(r: &OptimizeResult) -> Vec<(usize, usize, usize, i32, usize, i32)> {
    r.solutions
        .iter()
        .map(|s| {
            let excl: i32 = s
                .breakdown
                .iter()
                .filter(|b| b.soft_excluded)
                .map(|b| b.value)
                .sum();
            (
                s.selected_present,
                s.selected_lv6,
                s.lv6_count,
                s.eval_link,
                s.lv5_count,
                excl,
            )
        })
        .collect()
}

#[test]
fn requirement_pruning_on_off_same_keys() {
    let modules = synth_modules(30);
    let selected = [1002, 1009];
    let requirements = [(1002, 4usize)];
    for &slot in &[4usize, 5usize] {
        let with_pruning = optimize_with_opts(
            &modules,
            &selected,
            None,
            &[],
            &[],
            &requirements,
            10,
            slot,
            RankMode::Link,
            true,
            false,
        )
        .expect("optimize should succeed");
        let without_pruning = optimize_with_opts(
            &modules,
            &selected,
            None,
            &[],
            &[],
            &requirements,
            10,
            slot,
            RankMode::Link,
            false,
            false,
        )
        .expect("optimize should succeed");
        assert_eq!(
            key_seq(&with_pruning),
            key_seq(&without_pruning),
            "requirements 途中剪定 on/off で slot={slot} のキー列が一致するはず"
        );
    }
}

#[test]
fn bnb_pruning_on_off_same_keys() {
    let modules = synth_modules(30);
    let selected = [1004];
    let soft_exclude = [1008];
    for &slot in &[4usize, 5usize] {
        let with_bnb = optimize_with_opts(
            &modules,
            &selected,
            None,
            &[],
            &soft_exclude,
            &[],
            10,
            slot,
            RankMode::Link,
            true,
            true,
        )
        .expect("optimize should succeed");
        let without_bnb = optimize_with_opts(
            &modules,
            &selected,
            None,
            &[],
            &soft_exclude,
            &[],
            10,
            slot,
            RankMode::Link,
            true,
            false,
        )
        .expect("optimize should succeed");
        assert_eq!(
            key_seq(&with_bnb),
            key_seq(&without_bnb),
            "B&B on/off で slot={slot} のキー列が一致するはず"
        );
    }
}

fn assert_matches_reference(
    sol: &Solution,
    key: &Key,
    combo: &[usize],
    modules: &[Module],
    mode: RankMode,
    ctx: &str,
) {
    assert_eq!(
        sol.selected_present as i64, key[0],
        "sel_present mismatch {ctx}"
    );
    assert_eq!(sol.selected_lv6 as i64, key[1], "sel_lv6 mismatch {ctx}");
    assert_eq!(sol.lv6_count as i64, key[2], "lv6 mismatch {ctx}");
    match mode {
        RankMode::Link => {
            assert_eq!(sol.eval_link as i64, key[3], "eval_link mismatch {ctx}");
            assert_eq!(sol.lv5_count as i64, key[4], "lv5 mismatch {ctx}");
        }
        RankMode::Lv5 => {
            assert_eq!(sol.lv5_count as i64, key[3], "lv5 mismatch {ctx}");
            assert_eq!(sol.eval_link as i64, key[4], "eval_link mismatch {ctx}");
        }
    }
    let excl: i32 = sol
        .breakdown
        .iter()
        .filter(|b| b.soft_excluded)
        .map(|b| b.value)
        .sum();
    assert_eq!(-(excl as i64), key[5], "excl mismatch {ctx}");
    let got: std::collections::BTreeSet<i64> = sol.modules.iter().map(|m| m.key).collect();
    let want: std::collections::BTreeSet<i64> = combo.iter().map(|&c| modules[c].key).collect();
    assert_eq!(got, want, "module set mismatch {ctx}");
}

#[test]
fn branch_and_bound_matches_naive_exhaustively() {
    let counts = [14usize, 18, 22, 26];
    let selected_sets: [&[i32]; 3] = [&[], &[1003], &[1002, 1009, 1013]];
    let soft_exclude_sets: [&[i32]; 3] = [&[], &[1005], &[1001, 1008]];
    let requirement_sets: [&[(i32, usize)]; 2] = [&[], &[(1002, 4)]];
    let top_k = 8;

    for &mode in &[RankMode::Link, RankMode::Lv5] {
        for &count in &counts {
            let modules = synth_modules(count);
            for &selected in &selected_sets {
                for &soft_exclude in &soft_exclude_sets {
                    if selected.iter().any(|id| soft_exclude.contains(id)) {
                        continue;
                    }
                    for &requirements in &requirement_sets {
                        if requirements
                            .iter()
                            .any(|&(id, lv)| lv > 0 && soft_exclude.contains(&id))
                        {
                            continue;
                        }
                        for &slot in &[4usize, 5usize] {
                            let res = optimize_with_opts(
                                &modules,
                                selected,
                                None,
                                &[],
                                soft_exclude,
                                requirements,
                                top_k,
                                slot,
                                mode,
                                true,
                                true,
                            )
                            .unwrap_or_else(|e| panic!("optimize failed: {e}"));
                            let reference = naive_ranked(
                                &modules,
                                selected,
                                soft_exclude,
                                requirements,
                                slot,
                                top_k,
                                mode,
                            );

                            let ctx = format!(
                                "mode={mode:?} count={count} slot={slot} selected={selected:?} \
                                 soft_exclude={soft_exclude:?} requirements={requirements:?}"
                            );
                            assert_eq!(
                                res.solutions.len(),
                                reference.len(),
                                "解の件数不一致 {ctx}"
                            );
                            for (i, (sol, (key, combo))) in
                                res.solutions.iter().zip(reference.iter()).enumerate()
                            {
                                assert_matches_reference(
                                    sol,
                                    key,
                                    combo,
                                    &modules,
                                    mode,
                                    &format!("{ctx} rank={i}"),
                                );
                            }
                        }
                    }
                }
            }
        }
    }
}

#[test]
fn branch_and_bound_rank1_matches_naive_with_all_features() {
    let modules = synth_modules(24);
    let selected = [1004, 1011];
    let soft_exclude = [1002];
    let requirements = [(1004, 1usize)];
    for &mode in &[RankMode::Link, RankMode::Lv5] {
        for &slot in &[4usize, 5usize] {
            let res = optimize(
                &modules,
                &selected,
                None,
                &[],
                &soft_exclude,
                &requirements,
                5,
                slot,
                mode,
            )
            .expect("optimize should succeed");
            let reference = naive_ranked(
                &modules,
                &selected,
                &soft_exclude,
                &requirements,
                slot,
                5,
                mode,
            );
            assert!(
                !res.solutions.is_empty(),
                "解が存在するはず mode={mode:?} slot={slot}"
            );
            assert!(
                !reference.is_empty(),
                "全列挙にも解が存在するはず mode={mode:?} slot={slot}"
            );
            let (key, combo) = &reference[0];
            assert_matches_reference(
                &res.solutions[0],
                key,
                combo,
                &modules,
                mode,
                &format!("rank-1 mode={mode:?} slot={slot}"),
            );
        }
    }
}

fn synth_modules_real_attrs(count: usize, seed: u64) -> Vec<Module> {
    let real_attr_ids: [i32; 6] = [1110, 1113, 1307, 1409, 2104, 2204];
    let mut s = seed;
    let mut next = || {
        s ^= s << 13;
        s ^= s >> 7;
        s ^= s << 17;
        s
    };
    (0..count)
        .map(|k| {
            let n_parts = 2 + (next() % 2) as usize;
            let parts = (0..n_parts)
                .map(|_| {
                    let attr_id = real_attr_ids[(next() % real_attr_ids.len() as u64) as usize];
                    let value = 1 + (next() % 10) as i32;
                    Part {
                        attr_id,
                        attr_name: attr_name(attr_id).unwrap_or("?").to_string(),
                        value,
                    }
                })
                .collect();
            module_with_parts(k as i64, 5500103, parts)
        })
        .collect()
}

#[test]
fn branch_and_bound_matches_naive_with_real_attr_ids() {
    let sel_a: i32 = 1113;
    let sel_b: i32 = 2104;
    let sel_c: i32 = 1110;
    let soft_excl: i32 = 1307;
    let req_attr: i32 = 1409;

    
    let scenarios: [(&[i32], &[i32], &[(i32, usize)]); 5] = [
        (&[], &[], &[]),
        (&[sel_a, sel_b], &[], &[]),
        (&[], &[soft_excl], &[]),
        (&[], &[], &[(req_attr, 3)]),
        (&[sel_c, sel_b], &[soft_excl], &[(req_attr, 2)]),
    ];

    let seeds: [u64; 3] = [
        0x1234_5678_9ABC_DEF0,
        0xDEAD_BEEF_CAFE_F00D,
        0x0BAD_C0DE_1337_BEEF,
    ];
    let counts = [18usize, 22];
    let top_k = 8;

    for &mode in &[RankMode::Link, RankMode::Lv5] {
        for &count in &counts {
            for &seed in &seeds {
                let modules = synth_modules_real_attrs(count, seed);
                for &(selected, soft_exclude, requirements) in &scenarios {
                    for &slot in &[4usize, 5usize] {
                        let res = optimize(
                            &modules,
                            selected,
                            None,
                            &[],
                            soft_exclude,
                            requirements,
                            top_k,
                            slot,
                            mode,
                        )
                        .unwrap_or_else(|e| panic!("optimize failed: {e}"));
                        let reference = naive_ranked(
                            &modules,
                            selected,
                            soft_exclude,
                            requirements,
                            slot,
                            top_k,
                            mode,
                        );

                        let ctx = format!(
                            "mode={mode:?} count={count} seed={seed:#x} slot={slot} \
                             selected={selected:?} soft_exclude={soft_exclude:?} \
                             requirements={requirements:?}"
                        );
                        assert_eq!(
                            res.solutions.len(),
                            reference.len(),
                            "解の件数不一致 {ctx}"
                        );
                        for (i, (sol, (key, combo))) in
                            res.solutions.iter().zip(reference.iter()).enumerate()
                        {
                            assert_matches_reference(
                                sol,
                                key,
                                combo,
                                &modules,
                                mode,
                                &format!("{ctx} rank={i}"),
                            );
                        }
                    }
                }
            }
        }
    }
}

#[test]
fn negative_values_are_searched_too() {
    let mut modules = synth_modules(11);
    for (k, m) in modules.iter_mut().enumerate() {
        if k % 3 == 1 {
            m.parts[0].value = -m.parts[0].value;
        }
    }
    let soft = [modules[1].parts[0].attr_id];
    let target = [modules[2].parts[0].attr_id];
    let required = [(modules[0].parts[0].attr_id, 1)];
    for mode in [RankMode::Link, RankMode::Lv5] {
        for slot_count in [2, 4] {
            for (selected, soft, required) in [
                (&[][..], &[][..], &[][..]),
                (&[][..], &soft[..], &[][..]),
                (&target[..], &[][..], &[][..]),
                (&[][..], &[][..], &required[..]),
            ] {
                let r = optimize(&modules, selected, None, &[], soft, required, 12, slot_count, mode)
                    .expect("optimize should succeed");
                let naive = naive_ranked(&modules, selected, soft, required, slot_count, 12, mode);
                assert_eq!(r.solutions.len(), naive.len());
                assert_eq!(r.candidate_count, 11);
                assert_eq!(r.combinations, n_choose_k(11, slot_count));
                assert_eq!(r.engine, "cpu");
                for (sol, (key, combo)) in r.solutions.iter().zip(&naive) {
                    assert_matches_reference(sol, key, combo, &modules, mode, "negative");
                }
            }
        }
    }
}

#[test]
fn what_cancels_out_is_shown() {
    let mods = vec![
        module(1, 5500103, &[(1, i32::MAX), (2, 1)]),
        module(2, 5500103, &[(1, 7), (3, -20)]),
        module(3, 5500103, &[(1, -9), (3, 5)]),
    ];
    let s = build_solution(mods, &[2], &[3]);
    assert_eq!(s.eval_link, i32::MAX - 1);
    assert_eq!(s.link_effect, i32::MAX - 16);
    let row = s.breakdown.iter().find(|b| b.attr_id == 3).unwrap();
    assert_eq!((row.value, row.level, row.soft_excluded), (-15, 0, true));
    assert_eq!((s.lv6_count, s.selected_present), (1, 1));
}
