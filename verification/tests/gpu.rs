use bpsr_module_optimizer::optimizer::accum::Key;
use bpsr_module_optimizer::optimizer::engines::settle_gpu;
use bpsr_module_optimizer::optimizer::gpu::{decide_gpu, finish_gpu, GpuDecision};
use bpsr_module_optimizer::optimizer::gpu_data::{
    build_binom_table, bytes_to_words, mask_bits, push_i32, push_u32, rank_mode_u32, read_counter,
    words_to_bytes,
};
use bpsr_module_optimizer::optimizer::gpu_key::{eval_link_key_max, pack_key};
use bpsr_module_optimizer::optimizer::gpu_plan::{combo_eq, merge_topk_for_refinement};
use bpsr_module_optimizer::optimizer::gpu_run::{check_appended, refine_threshold};
use bpsr_module_optimizer::optimizer::gpu_seed::build_seed_positions;
use bpsr_module_optimizer::optimizer::limits::{choose_fits_machine, is_searchable};
use bpsr_module_optimizer::optimizer::prepare::prepare;
use bpsr_module_optimizer::optimizer::optimize::is_answerable;
use bpsr_module_optimizer::optimizer::ranking::{Ranked, TopK};
use bpsr_module_optimizer::optimizer::{
    category_of, optimize, Module, OptimizeResult, Part, RankMode,
};

fn module(key: i64, parts: &[(i32, i32)]) -> Module {
    Module {
        key,
        uuid: key,
        config_id: 5500103,
        name: "Test".into(),
        category: category_of(5500103).to_string(),
        quality: 4,
        parts: parts
            .iter()
            .map(|&(attr_id, value)| Part {
                attr_id,
                attr_name: format!("attr{attr_id}"),
                value,
            })
            .collect(),
    }
}

fn pool(n: i64) -> Vec<Module> {
    (0..n)
        .map(|k| {
            let a = 1000 + (k % 7) as i32;
            let b = 1000 + ((k * 3 + 1) % 9) as i32;
            module(k, &[(a, 1 + (k * 5 % 11) as i32), (b, 1 + (k * 7 % 9) as i32)])
        })
        .collect()
}

fn choices(n: u32, k: usize) -> Vec<Vec<u32>> {
    if k == 0 {
        return vec![vec![]];
    }
    let mut all = Vec::new();
    for last in 0..n {
        for mut rest in choices(last, k - 1) {
            rest.push(last);
            all.push(rest);
        }
    }
    all
}

#[test]
fn merge_topk_for_refinement_dedups_combos() {
    fn key(eval_link: i64) -> Key {
        [0, 0, 0, eval_link, 0, 0]
    }
    let seed_ranked = vec![
        Ranked {
            key: key(100),
            combo: vec![1],
        },
        Ranked {
            key: key(90),
            combo: vec![2],
        },
        Ranked {
            key: key(80),
            combo: vec![3],
        },
    ];
    let extra = vec![(key(100), vec![1u32]), (key(85), vec![4u32])];
    let worst = merge_topk_for_refinement(&seed_ranked, extra, 3);
    assert_eq!(
        worst,
        Some(key(85)),
        "dedup後のk位は真のdistinct top-3の3位(85)と一致するべき"
    );
    assert_eq!(merge_topk_for_refinement(&seed_ranked, vec![], 4), None);
    let twice = vec![(key(95), vec![4u32]), (key(95), vec![4u32])];
    assert_eq!(
        merge_topk_for_refinement(&seed_ranked, twice, 3),
        Some(key(95)),
        "what is handed back twice counts twice"
    );
}

#[test]
fn what_is_offered_twice_is_kept_twice() {
    let mut top = TopK::new(3);
    top.offer([0, 0, 0, 5, 0, 0], &[1, 2]);
    top.offer([0, 0, 0, 7, 0, 0], &[3, 4]);
    top.offer([0, 0, 0, 5, 0, 0], &[1, 2]);
    top.offer([0, 0, 0, 5, 0, 0], &[0, 9]);
    let combos: Vec<Vec<u32>> = top.into_vec().into_iter().map(|r| r.combo).collect();
    assert_eq!(combos, vec![vec![3, 4], vec![0, 9], vec![1, 2]]);
    let mut top = TopK::new(3);
    for _ in 0..2 {
        top.offer([0, 0, 0, 5, 0, 0], &[1, 2]);
    }
    assert_eq!(top.into_vec().len(), 2);
}

#[test]
fn the_seed_goes_by_totals() {
    let mut modules: Vec<Module> = (0..60).map(|k| module(k, &[(1, 1), (2, 50)])).collect();
    modules.extend((60..70).map(|k| module(k, &[(1, 4), (2, 40)])));
    modules.push(module(70, &[(1, 1), (1, 4)]));
    let prepared = prepare(&modules, &[], None, &[], &[], &[(1, 1)], 4).unwrap();
    let mut expected: Vec<usize> = (0..69).collect();
    expected.push(70);
    assert_eq!(build_seed_positions(&prepared.space), expected);
}

#[test]
fn grids_are_as_large_as_needed() {
    let prepared = prepare(&pool(11), &[], None, &[], &[], &[], 4)
        .map(|p| decide_gpu(&p, 3, 4, RankMode::Link))
        .unwrap();
    let mut plan = match prepared {
        Ok(GpuDecision::Search(plan)) => plan,
        _ => panic!("the device is asked"),
    };
    for (prefixes, grid) in [
        (0, (1, 1)),
        (1, (1, 1)),
        (256, (1, 1)),
        (257, (2, 1)),
        (65_535 * 256, (65_535, 1)),
        (65_535 * 256 + 1, (65_535, 2)),
        (u32::MAX, (65_535, 257)),
    ] {
        plan.prefix_count = prefixes;
        assert_eq!(plan.single_pass_grid(), grid, "{}", prefixes);
    }
}

fn shown(r: &OptimizeResult) -> Vec<(Vec<i64>, i32, usize)> {
    r.solutions
        .iter()
        .map(|s| (s.modules.iter().map(|m| m.key).collect(), s.eval_link, s.lv6_count))
        .collect()
}

#[test]
fn no_failure_of_the_device_shows() {
    let modules = pool(9);
    let cpu = optimize(&modules, &[1001], None, &[], &[1003], &[], 5, 4, RankMode::Link).unwrap();
    let prepared = prepare(&modules, &[1001], None, &[], &[1003], &[], 4).unwrap();
    let all: Vec<u32> = choices(9, 4)
        .into_iter()
        .flat_map(|mut row| {
            row.resize(5, 0);
            row
        })
        .collect();
    for (rows, engine) in [
        (None, "cpu"),
        (Some(vec![99; 5]), "cpu"),
        (Some(all.clone()), "gpu"),
    ] {
        let result = settle_gpu(
            &modules,
            &[1001],
            None,
            &[],
            &[1003],
            &[],
            5,
            4,
            RankMode::Link,
            &prepared,
            rows,
        )
        .unwrap();
        assert_eq!(result.engine, engine);
        assert_eq!(shown(&result), shown(&cpu));
        assert_eq!(result.candidate_count, cpu.candidate_count);
        assert_eq!(result.combinations, cpu.combinations);
    }
    let first = &all[..5];
    let second = &all[5..10];
    let both = finish_gpu(&prepared, &[first, second].concat(), 2, 4, RankMode::Link).unwrap();
    assert_eq!(both.solutions.len(), 2);
    let repeated = [first, second, first, second].concat();
    let best = finish_gpu(&prepared, &repeated, 2, 4, RankMode::Link).unwrap();
    assert_eq!(shown(&best)[0], shown(&both)[0]);
    assert_eq!(shown(&best)[1], shown(&both)[0], "it was handed back twice");
}

#[test]
fn device_answers_give_the_same_solutions() {
    let modules = pool(11);
    for mode in [RankMode::Link, RankMode::Lv5] {
        for slot_count in [4, 5] {
            let selected = [1002];
            let soft = [1005];
            let cpu = optimize(&modules, &selected, None, &[], &soft, &[(1001, 1)], 6, slot_count, mode)
                .expect("optimize should succeed");
            let prepared = prepare(&modules, &selected, None, &[], &soft, &[(1001, 1)], slot_count)
                .expect("prepare should succeed");
            let plan = match decide_gpu(&prepared, 6, slot_count, mode).expect("no error") {
                GpuDecision::Search(plan) => plan,
                GpuDecision::Fallback(reason) => panic!("{}", reason),
                GpuDecision::Empty => panic!("nothing to search"),
            };
            assert_eq!(plan.n, 11);
            assert!(plan.num_refine_chunks() <= plan.num_chunks());
            let mut prefixes = 0;
            for index in 0..plan.num_chunks() {
                let (params, count) = plan.chunk_params(index, (1, 2)).expect("a chunk has prefixes");
                assert_eq!(bytes_to_words(&params)[7..9], [1, 2]);
                prefixes += count;
            }
            assert_eq!(prefixes, plan.prefix_count, "the chunks cover all prefixes");
            let all: Vec<u32> = choices(11, slot_count).into_iter().flatten().collect();
            let sound: Vec<u32> = all
                .chunks(slot_count)
                .filter(|c| {
                    let total: i32 = c
                        .iter()
                        .flat_map(|&p| prepared.candidates[prepared.space.order[p as usize] as usize].parts.iter())
                        .filter(|p| p.attr_id == 1001)
                        .map(|p| p.value)
                        .sum();
                    total >= 1
                })
                .flat_map(|c| {
                    let mut row = c.to_vec();
                    row.resize(5, 0);
                    row
                })
                .collect();
            assert!(refine_threshold(&prepared.space, &plan, &sound, 6, slot_count, mode).is_ok());
            let gpu = finish_gpu(&prepared, &sound, 6, slot_count, mode).expect("rows are in range");
            assert_eq!(gpu.engine, "gpu");
            assert_eq!(cpu.engine, "cpu");
            assert_eq!(gpu.combinations, cpu.combinations);
            let keys = |r: &bpsr_module_optimizer::optimizer::OptimizeResult| -> Vec<Vec<i64>> {
                r.solutions
                    .iter()
                    .map(|s| s.modules.iter().map(|m| m.key).collect())
                    .collect()
            };
            assert_eq!(keys(&gpu), keys(&cpu));
            let bad = vec![99u32; 5];
            assert!(finish_gpu(&prepared, &bad, 6, slot_count, mode).is_err());
        }
    }
}

#[test]
fn the_device_is_not_asked_in_vain() {
    let few = pool(3);
    let prepared = prepare(&few, &[], None, &[], &[], &[], 4).unwrap();
    assert!(matches!(
        decide_gpu(&prepared, 1, 4, RankMode::Link),
        Ok(GpuDecision::Empty)
    ));
    let many = pool(301);
    let prepared = prepare(&many, &[], None, &[], &[], &[], 4).unwrap();
    assert!(matches!(
        decide_gpu(&prepared, 10, 4, RankMode::Link),
        Ok(GpuDecision::Fallback(_))
    ));
}

#[test]
fn packed_keys_keep_the_order() {
    for mode in [RankMode::Link, RankMode::Lv5] {
        let keys: [Key; 4] = [
            [0, 0, 0, 5, 7, -3],
            [0, 0, 1, 0, 0, 0],
            [0, 1, 0, 0, 0, -9],
            [1, 0, 0, 0, 0, 0],
        ];
        for a in &keys {
            for b in &keys {
                assert_eq!(a < b, pack_key(a, mode) < pack_key(b, mode));
            }
        }
    }
    assert_eq!(pack_key(&[1, 2, 3, 4, 5, -6], RankMode::Link), ((1 << 26) | (2 << 20) | (3 << 14) | 4, (5 << 16) | (0xFFFF - 6)));
    assert_eq!(pack_key(&[1, 2, 3, 4, 5, -6], RankMode::Lv5), ((1 << 26) | (2 << 20) | (3 << 14) | (4 << 8), (5 << 16) | (0xFFFF - 6)));
    assert!(eval_link_key_max(RankMode::Link) == 0x3FFF);
}

#[test]
fn words_round_trip() {
    let words = vec![0, 1, 0x0102_0304, u32::MAX];
    let bytes = words_to_bytes(&words);
    assert_eq!(bytes[8..12], [4, 3, 2, 1]);
    assert_eq!(bytes_to_words(&bytes), words);
    assert_eq!(read_counter(&[7, 0, 0, 0]), Ok(7));
    assert_eq!(read_counter(&[7, 0, 0]).unwrap_err(), "counter読込サイズ不正");
    let mut buf = Vec::new();
    push_u32(&mut buf, 258);
    push_i32(&mut buf, -2);
    assert_eq!(buf, vec![2, 1, 0, 0, 0xFE, 0xFF, 0xFF, 0xFF]);
    assert_eq!(mask_bits(&[true, false, true]), 5);
    assert!(rank_mode_u32(RankMode::Link) != rank_mode_u32(RankMode::Lv5));
    assert!(combo_eq(&[1, 2], &[1, 2]) && !combo_eq(&[1], &[1, 2]));
    let table = bytes_to_words(&build_binom_table(4, 3).unwrap());
    assert_eq!(table, vec![1, 0, 0, 1, 1, 0, 1, 2, 1, 1, 3, 3]);
}

#[test]
fn counters_are_checked() {
    assert!(check_appended(5, 5, "appended").is_ok());
    assert!(check_appended(2_097_153, u64::MAX, "appended").unwrap_err().contains("capacity=2097152"));
    assert!(check_appended(6, 5, "x").unwrap_err().contains("x=6"));
}

#[test]
fn limits_are_told() {
    let small = vec![module(1, &[(1, 20)]), module(2, &[(1, 5)])];
    assert!(is_searchable(&small, None, &[], 2));
    let negative = vec![module(1, &[(1, -1)])];
    assert!(!is_searchable(&negative, None, &[], 1));
    assert!(is_searchable(&negative, None, &[1], 1), "it is not usable");
    let large = vec![module(1, &[(1, i32::MAX)]), module(2, &[(1, 1)])];
    assert!(is_searchable(&large, None, &[], 1));
    assert!(!is_searchable(&large, None, &[], 2));
    let asked = |m: &[Module], k| is_answerable(m, &[], None, &[], &[], &[], k);
    assert!(asked(&negative, 1));
    assert!(asked(&large, 1));
    assert!(!asked(&large, 2));
    assert!(asked(&large, 3), "too few modules");
    let mixed = vec![module(1, &[(1, i32::MAX)]), module(2, &[(1, 1), (2, -1)])];
    assert!(!asked(&mixed, 2), "attribute 1 does not fit");
    let mixed = vec![module(1, &[(1, i32::MAX)]), module(2, &[(2, 1), (3, -1)])];
    assert!(asked(&mixed, 2));
    assert!(choose_fits_machine(100, 5));
    assert!(!choose_fits_machine(1000, 500));
}

#[test]
fn negative_values_are_prepared_but_not_put_on_the_device() {
    let mut modules = pool(8);
    modules[3].parts[0].value = -4;
    let prepared = prepare(&modules, &[1001], None, &[], &[], &[], 4).unwrap();
    assert_eq!((prepared.candidate_count, prepared.combinations), (8, 70));
    let sums: Vec<i32> = prepared
        .space
        .order
        .iter()
        .map(|&i| modules[i].parts.iter().map(|p| p.value).sum())
        .collect();
    assert!(sums.windows(2).all(|w| w[0] >= w[1]));
    match decide_gpu(&prepared, 5, 4, RankMode::Link) {
        Ok(GpuDecision::Fallback(reason)) => assert!(reason.contains("負値")),
        _ => panic!("the device cannot rank negative values"),
    }
    let cpu = optimize(&modules, &[1001], None, &[], &[], &[], 5, 4, RankMode::Link).unwrap();
    let settled = settle_gpu(
        &modules,
        &[1001],
        None,
        &[],
        &[],
        &[],
        5,
        4,
        RankMode::Link,
        &prepared,
        None,
    )
    .unwrap();
    assert_eq!(shown(&settled), shown(&cpu));
    assert_eq!(settled.combinations, 70);
}
