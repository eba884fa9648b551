use bpsr_module_optimizer::capture::tcp_reassembler::TcpReassembler;
use bpsr_module_optimizer::optimizer::{
    category_of, optimize, Module, OptimizeResult, Part, RankMode,
};

fn module(key: i64, config_id: i32, parts: &[(i32, i32)]) -> Module {
    Module {
        key,
        uuid: key,
        config_id,
        name: "Test".into(),
        category: category_of(config_id).to_string(),
        quality: 4,
        parts: parts
            .iter()
            .map(|&(attr_id, value)| Part {
                attr_id,
                attr_name: format!("attr{attr_id}"),
                value,
            })
            .collect(),
    }
}

fn pool() -> Vec<Module> {
    (0..12)
        .map(|k: i64| {
            let config_id = if k % 3 == 0 { 5500203 } else { 5500103 };
            let a = 1 + (k % 5) as i32;
            let b = 1 + ((k + 2) % 6) as i32;
            module(k, config_id, &[(a, 3 + (k * 7 % 13) as i32), (b, 2 + (k * 5 % 9) as i32)])
        })
        .collect()
}

fn keys(r: &OptimizeResult) -> Vec<Vec<i64>> {
    r.solutions
        .iter()
        .map(|s| s.modules.iter().map(|m| m.key).collect())
        .collect()
}

#[test]
fn fewer_solutions_are_the_first_of_more() {
    let modules = pool();
    let many = optimize(&modules, &[2], None, &[], &[], &[], 20, 4, RankMode::Link).unwrap();
    for k in [1, 3, 19] {
        let few = optimize(&modules, &[2], None, &[], &[], &[], k, 4, RankMode::Link).unwrap();
        assert_eq!(keys(&few)[..], keys(&many)[..k]);
    }
}

#[test]
fn a_target_that_no_module_has_changes_nothing() {
    let modules = pool();
    for mode in [RankMode::Link, RankMode::Lv5] {
        let with = optimize(&modules, &[2, 99], None, &[], &[], &[], 8, 4, mode).unwrap();
        let without = optimize(&modules, &[2], None, &[], &[], &[], 8, 4, mode).unwrap();
        assert_eq!(keys(&with), keys(&without));
    }
}

#[test]
fn solutions_keep_to_the_rules() {
    let modules = pool();
    let r = optimize(
        &modules,
        &[],
        Some("attack"),
        &[4],
        &[],
        &[(1, 2)],
        30,
        4,
        RankMode::Link,
    )
    .unwrap();
    assert!(!r.solutions.is_empty());
    for s in &r.solutions {
        assert_eq!(s.modules.len(), 4);
        assert!(s.modules.iter().all(|m| m.category == "attack"));
        assert!(s.modules.iter().all(|m| m.parts.iter().all(|p| p.attr_id != 4)));
        assert!(s.breakdown.iter().any(|b| b.attr_id == 1 && b.level >= 2));
    }
}

#[test]
fn priorities_come_in_order() {
    let modules = pool();
    for mode in [RankMode::Link, RankMode::Lv5] {
        let r = optimize(&modules, &[1, 6], None, &[], &[3], &[], 50, 4, mode).unwrap();
        for pair in r.solutions.windows(2) {
            let rank = |s: &bpsr_module_optimizer::optimizer::Solution| {
                let (x, y) = match mode {
                    RankMode::Link => (s.eval_link as i64, s.lv5_count as i64),
                    RankMode::Lv5 => (s.lv5_count as i64, s.eval_link as i64),
                };
                let left_out = (s.link_effect - s.eval_link) as i64;
                (s.selected_present, s.selected_lv6, s.lv6_count, x, y, -left_out)
            };
            assert!(rank(&pair[0]) >= rank(&pair[1]));
        }
    }
}

#[test]
fn overtaking_segments_change_nothing() {
    let frame = |n: u8| {
        let mut f = 20u32.to_be_bytes().to_vec();
        f.extend(vec![n; 16]);
        f
    };
    let all: Vec<u8> = [frame(1), frame(2), frame(3)].concat();
    let start = 7u32;
    let mut ordered = TcpReassembler::new();
    ordered.clear(start);
    let mut expected = ordered.reassemble(start, &all[..25], false);
    expected.extend(ordered.reassemble(start + 25, &all[25..], false));
    let mut swapped = TcpReassembler::new();
    swapped.clear(start);
    assert!(swapped.reassemble(start + 25, &all[25..], false).is_empty());
    assert_eq!(swapped.reassemble(start, &all[..25], false), expected);
    assert_eq!(expected.len(), 3);
}

fn orders(n: usize) -> Vec<Vec<usize>> {
    if n == 0 {
        return vec![vec![]];
    }
    let mut all = Vec::new();
    for order in orders(n - 1) {
        for at in 0..n {
            let mut more = order.clone();
            more.insert(at, n - 1);
            all.push(more);
        }
    }
    all
}

#[test]
fn segments_may_arrive_in_any_order() {
    let mut stream: Vec<u8> = Vec::new();
    let mut frames: Vec<Vec<u8>> = Vec::new();
    for n in 1..4u8 {
        let mut f = u32::from(10 * n).to_be_bytes().to_vec();
        f.resize(10 * n as usize, n);
        stream.extend(&f);
        frames.push(f);
    }
    stream.extend([0, 0, 0]);
    let cuts = [0, 3, 10, 25, 29, stream.len()];
    for start in [7u32, u32::MAX - 20] {
        for clear in [false, true] {
            for order in orders(5) {
                let mut r = TcpReassembler::new();
                r.clear(start);
                let mut out = Vec::new();
                for &i in &order {
                    let seq = start.wrapping_add(cuts[i] as u32);
                    out.extend(r.reassemble(seq, &stream[cuts[i]..cuts[i + 1]], clear));
                }
                assert_eq!(out, frames, "{:?}", order);
                let seq = start.wrapping_add(stream.len() as u32);
                let last = r.reassemble(seq, &[6, 1, 2], clear);
                assert_eq!(last, vec![vec![0, 0, 0, 6, 1, 2]], "what was left is kept");
            }
        }
    }
}
