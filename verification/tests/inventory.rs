use bpsr_module_optimizer::attrs::{all, attr_name, module_name};
use bpsr_module_optimizer::command_line::quote_arguments;
use bpsr_module_optimizer::inventory::{
    clamp_request, module_signature, should_save, DumpModule, DumpPart, Inventory,
};
use bpsr_module_optimizer::optimizer::Module;

fn saved(key: i64, config_id: i32, attr_id: i32, value: i32) -> DumpModule {
    DumpModule {
        key,
        uuid: key,
        config_id,
        name: "old name".into(),
        quality: 3,
        parts: vec![DumpPart {
            attr_id,
            attr_name: "old attribute".into(),
            value,
        }],
    }
}

#[test]
fn saved_modules_get_known_names() {
    let known = all()[0].id;
    let m = Module::from_dump(saved(1, 5500103, known, 7));
    assert_eq!(Some(m.name.as_str()), module_name(5500103));
    assert_eq!(Some(m.parts[0].attr_name.as_str()), attr_name(known));
    assert_eq!((m.category.as_str(), m.parts[0].value), ("attack", 7));
    let m = Module::from_dump(saved(1, 42, -1, 7));
    assert_eq!((m.name.as_str(), m.parts[0].attr_name.as_str()), ("old name", "old attribute"));
}

#[test]
fn signatures_tell_changes_but_no_order() {
    let make = |key: i64, value: i32| Module::from_dump(saved(key, 5500103, 1110, value));
    let a = module_signature(&[make(1, 5), make(2, 6)]);
    assert_eq!(a, module_signature(&[make(2, 6), make(1, 5)]));
    assert_ne!(a, module_signature(&[make(1, 5), make(2, 7)]));
    assert_ne!(a, module_signature(&[make(1, 5)]));
    assert_eq!(module_signature(&[]), 0);
    let one = 1u64 ^ 1u64.wrapping_mul(0x9E37_79B9_7F4A_7C15) ^ 3u64.wrapping_mul(0x0100_0000_01B3) ^ 5;
    assert_eq!(module_signature(&[make(1, 5)]), one);
}

#[test]
fn saving_waits_and_skips_what_is_saved() {
    assert!(should_save(None, 1, None));
    assert!(!should_save(Some(1), 1, None));
    assert!(!should_save(Some(2), 1, Some(4999)));
    assert!(should_save(Some(2), 1, Some(5000)));
}

#[test]
fn requests_are_clamped() {
    assert_eq!(clamp_request(0, 0), (1, 4));
    assert_eq!(clamp_request(7, 5), (7, 5));
    assert_eq!(clamp_request(1000, 9), (100, 5));
}

#[test]
fn inventories_are_replaced() {
    let mut s = Inventory::new();
    assert_eq!((s.source.as_str(), s.last_update_ms), ("none", None));
    s.replace(vec![Module::from_dump(saved(1, 1, 1, 1))], Some(9), "capture");
    assert_eq!((s.modules.len(), s.last_update_ms), (1, Some(9)));
    s.replace(vec![], None, "dump");
    assert_eq!((s.source.as_str(), s.last_update_ms), ("dump", Some(9)));
}

#[test]
fn arguments_are_quoted() {
    assert_eq!(quote_arguments(&vec![]), "");
    let args = vec!["a b".to_string(), "ソ\"ラ".to_string(), "".to_string()];
    assert_eq!(quote_arguments(&args), "\"a b\" \"ソ\\\"ラ\" \"\"");
}
