use himitsu::outputs::{add_output_entry, remove_output, OutputDef, OutputsMap, SelectorEntry};
use himitsu::strmap::StrMap;

fn output(selector: &str) -> OutputDef {
    OutputDef { selectors: vec![SelectorEntry(selector.to_string())], aliases: StrMap::new() }
}

#[test]
fn add_output_entry_to_empty_map() {
    let mut outputs: OutputsMap = StrMap::new();

    add_output_entry(&mut outputs, "pci-prod", output("tag:pci+tag:prod")).unwrap();

    assert_eq!(outputs.get("pci-prod").unwrap(), &output("tag:pci+tag:prod"));
}

#[test]
fn add_output_entry_to_map_with_existing_entries() {
    let mut outputs: OutputsMap = StrMap::new();
    add_output_entry(&mut outputs, "dev", output("tag:dev")).unwrap();

    add_output_entry(&mut outputs, "prod", output("tag:prod")).unwrap();

    assert_eq!(outputs.get("dev").unwrap(), &output("tag:dev"));
    assert_eq!(outputs.get("prod").unwrap(), &output("tag:prod"));
}

#[test]
fn remove_existing_output_entry() {
    let mut outputs: OutputsMap = StrMap::new();
    add_output_entry(&mut outputs, "prod", output("tag:prod")).unwrap();

    remove_output(&mut outputs, "prod").unwrap();

    assert!(!outputs.contains_key("prod"));
}

#[test]
fn remove_missing_output_entry_is_noop() {
    let mut outputs: OutputsMap = StrMap::new();

    remove_output(&mut outputs, "missing").unwrap();

    assert!(outputs.is_empty());
}

#[test]
fn add_same_output_entry_twice_is_idempotent() {
    let mut once: OutputsMap = StrMap::new();
    add_output_entry(&mut once, "prod", output("tag:prod")).unwrap();

    let mut twice: OutputsMap = StrMap::new();
    add_output_entry(&mut twice, "prod", output("tag:prod")).unwrap();
    add_output_entry(&mut twice, "prod", output("tag:prod")).unwrap();

    assert_eq!(twice, once);
}

// ── Further cases ────────────────────────────────────────────────────────

#[test]
fn empty_output_name_is_rejected() {
    let mut outputs: OutputsMap = StrMap::new();
    assert!(add_output_entry(&mut outputs, "", output("x")).is_err());
    assert!(remove_output(&mut outputs, "").is_err());
    assert!(outputs.is_empty());
}

#[test]
fn same_name_with_new_definition_replaces() {
    let mut outputs: OutputsMap = StrMap::new();
    add_output_entry(&mut outputs, "prod", output("tag:a")).unwrap();
    add_output_entry(&mut outputs, "prod", output("tag:b")).unwrap();
    assert_eq!(outputs.len(), 1);
    assert_eq!(outputs.get("prod").unwrap(), &output("tag:b"));
}

#[test]
fn cloned_outputs_map_keeps_keys_in_order_and_values() {
    let mut outputs: OutputsMap = StrMap::new();
    add_output_entry(&mut outputs, "prod", output("tag:prod")).unwrap();
    add_output_entry(&mut outputs, "dev", output("tag:dev")).unwrap();

    let copy = outputs.clone();

    assert_eq!(copy, outputs);
    assert_eq!(copy.keys(), vec!["dev".to_string(), "prod".to_string()]);
    assert_eq!(copy.get("dev").unwrap(), &output("tag:dev"));
}

#[test]
fn removing_an_added_output_restores_the_map() {
    let mut outputs: OutputsMap = StrMap::new();
    add_output_entry(&mut outputs, "dev", output("tag:dev")).unwrap();
    add_output_entry(&mut outputs, "prod", output("tag:prod")).unwrap();
    let before = outputs.clone();

    add_output_entry(&mut outputs, "ci", output("tag:ci")).unwrap();
    remove_output(&mut outputs, "ci").unwrap();

    assert_eq!(outputs, before);
}
