use himitsu::args::SchemaName;
use himitsu::schema::{list_text, refreshed_line};

#[test]
fn schema_names_are_unique() {
    let names: Vec<String> = SchemaName::all().iter().map(|n| n.to_string()).collect();
    let mut deduped = names.clone();
    deduped.sort();
    deduped.dedup();
    assert_eq!(names.len(), deduped.len(), "duplicate schema names found");
}

#[test]
fn schema_file_names_are_unique() {
    let fnames: Vec<&str> = SchemaName::all().iter().map(|n| n.file_name()).collect();
    let mut deduped = fnames.clone();
    deduped.sort();
    deduped.dedup();
    assert_eq!(fnames.len(), deduped.len(), "duplicate schema file names found");
}

#[test]
fn list_shows_names_descriptions_and_files() {
    let text = list_text();
    assert!(text.starts_with("Available schemas:\n\n  config               Unified config (.himitsu.yaml)\n                       file: config.schema.json\n\n"));
    assert!(text.contains("  share-envelope       Share envelope (transport-agnostic sharing payload)\n"));
    assert_eq!(refreshed_line("/s/schemas"), "refreshed 3 schemas in /s/schemas");
}
