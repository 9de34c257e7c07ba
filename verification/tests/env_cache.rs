use himitsu::env_cache::{
    cache_matches, entry_row, entry_rows, hash_bytes, read_entries, row_entry, EntryRow, Scope,
};
use himitsu::env_dsl::EnvEntry;
use himitsu::error::HimitsuError;

fn s(v: &[&str]) -> Vec<String> {
    v.iter().map(|x| x.to_string()).collect()
}

fn row(kind: &str, value: &str, key: Option<&str>) -> EntryRow {
    EntryRow { kind: kind.into(), value: value.into(), alias_key: key.map(String::from) }
}

#[test]
fn scope_names_round_trip() {
    assert_eq!(Scope::Project.as_str(), "project");
    assert_eq!(Scope::Global.as_str(), "global");
    assert_eq!(Scope::from_str("project"), Ok(Scope::Project));
    assert_eq!(Scope::from_str("global"), Ok(Scope::Global));
    assert_eq!(
        Scope::from_str("local"),
        Err(HimitsuError::Index("invalid scope 'local' in env_cache".into()))
    );
}

#[test]
fn every_entry_kind_round_trips_through_a_row() {
    let entries = vec![
        EnvEntry::Single("dev/API_KEY".into()),
        EnvEntry::Alias { key: "DB".into(), path: "dev/DATABASE_URL".into() },
        EnvEntry::Glob("dev/*".into()),
        EnvEntry::Tag("pci".into()),
        EnvEntry::AliasTag { key: "STRIPE".into(), tag: "stripe".into() },
    ];
    let rows = entry_rows(&entries);
    let kinds: Vec<&str> = rows.iter().map(|r| r.kind.as_str()).collect();
    assert_eq!(kinds, vec!["single", "alias", "glob", "tag", "alias_tag"]);
    assert_eq!(rows[1].value, "dev/DATABASE_URL");
    assert_eq!(rows[1].alias_key.as_deref(), Some("DB"));
    assert_eq!(rows[0].alias_key, None);
    assert_eq!(read_entries(&rows), Ok(entries));
}

#[test]
fn malformed_rows_are_index_errors() {
    assert_eq!(
        row_entry(&row("alias", "p", None)),
        Err(HimitsuError::Index("alias row missing alias_key".into()))
    );
    assert_eq!(
        row_entry(&row("alias_tag", "t", None)),
        Err(HimitsuError::Index("alias_tag row missing alias_key".into()))
    );
    assert_eq!(
        row_entry(&row("weird", "x", None)),
        Err(HimitsuError::Index("unknown env_entry kind 'weird'".into()))
    );
    // The first bad row stops the read.
    let rows = vec![row("single", "a", None), row("bogus", "b", None), row("alias", "c", None)];
    assert_eq!(
        read_entries(&rows),
        Err(HimitsuError::Index("unknown env_entry kind 'bogus'".into()))
    );
    assert_eq!(read_entries(&[]), Ok(vec![]));
}

#[test]
fn single_entry_row() {
    let r = entry_row(&EnvEntry::Single("x/y".into()));
    assert_eq!((r.kind.as_str(), r.value.as_str(), r.alias_key), ("single", "x/y", None));
}

#[test]
fn fingerprints_are_sha256_hex() {
    assert_eq!(
        hash_bytes(b""),
        "e3b0c44298fc1c149afbf4c8996fb92427ae41e4649b934ca495991b7852b855"
    );
    assert_eq!(
        hash_bytes(b"abc"),
        "ba7816bf8f01cfea414140de5dae2223b00361a396177a9cb410ff61f20015ad"
    );
    assert_eq!(hash_bytes(b"envs: {}\n").len(), 64);
}

#[test]
fn freshness_decisions() {
    let h = "abc";
    // Nothing cached: current only when there is nothing to cache.
    assert!(cache_matches(&[], &[], h, &[]));
    assert!(!cache_matches(&[], &[], h, &s(&["dev"])));
    // One fingerprint, same labels in any order.
    assert!(cache_matches(&s(&["abc"]), &s(&["prod", "dev"]), h, &s(&["dev", "prod"])));
    // Stale fingerprint.
    assert!(!cache_matches(&s(&["old"]), &s(&["dev"]), h, &s(&["dev"])));
    // Mixed fingerprints.
    assert!(!cache_matches(&s(&["abc", "old"]), &s(&["dev"]), h, &s(&["dev"])));
    // Label sets differ either way.
    assert!(!cache_matches(&s(&["abc"]), &s(&["dev"]), h, &s(&["dev", "prod"])));
    assert!(!cache_matches(&s(&["abc"]), &s(&["dev", "prod"]), h, &s(&["dev"])));
}
