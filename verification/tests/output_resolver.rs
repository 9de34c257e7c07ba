use himitsu::error::HimitsuError;
use himitsu::output_resolver::{needs_scan, OutputResolver};
use himitsu::outputs::{OutputDef, OutputsMap, SelectorEntry};
use himitsu::secret::{Decoded, Timestamp};
use himitsu::strmap::StrMap;

fn def(selectors: &[&str]) -> OutputDef {
    OutputDef {
        selectors: selectors.iter().map(|s| SelectorEntry((*s).to_string())).collect(),
        aliases: StrMap::new(),
    }
}

fn aliased(pairs: &[(&str, &str)]) -> OutputDef {
    OutputDef {
        selectors: Vec::new(),
        aliases: StrMap::from_pairs(
            pairs.iter().map(|(k, v)| ((*k).to_string(), (*v).to_string())).collect(),
        ),
    }
}

fn outputs(pairs: Vec<(&str, OutputDef)>) -> OutputsMap {
    StrMap::from_pairs(pairs.into_iter().map(|(k, v)| (k.to_string(), v)).collect())
}

fn secret(data: &[u8], tags: &[&str]) -> Decoded {
    let mut d = Decoded::plain(data.to_vec());
    d.tags = tags.iter().map(|t| t.to_string()).collect();
    d
}

fn locked(path: &str) -> HimitsuError {
    HimitsuError::DecryptionFailed(format!("no identity can decrypt '{path}'"))
}

/// What the caller hands in for an output's entries: nothing for those the
/// scan decoded, the decryption failure for the others.
fn fetch_failures(r: &OutputResolver, label: &str) -> Vec<Option<Result<Decoded, HimitsuError>>> {
    let output = r.get(label).unwrap();
    r.needs_value(output)
        .iter()
        .zip(output.entries.iter())
        .map(|(need, e)| if *need { Some(Err(locked(&e.secret_path))) } else { None })
        .collect()
}

#[test]
fn open_is_cheap_when_no_outputs_are_defined() {
    // No outputs: nothing to scan, nothing resolved, every label unknown.
    assert!(!needs_scan(&StrMap::new()));
    let outputs = OutputResolver::empty();
    assert!(outputs.all().is_empty());
    assert!(outputs.env_map("anything", &[], vec![]).is_none());
    assert!(outputs.get("anything").is_none());
}

#[test]
fn open_tolerates_missing_identities() {
    // No identity: the scan decodes nothing, so candidates carry no tags and
    // the tag selector matches nothing; naming the secret directly needs
    // its value, which fails.
    let map = outputs(vec![("app", def(&["tag:pci"])), ("direct", def(&["prod/api-key"]))]);
    assert!(needs_scan(&map));
    let outputs = OutputResolver::open(&map, vec![("prod/api-key".to_string(), None)])
        .expect("open tolerates no identities");
    let env = outputs.env_map("app", &[], vec![]).unwrap().expect("defined");
    assert!(env.is_empty(), "{env:?}");
    let fetched = fetch_failures(&outputs, "direct");
    assert!(outputs.env_map("direct", &[], fetched).unwrap().is_err());
}

#[test]
fn env_map_is_tri_state() {
    let map = outputs(vec![("app", def(&["tag:pci"]))]);
    let outputs = OutputResolver::open(
        &map,
        vec![("prod/api-key".to_string(), Some(secret(b"v1", &["pci"])))],
    )
    .unwrap();
    assert!(outputs.env_map("nope", &[], vec![]).is_none());
    let env = outputs.env_map("app", &[], vec![None]).unwrap().unwrap();
    assert_eq!(env.get("API_KEY").map(String::as_str), Some("v1"));
}

#[test]
fn undecryptable_secret_matches_no_tags_but_value_is_hard_error() {
    let map = outputs(vec![
        ("tagged", def(&["tag:pci"])),
        ("direct", aliased(&[("LOCKED", "prod/foreign")])),
    ]);
    let outputs = OutputResolver::open(
        &map,
        vec![
            ("prod/mine".to_string(), Some(secret(b"ok", &["pci"]))),
            ("prod/foreign".to_string(), None),
        ],
    )
    .unwrap();
    let env = outputs.env_map("tagged", &[], vec![None]).unwrap().unwrap();
    assert_eq!(env.len(), 1);
    assert!(env.contains_key("MINE"));
    let fetched = fetch_failures(&outputs, "direct");
    let err = outputs.env_map("direct", &[], fetched).unwrap().unwrap_err();
    assert!(matches!(err, HimitsuError::DecryptionFailed(_)), "{err:?}");
}

#[test]
fn cross_store_entry_is_rejected_by_env_map_before_any_value_work() {
    let map = outputs(vec![("app", aliased(&[("SHARED", "github:acme/other#prod/key")]))]);
    let outputs = OutputResolver::open(
        &map,
        vec![("prod/local".to_string(), Some(secret(b"v", &[])))],
    )
    .unwrap();
    let err = outputs.env_map("app", &[], vec![None]).unwrap().unwrap_err();
    match err {
        HimitsuError::NotSupported(msg) => {
            assert!(msg.contains("cross-store"), "{msg}");
            assert!(msg.contains("prod/key"), "{msg}");
        }
        other => panic!("expected NotSupported, got {other:?}"),
    }
    let entry = &outputs.get("app").unwrap().entries[0];
    assert_eq!(entry.store_slug.as_deref(), Some("acme/other"));
}

#[test]
fn tag_filter_applies_before_conflict_detection() {
    let map = outputs(vec![("app", def(&["prod/*", "staging/*"]))]);
    let outputs = OutputResolver::open(
        &map,
        vec![
            ("prod/api-key".to_string(), Some(secret(b"p", &["prod"]))),
            ("staging/api-key".to_string(), Some(secret(b"s", &[]))),
        ],
    )
    .unwrap();
    let err = outputs.env_map("app", &[], vec![None, None]).unwrap().unwrap_err();
    match err {
        HimitsuError::InvalidConfig(msg) => {
            assert!(msg.contains("prod/api-key"), "{msg}");
            assert!(msg.contains("staging/api-key"), "{msg}");
        }
        other => panic!("expected InvalidConfig, got {other:?}"),
    }
    let env = outputs
        .env_map("app", &["prod".to_string()], vec![None, None])
        .unwrap()
        .expect("defined");
    assert_eq!(env.get("API_KEY").map(String::as_str), Some("p"));
}

#[test]
fn decode_preserves_duplicates_order_and_metadata() {
    let map = outputs(vec![("app", def(&["prod/*", "staging/*"]))]);
    let outputs = OutputResolver::open(
        &map,
        vec![
            ("prod/api-key".to_string(), Some(secret(b"p", &[]))),
            ("staging/api-key".to_string(), Some(secret(b"s", &[]))),
        ],
    )
    .unwrap();
    let resolved = outputs.get("app").unwrap();
    let entries = outputs.decode(resolved, vec![None, None]).unwrap();
    assert_eq!(entries.len(), 2);
    assert!(entries.iter().all(|e| e.env_key == "API_KEY"));
    assert!(entries.iter().all(|e| e.store_slug.is_none()));
    let now = Timestamp { seconds: 1_700_000_000, nanos: 0 };
    assert!(entries.iter().all(|e| e.expiry_warning(now).is_none()));
    let values: Vec<&str> = entries.iter().map(|e| e.value.as_str()).collect();
    assert_eq!(values, ["p", "s"]);
}

#[test]
fn non_utf8_value_is_a_hard_error() {
    let map = outputs(vec![("app", def(&["prod/blob"]))]);
    let outputs = OutputResolver::open(
        &map,
        vec![("prod/blob".to_string(), Some(secret(&[0xff, 0xfe, 0x00], &[])))],
    )
    .unwrap();
    assert!(matches!(
        outputs.env_map("app", &[], vec![None]).unwrap().unwrap_err(),
        HimitsuError::InvalidReference(_)
    ));
    let resolved = outputs.get("app").unwrap();
    assert!(matches!(
        outputs.decode(resolved, vec![None]).unwrap_err(),
        HimitsuError::DecryptionFailed(_)
    ));
}

#[test]
fn resolve_map_previews_an_unsaved_map_against_the_open_scan() {
    let map = outputs(vec![("app", def(&["prod/api-key"]))]);
    let outputs = OutputResolver::open(
        &map,
        vec![("prod/api-key".to_string(), Some(secret(b"v", &["pci"])))],
    )
    .unwrap();
    let preview_map = outputs_preview();
    let resolved = outputs.resolve_map(&preview_map).unwrap();
    assert_eq!(resolved.len(), 1);
    assert_eq!(resolved[0].name, "preview");
    assert_eq!(resolved[0].entries[0].secret_path, "prod/api-key");
}

fn outputs_preview() -> OutputsMap {
    outputs(vec![("preview", def(&["tag:pci"]))])
}

// -- Own tests --

#[test]
fn decode_uses_fetched_values_for_cross_store_entries() {
    let map = outputs(vec![("app", aliased(&[("SHARED", "github:acme/other#prod/key")]))]);
    let outputs = OutputResolver::open(&map, vec![]).unwrap();
    let resolved = outputs.get("app").unwrap();
    assert_eq!(outputs.needs_value(resolved), vec![true]);
    let mut fetched = secret(b"remote", &[]);
    fetched.expires_at = Some(Timestamp { seconds: 100, nanos: 0 });
    let entries = outputs.decode(resolved, vec![Some(Ok(fetched))]).unwrap();
    assert_eq!(entries[0].value, "remote");
    assert_eq!(entries[0].store_slug.as_deref(), Some("acme/other"));
    let warning = entries[0].expiry_warning(Timestamp { seconds: 200, nanos: 0 }).unwrap();
    assert_eq!(warning, "warning: secret 'prod/key' expired at 1970-01-01T00:01:40+00:00");
}

#[test]
fn alias_exactly_one_violation_surfaces_at_open() {
    // Selector-valued alias matching zero secrets: whole-map validation
    // fails at open, even though a caller may want a different output.
    let map = outputs(vec![("ok", def(&["prod/x"])), ("broken", aliased(&[("K", "tag:nomatch")]))]);
    let scan = vec![("prod/x".to_string(), Some(secret(b"v", &[])))];
    assert!(OutputResolver::open(&map, scan).is_err());
}

#[test]
fn selector_valued_alias_matching_one_secret_opens() {
    let map = outputs(vec![("app", aliased(&[("K", "tag:stripe"), ("L", "prod/x")]))]);
    let scan = vec![
        ("prod/x".to_string(), Some(secret(b"v", &[]))),
        ("prod/stripe".to_string(), Some(secret(b"s", &["stripe"]))),
    ];
    let r = OutputResolver::open(&map, scan).unwrap();
    assert_eq!(r.get("app").unwrap().entries.len(), 2);
    // Two matches is as bad as none.
    let scan = vec![
        ("a".to_string(), Some(secret(b"v", &["stripe"]))),
        ("b".to_string(), Some(secret(b"s", &["stripe"]))),
    ];
    let map = outputs(vec![("app", aliased(&[("K", "tag:stripe")]))]);
    assert_eq!(
        OutputResolver::open(&map, scan).err(),
        Some(HimitsuError::InvalidConfig(
            "alias 'K' expects exactly one secret matching 'tag:stripe', found 2".into()
        ))
    );
}
