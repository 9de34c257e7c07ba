use himitsu::env_dsl::{
    derive_env_key, expand_brace_label, resolve_all, resolve_concrete_env, substitute_placeholder,
    EnvEntry,
};
use himitsu::strmap::StrMap;

fn s(strs: &[&str]) -> Vec<String> {
    strs.iter().map(|x| x.to_string()).collect()
}

#[test]
fn expand_brace_label_no_brace_returns_single() {
    let v = expand_brace_label("dev");
    assert_eq!(v, vec![("dev".to_string(), "".to_string())]);
}

#[test]
fn expand_brace_label_three_values() {
    let v = expand_brace_label("my-env-{dev,prod,stg}");
    assert_eq!(
        v,
        vec![
            ("my-env-dev".to_string(), "dev".to_string()),
            ("my-env-prod".to_string(), "prod".to_string()),
            ("my-env-stg".to_string(), "stg".to_string()),
        ]
    );
}

#[test]
fn expand_brace_label_trims_whitespace() {
    let v = expand_brace_label("e-{a, b , c}");
    assert_eq!(
        v.iter().map(|(l, _)| l.as_str()).collect::<Vec<_>>(),
        vec!["e-a", "e-b", "e-c"]
    );
}

#[test]
fn derive_env_key_handles_dashes_and_slashes() {
    assert_eq!(derive_env_key("api-key"), "API_KEY");
    assert_eq!(derive_env_key("group/item-name"), "GROUP__ITEM_NAME");
    assert_eq!(derive_env_key("DB_PASS"), "DB_PASS");
}

#[test]
fn substitute_placeholder_replaces_braces() {
    assert_eq!(substitute_placeholder("ref-{}", "dev"), "ref-dev");
    assert_eq!(
        substitute_placeholder("noplaceholder", "x"),
        "noplaceholder"
    );
    assert_eq!(substitute_placeholder("a/{}/b", "mid"), "a/mid/b");
}

#[test]
fn resolve_concrete_env_single_match() {
    let entries = vec![EnvEntry::Single("app/api-key".into())];
    let items = s(&["app/api-key", "other"]);
    let out = resolve_concrete_env("e", "", &entries, &items);
    assert_eq!(out.pairs.len(), 1);
    assert_eq!(out.pairs[0].key, "API_KEY");
    assert_eq!(out.pairs[0].item_path, "app/api-key");
    assert!(out.warnings.is_empty());
}

#[test]
fn resolve_concrete_env_alias_overrides_key() {
    let entries = vec![EnvEntry::Alias {
        key: "MYDB".into(),
        path: "db/secret".into(),
    }];
    let items = s(&["db/secret"]);
    let out = resolve_concrete_env("e", "", &entries, &items);
    assert_eq!(out.pairs[0].key, "MYDB");
}

#[test]
fn resolve_concrete_env_glob_no_match_warns() {
    let entries = vec![EnvEntry::Glob("nope".into())];
    let items = s(&["other/x"]);
    let out = resolve_concrete_env("e", "", &entries, &items);
    assert!(out.pairs.is_empty());
    assert_eq!(out.warnings.len(), 1);
}

#[test]
fn resolve_concrete_env_glob_collects_pairs() {
    let entries = vec![EnvEntry::Glob("api".into())];
    let items = s(&["api/key-one", "api/key-two", "other"]);
    let out = resolve_concrete_env("e", "", &entries, &items);
    let keys: Vec<_> = out.pairs.iter().map(|p| p.key.clone()).collect();
    assert!(keys.contains(&"KEY_ONE".to_string()));
    assert!(keys.contains(&"KEY_TWO".to_string()));
    assert!(out.warnings.is_empty());
}

#[test]
fn resolve_all_with_brace_expansion() {
    let mut envs: StrMap<Vec<EnvEntry>> = StrMap::new();
    envs.insert(
        "env-{dev,prod}".to_string(),
        vec![EnvEntry::Alias {
            key: "DB".into(),
            path: "{}/db".into(),
        }],
    );
    let items = s(&["dev/db", "prod/db"]);
    let out = resolve_all(&envs, &items);
    assert_eq!(out.pairs.len(), 2);
    let labels: Vec<_> = out.pairs.iter().map(|p| p.env_label.clone()).collect();
    assert!(labels.contains(&"env-dev".to_string()));
    assert!(labels.contains(&"env-prod".to_string()));
}


// ── Further cases ────────────────────────────────────────────────────────

#[test]
fn expand_brace_label_drops_empty_values() {
    let v = expand_brace_label("e-{a,,b}");
    assert_eq!(
        v,
        vec![("e-a".to_string(), "a".to_string()), ("e-b".to_string(), "b".to_string())]
    );
}

#[test]
fn resolve_concrete_env_missing_single_warns() {
    let entries = vec![EnvEntry::Single("app/missing".into())];
    let items = s(&["app/other"]);
    let out = resolve_concrete_env("e", "", &entries, &items);
    assert_eq!(out.pairs.len(), 1);
    assert_eq!(out.warnings.len(), 1);
    assert_eq!(out.warnings[0].message, "item 'app/missing' not found in store");
}
