use himitsu::error::HimitsuError;
use himitsu::migrate::{
    envelope_action, migrate_project_config, summary_lines, translate_envs_to_outputs, EnvelopeAction, LegacyEntry,
    LegacyEnv, MigratedOutput,
};

fn sel(s: &str) -> LegacyEntry {
    LegacyEntry::Selector(s.into())
}

fn alias(k: &str, v: &str) -> LegacyEntry {
    LegacyEntry::Aliases(vec![(k.into(), v.into())])
}

fn env(name: &str, entries: Vec<LegacyEntry>) -> LegacyEnv {
    LegacyEnv { name: name.into(), entries: Some(entries) }
}

#[test]
fn envs_become_outputs() {
    let envs = vec![
        env("dev", vec![sel("dev/API_KEY"), sel("tag:pci"), alias("DB", "dev/DATABASE_URL"), sel("tag:prod"), sel("dev/*")]),
        env("empty", vec![]),
    ];
    let out = translate_envs_to_outputs(Some(envs)).unwrap();
    assert_eq!(
        out,
        vec![
            MigratedOutput {
                name: "dev".into(),
                selectors: vec!["dev/API_KEY".into(), "dev/*".into(), "tag:pci+tag:prod".into()],
                aliases: vec![("DB".into(), "dev/DATABASE_URL".into())],
            },
            MigratedOutput { name: "empty".into(), selectors: vec![], aliases: vec![] },
        ]
    );
}

#[test]
fn repeated_alias_keys_keep_their_place() {
    let envs = vec![env("e", vec![alias("A", "x"), alias("B", "y"), alias("A", "z")])];
    let out = translate_envs_to_outputs(Some(envs)).unwrap();
    assert_eq!(out[0].aliases, vec![("A".to_string(), "z".to_string()), ("B".to_string(), "y".to_string())]);
}

#[test]
fn malformed_envs_are_config_errors() {
    assert_eq!(
        translate_envs_to_outputs(None),
        Err(HimitsuError::InvalidConfig("legacy `envs` block must be a mapping".into()))
    );
    assert_eq!(
        translate_envs_to_outputs(Some(vec![LegacyEnv { name: "x".into(), entries: None }])),
        Err(HimitsuError::InvalidConfig("legacy env entries must be YAML sequences".into()))
    );
    assert_eq!(
        translate_envs_to_outputs(Some(vec![env("x", vec![LegacyEntry::Aliases(vec![])])])),
        Err(HimitsuError::InvalidConfig("legacy env alias entries must have exactly one key".into()))
    );
    assert_eq!(
        translate_envs_to_outputs(Some(vec![env("ok", vec![sel("a")]), env("x", vec![LegacyEntry::Other])])),
        Err(HimitsuError::InvalidConfig("legacy env entry must be a string or single-key map".into()))
    );
}

#[test]
fn envelope_actions() {
    assert_eq!(envelope_action("/s/a.age", "", true), EnvelopeAction::Skip);
    assert_eq!(envelope_action("/s/a.age", "prod", false), EnvelopeAction::Skip);
    assert_eq!(envelope_action("/s/a.age", "prod", true), EnvelopeAction::Migrate);
    assert_eq!(
        envelope_action("/s/a.age", "Prod Env", true),
        EnvelopeAction::Warn(
            "warning: skipping /s/a.age: legacy environment \"Prod Env\" is not a valid tag".into()
        )
    );
}

#[test]
fn summary() {
    assert_eq!(
        summary_lines(2, 1, false, true),
        vec![
            "himitsu migrate envs summary".to_string(),
            "  secrets migrated: 2".into(),
            "  output blocks rewritten: 1".into(),
            "  cache deleted: false".into(),
            "  dry-run: true".into(),
        ]
    );
}

fn yaml(text: &str) -> serde_yaml::Value {
    serde_yaml::from_str(text).unwrap()
}

fn top_keys(text: &str) -> Vec<String> {
    yaml(text)
        .as_mapping()
        .unwrap()
        .keys()
        .map(|k| k.as_str().unwrap().to_string())
        .collect()
}

#[test]
fn project_config_envs_become_outputs() {
    let contents = "default_store: me/secrets\nenvs:\n  dev:\n    - dev/API_KEY\n    - tag:pci\n    - tag:prod\n    - DB: dev/db-pass\n  prod:\n    - prod/*\nother: 3\n";
    let m = migrate_project_config("himitsu.yaml", contents).unwrap().unwrap();
    assert_eq!(m.outputs, 2);
    let expected = yaml(
        "default_store: me/secrets\nother: 3\noutputs:\n  dev:\n    selectors: [dev/API_KEY, 'tag:pci+tag:prod']\n    aliases: {DB: dev/db-pass}\n  prod:\n    selectors: [prod/*]\n    aliases: {}\n",
    );
    assert_eq!(yaml(&m.text), expected);
    assert_eq!(top_keys(&m.text), vec!["default_store", "other", "outputs"]);
}

#[test]
fn project_config_last_key_moves_into_the_place_of_envs() {
    let contents = "a: 1\nenvs:\n  dev: [x]\nb: 2\nc: 3\n";
    let m = migrate_project_config("p", contents).unwrap().unwrap();
    assert_eq!(top_keys(&m.text), vec!["a", "c", "b", "outputs"]);
}

#[test]
fn project_config_existing_outputs_key_is_replaced_in_place() {
    let contents = "outputs: old\nenvs:\n  dev: [x]\nz: 1\n";
    let m = migrate_project_config("p", contents).unwrap().unwrap();
    assert_eq!(top_keys(&m.text), vec!["outputs", "z"]);
    assert_eq!(m.outputs, 1);
    assert_eq!(
        yaml(&m.text)["outputs"],
        yaml("dev:\n  selectors: [x]\n  aliases: {}\n")
    );
}

#[test]
fn project_config_without_envs_is_left_alone() {
    assert!(migrate_project_config("p", "default_store: a/b\n").unwrap().is_none());
    assert!(migrate_project_config("p", "  \n\t\n").unwrap().is_none());
}

#[test]
fn project_config_must_be_a_mapping() {
    match migrate_project_config("cfg/.himitsu.yaml", "- a\n- b\n") {
        Err(HimitsuError::InvalidConfig(m)) => assert_eq!(m, "cfg/.himitsu.yaml must be a YAML mapping"),
        other => panic!("unexpected {other:?}"),
    }
}

#[test]
fn project_config_refuses_bad_legacy_blocks() {
    match migrate_project_config("p", "envs: [a, b]\n") {
        Err(HimitsuError::InvalidConfig(m)) => assert_eq!(m, "legacy `envs` block must be a mapping"),
        other => panic!("unexpected {other:?}"),
    }
    match migrate_project_config("p", "envs:\n  dev: x\n") {
        Err(HimitsuError::InvalidConfig(m)) => assert_eq!(m, "legacy env entries must be YAML sequences"),
        other => panic!("unexpected {other:?}"),
    }
    match migrate_project_config("p", "envs:\n  dev:\n    - {A: a, B: b}\n") {
        Err(HimitsuError::InvalidConfig(m)) => {
            assert_eq!(m, "legacy env alias entries must have exactly one key")
        }
        other => panic!("unexpected {other:?}"),
    }
    match migrate_project_config("p", "envs:\n  dev:\n    - 7\n") {
        Err(HimitsuError::InvalidConfig(m)) => {
            assert_eq!(m, "legacy env entry must be a string or single-key map")
        }
        other => panic!("unexpected {other:?}"),
    }
}

#[test]
fn project_config_that_is_not_yaml_is_a_config_error() {
    assert!(matches!(
        migrate_project_config("p", "a: [1, 2\n"),
        Err(HimitsuError::InvalidConfig(_))
    ));
}
