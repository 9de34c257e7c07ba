use himitsu::env_dsl::EnvEntry;
use himitsu::env_resolver::{
    resolve, resolve_with_tag_lists, resolve_with_tags, substitute_dollar_one, EnvNode,
};
use himitsu::error::HimitsuError;
use himitsu::strmap::StrMap;

fn envs(pairs: Vec<(&str, Vec<EnvEntry>)>) -> StrMap<Vec<EnvEntry>> {
    StrMap::from_pairs(pairs.into_iter().map(|(k, v)| (k.to_string(), v)).collect())
}

fn strs(xs: &[&str]) -> Vec<String> {
    xs.iter().map(|s| s.to_string()).collect()
}

fn branch(n: &EnvNode) -> &StrMap<EnvNode> {
    match n {
        EnvNode::Branch(m) => m,
        EnvNode::Leaf { secret_path } => panic!("expected Branch, got Leaf({secret_path})"),
    }
}

fn leaf_path(n: &EnvNode) -> &str {
    match n {
        EnvNode::Leaf { secret_path } => secret_path,
        _ => panic!("expected Leaf"),
    }
}

/// A lookup backed by a path -> tags table; unknown paths carry no tags.
fn mk_tag_lookup(
    map: Vec<(&'static str, Vec<&'static str>)>,
) -> impl Fn(&str) -> Result<Vec<String>, HimitsuError> {
    move |path: &str| {
        Ok(map
            .iter()
            .find(|(p, _)| *p == path)
            .map(|(_, ts)| ts.iter().map(|t| t.to_string()).collect())
            .unwrap_or_default())
    }
}

#[test]
fn concrete_label_with_single_alias_glob() {
    let e = envs(vec![(
        "dev",
        vec![
            EnvEntry::Single("dev/API_KEY".into()),
            EnvEntry::Alias { key: "DB".into(), path: "dev/DB_PASS".into() },
            EnvEntry::Glob("extras".into()),
        ],
    )]);
    let secrets = strs(&["extras/TOKEN_A", "extras/TOKEN_B", "unrelated/x"]);
    let tree = resolve(&e, "dev", &secrets).unwrap();
    let root = branch(&tree);
    let dev = branch(root.get("dev").unwrap());
    assert_eq!(leaf_path(dev.get("API_KEY").unwrap()), "dev/API_KEY");
    assert_eq!(leaf_path(dev.get("DB").unwrap()), "dev/DB_PASS");
    assert_eq!(leaf_path(dev.get("TOKEN_A").unwrap()), "extras/TOKEN_A");
    assert_eq!(leaf_path(dev.get("TOKEN_B").unwrap()), "extras/TOKEN_B");
    assert!(dev.get("x").is_none());
}

#[test]
fn wildcard_with_zero_matches_is_empty_branch() {
    let e = envs(vec![(
        "foo/*",
        vec![EnvEntry::Alias { key: "POSTGRES".into(), path: "/$1/postgres-url".into() }],
    )]);
    let tree = resolve(&e, "foo/*", &[]).unwrap();
    let root = branch(&tree);
    let foo = branch(root.get("foo").unwrap());
    assert!(foo.is_empty(), "expected empty branch, got {foo:?}");
}

#[test]
fn wildcard_single_match() {
    let e = envs(vec![(
        "foo/*",
        vec![EnvEntry::Alias { key: "POSTGRES".into(), path: "$1/postgres-url".into() }],
    )]);
    let secrets = strs(&["dev/postgres-url"]);
    let tree = resolve(&e, "foo/*", &secrets).unwrap();
    let foo = branch(branch(&tree).get("foo").unwrap());
    let dev = branch(foo.get("dev").unwrap());
    assert_eq!(leaf_path(dev.get("POSTGRES").unwrap()), "dev/postgres-url");
}

#[test]
fn wildcard_canonical_dollar_one_example() {
    let e = envs(vec![(
        "foo/*",
        vec![EnvEntry::Alias { key: "POSTGRES".into(), path: "/$1/postgres-url".into() }],
    )]);
    let secrets = strs(&["dev/postgres-url", "prod/postgres-url"]);
    let tree = resolve(&e, "foo/*", &secrets).unwrap();
    let root = branch(&tree);
    assert_eq!(root.len(), 1);
    let foo = branch(root.get("foo").unwrap());
    assert_eq!(foo.len(), 2);
    let dev = branch(foo.get("dev").unwrap());
    assert_eq!(leaf_path(dev.get("POSTGRES").unwrap()), "/dev/postgres-url");
    let prod = branch(foo.get("prod").unwrap());
    assert_eq!(leaf_path(prod.get("POSTGRES").unwrap()), "/prod/postgres-url");
}

#[test]
fn wildcard_capture_in_single_entry_path() {
    let e = envs(vec![("svc/*", vec![EnvEntry::Single("$1/API_KEY".into())])]);
    let secrets = strs(&["alpha/API_KEY", "beta/API_KEY"]);
    let tree = resolve(&e, "svc/*", &secrets).unwrap();
    let svc = branch(branch(&tree).get("svc").unwrap());
    let alpha = branch(svc.get("alpha").unwrap());
    assert_eq!(leaf_path(alpha.get("API_KEY").unwrap()), "alpha/API_KEY");
    let beta = branch(svc.get("beta").unwrap());
    assert_eq!(leaf_path(beta.get("API_KEY").unwrap()), "beta/API_KEY");
}

#[test]
fn unknown_target_errors() {
    let e = envs(vec![]);
    let err = resolve(&e, "nope", &[]).unwrap_err();
    assert!(err.to_string().contains("unknown env label"));
}

#[test]
fn invalid_label_errors() {
    let e = envs(vec![]);
    assert!(resolve(&e, "foo/*/bar", &[]).is_err());
    assert!(resolve(&e, "", &[]).is_err());
}

#[test]
fn deterministic_key_ordering() {
    let e = envs(vec![(
        "foo/*",
        vec![
            EnvEntry::Alias { key: "Z_KEY".into(), path: "$1/z".into() },
            EnvEntry::Alias { key: "A_KEY".into(), path: "$1/a".into() },
        ],
    )]);
    let secrets_a = strs(&["zeta/z", "zeta/a", "alpha/z", "alpha/a"]);
    let secrets_b = strs(&["alpha/a", "zeta/a", "alpha/z", "zeta/z"]);
    let ta = resolve(&e, "foo/*", &secrets_a).unwrap();
    let tb = resolve(&e, "foo/*", &secrets_b).unwrap();
    assert_eq!(ta, tb);
    let foo = branch(branch(&ta).get("foo").unwrap());
    let first = foo.keys()[0].clone();
    assert_eq!(first, "alpha");
    let alpha = branch(foo.get("alpha").unwrap());
    let first_inner = alpha.keys()[0].clone();
    assert_eq!(first_inner, "A_KEY");
}

#[test]
fn concrete_single_with_absolute_path_uses_last_segment() {
    let e = envs(vec![("env1", vec![EnvEntry::Single("/dev/postgres-url".into())])]);
    let tree = resolve(&e, "env1", &[]).unwrap();
    let env1 = branch(branch(&tree).get("env1").unwrap());
    assert_eq!(leaf_path(env1.get("postgres-url").unwrap()), "/dev/postgres-url");
}

#[test]
fn wildcard_pattern_requires_segment_count_match() {
    let e = envs(vec![(
        "foo/*",
        vec![EnvEntry::Alias { key: "V".into(), path: "$1/x".into() }],
    )]);
    let secrets = strs(&["alpha/x", "beta/x", "gamma/y", "foo/bar/x"]);
    let tree = resolve(&e, "foo/*", &secrets).unwrap();
    let foo = branch(branch(&tree).get("foo").unwrap());
    assert_eq!(foo.len(), 2);
    assert!(foo.contains_key("alpha"));
    assert!(foo.contains_key("beta"));
}

#[test]
fn nested_concrete_label_nests_properly() {
    let e = envs(vec![("foo/bar", vec![EnvEntry::Single("x/API_KEY".into())])]);
    let tree = resolve(&e, "foo/bar", &[]).unwrap();
    let root = branch(&tree);
    let foo = branch(root.get("foo").unwrap());
    let bar = branch(foo.get("bar").unwrap());
    assert_eq!(leaf_path(bar.get("API_KEY").unwrap()), "x/API_KEY");
}

#[test]
fn substitute_dollar_one_preserves_unicode() {
    assert_eq!(substitute_dollar_one("héllo/$1", "wörld"), "héllo/wörld");
    assert_eq!(substitute_dollar_one("no-capture", "x"), "no-capture");
}

#[test]
fn tag_selector_includes_all_secrets_with_tag() {
    let e = envs(vec![("dev", vec![EnvEntry::Tag("pci".into())])]);
    let secrets = strs(&["dev/STRIPE_KEY", "dev/POSTGRES_URL", "extras/RATE_LIMITER"]);
    let lookup = mk_tag_lookup(vec![
        ("dev/STRIPE_KEY", vec!["pci"]),
        ("dev/POSTGRES_URL", vec!["pci", "rotate"]),
        ("extras/RATE_LIMITER", vec!["mobile"]),
    ]);
    let tree = resolve_with_tags(&e, "dev", &secrets, &lookup).unwrap();
    let dev = branch(branch(&tree).get("dev").unwrap());
    assert_eq!(dev.len(), 2);
    assert_eq!(leaf_path(dev.get("STRIPE_KEY").unwrap()), "dev/STRIPE_KEY");
    assert_eq!(leaf_path(dev.get("POSTGRES_URL").unwrap()), "dev/POSTGRES_URL");
    assert!(dev.get("RATE_LIMITER").is_none());
}

#[test]
fn tag_selector_zero_matches_yields_empty_branch() {
    let e = envs(vec![("dev", vec![EnvEntry::Tag("missing".into())])]);
    let secrets = strs(&["dev/A", "dev/B"]);
    let lookup = mk_tag_lookup(vec![]);
    let tree = resolve_with_tags(&e, "dev", &secrets, &lookup).unwrap();
    let dev = branch(branch(&tree).get("dev").unwrap());
    assert!(dev.is_empty());
}

#[test]
fn alias_tag_succeeds_with_exactly_one_match() {
    let e = envs(vec![(
        "dev",
        vec![EnvEntry::AliasTag { key: "STRIPE".into(), tag: "stripe".into() }],
    )]);
    let secrets = strs(&["dev/STRIPE_API", "dev/OTHER"]);
    let lookup =
        mk_tag_lookup(vec![("dev/STRIPE_API", vec!["stripe"]), ("dev/OTHER", vec!["mobile"])]);
    let tree = resolve_with_tags(&e, "dev", &secrets, &lookup).unwrap();
    let dev = branch(branch(&tree).get("dev").unwrap());
    assert_eq!(dev.len(), 1);
    assert_eq!(leaf_path(dev.get("STRIPE").unwrap()), "dev/STRIPE_API");
}

#[test]
fn alias_tag_errors_when_multiple_match() {
    let e = envs(vec![(
        "dev",
        vec![EnvEntry::AliasTag { key: "STRIPE".into(), tag: "stripe".into() }],
    )]);
    let secrets = strs(&["dev/A", "dev/B"]);
    let lookup = mk_tag_lookup(vec![("dev/A", vec!["stripe"]), ("dev/B", vec!["stripe"])]);
    let err = resolve_with_tags(&e, "dev", &secrets, &lookup).unwrap_err();
    let msg = err.to_string();
    assert!(msg.contains("STRIPE"), "msg: {msg}");
    assert!(msg.contains("found 2"), "msg: {msg}");
}

#[test]
fn alias_tag_errors_when_zero_match() {
    let e = envs(vec![(
        "dev",
        vec![EnvEntry::AliasTag { key: "STRIPE".into(), tag: "stripe".into() }],
    )]);
    let secrets = strs(&["dev/A"]);
    let lookup = mk_tag_lookup(vec![("dev/A", vec!["other"])]);
    let err = resolve_with_tags(&e, "dev", &secrets, &lookup).unwrap_err();
    let msg = err.to_string();
    assert!(msg.contains("found 0"), "msg: {msg}");
}

#[test]
fn resolve_without_tag_lookup_errors_on_tag_entry() {
    let e = envs(vec![("dev", vec![EnvEntry::Tag("pci".into())])]);
    let secrets = strs(&["dev/A"]);
    let err = resolve(&e, "dev", &secrets).unwrap_err();
    assert!(
        err.to_string().contains("resolve_with_tags"),
        "expected hint to use resolve_with_tags, got: {}",
        err.to_string()
    );
}

#[test]
fn tag_lookup_decrypt_failure_propagates() {
    let e = envs(vec![("dev", vec![EnvEntry::Tag("pci".into())])]);
    let secrets = strs(&["dev/UNREADABLE"]);
    let failing = |_: &str| -> Result<Vec<String>, HimitsuError> {
        Err(HimitsuError::DecryptionFailed("test: cannot decrypt".into()))
    };
    let err = resolve_with_tags(&e, "dev", &secrets, &failing).unwrap_err();
    assert!(err.to_string().contains("test: cannot decrypt"), "unexpected error: {}", err.to_string());
}

#[test]
fn mixed_entries_combine_path_and_tag_results() {
    let e = envs(vec![(
        "dev",
        vec![EnvEntry::Single("dev/API_KEY".into()), EnvEntry::Tag("pci".into())],
    )]);
    let secrets = strs(&["dev/API_KEY", "dev/STRIPE_KEY"]);
    let lookup = mk_tag_lookup(vec![("dev/STRIPE_KEY", vec!["pci"])]);
    let tree = resolve_with_tags(&e, "dev", &secrets, &lookup).unwrap();
    let dev = branch(branch(&tree).get("dev").unwrap());
    assert_eq!(leaf_path(dev.get("API_KEY").unwrap()), "dev/API_KEY");
    assert_eq!(leaf_path(dev.get("STRIPE_KEY").unwrap()), "dev/STRIPE_KEY");
}

// ── Further cases ────────────────────────────────────────────────────────

#[test]
fn alias_tag_error_lists_every_match() {
    let e = envs(vec![(
        "dev",
        vec![EnvEntry::AliasTag { key: "K".into(), tag: "t".into() }],
    )]);
    let secrets = strs(&["a/X", "b/Y"]);
    let answers = vec![Ok(vec!["t".to_string()]), Ok(vec!["t".to_string()])];
    let err = resolve_with_tag_lists(&e, "dev", &secrets, answers).unwrap_err();
    assert_eq!(
        err,
        HimitsuError::InvalidConfig(
            "alias 'K' expects exactly one secret tagged 't', found 2 (a/X, b/Y)".into()
        )
    );
}

#[test]
fn failed_answer_is_ignored_without_tag_entries() {
    let e = envs(vec![("dev", vec![EnvEntry::Single("dev/A".into())])]);
    let secrets = strs(&["dev/A"]);
    let answers = vec![Err(HimitsuError::DecryptionFailed("x".into()))];
    let tree = resolve_with_tag_lists(&e, "dev", &secrets, answers).unwrap();
    let dev = branch(branch(&tree).get("dev").unwrap());
    assert_eq!(leaf_path(dev.get("A").unwrap()), "dev/A");
}

#[test]
fn first_failed_answer_is_returned() {
    let e = envs(vec![("dev", vec![EnvEntry::Tag("t".into())])]);
    let secrets = strs(&["a", "b", "c"]);
    let answers = vec![
        Ok(vec![]),
        Err(HimitsuError::DecryptionFailed("b".into())),
        Err(HimitsuError::DecryptionFailed("c".into())),
    ];
    let err = resolve_with_tag_lists(&e, "dev", &secrets, answers).unwrap_err();
    assert_eq!(err, HimitsuError::DecryptionFailed("b".into()));
}

#[test]
fn single_without_segment_is_a_config_error() {
    let e = envs(vec![("dev", vec![EnvEntry::Single("//".into())])]);
    let err = resolve(&e, "dev", &[]).unwrap_err();
    assert_eq!(
        err,
        HimitsuError::InvalidConfig("env entry path '//' has no final segment".into())
    );
}

#[test]
fn substitute_keeps_other_captures() {
    assert_eq!(substitute_dollar_one("$12/$1/$2", "v"), "$12/v/$2");
}

#[test]
fn wildcard_glob_entry_binds_prefix_segment() {
    let e = envs(vec![("svc/*", vec![EnvEntry::Glob("$1".into())])]);
    let secrets = strs(&["alpha/A", "alpha/B", "beta"]);
    let tree = resolve(&e, "svc/*", &secrets).unwrap();
    let svc = branch(branch(&tree).get("svc").unwrap());
    assert_eq!(svc.len(), 1);
    let alpha = branch(svc.get("alpha").unwrap());
    assert_eq!(leaf_path(alpha.get("A").unwrap()), "alpha/A");
    assert_eq!(leaf_path(alpha.get("B").unwrap()), "alpha/B");
}

#[test]
fn empty_branch_is_empty() {
    match EnvNode::empty_branch() {
        EnvNode::Branch(m) => assert!(m.is_empty()),
        _ => panic!("expected a branch"),
    }
}

#[test]
fn alias_only_tree_ignores_repeats_and_order() {
    let e = envs(vec![("foo/*", vec![EnvEntry::Alias { key: "K".into(), path: "$1/k".into() }])]);
    let a = resolve(&e, "foo/*", &strs(&["b/k", "a/k"])).unwrap();
    let b = resolve(&e, "foo/*", &strs(&["a/k", "b/k", "a/k", "b/k"])).unwrap();
    assert_eq!(a, b);
}
