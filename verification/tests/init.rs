use himitsu::init::{
    default_origin_url, extract_public_key, init_report_json, init_summary, key_file_contents, origin_org,
    parse_remote_slug, suggested_remote_slug, InitReport,
};

#[test]
fn parse_ssh_remote() {
    assert_eq!(parse_remote_slug("git@github.com:myorg/myrepo.git"), Some("myorg/myrepo".into()));
}

#[test]
fn parse_https_remote() {
    assert_eq!(parse_remote_slug("https://github.com/myorg/myrepo.git"), Some("myorg/myrepo".into()));
}

#[test]
fn parse_unknown_url_returns_none() {
    assert_eq!(parse_remote_slug("https://gitlab.com/foo/bar"), None);
}

// ── Further cases ────────────────────────────────────────────────────────

#[test]
fn slug_from_ssh_url() {
    let slug = "git@github.com:myorg/secrets.git";
    assert_eq!(parse_remote_slug(slug), Some("myorg/secrets".to_string()));
}

#[test]
fn slug_from_https_url() {
    let slug = "https://github.com/myorg/secrets.git";
    assert_eq!(parse_remote_slug(slug), Some("myorg/secrets".to_string()));
}

#[test]
fn plain_slug_not_parsed_as_url() {
    assert_eq!(parse_remote_slug("myorg/secrets"), None);
}

#[test]
fn http_remote_without_git_suffix() {
    assert_eq!(parse_remote_slug("http://github.com/a/b"), Some("a/b".into()));
}

#[test]
fn key_file_round_trips_public_key() {
    let contents = key_file_contents("123", "age1pub", "AGE-SECRET-KEY-1");
    assert_eq!(contents, "# created: 123\n# public key: age1pub\nAGE-SECRET-KEY-1\n");
    assert_eq!(extract_public_key(&contents), Some("age1pub".to_string()));
    assert_eq!(extract_public_key("no key here"), None);
}

#[test]
fn default_origin_only_for_valid_slugs() {
    assert_eq!(
        default_origin_url(&["myorg".to_string(), "secrets".to_string()]),
        Some("git@github.com:myorg/secrets.git".to_string())
    );
    assert_eq!(default_origin_url(&["git@github.com:foo".to_string(), "secrets".to_string()]), None);
    assert_eq!(default_origin_url(&["a".to_string()]), None);
}

#[test]
fn suggestion_prefers_personal_name() {
    assert_eq!(suggested_remote_slug(Some("me".into()), Some("org".into()), Some("u".into())), "me/secrets");
    assert_eq!(suggested_remote_slug(None, Some("org".into()), Some("u".into())), "org/secrets");
    assert_eq!(suggested_remote_slug(None, None, Some(String::new())), "");
    assert_eq!(origin_org("acme/repo"), Some("acme".to_string()));
    assert_eq!(origin_org("acme"), None);
}

fn report() -> InitReport {
    InitReport {
        pubkey: "age1x".into(),
        key_provider: "disk".into(),
        key_existed: true,
        store: String::new(),
        store_existed: true,
        name: None,
        name_restored: false,
        project: None,
        project_restored: false,
        project_config_path: None,
        key_provider_given: false,
        suggested_remote: None,
        suggested_primary: "me/secrets".into(),
        remotes: vec!["a/b".into(), "c/d".into()],
        default_store: Some("c/d".into()),
    }
}

#[test]
fn summary_when_already_initialized() {
    assert_eq!(
        init_summary(&report()),
        vec![
            "Already initialized.",
            "  Public key: age1x",
            "  Key provider: disk",
            "  Stores: a/b",
            "  Stores: c/d (default)",
        ]
    );
}

#[test]
fn summary_after_creating_a_key() {
    let mut r = report();
    r.key_existed = false;
    assert_eq!(
        init_summary(&r),
        vec![
            "✓ Created age keypair",
            "  Public key: age1x",
            "✓ Created state directory",
            "",
            "Run `himitsu init --name me/secrets` to create your primary personal GitHub store.",
        ]
    );
}

#[test]
fn json_report_lists_the_fields_in_key_order() {
    let mut r = report();
    r.store = "/tmp/store".into();
    r.store_existed = false;
    let text = init_report_json(&r, "/d", "/s", true);
    assert_eq!(
        text,
        "{\n  \"data_dir\": \"/d\",\n  \"in_git_repo\": true,\n  \"key_existed\": true,\n  \"key_provider\": \"disk\",\n  \"pubkey\": \"age1x\",\n  \"state_dir\": \"/s\",\n  \"store\": \"/tmp/store\",\n  \"store_existed\": false,\n  \"suggested_remote\": null\n}"
    );
}

#[test]
fn json_report_carries_the_suggested_remote() {
    let mut r = report();
    r.suggested_remote = Some("org/repo".into());
    let text = init_report_json(&r, "/d", "/s", false);
    assert!(text.contains("\"suggested_remote\": \"org/repo\""), "{text}");
    assert!(text.contains("\"in_git_repo\": false"), "{text}");
}
