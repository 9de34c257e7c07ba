use himitsu::check::{
    collect_stores_from_project_config, discover_stores, parse_count, report_lines, store_status,
    StoreStatus,
};
use himitsu::env_dsl::EnvEntry;
use himitsu::error::HimitsuError;

#[test]
fn project_config_slugs_are_distinct_and_sorted() {
    let entries = vec![
        EnvEntry::Single("zeta/secrets/prod/DB".into()),
        EnvEntry::Glob("acme/secrets/dev/*".into()),
        EnvEntry::Alias { key: "K".into(), path: "acme/secrets/prod/KEY".into() },
        EnvEntry::Single("prod/DB".into()),
        EnvEntry::Tag("pci".into()),
        EnvEntry::AliasTag { key: "S".into(), tag: "stripe".into() },
        EnvEntry::Single("bad:org/repo/x".into()),
    ];
    let got = collect_stores_from_project_config(Some("mine/store"), &entries);
    assert_eq!(got, vec!["acme/secrets", "mine/store", "zeta/secrets"]);
    let got = collect_stores_from_project_config(Some("not-a-slug"), &[]);
    assert!(got.is_empty());
    let got = collect_stores_from_project_config(None, &entries[..1]);
    assert_eq!(got, vec!["zeta/secrets"]);
}

#[test]
fn counts_read_like_u32_parse() {
    assert_eq!(parse_count("3\n"), 3);
    assert_eq!(parse_count("  +12 "), 12);
    assert_eq!(parse_count(""), 0);
    assert_eq!(parse_count("-1"), 0);
    assert_eq!(parse_count("4294967295"), 4294967295);
    assert_eq!(parse_count("4294967296"), 0);
    assert_eq!(parse_count("1a"), 0);
    assert_eq!(parse_count("+"), 0);
}

#[test]
fn status_from_git_answers() {
    let st = store_status("a/b", Some("offline".into()), Ok("main\n".into()), true, "2\n", "1\n", Some(" M x\n".into()))
        .unwrap();
    assert_eq!(
        st,
        StoreStatus { behind: 2, ahead: 1, dirty: true, branch: "main".into(), warnings: vec!["fetch failed: offline".into()] }
    );
    let st = store_status("a/b", Some("offline".into()), Ok("main".into()), false, "", "", None).unwrap();
    assert_eq!(
        st.warnings,
        vec!["no remote tracking branch — skipping ahead/behind check".to_string()]
    );
    assert_eq!((st.behind, st.ahead, st.dirty), (0, 0, false));
    let err = store_status("a/b", None, Err("boom".into()), true, "", "", None).unwrap_err();
    assert_eq!(err, HimitsuError::Git("could not determine branch for 'a/b': boom".into()));
    let st = store_status("a/b", None, Ok("dev".into()), true, "", "", Some("\n".into())).unwrap();
    assert!(!st.dirty);
}

#[test]
fn report_lines_follow_the_status() {
    let st = StoreStatus { behind: 2, ahead: 1, dirty: true, branch: "main".into(), warnings: vec!["w".into()] };
    assert_eq!(
        report_lines("a/b", &st),
        vec![
            "  ⚠ a/b: w".to_string(),
            "⚠ a/b: 2 commit(s) behind origin/main — run `himitsu git pull` then `himitsu generate`".into(),
            "  info: a/b is 1 commit(s) ahead of origin/main".into(),
            "  info: a/b has uncommitted changes".into(),
        ]
    );
    let st = StoreStatus { behind: 0, ahead: 0, dirty: false, branch: "main".into(), warnings: vec![] };
    assert_eq!(report_lines("a/b", &st), vec!["✓ a/b: up to date".to_string()]);
}

#[test]
fn store_discovery_priority() {
    assert_eq!(discover_stores(Some("a/b"), None), Ok(Some(vec!["a/b".to_string()])));
    assert!(matches!(discover_stores(Some("nope"), None), Err(HimitsuError::InvalidConfig(_))));
    assert_eq!(discover_stores(None, Some(vec!["x/y".into()])), Ok(Some(vec!["x/y".to_string()])));
    assert_eq!(discover_stores(None, Some(vec![])), Ok(None));
    assert_eq!(discover_stores(None, None), Ok(None));
}
