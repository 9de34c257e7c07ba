use himitsu::args::LsArgs;
use himitsu::error::HimitsuError;
use himitsu::ls::{
    matches_all_tags, plan, prefix_depth, show_items, truncate_to_depth, ListedSecret,
    StoreListing,
};

fn s(items: &[&str]) -> Vec<String> {
    items.iter().map(|t| (*t).to_string()).collect()
}

#[test]
fn matches_all_tags_empty_want_always_matches() {
    // An empty filter is the "no `--tag`" case — every entry should pass.
    assert!(matches_all_tags(&s(&[]), &s(&[])));
    assert!(matches_all_tags(&s(&["pci"]), &s(&[])));
    assert!(matches_all_tags(&s(&["pci", "stripe"]), &s(&[])));
}

#[test]
fn matches_all_tags_subset_passes() {
    // `have` is a superset of `want` → match.
    assert!(matches_all_tags(&s(&["pci", "stripe", "rotate"]), &s(&["pci"])));
    assert!(matches_all_tags(&s(&["pci", "stripe", "rotate"]), &s(&["pci", "stripe"])));
}

#[test]
fn matches_all_tags_exact_match_passes() {
    assert!(matches_all_tags(&s(&["pci"]), &s(&["pci"])));
    assert!(matches_all_tags(&s(&["pci", "stripe"]), &s(&["pci", "stripe"])));
    // Order in `have` shouldn't matter.
    assert!(matches_all_tags(&s(&["stripe", "pci"]), &s(&["pci", "stripe"])));
}

#[test]
fn matches_all_tags_missing_tag_fails() {
    // One required tag absent → reject the whole entry (AND semantics).
    assert!(!matches_all_tags(&s(&["pci"]), &s(&["pci", "stripe"])));
    assert!(!matches_all_tags(&s(&["stripe"]), &s(&["pci"])));
    assert!(!matches_all_tags(&s(&[]), &s(&["pci"])));
}

#[test]
fn matches_all_tags_is_case_sensitive() {
    assert!(!matches_all_tags(&s(&["PCI"]), &s(&["pci"])));
    assert!(!matches_all_tags(&s(&["pci"]), &s(&["PCI"])));
}

// -- Own tests --

#[test]
fn truncate_to_depth_marks_directories() {
    assert_eq!(truncate_to_depth("prod/db/pass", 1), "prod/");
    assert_eq!(truncate_to_depth("prod/db/pass", 2), "prod/db/");
    assert_eq!(truncate_to_depth("prod/db/pass", 3), "prod/db/pass");
    assert_eq!(truncate_to_depth("prod/db/pass", usize::MAX), "prod/db/pass");
    assert_eq!(truncate_to_depth("top", 1), "top");
    assert_eq!(truncate_to_depth("a/b", 0), "/");
}

#[test]
fn prefix_depth_counts_nonempty_segments() {
    assert_eq!(prefix_depth("prod"), 1);
    assert_eq!(prefix_depth("prod/db"), 2);
    assert_eq!(prefix_depth("/prod//db/"), 2);
    assert_eq!(prefix_depth(""), 0);
}

fn listing(slug: &str, paths: &[&str]) -> StoreListing {
    StoreListing {
        slug: slug.to_string(),
        secrets: paths
            .iter()
            .map(|p| ListedSecret { path: p.to_string(), tags: None })
            .collect(),
    }
}

#[test]
fn show_items_single_store_table() {
    let stores = vec![listing("acme/secrets", &["prod/API_KEY", "prod/DB", "dev/API_KEY", "top"])];
    let out = show_items(&stores, None, 1, 24, 0, &[]);
    assert_eq!(out.stdout, "PATH \n-----\ndev/\nprod/\ntop\n");
    assert_eq!(out.stderr, "\n3 items\n");
}

#[test]
fn show_items_multi_store_table_pads_columns() {
    let stores = vec![listing("a/b", &["x"]), listing("other/store", &["longer-name"])];
    let out = show_items(&stores, None, 1, 24, 0, &[]);
    assert_eq!(
        out.stdout,
        "PATH         STORE\n-----------  -----------\nx            a/b\nlonger-name  other/store\n"
    );
    assert_eq!(out.stderr, "\n2 items\n");
}

#[test]
fn show_items_pages_and_reports_next_offset() {
    let stores = vec![listing("s", &["a", "b", "c", "d"])];
    let out = show_items(&stores, None, 1, 2, 1, &[]);
    assert_eq!(out.stdout, "PATH\n----\nb\nc\n");
    assert_eq!(out.stderr, "\n2 of 4  (showing 2–3; use --offset 3 for next page)\n");
}

#[test]
fn show_items_depth_is_relative_to_prefix() {
    let stores = vec![listing("s", &["prod/db/pass", "prod/api"])];
    let out = show_items(&stores, Some("prod"), 1, 24, 0, &[]);
    assert_eq!(out.stdout, "PATH    \n--------\nprod/api\nprod/db/\n");
}

#[test]
fn show_items_empty_notes_prefix() {
    let out = show_items(&[listing("s", &[])], Some("prod"), 1, 24, 0, &[]);
    assert_eq!(out.stdout, "");
    assert_eq!(out.stderr, "No secrets under 'prod'.\n");
    let out = show_items(&[], None, 1, 24, 0, &[]);
    assert_eq!(out.stderr, "No secrets found.\n");
}

#[test]
fn show_items_tag_filter_drops_unreadable_and_untagged() {
    let stores = vec![StoreListing {
        slug: "s".to_string(),
        secrets: vec![
            ListedSecret { path: "a".into(), tags: Some(s(&["pci", "x"])) },
            ListedSecret { path: "b".into(), tags: Some(s(&["x"])) },
            ListedSecret { path: "c".into(), tags: None },
        ],
    }];
    let out = show_items(&stores, None, 1, 24, 0, &s(&["pci"]));
    assert_eq!(out.stdout, "PATH\n----\na\n");
    assert_eq!(out.stderr, "\n1 item\n");
}

fn ls_args(path: Option<&str>, recursive: bool, tags: &[&str]) -> LsArgs {
    LsArgs {
        path: path.map(String::from),
        recursive,
        depth: 1,
        limit: 24,
        offset: 0,
        tag: s(tags),
    }
}

#[test]
fn plan_trims_prefix_and_validates_tags() {
    let p = plan(&ls_args(Some("prod//"), true, &["pci"])).unwrap();
    assert_eq!(p.prefix.as_deref(), Some("prod"));
    assert_eq!(p.max_depth, usize::MAX);
    assert_eq!(p.tags, s(&["pci"]));
    match plan(&ls_args(None, false, &["bad tag"])) {
        Err(HimitsuError::InvalidReference(m)) => assert!(m.starts_with("invalid tag \"bad tag\": ")),
        other => panic!("unexpected: {other:?}"),
    }
}
