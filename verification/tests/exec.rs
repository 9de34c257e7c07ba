use himitsu::env_resolver::EnvNode;
use himitsu::exec::{
    build_env_map, collect_env_leaves, no_match_error, pick_env_key, plan_ref, refs_from_tree,
    select_tagged, select_under_prefix, single_ref, warn_if_shell_expanded, RefPlan, ResolvedRef,
};
use himitsu::env_dsl::EnvEntry;
use himitsu::secret::Decoded;
use himitsu::strmap::StrMap;

fn decoded(data: &str, env_key: &str, tags: &[&str]) -> Decoded {
    let mut d = Decoded::plain(data.as_bytes().to_vec());
    d.env_key = env_key.to_string();
    d.tags = tags.iter().map(|s| s.to_string()).collect();
    d
}

fn rref(path: &str, explicit: Option<&str>) -> ResolvedRef {
    ResolvedRef {
        secret_path: path.to_string(),
        store_path: String::new(),
        explicit_key: explicit.map(String::from),
    }
}

#[test]
fn pick_env_key_priority_explicit_then_env_key_then_derive() {
    let k = pick_env_key(&rref("dev/whatever", Some("STRIPE")), &decoded("v", "IGNORED", &[])).unwrap();
    assert_eq!(k, "STRIPE");
    let k = pick_env_key(&rref("dev/whatever", None), &decoded("v", "API_TOKEN", &[])).unwrap();
    assert_eq!(k, "API_TOKEN");
    let k = pick_env_key(&rref("dev/api-key", None), &decoded("v", "", &[])).unwrap();
    assert_eq!(k, "API_KEY");
    let k = pick_env_key(&rref("dev/group/item-name", None), &decoded("v", "", &[])).unwrap();
    assert_eq!(k, "ITEM_NAME");
}

#[test]
fn collect_env_leaves_pulls_every_leaf_with_its_parent_key() {
    let mut leaves = StrMap::new();
    leaves.insert("API_KEY".to_string(), EnvNode::Leaf { secret_path: "dev/API_KEY".to_string() });
    leaves.insert("DB".to_string(), EnvNode::Leaf { secret_path: "dev/DB_PASS".to_string() });
    let mut prefix = StrMap::new();
    prefix.insert("dev".to_string(), EnvNode::Branch(leaves));
    let tree = EnvNode::Branch(prefix);

    let mut got = collect_env_leaves(&tree);
    got.sort();
    assert_eq!(
        got,
        vec![
            ("API_KEY".to_string(), "dev/API_KEY".to_string()),
            ("DB".to_string(), "dev/DB_PASS".to_string()),
        ]
    );
}

#[test]
fn build_env_map_filters_by_tag_and_picks_keys() {
    let items = vec![
        (rref("a/api-key", None), decoded("v1", "", &["pci"])),
        (rref("a/db", Some("DB_URL")), decoded("v2", "", &["pci"])),
        (rref("a/other", None), decoded("v3", "", &["mobile"])),
    ];
    let map = build_env_map(items, &["pci".to_string()]).unwrap();
    assert_eq!(map.get("API_KEY").map(String::as_str), Some("v1"));
    assert_eq!(map.get("DB_URL").map(String::as_str), Some("v2"));
    assert!(!map.contains_key("OTHER"));
}

#[test]
fn build_env_map_empty_tag_filter_keeps_everything() {
    let items = vec![(rref("a/x", None), decoded("v1", "", &[])), (rref("a/y", None), decoded("v2", "", &["any"]))];
    let map = build_env_map(items, &[]).unwrap();
    assert_eq!(map.len(), 2);
}

#[test]
fn build_env_map_collision_errors_with_both_paths() {
    let items = vec![
        (rref("a/api-key", None), decoded("first", "", &[])),
        (rref("b/API_KEY", Some("API_KEY")), decoded("second", "", &[])),
    ];
    let err = build_env_map(items, &[]).unwrap_err();
    let msg = err.to_string();
    assert!(msg.contains("API_KEY"), "msg should name the key: {msg}");
    assert!(msg.contains("a/api-key") && msg.contains("b/API_KEY"), "msg should name both source paths: {msg}");
}

#[test]
fn build_env_map_rejects_invalid_posix_env_name() {
    let items = vec![(rref("a/x", None), decoded("v", "1FOO", &[]))];
    let err = build_env_map(items, &[]).unwrap_err();
    assert!(err.to_string().contains("1FOO"));
}

#[test]
fn build_env_map_rejects_non_utf8_value() {
    let mut d = decoded("", "", &[]);
    d.data = vec![0xff, 0xfe, 0xfd];
    let err = build_env_map(vec![(rref("a/x", None), d)], &[]).unwrap_err();
    assert!(err.to_string().contains("non-UTF-8"));
}

#[test]
fn warn_if_shell_expanded_absolute_path() {
    let w = warn_if_shell_expanded("/home/user/.himitsu/secrets/prod/API_KEY.yaml").expect("absolute path should warn");
    assert!(w.contains("absolute filesystem path"), "got: {w}");
}

#[test]
fn warn_if_shell_expanded_tilde_path() {
    let w = warn_if_shell_expanded("~/secrets/prod").expect("tilde path should warn");
    assert!(w.contains("absolute filesystem path"), "got: {w}");
}

#[test]
fn warn_if_shell_expanded_file_extension() {
    let w = warn_if_shell_expanded("prod/API_KEY.yaml").expect("extension should warn");
    assert!(w.contains("file extension"), "got: {w}");
}

#[test]
fn warn_if_shell_expanded_normal_ref_silent() {
    assert!(warn_if_shell_expanded("prod/API_KEY").is_none());
    assert!(warn_if_shell_expanded("prod/*").is_none());
    assert!(warn_if_shell_expanded("prod/").is_none());
    assert!(warn_if_shell_expanded("tag:pci").is_none());
}

// ── Further cases ────────────────────────────────────────────────────────

#[test]
fn extension_check_ignores_case() {
    assert!(warn_if_shell_expanded("prod/X.YML").is_some());
}

#[test]
fn env_map_values_and_order() {
    let items = vec![(rref("a/b-two", None), decoded("2", "", &[])), (rref("a/a-one", None), decoded("1", "", &[]))];
    let map = build_env_map(items, &[]).unwrap();
    assert_eq!(map.keys(), vec!["A_ONE".to_string(), "B_TWO".to_string()]);
}

#[test]
fn filtered_out_secret_never_conflicts() {
    let items = vec![
        (rref("a/key", None), decoded("1", "", &["pci"])),
        (rref("b/key", None), decoded("2", "", &[])),
    ];
    let map = build_env_map(items, &["pci".to_string()]).unwrap();
    assert_eq!(map.get("KEY").map(String::as_str), Some("1"));
}

#[test]
fn plans_follow_the_reference_form() {
    let mut envs: StrMap<Vec<EnvEntry>> = StrMap::new();
    envs.insert("pci-prod".to_string(), vec![]);
    envs.insert("svc/*".to_string(), vec![]);
    assert_eq!(plan_ref("tag:pci", &envs).unwrap(), RefPlan::Tag("pci".to_string()));
    assert!(plan_ref("tag:", &envs).is_err());
    assert!(plan_ref("tag:bad tag", &envs).is_err());
    assert_eq!(plan_ref("pci-prod", &envs).unwrap(), RefPlan::EnvLabel);
    assert!(plan_ref("svc/*", &envs).unwrap_err().to_string().contains("wildcard env labels"));
    assert_eq!(plan_ref("prod/*", &envs).unwrap(), RefPlan::Prefix("prod/".to_string()));
    assert_eq!(plan_ref("prod//", &envs).unwrap(), RefPlan::Prefix("prod/".to_string()));
    assert!(plan_ref("/*", &envs).is_err());
    assert!(plan_ref("//", &envs).is_err());
    assert_eq!(plan_ref("prod/API_KEY", &envs).unwrap(), RefPlan::Single);
}

#[test]
fn selections_keep_listing_order() {
    let listing = vec![
        ("s1".to_string(), "prod/A".to_string()),
        ("s1".to_string(), "dev/A".to_string()),
        ("s2".to_string(), "prod/B".to_string()),
    ];
    let hits = select_under_prefix(&listing, "prod/");
    assert_eq!(hits.len(), 2);
    assert_eq!(hits[1].secret_path, "prod/B");
    assert_eq!(hits[1].store_path, "s2");

    let tagged = vec![
        ("s1".to_string(), "a".to_string(), Some(vec!["pci".to_string()])),
        ("s1".to_string(), "b".to_string(), None),
        ("s2".to_string(), "c".to_string(), Some(vec!["dev".to_string()])),
    ];
    let hits = select_tagged(&tagged, "pci");
    assert_eq!(hits.len(), 1);
    assert_eq!(hits[0].secret_path, "a");

    let one = single_ref("prod/X", "store");
    assert_eq!(one[0].secret_path, "prod/X");
    assert!(one[0].explicit_key.is_none());
}

#[test]
fn env_tree_refs_carry_their_keys() {
    let mut leaves = StrMap::new();
    leaves.insert("K".to_string(), EnvNode::Leaf { secret_path: "p".to_string() });
    let tree = EnvNode::Branch(leaves);
    let refs = refs_from_tree(&tree, "st");
    assert_eq!(refs.len(), 1);
    assert_eq!(refs[0].explicit_key.as_deref(), Some("K"));
    assert_eq!(refs[0].store_path, "st");
}

#[test]
fn no_match_hint_depends_on_the_form() {
    assert!(no_match_error("prod/").to_string().contains("trailing slash"));
    assert!(no_match_error("prod/X").to_string().contains("himitsu ls"));
}
