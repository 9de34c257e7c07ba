use himitsu::outputs::{
    resolve_outputs, wrap_in_segments, Context, OutputDef, OutputNode, OutputsMap,
    SecretCandidate, SelectorEntry,
};
use himitsu::strmap::StrMap;

fn def(selectors: &[&str]) -> OutputDef {
    OutputDef {
        selectors: selectors
            .iter()
            .map(|s| SelectorEntry((*s).to_string()))
            .collect(),
        aliases: StrMap::new(),
    }
}

fn aliased(pairs: &[(&str, &str)]) -> OutputDef {
    OutputDef {
        selectors: Vec::new(),
        aliases: StrMap::from_pairs(
            pairs.iter().map(|(k, v)| ((*k).to_string(), (*v).to_string())).collect(),
        ),
    }
}

fn outputs(pairs: Vec<(&str, OutputDef)>) -> OutputsMap {
    StrMap::from_pairs(pairs.into_iter().map(|(k, v)| (k.to_string(), v)).collect())
}

fn ctx(candidates: &[(&str, &[&str])]) -> Context {
    Context {
        available_secrets: candidates
            .iter()
            .map(|(path, tags)| SecretCandidate {
                path: (*path).to_string(),
                tags: tags.iter().map(|tag| (*tag).to_string()).collect(),
            })
            .collect(),
    }
}

#[test]
fn plain_selector_list_resolves_to_entries() {
    let resolved =
        resolve_outputs(&outputs(vec![("web", def(&["prod/api-key"]))]), &ctx(&[])).unwrap();

    assert_eq!(resolved[0].entries[0].secret_path, "prod/api-key");
}

#[test]
fn brace_expansion_produces_multiple_outputs() {
    let resolved = resolve_outputs(
        &outputs(vec![("web-{dev,staging}", def(&["common/api-key"]))]),
        &ctx(&[]),
    )
    .unwrap();

    let names: Vec<&str> = resolved.iter().map(|output| output.name.as_str()).collect();
    assert_eq!(names, vec!["web-dev", "web-staging"]);
}

#[test]
fn dollar_one_capture_substitutes_brace_segment() {
    let resolved = resolve_outputs(
        &outputs(vec![("web-{dev,staging}", def(&["$1/database-url"]))]),
        &ctx(&[]),
    )
    .unwrap();

    assert_eq!(resolved[0].entries[0].secret_path, "dev/database-url");
    assert_eq!(resolved[1].entries[0].secret_path, "staging/database-url");
}

#[test]
fn cross_store_ref_extracts_store_slug_and_secret_path() {
    let resolved = resolve_outputs(
        &outputs(vec![("prod", def(&["github:org/secrets#prod/api-key"]))]),
        &ctx(&[]),
    )
    .unwrap();

    assert_eq!(
        resolved[0].entries[0].store_slug,
        Some("org/secrets".into())
    );
    assert_eq!(resolved[0].entries[0].secret_path, "prod/api-key");
}

#[test]
fn alias_map_uses_alias_key_as_env_key() {
    let resolved = resolve_outputs(
        &outputs(vec![("stripe", aliased(&[("STRIPE", "tag:stripe")]))]),
        &ctx(&[]),
    )
    .unwrap();

    assert_eq!(resolved[0].entries[0].env_key, "STRIPE");
    assert_eq!(resolved[0].entries[0].secret_path, "tag:stripe");
}

#[test]
fn empty_selectors_yield_empty_entries() {
    let resolved = resolve_outputs(&outputs(vec![("empty", def(&[]))]), &ctx(&[])).unwrap();

    assert!(resolved[0].entries.is_empty());
}

#[test]
fn multiple_selectors_yield_multiple_entries() {
    let resolved = resolve_outputs(
        &outputs(vec![("web", def(&["prod/a", "prod/b"]))]),
        &ctx(&[]),
    )
    .unwrap();

    assert_eq!(resolved[0].entries.len(), 2);
}

#[test]
fn no_brace_expansion_yields_single_output_with_same_name() {
    let resolved =
        resolve_outputs(&outputs(vec![("web", def(&["prod/a"]))]), &ctx(&[])).unwrap();

    assert_eq!(resolved[0].name, "web");
}

#[test]
fn path_tail_derives_uppercase_env_key() {
    let resolved =
        resolve_outputs(&outputs(vec![("web", def(&["prod/api-key"]))]), &ctx(&[])).unwrap();

    assert_eq!(resolved[0].entries[0].env_key, "API_KEY");
}

#[test]
fn glob_selector_expands_available_secret_matches() {
    let resolved = resolve_outputs(
        &outputs(vec![("prod", def(&["prod/*"]))]),
        &ctx(&[("prod/a", &[]), ("prod/b", &[]), ("dev/c", &[])]),
    )
    .unwrap();

    assert_eq!(resolved[0].entries.len(), 2);
}

#[test]
fn and_combined_selectors_require_all_tokens() {
    let resolved = resolve_outputs(
        &outputs(vec![("pci-prod", def(&["tag:pci+tag:prod"]))]),
        &ctx(&[("prod/a", &["pci", "prod"]), ("prod/b", &["pci"])]),
    )
    .unwrap();

    assert_eq!(resolved[0].entries.len(), 1);
    assert_eq!(resolved[0].entries[0].secret_path, "prod/a");
}

#[test]
fn wrap_in_segments_builds_nested_output_tree() {
    let node = wrap_in_segments(
        &["web", "dev"],
        OutputNode::Leaf {
            env_key: "API_KEY".into(),
            secret_path: "dev/api-key".into(),
            store_slug: None,
        },
    );

    assert!(matches!(node, OutputNode::Branch(_)));
}
