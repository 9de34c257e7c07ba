use himitsu::export::{build_json, build_yaml, no_match, select_matching, sops_encrypt_args, sops_failed};
use himitsu::glob::{glob_match, path_to_key, resolve_output_path, ExportArgs};
use himitsu::strmap::StrMap;
#[test]
fn glob_star_matches_single_level() {
    assert!(glob_match("prod/*", "prod/API_KEY"));
    assert!(glob_match("prod/*", "prod/DB_PASS"));
    assert!(!glob_match("prod/*", "prod/sub/KEY"));
    assert!(!glob_match("prod/*", "staging/API_KEY"));
}

#[test]
fn glob_doublestar_matches_any_depth() {
    assert!(glob_match("**/API_KEY", "API_KEY"));
    assert!(glob_match("**/API_KEY", "prod/API_KEY"));
    assert!(glob_match("**/API_KEY", "a/b/c/API_KEY"));
    assert!(!glob_match("**/API_KEY", "prod/DB_PASS"));
}

#[test]
fn glob_doublestar_at_end() {
    assert!(glob_match("prod/**", "prod/FOO"));
    assert!(glob_match("prod/**", "prod/sub/FOO"));
    assert!(!glob_match("prod/**", "staging/FOO"));
}

#[test]
fn glob_mixed_patterns() {
    assert!(glob_match("prod/*/KEY", "prod/sub/KEY"));
    assert!(!glob_match("prod/*/KEY", "prod/a/b/KEY"));
}

#[test]
fn glob_exact_match() {
    assert!(glob_match("prod/API_KEY", "prod/API_KEY"));
    assert!(!glob_match("prod/API_KEY", "prod/DB_PASS"));
}

#[test]
fn wildcard_within_segment() {
    assert!(glob_match("prod/DB_*", "prod/DB_PASS"));
    assert!(glob_match("prod/DB_*", "prod/DB_HOST"));
    assert!(!glob_match("prod/DB_*", "prod/API_KEY"));
}

#[test]
fn path_to_key_conversion() {
    assert_eq!(path_to_key("prod/API_KEY"), "prod_API_KEY");
    assert_eq!(path_to_key("API_KEY"), "API_KEY");
    assert_eq!(path_to_key("a/b/c"), "a_b_c");
}

#[test]
fn output_path_from_pattern() {
    let args = ExportArgs {
        pattern: "prod/*".into(),
        output: None,
        format: "yaml".into(),
        stdout: false,
    };
    assert_eq!(
        resolve_output_path(&args).unwrap(),
        "prod.sops.yaml"
    );
}

#[test]
fn output_path_explicit() {
    let args = ExportArgs {
        pattern: "prod/*".into(),
        output: Some("out/secrets.yaml".into()),
        format: "yaml".into(),
        stdout: false,
    };
    assert_eq!(
        resolve_output_path(&args).unwrap(),
        "out/secrets.yaml"
    );
}

#[test]
fn output_path_json_format() {
    let args = ExportArgs {
        pattern: "staging/**".into(),
        output: None,
        format: "json".into(),
        stdout: false,
    };
    assert_eq!(
        resolve_output_path(&args).unwrap(),
        "staging.sops.json"
    );
}

#[test]
fn build_yaml_output() {
    let mut secrets: StrMap<String> = StrMap::new();
    secrets.insert("prod/API_KEY".to_string(), "secret123".to_string());
    secrets.insert("prod/DB_PASS".to_string(), "p@ss".to_string());
    let yaml = build_yaml(&secrets);
    assert!(yaml.contains("prod_API_KEY: \"secret123\""));
    assert!(yaml.contains("prod_DB_PASS: \"p@ss\""));
}

#[test]
fn build_json_output() {
    let mut secrets: StrMap<String> = StrMap::new();
    secrets.insert("prod/API_KEY".to_string(), "secret123".to_string());
    let json = build_json(&secrets).unwrap();
    assert!(json.contains("\"prod_API_KEY\": \"secret123\""));
}


// ── Further cases ────────────────────────────────────────────────────────

#[test]
fn question_mark_matches_one_character() {
    assert!(glob_match("prod/key?", "prod/key1"));
    assert!(!glob_match("prod/key?", "prod/key"));
    assert!(!glob_match("prod/key?", "prod/key12"));
}

#[test]
fn build_yaml_escapes_quotes_and_newlines() {
    let mut secrets: StrMap<String> = StrMap::new();
    secrets.insert("a".to_string(), "x\"y\nz\\".to_string());
    assert_eq!(build_yaml(&secrets), "# Exported by himitsu\na: \"x\\\"y\\nz\\\\\"\n");
}

#[test]
fn build_json_exact_document() {
    let mut secrets: StrMap<String> = StrMap::new();
    secrets.insert("prod/B".to_string(), "2".to_string());
    secrets.insert("prod/A".to_string(), "1".to_string());
    assert_eq!(build_json(&secrets).unwrap(), "{\n  \"prod_A\": \"1\",\n  \"prod_B\": \"2\"\n}");
}

#[test]
fn select_matching_keeps_listing_order() {
    let paths = vec!["prod/B".to_string(), "dev/A".to_string(), "prod/A".to_string()];
    assert_eq!(select_matching("prod/*", &paths), vec!["prod/B".to_string(), "prod/A".to_string()]);
}

#[test]
fn no_match_names_the_pattern() {
    assert_eq!(no_match("x/*").to_string(), "secret not found: no secrets matched pattern 'x/*'");
}

#[test]
fn sops_args_need_recipients() {
    let err = sops_encrypt_args("yaml", None).unwrap_err();
    assert!(err.to_string().contains("generate.age_recipients"));
    assert_eq!(sops_failed("boom").to_string(), "generate error: sops encryption failed: boom");
}
