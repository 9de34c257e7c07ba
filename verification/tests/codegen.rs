use himitsu::args::CodegenArgs;
use himitsu::codegen::{
    codegen_lang_from_str, default_sops_output_name, effective_keys, gen_golang, gen_header,
    gen_python, gen_rust, gen_typescript, generate, plan_sops, resolve_config, run_language,
    materialize, scan_inventory, sops_document, sops_label, sops_plaintext, to_camel_case, to_pascal_case, CodegenLang,
    SecretInventory,
};
use himitsu::env_dsl::EnvEntry;
use himitsu::env_resolver::{resolve, EnvNode};
use himitsu::exec::collect_env_leaves;
use himitsu::yaml::{to_yaml, YamlNode};
use himitsu::error::HimitsuError;
use himitsu::project::CodegenConfig;
use himitsu::strmap::StrMap;

/// The secret paths a store holding `envs` lists.
fn store_paths(envs: &[(&str, &[&str])]) -> Vec<String> {
    let mut paths = Vec::new();
    for (env, keys) in envs {
        for key in *keys {
            paths.push(format!("{env}/{key}"));
        }
    }
    paths
}

fn inventory(envs: &[(&str, &[&str])]) -> SecretInventory {
    scan_inventory(&store_paths(envs))
}

// -- Helper tests --

#[test]
fn to_pascal_case_screaming_snake() {
    assert_eq!(to_pascal_case("STRIPE_KEY"), "StripeKey");
    assert_eq!(to_pascal_case("DB_PASS"), "DbPass");
    assert_eq!(to_pascal_case("A"), "A");
    assert_eq!(to_pascal_case("hello_world"), "HelloWorld");
}

#[test]
fn to_camel_case_screaming_snake() {
    assert_eq!(to_camel_case("STRIPE_KEY"), "stripeKey");
    assert_eq!(to_camel_case("DB_PASS"), "dbPass");
    assert_eq!(to_camel_case("API_URL"), "apiUrl");
}

#[test]
fn to_pascal_case_handles_empty_parts() {
    assert_eq!(to_pascal_case("__FOO__BAR__"), "FooBar");
    assert_eq!(to_pascal_case(""), "");
}

// -- Scanning tests --

#[test]
fn scan_store_discovers_envs_and_keys() {
    let inv = inventory(&[
        ("common", &["API_URL"]),
        ("prod", &["API_URL", "DB_PASS"]),
        ("dev", &["API_URL", "DEBUG_TOKEN"]),
    ]);
    assert_eq!(
        inv.environments(),
        vec!["common".to_string(), "dev".to_string(), "prod".to_string()]
    );
    assert_eq!(inv.all_keys.len(), 3); // API_URL, DB_PASS, DEBUG_TOKEN
    assert_eq!(inv.keys_by_env.get("prod").unwrap().len(), 2);
}

#[test]
fn scan_store_empty_returns_empty_inventory() {
    let inv = scan_inventory(&[]);
    assert!(inv.environments().is_empty());
    assert!(inv.all_keys.is_empty());
}

#[test]
fn scan_inventory_keeps_top_level_keys_out_of_every_env() {
    let inv = scan_inventory(&["TOP".to_string(), "dev/a/b".to_string()]);
    assert_eq!(inv.environments(), vec!["dev".to_string()]);
    assert_eq!(inv.all_keys.keys(), vec!["TOP".to_string(), "a/b".to_string()]);
    assert_eq!(inv.keys_by_env.get("dev").unwrap().keys(), vec!["a/b".to_string()]);
}

// -- Effective keys --

#[test]
fn effective_keys_merges_common() {
    let inv = inventory(&[("common", &["SHARED_KEY"]), ("prod", &["PROD_KEY"])]);
    let keys = effective_keys(&inv, Some("prod"), true);
    assert!(keys.contains_key("SHARED_KEY"));
    assert!(keys.contains_key("PROD_KEY"));
}

#[test]
fn effective_keys_no_merge() {
    let inv = inventory(&[("common", &["SHARED_KEY"]), ("prod", &["PROD_KEY"])]);
    let keys = effective_keys(&inv, Some("prod"), false);
    assert!(!keys.contains_key("SHARED_KEY"));
    assert!(keys.contains_key("PROD_KEY"));
}

#[test]
fn effective_keys_no_env_returns_all() {
    let inv = inventory(&[("common", &["A"]), ("prod", &["B"]), ("dev", &["C"])]);
    let keys = effective_keys(&inv, None, true);
    assert_eq!(keys.len(), 3);
}

#[test]
fn effective_keys_unknown_env_is_only_common() {
    let inv = inventory(&[("common", &["A"]), ("prod", &["B"])]);
    let keys = effective_keys(&inv, Some("staging"), true);
    assert_eq!(keys.keys(), vec!["A".to_string()]);
    let none = effective_keys(&inv, Some("staging"), false);
    assert!(none.is_empty());
}

// -- TypeScript generation --

#[test]
fn gen_typescript_produces_valid_output() {
    let inv = inventory(&[("prod", &["STRIPE_KEY", "DB_PASS"])]);
    let code = gen_typescript(&inv, &inv.all_keys, Some("prod"));
    assert!(code.contains("AUTO-GENERATED"));
    assert!(code.contains("export type HimitsuEnvironment ="));
    assert!(code.contains("\"prod\""));
    assert!(code.contains("export interface HimitsuSecrets"));
    assert!(code.contains("readonly stripeKey: string;"));
    assert!(code.contains("readonly dbPass: string;"));
    assert!(code.contains("export const HIMITSU_KEYS = ["));
    assert!(code.contains("\"STRIPE_KEY\""));
    assert!(code.contains("\"DB_PASS\""));
    assert!(code.contains("as const satisfies readonly HimitsuKey[]"));
}

#[test]
fn gen_typescript_includes_env_keys_map() {
    let inv = inventory(&[("common", &["SHARED"]), ("prod", &["PROD_ONLY"])]);
    let code = gen_typescript(&inv, &inv.all_keys, None);
    assert!(code.contains("HIMITSU_KEYS_BY_ENV"));
    assert!(code.contains("\"common\""));
    assert!(code.contains("\"SHARED\""));
}

#[test]
fn gen_typescript_union_closes_last_member() {
    let inv = inventory(&[("dev", &["A"]), ("prod", &["B"])]);
    let code = gen_typescript(&inv, &inv.all_keys, None);
    assert!(code.contains("export type HimitsuEnvironment =\n  | \"dev\"\n  | \"prod\";\n"));
    assert!(code.contains("export type HimitsuKey =\n  | \"A\"\n  | \"B\";\n"));
    assert!(code.contains("  \"dev\": [\n    \"A\",\n  ],\n  \"prod\": [\n    \"B\",\n  ],\n};\n"));
}

// -- Go generation --

#[test]
fn gen_golang_produces_valid_output() {
    let inv = inventory(&[("prod", &["API_KEY"])]);
    let code = gen_golang(&inv, &inv.all_keys, Some("prod"));
    assert!(code.contains("package secrets"));
    assert!(code.contains("EnvProd"));
    assert!(code.contains("KeyApiKey"));
    assert!(code.contains("type HimitsuSecrets struct"));
    assert!(code.contains("ApiKey string `json:\"API_KEY\" yaml:\"API_KEY\"`"));
    assert!(code.contains("var AllKeys = []string{"));
}

// -- Python generation --

#[test]
fn gen_python_produces_valid_output() {
    let inv = inventory(&[("dev", &["TOKEN", "SECRET"])]);
    let code = gen_python(&inv, &inv.all_keys, Some("dev"));
    assert!(code.contains("from dataclasses import dataclass"));
    assert!(code.contains("class HimitsuEnvironment(str, Enum):"));
    assert!(code.contains("DEV = \"dev\""));
    assert!(code.contains("@dataclass(frozen=True)"));
    assert!(code.contains("class HimitsuSecrets:"));
    assert!(code.contains("secret: str"));
    assert!(code.contains("token: str"));
    assert!(code.contains("ALL_KEYS: ClassVar[FrozenSet[str]]"));
    assert!(code.contains("KEYS_BY_ENV"));
}

// -- Rust generation --

#[test]
fn gen_rust_produces_valid_output() {
    let inv = inventory(&[("staging", &["DB_URL", "REDIS_URL"])]);
    let code = gen_rust(&inv, &inv.all_keys, Some("staging"));
    assert!(code.contains("#![allow(dead_code)]"));
    assert!(code.contains("pub enum HimitsuEnvironment"));
    assert!(code.contains("Staging,"));
    assert!(code.contains("pub enum HimitsuKey"));
    assert!(code.contains("DbUrl,"));
    assert!(code.contains("RedisUrl,"));
    assert!(code.contains("pub struct HimitsuSecrets"));
    assert!(code.contains("pub db_url: String,"));
    assert!(code.contains("pub const ALL_KEYS: [HimitsuKey; 2]"));
    assert!(code.contains("pub const ALL_KEY_NAMES: [&str; 2]"));
}

#[test]
fn gen_rust_counts_every_key() {
    let names: Vec<String> = (0..12).map(|i| format!("K{i}")).collect();
    let refs: Vec<&str> = names.iter().map(|s| s.as_str()).collect();
    let inv = inventory(&[("prod", &refs)]);
    let code = gen_rust(&inv, &inv.all_keys, None);
    assert!(code.contains("pub const ALL_KEYS: [HimitsuKey; 12] = [\n"));
    assert!(code.contains("            Self::K11 => \"K11\",\n"));
}

// -- Header --

#[test]
fn gen_header_includes_env_note() {
    let h = gen_header("//", Some("prod"));
    assert!(h.contains("(environment: prod)"));

    let h2 = gen_header("#", None);
    assert!(h2.contains("(all environments)"));
}

#[test]
fn gen_header_exact_banner() {
    let rule = "=".repeat(77);
    let expected = format!(
        "# {rule}\n# AUTO-GENERATED by `himitsu codegen` — do not edit manually.\n# (environment: dev)\n# {rule}\n\n"
    );
    assert_eq!(gen_header("#", Some("dev")), expected);
}

// -- Dispatch and configuration --

fn args(lang: Option<&str>, env: Option<&str>, stdout: bool) -> CodegenArgs {
    CodegenArgs {
        env_positional: None,
        lang: lang.map(String::from),
        output: None,
        env: env.map(String::from),
        stdout,
        merge_common: true,
    }
}

#[test]
fn run_with_stdout_flag_and_explicit_lang() {
    let paths = vec!["prod/MY_SECRET".to_string()];
    let result = run_language(&args(Some("typescript"), Some("prod"), true), None, "/repo", &paths);
    let generated = result.unwrap();
    assert!(generated.dest.is_none());
    assert!(generated.code.contains("readonly mySecret: string;"));
}

#[test]
fn run_fails_on_empty_store() {
    let result = run_language(&args(Some("typescript"), None, true), None, "/repo", &[]);
    match result {
        Err(HimitsuError::InvalidConfig(m)) => {
            assert_eq!(m, "no secrets found in store — nothing to generate")
        }
        other => panic!("unexpected: {other:?}"),
    }
}

#[test]
fn run_fails_on_unknown_language() {
    let paths = vec!["prod/X".to_string()];
    let result = run_language(&args(Some("cobol"), None, true), None, "/repo", &paths);
    match result {
        Err(HimitsuError::InvalidConfig(m)) => assert_eq!(m, "unsupported codegen language: cobol"),
        other => panic!("unexpected: {other:?}"),
    }
}

#[test]
fn run_writes_to_output_or_project_path() {
    let paths = vec!["prod/TOKEN".to_string()];
    let mut a = args(Some("typescript"), Some("prod"), false);
    a.output = Some("generated/secrets.ts".to_string());
    let generated = run_language(&a, None, "/repo", &paths).unwrap();
    assert_eq!(generated.dest.as_deref(), Some("generated/secrets.ts"));
    assert!(generated.code.contains("export interface HimitsuSecrets"));
    assert!(generated.code.contains("readonly token: string;"));

    let project = CodegenConfig { lang: "go".to_string(), path: "gen/secrets.go".to_string() };
    let generated = run_language(&args(None, None, false), Some(&project), "/repo", &paths).unwrap();
    assert_eq!(generated.dest.as_deref(), Some("/repo/gen/secrets.go"));
    assert!(generated.code.contains("package secrets"));
}

#[test]
fn resolve_config_reports_each_missing_or_unknown_language() {
    match resolve_config(None, None, None, "/repo") {
        Err(HimitsuError::InvalidConfig(m)) => assert_eq!(
            m,
            "codegen language not specified: use --lang or set codegen.lang in .himitsu.yaml"
        ),
        other => panic!("unexpected: {other:?}"),
    }
    let project = CodegenConfig { lang: "cobol".to_string(), path: "x".to_string() };
    match resolve_config(None, None, Some(&project), "/repo") {
        Err(HimitsuError::InvalidConfig(m)) => {
            assert_eq!(m, "unsupported codegen language in .himitsu.yaml: cobol")
        }
        other => panic!("unexpected: {other:?}"),
    }
    let (lang, out) = resolve_config(Some("py"), None, Some(&project), "/repo").unwrap();
    assert_eq!(lang, CodegenLang::Python);
    assert_eq!(out.as_deref(), Some("/repo/x"));
}

#[test]
fn codegen_lang_names() {
    assert_eq!(codegen_lang_from_str("ts"), CodegenLang::Typescript);
    assert_eq!(codegen_lang_from_str("golang"), CodegenLang::Golang);
    assert_eq!(codegen_lang_from_str("rust"), CodegenLang::Rust);
    assert_eq!(codegen_lang_from_str("Rust"), CodegenLang::Unspecified);
    let inv = inventory(&[("prod", &["A"])]);
    match generate(CodegenLang::Unspecified, &inv, &inv.all_keys, None) {
        Err(HimitsuError::InvalidConfig(m)) => assert_eq!(m, "codegen language not specified"),
        other => panic!("unexpected: {other:?}"),
    }
}

// -- Sops-mode output path derivation --

#[test]
fn default_sops_output_name_concrete_top_level() {
    assert_eq!(default_sops_output_name("foo"), "foo.sops.yaml");
}

#[test]
fn default_sops_output_name_nested_concrete() {
    assert_eq!(default_sops_output_name("foo/bar"), "foo-bar.sops.yaml");
    assert_eq!(default_sops_output_name("foo/bar/baz"), "foo-bar-baz.sops.yaml");
}

#[test]
fn default_sops_output_name_strips_trailing_wildcard() {
    assert_eq!(default_sops_output_name("foo/*"), "foo.sops.yaml");
    assert_eq!(default_sops_output_name("foo/bar/*"), "foo-bar.sops.yaml");
}

// -- Sops mode --

#[test]
fn sops_mode_needs_a_positional_env_without_lang() {
    let mut a = args(None, None, false);
    assert_eq!(sops_label(&a), None);
    a.env_positional = Some("dev".to_string());
    assert_eq!(sops_label(&a), Some("dev".to_string()));
    a.lang = Some("ts".to_string());
    assert_eq!(sops_label(&a), None);
}

#[test]
fn run_sops_unknown_env_label_errors() {
    let mut envs: StrMap<Vec<EnvEntry>> = StrMap::new();
    envs.insert("dev".to_string(), vec![EnvEntry::Single("dev/API_KEY".to_string())]);
    let err = plan_sops("ghost", None, &envs, &[]).unwrap_err();
    match err {
        HimitsuError::InvalidConfig(msg) => {
            assert!(msg.contains("unknown env") && msg.contains("ghost"), "unexpected error: {msg}")
        }
        other => panic!("unexpected error: {other:?}"),
    }
}

#[test]
fn plan_sops_resolves_tree_and_default_path() {
    let mut envs: StrMap<Vec<EnvEntry>> = StrMap::new();
    envs.insert("dev".to_string(), vec![EnvEntry::Single("dev/API_KEY".to_string())]);
    let plan = plan_sops("dev", None, &envs, &[]).unwrap();
    assert_eq!(plan.path, "dev.sops.yaml");
    let plan = plan_sops("dev", Some("out/x.yaml"), &envs, &[]).unwrap();
    assert_eq!(plan.path, "out/x.yaml");
    assert!(matches!(plan_sops("dev/", None, &envs, &[]), Err(HimitsuError::InvalidConfig(_))));
}

/// Every leaf of the tree mapped to the same plaintext.
fn stub_values(tree: &EnvNode, leaf_value: &str) -> StrMap<Vec<u8>> {
    let mut values: StrMap<Vec<u8>> = StrMap::new();
    for (_, path) in collect_env_leaves(tree) {
        values.insert(path, leaf_value.as_bytes().to_vec());
    }
    values
}

#[test]
fn materialize_tree_serializes_concrete_env_as_flat_yaml() {
    let mut envs: StrMap<Vec<EnvEntry>> = StrMap::new();
    envs.insert(
        "dev".to_string(),
        vec![
            EnvEntry::Single("dev/API_KEY".to_string()),
            EnvEntry::Alias { key: "DB".to_string(), path: "dev/DB_PASS".to_string() },
        ],
    );
    let tree = resolve(&envs, "dev", &[]).unwrap();
    let value = materialize(&tree, &stub_values(&tree, "PLAINTEXT")).unwrap();

    let yaml = to_yaml(&value).unwrap();
    assert!(yaml.contains("dev:"), "yaml=\n{yaml}");
    assert!(yaml.contains("API_KEY: PLAINTEXT"), "yaml=\n{yaml}");
    assert!(yaml.contains("DB: PLAINTEXT"), "yaml=\n{yaml}");
}

#[test]
fn materialize_tree_serializes_wildcard_env_as_nested_yaml() {
    let mut envs: StrMap<Vec<EnvEntry>> = StrMap::new();
    envs.insert(
        "foo/*".to_string(),
        vec![EnvEntry::Alias { key: "POSTGRES".to_string(), path: "$1/postgres-url".to_string() }],
    );
    let secrets = vec!["dev/postgres-url".to_string(), "prod/postgres-url".to_string()];
    let tree = resolve(&envs, "foo/*", &secrets).unwrap();
    let value = materialize(&tree, &stub_values(&tree, "PW")).unwrap();

    let yaml = to_yaml(&value).unwrap();
    assert!(yaml.contains("foo:"), "yaml=\n{yaml}");
    assert!(yaml.contains("dev:"), "yaml=\n{yaml}");
    assert!(yaml.contains("prod:"), "yaml=\n{yaml}");
    assert!(yaml.contains("POSTGRES: PW"), "yaml=\n{yaml}");
}

#[test]
fn sops_plaintext_contains_auto_generated_header() {
    let mut envs: StrMap<Vec<EnvEntry>> = StrMap::new();
    envs.insert("dev".to_string(), vec![EnvEntry::Single("dev/API_KEY".to_string())]);
    let tree = resolve(&envs, "dev", &[]).unwrap();
    let out = sops_document("dev", &tree, &stub_values(&tree, "XXX")).unwrap();

    assert!(out.starts_with("# ="), "plaintext must start with header");
    assert!(out.contains("AUTO-GENERATED"));
    assert!(out.contains("(environment: dev)"));
    let header_end = out.find("\n\n").expect("banner ends with blank line");
    assert!(out[header_end..].contains("dev:"), "body should follow banner");
}

#[test]
fn sops_plaintext_is_banner_then_body() {
    let out = sops_plaintext("dev", "dev:\n  API_KEY: XXX\n");
    assert!(out.starts_with("# ="));
    assert!(out.ends_with("\n\ndev:\n  API_KEY: XXX\n"));
}

#[test]
fn sops_document_reports_missing_plaintext_by_path() {
    let mut envs: StrMap<Vec<EnvEntry>> = StrMap::new();
    envs.insert("dev".to_string(), vec![EnvEntry::Single("dev/API_KEY".to_string())]);
    let tree = resolve(&envs, "dev", &[]).unwrap();
    let empty: StrMap<Vec<u8>> = StrMap::new();
    match sops_document("dev", &tree, &empty) {
        Err(HimitsuError::SecretNotFound(p)) => assert_eq!(p, "dev/API_KEY"),
        other => panic!("unexpected {other:?}"),
    }
    let mut bad: StrMap<Vec<u8>> = StrMap::new();
    bad.insert("dev/API_KEY".to_string(), vec![0xff, 0xfe]);
    match sops_document("dev", &tree, &bad) {
        Err(HimitsuError::DecryptionFailed(m)) => {
            assert!(m.starts_with("non-UTF-8 secret at 'dev/API_KEY': "), "{m}")
        }
        other => panic!("unexpected {other:?}"),
    }
}

#[test]
fn materialized_yaml_has_exact_shape() {
    let mut envs: StrMap<Vec<EnvEntry>> = StrMap::new();
    envs.insert("dev".to_string(), vec![EnvEntry::Single("dev/API_KEY".to_string())]);
    let tree = resolve(&envs, "dev", &[]).unwrap();
    let value = materialize(&tree, &stub_values(&tree, "v1")).unwrap();
    assert_eq!(
        value,
        YamlNode::Mapping(vec![(
            YamlNode::Str("dev".to_string()),
            YamlNode::Mapping(vec![(
                YamlNode::Str("API_KEY".to_string()),
                YamlNode::Str("v1".to_string())
            )])
        )])
    );
    assert_eq!(to_yaml(&value).unwrap(), "dev:\n  API_KEY: v1\n");
}
