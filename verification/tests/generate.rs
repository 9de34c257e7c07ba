use himitsu::args::GenerateArgs;
use himitsu::config::{GenerateConfig, ProjectConfig};
use himitsu::error::HimitsuError;
use himitsu::generate::{
    add_value, build_plaintext_yaml, check_args, duplicate_warning, plan_env_file,
    resolve_target, select_outputs,
};
use himitsu::outputs::{ResolvedEntry, ResolvedOutput};
use himitsu::strmap::StrMap;

fn project(generate: Option<GenerateConfig>) -> ProjectConfig {
    ProjectConfig {
        default_store: None,
        outputs: StrMap::new(),
        generate,
        recipients_path: None,
    }
}

fn output(name: &str) -> ResolvedOutput {
    ResolvedOutput {
        name: name.into(),
        entries: vec![ResolvedEntry {
            env_key: "K".into(),
            secret_path: "p".into(),
            store_slug: None,
        }],
    }
}

#[test]
fn env_flag_is_refused() {
    let args = GenerateArgs { target: None, output: None, env: Some("dev".into()), stdout: false };
    match check_args(&args) {
        Err(HimitsuError::GenerateError(m)) => {
            assert_eq!(m, "--env flag has been removed; use --output instead")
        }
        other => panic!("unexpected: {other:?}"),
    }
}

#[test]
fn select_outputs_filters_by_name() {
    let all = vec![output("dev"), output("prod")];
    let picked = select_outputs(all.clone(), Some("prod")).unwrap();
    assert_eq!(picked.len(), 1);
    assert_eq!(picked[0].name, "prod");
    assert_eq!(select_outputs(all.clone(), None).unwrap().len(), 2);
    match select_outputs(all, Some("qa")) {
        Err(HimitsuError::GenerateError(m)) => {
            assert_eq!(m, "output 'qa' not found in project config")
        }
        other => panic!("unexpected: {other:?}"),
    }
}

#[test]
fn plaintext_yaml_escapes_values_and_last_value_wins() {
    let mut out: StrMap<String> = StrMap::new();
    assert!(!add_value(&mut out, "B".into(), "x".into()));
    assert!(!add_value(&mut out, "A".into(), "line1\nsay \"hi\"\\".into()));
    assert!(add_value(&mut out, "B".into(), "y".into()));
    let yaml = build_plaintext_yaml(&out, "dev");
    assert_eq!(
        yaml,
        "# Generated by himitsu for output: dev\n# Do not edit — regenerate with `himitsu generate`\nA: \"line1\\nsay \\\"hi\\\"\\\\\"\nB: \"y\"\n"
    );
    assert_eq!(
        duplicate_warning("B", "dev"),
        "warning: duplicate key 'B' in output 'dev' — using last value"
    );
}

#[test]
fn target_and_env_file_plan() {
    let cfg = project(Some(GenerateConfig {
        target: "out".into(),
        format: "sops".into(),
        age_recipients: vec!["age1a".into(), "age1b".into()],
    }));
    assert_eq!(resolve_target(Some("t"), &cfg).unwrap(), "t");
    assert_eq!(resolve_target(None, &cfg).unwrap(), "out");
    match resolve_target(None, &project(None)) {
        Err(HimitsuError::GenerateError(m)) => assert_eq!(
            m,
            "no output target specified; use --target or set `generate.target` in himitsu.yaml"
        ),
        other => panic!("unexpected: {other:?}"),
    }
    let plan = plan_env_file("out", "dev", &cfg).unwrap();
    assert_eq!(plan.path, "out/dev.sops.yaml");
    assert_eq!(
        plan.sops_args,
        vec![
            "--encrypt", "--age", "age1a,age1b", "--input-type", "yaml", "--output-type",
            "yaml", "/dev/stdin"
        ]
    );
    assert!(matches!(plan_env_file("out", "dev", &project(None)), Err(HimitsuError::GenerateError(_))));
}
