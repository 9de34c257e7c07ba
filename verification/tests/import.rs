use clap::{Arg, ArgAction, Command};
use himitsu::args::ImportArgs;
use himitsu::cli::Context;
use himitsu::error::HimitsuError;
use himitsu::import::{already_exists, op_read_failed, run};

/// The `import` arguments as the command line defines them.
fn import_command() -> Command {
    Command::new("test").subcommand(
        Command::new("import")
            .arg(Arg::new("path").required(true))
            .arg(Arg::new("op").long("op").conflicts_with("sops"))
            .arg(Arg::new("sops").long("sops"))
            .arg(Arg::new("overwrite").long("overwrite").action(ArgAction::SetTrue))
            .arg(Arg::new("no_push").long("no-push").action(ArgAction::SetTrue)),
    )
}

fn parse(args: &[&str]) -> ImportArgs {
    let mut full = vec!["test", "import"];
    full.extend_from_slice(args);
    let m = import_command().try_get_matches_from(full).expect("parse ok");
    let (_, m) = m.subcommand().expect("subcommand");
    ImportArgs {
        path: m.get_one::<String>("path").cloned().unwrap(),
        op: m.get_one::<String>("op").cloned(),
        sops: m.get_one::<String>("sops").cloned(),
        overwrite: m.get_flag("overwrite"),
        no_push: m.get_flag("no_push"),
    }
}

fn ctx() -> Context {
    Context {
        data_dir: "/tmp".to_string(),
        state_dir: "/tmp".to_string(),
        store: String::new(),
        recipients_path: None,
    }
}

#[test]
fn parses_op_and_path() {
    let a = parse(&["--op", "op://Personal/Stripe/credential", "prod/STRIPE_KEY"]);
    assert_eq!(a.path, "prod/STRIPE_KEY");
    assert_eq!(a.op.as_deref(), Some("op://Personal/Stripe/credential"));
    assert!(!a.overwrite);
    assert!(!a.no_push);
}

#[test]
fn parses_flags() {
    let a = parse(&["--op", "op://v/i/f", "--overwrite", "--no-push", "prod/X"]);
    assert!(a.overwrite);
    assert!(a.no_push);
}

#[test]
fn op_and_sops_conflict() {
    let res = import_command()
        .try_get_matches_from(["test", "import", "--op", "op://v/i/f", "--sops", "x.yaml", "prod/X"]);
    assert!(res.is_err(), "clap should reject --op with --sops");
}

#[test]
fn missing_source_errors_cleanly() {
    let args = parse(&["prod/X"]);
    let err = run(args, &ctx()).unwrap_err();
    assert!(
        matches!(err, HimitsuError::InvalidReference(ref m) if m.contains("missing source")),
        "got {err:?}"
    );
}

#[test]
fn sops_branch_is_not_supported() {
    let args = ImportArgs {
        path: "prod/X".into(),
        op: None,
        sops: Some("secrets.enc.yaml".into()),
        overwrite: false,
        no_push: false,
    };
    let err = run(args, &ctx()).unwrap_err();
    assert!(matches!(err, HimitsuError::NotSupported(_)), "got {err:?}");
}

#[test]
fn rejects_non_op_reference() {
    let args = ImportArgs {
        path: "prod/X".into(),
        op: Some("https://example.com/foo".into()),
        sops: None,
        overwrite: false,
        no_push: false,
    };
    let err = run(args, &ctx()).unwrap_err();
    assert!(matches!(err, HimitsuError::InvalidReference(_)), "got {err:?}");
}

#[test]
fn whole_item_import_not_yet_implemented() {
    let args = ImportArgs {
        path: "prod/".into(),
        op: Some("op://Personal/Stripe".into()),
        sops: None,
        overwrite: false,
        no_push: false,
    };
    let err = run(args, &ctx()).unwrap_err();
    assert!(matches!(err, HimitsuError::NotSupported(_)), "got {err:?}");
}

// ── Further cases ────────────────────────────────────────────────────────

#[test]
fn field_reference_is_accepted() {
    let args = parse(&["--op", "op://v/i/f", "--overwrite", "prod/X"]);
    let plan = run(args, &ctx()).unwrap();
    assert_eq!(plan.op_ref, "op://v/i/f");
    assert_eq!(plan.path, "prod/X");
    assert!(plan.overwrite);
}

#[test]
fn deep_reference_is_rejected() {
    let args = parse(&["--op", "op://a/b/c/d", "prod/X"]);
    assert_eq!(
        run(args, &ctx()).unwrap_err().to_string(),
        "invalid reference: expected op://vault/item/field, got \"op://a/b/c/d\""
    );
}

#[test]
fn op_failures_are_described() {
    assert_eq!(op_read_failed("  boom \n", "1").to_string(), "external command failed: `op read` failed: boom");
    assert_eq!(op_read_failed("  ", "exit status: 1").to_string(), "external command failed: `op read` exited with status exit status: 1");
    assert!(already_exists("p").to_string().contains("--overwrite"));
}
