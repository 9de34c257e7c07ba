use himitsu::args::{CiArgs, CiCommand, InstallArgs, RunArgs, WorkflowPathArgs};
use himitsu::ci::{install_conflict, render_gh_command, run, trigger_fields, workflow_template, CiAction, CiOperation};

#[test]
fn operation_inputs_match_action_operations() {
    assert_eq!(CiOperation::Sync.as_input(), "sync");
    assert_eq!(CiOperation::AddRecipient.as_input(), "add-recipient");
    assert_eq!(CiOperation::RmRecipient.as_input(), "rm-recipient");
}

#[test]
fn dry_run_command_includes_fields() {
    let fields = vec!["operation=sync".to_string(), "remote=acme/secrets".to_string()];
    assert_eq!(
        render_gh_command("himitsu.yml", &fields),
        "gh workflow run himitsu.yml --field operation=sync --field remote=acme/secrets"
    );
}

// ── Further cases ────────────────────────────────────────────────────────

fn run_args(remote: Option<&str>, name: Option<&str>) -> RunArgs {
    RunArgs {
        operation: CiOperation::AddRecipient,
        target_remote: remote.map(String::from),
        recipient_name: name.map(String::from),
        recipient_key: Some(String::new()),
        group: "team".to_string(),
        workflow: "himitsu.yml".to_string(),
        dry_run: true,
    }
}

#[test]
fn trigger_fields_skip_absent_and_empty_values() {
    let fields = trigger_fields(&run_args(Some("acme/secrets"), Some("alice"))).unwrap();
    assert_eq!(
        fields,
        vec!["operation=add-recipient", "remote=acme/secrets", "recipient-name=alice", "group=team"]
    );
}

#[test]
fn trigger_rejects_bad_remote() {
    assert!(trigger_fields(&run_args(Some("not a slug"), None)).is_err());
    let r = run(CiArgs { command: CiCommand::Run(run_args(Some("a/b/c"), None)) });
    assert!(r.is_err());
}

#[test]
fn render_without_fields() {
    assert_eq!(render_gh_command("w.yml", &[]), "gh workflow run w.yml");
}

#[test]
fn install_fills_in_remote_and_ref() {
    let t = workflow_template(Some("acme/secrets"), "v1");
    assert!(t.contains("        default: acme/secrets\n"));
    assert!(t.contains("uses: darkmatter/himitsu@v1\n"));
    assert!(t.contains("operation: ${{ inputs.operation }}"));
    match run(CiArgs {
        command: CiCommand::Install(InstallArgs {
            default_remote: None,
            action_ref: "main".to_string(),
            path: "w.yml".to_string(),
            force: false,
        }),
    })
    .unwrap()
    {
        CiAction::Install { path, contents, force } => {
            assert_eq!(path, "w.yml");
            assert!(!force);
            assert_eq!(contents, workflow_template(None, "main"));
        }
        other => panic!("unexpected {other:?}"),
    }
}

#[test]
fn status_reports_the_path() {
    match run(CiArgs { command: CiCommand::Status(WorkflowPathArgs { path: "x.yml".into() }) }).unwrap() {
        CiAction::Status { path } => assert_eq!(path, "x.yml"),
        other => panic!("unexpected {other:?}"),
    }
    assert!(install_conflict("x.yml", true, false).is_err());
    assert!(install_conflict("x.yml", true, true).is_ok());
    assert!(install_conflict("x.yml", false, false).is_ok());
}
