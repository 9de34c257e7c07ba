use clap::{Arg, ArgAction, Command};
use himitsu::args::WriteArgs;
use himitsu::tags::validate_tag;

/// The `write` arguments as the command line defines them.
fn parse(argv: &[&str]) -> WriteArgs {
    let cmd = Command::new("write")
        .arg(Arg::new("path").required(true))
        .arg(Arg::new("value"))
        .arg(Arg::new("stdin").long("stdin").action(ArgAction::SetTrue))
        .arg(Arg::new("no_push").long("no-push").action(ArgAction::SetTrue))
        .arg(Arg::new("tag").long("tag").action(ArgAction::Append));
    let mut full = vec!["write"];
    full.extend_from_slice(argv);
    let m = cmd.get_matches_from(full);
    WriteArgs {
        path: m.get_one::<String>("path").cloned().unwrap(),
        value: m.get_one::<String>("value").cloned(),
        stdin: m.get_flag("stdin"),
        no_push: m.get_flag("no_push"),
        tags: m.get_many::<String>("tag").map(|v| v.cloned().collect()).unwrap_or_default(),
    }
}

fn validate_all(args: &WriteArgs) -> std::result::Result<(), String> {
    args.tags.iter().try_for_each(|t| validate_tag(t).map(|_| ()))
}

#[test]
fn rejects_invalid_tag() {
    let args = parse(&["prod/API_KEY", "v", "--tag", "has space"]);
    let err = validate_all(&args).unwrap_err();
    assert!(err.contains("invalid character"), "got: {err}");
}

#[test]
fn rejects_empty_tag() {
    let args = parse(&["prod/API_KEY", "v", "--tag", ""]);
    let err = validate_all(&args).unwrap_err();
    assert!(err.contains("empty"), "got: {err}");
}

#[test]
fn multiple_tags_accumulate() {
    let args = parse(&["prod/API_KEY", "v", "--tag", "pci", "--tag", "rotate-2026", "--tag", "team_backend"]);
    assert_eq!(args.tags, vec!["pci", "rotate-2026", "team_backend"]);
    for t in &args.tags {
        assert!(validate_tag(t).is_ok(), "{t} should validate");
    }
}

#[test]
fn no_tag_flag_yields_empty_vec() {
    let args = parse(&["prod/API_KEY", "v"]);
    assert!(args.tags.is_empty());
}

// ── Further cases ────────────────────────────────────────────────────────

#[test]
fn tag_problems_are_named() {
    assert_eq!(validate_tag("a b").unwrap_err(), "tag contains invalid character ' ' (allowed: A-Z a-z 0-9 _ . -)");
    assert_eq!(validate_tag(&"a".repeat(65)).unwrap_err(), "tag is longer than 64 characters");
    assert!(validate_tag(&"a".repeat(64)).is_ok());
}
