use clap::{Arg, ArgAction, Command};
use himitsu::args::SetArgs;
use himitsu::set::{set_plaintext, validate_env_key, validate_tags, validate_totp};

/// The `set` arguments as the command line defines them.
fn set_command() -> Command {
    Command::new("test").subcommand(
        Command::new("set")
            .arg(Arg::new("path").required(true))
            .arg(Arg::new("value").required(true))
            .arg(Arg::new("no_push").long("no-push").action(ArgAction::SetTrue))
            .arg(Arg::new("totp").long("totp"))
            .arg(Arg::new("url").long("url"))
            .arg(Arg::new("description").long("description"))
            .arg(Arg::new("env_key").long("env-key"))
            .arg(Arg::new("expires_at").long("expires-at"))
            .arg(Arg::new("tag").long("tag").action(ArgAction::Append)),
    )
}

fn parse(args: &[&str]) -> SetArgs {
    let mut full = vec!["test", "set"];
    full.extend_from_slice(args);
    let m = set_command().try_get_matches_from(full).expect("parse ok");
    let (_, m) = m.subcommand().expect("subcommand");
    let s = |k: &str| m.get_one::<String>(k).cloned();
    SetArgs {
        path: s("path").unwrap(),
        value: s("value").unwrap(),
        no_push: m.get_flag("no_push"),
        totp: s("totp"),
        url: s("url"),
        description: s("description"),
        env_key: s("env_key"),
        expires_at: s("expires_at"),
        tags: m.get_many::<String>("tag").map(|v| v.cloned().collect()).unwrap_or_default(),
    }
}

#[test]
fn totp_accepts_otpauth_uri() {
    assert!(validate_totp("otpauth://totp/Example:alice?secret=JBSWY3DPEHPK3PXP&issuer=Example")
        .is_ok());
}

#[test]
fn totp_accepts_32_char_base32() {
    assert!(validate_totp("JBSWY3DPEHPK3PXPJBSWY3DPEHPK3PXP").is_ok());
}

#[test]
fn totp_rejects_short_input() {
    let err = validate_totp("abc").unwrap_err();
    assert!(err.to_string().contains("too short"));
}

#[test]
fn totp_rejects_non_base32() {
    let err = validate_totp("1111111111111111!!!").unwrap_err();
    assert!(err.to_string().contains("base32"));
}

#[test]
fn totp_rejects_empty() {
    assert!(validate_totp("").is_err());
}

#[test]
fn env_key_accepts_uppercase_with_underscores() {
    assert!(validate_env_key("DATABASE_URL").is_ok());
    assert!(validate_env_key("_PRIVATE").is_ok());
    assert!(validate_env_key("API_KEY_2").is_ok());
}

#[test]
fn env_key_rejects_leading_digit() {
    let err = validate_env_key("1FOO").unwrap_err();
    assert!(err.to_string().contains("letter or underscore"));
}

#[test]
fn env_key_rejects_hyphen_and_space() {
    assert!(validate_env_key("FOO-BAR").is_err());
    assert!(validate_env_key("FOO BAR").is_err());
}

#[test]
fn env_key_rejects_empty() {
    assert!(validate_env_key("").is_err());
}

#[test]
fn tag_flag_accumulates_multiple_invocations() {
    let a = parse(&["prod/API_KEY", "secret-value", "--tag", "pci", "--tag", "rotate-2026-q1"]);
    assert_eq!(a.tags, vec!["pci".to_string(), "rotate-2026-q1".to_string()]);
}

#[test]
fn tag_flag_defaults_to_empty_vec() {
    let a = parse(&["prod/API_KEY", "secret-value"]);
    assert!(a.tags.is_empty());
    assert_eq!(validate_tags(&a.tags).unwrap(), Vec::<String>::new());
}

#[test]
fn validate_tags_rejects_invalid_before_io() {
    let raw = vec!["ok".to_string(), "bad tag".to_string()];
    let err = validate_tags(&raw).unwrap_err();
    let msg = err.to_string();
    assert!(msg.contains("bad tag"), "error mentions offending tag: {msg}");
    assert!(msg.contains("invalid tag"), "uses canonical prefix: {msg}");
}

#[test]
fn validate_tags_passes_through_valid_list() {
    let raw = vec!["pci".to_string(), "team_backend".to_string(), "v1.2.3".to_string()];
    assert_eq!(validate_tags(&raw).unwrap(), raw);
}

// ── Further cases ────────────────────────────────────────────────────────

#[test]
fn totp_short_message_counts_base32_characters() {
    let err = validate_totp(" AB-CD ==").unwrap_err();
    assert_eq!(
        err.to_string(),
        "invalid reference: totp secret too short (got 4 base32 chars, need >= 16) — pass an otpauth:// URI or a longer base32 string"
    );
}

#[test]
fn totp_ignores_spaces_dashes_and_padding() {
    assert!(validate_totp("JBSW Y3DP-EHPK 3PXP====").is_ok());
}

#[test]
fn env_key_messages_quote_the_input() {
    assert_eq!(
        validate_env_key("A-B").unwrap_err().to_string(),
        "invalid reference: env-key may only contain letters, digits, or underscores (got \"A-B\")"
    );
    assert_eq!(validate_env_key("").unwrap_err().to_string(), "invalid reference: env-key is empty");
}

#[test]
fn validate_tags_reports_the_reason() {
    let err = validate_tags(&["".to_string()]).unwrap_err();
    assert_eq!(err.to_string(), "invalid reference: invalid tag \"\": tag must not be empty");
}

#[test]
fn set_plaintext_keeps_only_data_and_tags() {
    let v = set_plaintext(b"abc", vec!["pci".to_string()]);
    assert_eq!(v.data, b"abc".to_vec());
    assert_eq!(v.tags, vec!["pci".to_string()]);
    assert!(v.env_key.is_empty() && v.url.is_empty() && v.expires_at.is_none());
}
