use himitsu::labels::{
    is_wildcard_label, label_prefix_segments, parse_captures, validate_env_label,
    validate_remote_slug, KeyProvider,
};

#[test]
fn validate_remote_slug_accepts_valid() {
    let (org, repo) = validate_remote_slug("my-org/my-repo").unwrap();
    assert_eq!(org, "my-org");
    assert_eq!(repo, "my-repo");
}

#[test]
fn validate_remote_slug_rejects_bad_slugs() {
    assert!(validate_remote_slug("notaslug").is_err());
    assert!(validate_remote_slug("a/b/c").is_err());
    assert!(validate_remote_slug("/oops").is_err());
    assert!(validate_remote_slug("org/").is_err());
    assert!(validate_remote_slug("../repo").is_err());
    assert!(validate_remote_slug("org/..").is_err());
    assert!(validate_remote_slug("./repo").is_err());
    // URL fragments must not be accepted as slugs — they create
    // garbage directory names like `stores/git@github.com:foo/bar`.
    assert!(validate_remote_slug("git@github.com:foo/bar").is_err());
    assert!(validate_remote_slug("https:/foo/bar").is_err());
    assert!(validate_remote_slug("foo/bar@v1").is_err());
}

#[test]
fn env_label_accepts_concrete_and_trailing_wildcard() {
    for good in [
        "foo",
        "foo/bar",
        "foo/bar/baz",
        "foo/*",
        "foo/bar/*",
        "foo_bar",
        "foo-1",
        "ENV123",
    ] {
        validate_env_label(good)
            .unwrap_or_else(|e| panic!("expected {good} valid: {}", e.to_string()));
    }
}

#[test]
fn env_label_rejects_empty() {
    assert!(validate_env_label("").is_err());
}

#[test]
fn env_label_rejects_mid_path_wildcard() {
    assert!(validate_env_label("foo/*/bar").is_err());
    assert!(validate_env_label("*/foo").is_err());
    assert!(validate_env_label("a/*/b/c").is_err());
}

#[test]
fn env_label_rejects_bare_wildcard() {
    assert!(validate_env_label("*").is_err());
}

#[test]
fn env_label_rejects_empty_segments() {
    assert!(validate_env_label("/foo").is_err());
    assert!(validate_env_label("foo/").is_err());
    assert!(validate_env_label("foo//bar").is_err());
}

#[test]
fn env_label_rejects_invalid_chars() {
    assert!(validate_env_label("foo.bar").is_err());
    assert!(validate_env_label("foo bar").is_err());
    assert!(validate_env_label("foo:bar").is_err());
}

#[test]
fn is_wildcard_label_detects_trailing_star() {
    assert!(is_wildcard_label("foo/*"));
    assert!(is_wildcard_label("foo/bar/*"));
    assert!(!is_wildcard_label("foo"));
    assert!(!is_wildcard_label("foo/bar"));
}

#[test]
fn label_prefix_segments_strips_wildcard() {
    assert_eq!(label_prefix_segments("foo"), vec!["foo"]);
    assert_eq!(label_prefix_segments("foo/bar"), vec!["foo", "bar"]);
    assert_eq!(label_prefix_segments("foo/*"), vec!["foo"]);
    assert_eq!(label_prefix_segments("foo/bar/*"), vec!["foo", "bar"]);
}

#[test]
fn parse_captures_finds_dollar_digits() {
    assert_eq!(parse_captures("no captures here"), Vec::<u32>::new());
    assert_eq!(parse_captures("/$1/postgres-url"), vec![1]);
    assert_eq!(parse_captures("$1/$2"), vec![1, 2]);
    assert_eq!(parse_captures("foo$10bar"), vec![10]);
    // Literal `$` followed by non-digit is ignored.
    assert_eq!(parse_captures("$abc"), Vec::<u32>::new());
}

// ── Further cases ────────────────────────────────────────────────────────

#[test]
fn key_provider_round_trips_its_name() {
    for p in [KeyProvider::Disk, KeyProvider::MacosKeychain] {
        assert_eq!(KeyProvider::from_str(p.as_str()).unwrap(), p);
    }
    assert!(KeyProvider::from_str("vault").is_err());
}

#[test]
fn parse_captures_skips_numbers_too_large() {
    assert_eq!(parse_captures("$99999999999/$2"), vec![2]);
}

#[test]
fn prefix_segments_join_back_to_the_label() {
    for label in ["foo/bar/*", "foo/bar", "prod", "a-b/c_d/*"] {
        let segs = himitsu::labels::label_prefix_segments(label);
        assert!(!segs.is_empty());
        assert!(!segs.iter().any(|s| s == "*"));
        let tail = if himitsu::labels::is_wildcard_label(label) { "/*" } else { "" };
        assert_eq!(format!("{}{}", segs.join("/"), tail), label);
    }
}
