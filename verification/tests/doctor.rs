use himitsu::doctor::{
    doctor_report, identity_line, provider_lines, secret_lines, short_key, summary_line, Tone,
};
use himitsu::labels::KeyProvider;

const ALICE: &str = "age1alice0000000000000000000000000000000000000000000000000000";
const OWN: &str = "age1ownkey000000000000000000000000000000000000000000000000000";

fn pairs(v: &[(&str, &str)]) -> Vec<(String, String)> {
    v.iter().map(|(a, b)| (a.to_string(), b.to_string())).collect()
}

fn strs(v: &[&str]) -> Vec<String> {
    v.iter().map(|s| s.to_string()).collect()
}

#[test]
fn short_keys() {
    assert_eq!(short_key("  age1short  "), "age1short");
    assert_eq!(short_key("0123456789abcdef"), "0123456789abcdef");
    assert_eq!(short_key(ALICE), "age1alice000…");
}

#[test]
fn identity_lines() {
    let (l, t, w) = identity_line("alice", ALICE, &strs(&[ALICE]), KeyProvider::Disk);
    assert_eq!(l, format!("  ✓ {:<20} age1alice000…  [disk]", "alice"));
    assert_eq!((t, w), (Tone::Green, false));
    let (l, t, w) = identity_line("alice", ALICE, &[], KeyProvider::MacosKeychain);
    assert_eq!(l, format!("  ✗ {:<20} age1alice000…  [no key found]", "alice"));
    assert_eq!((t, w), (Tone::Red, true));
    let (l, _, _) = identity_line("bob", ALICE, &strs(&[ALICE]), KeyProvider::MacosKeychain);
    assert!(l.ends_with("[keychain]"));
}

#[test]
fn stale_secret_names_its_recipients() {
    let recips = pairs(&[("alice", ALICE)]);
    let (lines, warn) = secret_lines("prod/API_KEY", &strs(&[ALICE]), Some(OWN.into()), &recips);
    assert!(warn);
    assert_eq!(
        lines,
        vec![format!(
            "  ⚠ {:<30}  stale — your identity is not a recipient (recipients: alice)",
            "prod/API_KEY"
        )]
    );
}

#[test]
fn orphan_and_healthy_secrets() {
    let recips = pairs(&[("alice", ALICE), ("me", OWN)]);
    let (lines, warn) = secret_lines("x", &strs(&[OWN, "age1gone"]), Some(OWN.into()), &recips);
    assert!(warn);
    assert_eq!(lines, vec![format!("  ⚠ {:<30}  orphan recipients: age1gone", "x")]);
    let (lines, warn) = secret_lines("y", &strs(&[OWN, ALICE]), Some(OWN.into()), &recips);
    assert!(!warn);
    assert_eq!(lines, vec![format!("  ✓ {:<30}  encrypted for: me, alice", "y")]);
    // Without a key of one's own, staleness is not checked.
    let (_, warn) = secret_lines("z", &strs(&[ALICE]), None, &recips);
    assert!(!warn);
}

#[test]
fn provider_and_summary() {
    let (l, w) = provider_lines(KeyProvider::MacosKeychain, Some("/d/key".into()));
    assert!(w);
    assert_eq!(l[0], "  ✓ provider: macos-keychain");
    assert_eq!(
        l[1],
        "  ⚠ disk key file still present at /d/key — consider removing after confirming keychain entry works"
    );
    let (l, w) = provider_lines(KeyProvider::Disk, Some("/d/key".into()));
    assert!(!w);
    assert_eq!(l, vec!["  ✓ provider: disk".to_string()]);
    assert_eq!(summary_line(0), "No issues found.");
    assert_eq!(summary_line(3), "3 warning(s)");
}

#[test]
fn empty_store_report_has_no_issues() {
    let out = doctor_report(&[], &[], KeyProvider::Disk, None, Some(vec![]), None, false);
    let rule = "─".repeat(50);
    assert_eq!(
        out,
        vec![
            rule.clone(),
            "IDENTITIES".to_string(),
            "  (no recipients found)".into(),
            "\nSECRETS".into(),
            "  (no secrets)".into(),
            "\nKEY PROVIDER".into(),
            "  ✓ provider: disk".into(),
            rule,
            "No issues found.".into(),
        ]
    );
}

#[test]
fn report_sorts_secrets_and_counts_warnings() {
    let recips = pairs(&[("alice", ALICE)]);
    let secrets = vec![
        ("zz/B".to_string(), Some(strs(&[ALICE]))),
        ("aa/A".to_string(), None),
        ("mm/C".to_string(), Some(strs(&[ALICE]))),
    ];
    let out = doctor_report(&recips, &[], KeyProvider::Disk, Some(OWN.into()), Some(secrets), None, false);
    assert!(out[2].contains("[no key found]"));
    assert!(out[4].contains("mm/C"));
    assert!(out[5].contains("zz/B"));
    assert_eq!(out.last().unwrap(), "3 warning(s)");
    let colored = doctor_report(&recips, &strs(&[ALICE]), KeyProvider::Disk, None, None, None, true);
    assert!(colored[2].starts_with("\x1b[32m  ✓ "));
    assert!(colored[2].ends_with("\x1b[39m"));
    assert_eq!(colored[4], "  (no secrets)");
}
