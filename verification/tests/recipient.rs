use himitsu::error::HimitsuError;
use himitsu::recipient::{
    clean_description, fingerprint_cut_possible, key_source, make_row, own_public_key,
    pub_file_contents, recipient_name, render_recipient_table, render_show, short_fingerprint,
    validate_name, KeySource, RecipientRow,
};

const AGE_KEY_1: &str = "age1ql3z7hjy54pw3hyww5ayyfg7zqgvc7w3j2elw8zmrj2kg5sfn9aqmcac8p";
const AGE_KEY_2: &str = "age1lvyvwawkr0mcnnnncaghunadrqkmuf9e6507x9y920xxpp866cnql7dp2z";

#[test]
fn validate_name_allows_slashes() {
    assert!(validate_name("ops/alice").is_ok());
    assert!(validate_name("team/sub/bob").is_ok());
}

#[test]
fn validate_name_rejects_invalid() {
    assert!(validate_name("").is_err());
    assert!(validate_name("/leading").is_err());
    assert!(validate_name("trailing/").is_err());
    assert!(validate_name("a//b").is_err());
    assert!(validate_name(".hidden").is_err());
    assert!(validate_name("a/..").is_err());
    assert!(validate_name("a\\.pub").is_err());
}

#[test]
fn recipient_table_highlights_self_only_when_colored() {
    let rows = vec![
        RecipientRow {
            name: "alice".into(),
            description: String::new(),
            key: AGE_KEY_1.into(),
            short_key: short_fingerprint(AGE_KEY_1),
        },
        RecipientRow {
            name: "bot".into(),
            description: String::new(),
            key: AGE_KEY_2.into(),
            short_key: short_fingerprint(AGE_KEY_2),
        },
    ];

    let plain = render_recipient_table(&rows, Some(AGE_KEY_1), false);
    assert!(!plain.contains('\u{1b}'));
    assert!(plain.contains("alice"));
    assert!(plain.contains("bot"));

    let colored = render_recipient_table(&rows, Some(AGE_KEY_1), true);
    assert!(colored.contains('\u{1b}'));
    assert!(colored.contains("alice"));
    assert!(colored.contains("bot"));
}

// -- Own tests --

#[test]
fn validate_name_error_text() {
    match validate_name("x/.y") {
        Err(HimitsuError::Recipient(m)) => assert_eq!(m, "invalid recipient name 'x/.y'"),
        other => panic!("unexpected: {other:?}"),
    }
}

#[test]
fn short_fingerprint_keeps_short_keys_and_cuts_long_ones() {
    assert_eq!(short_fingerprint("  shortkey  "), "shortkey");
    assert_eq!(short_fingerprint("12345678901234"), "12345678901234");
    assert_eq!(short_fingerprint(AGE_KEY_1), "…n9aqmcac8p");
    assert_eq!(short_fingerprint("123456789012345"), "…6789012345");
    assert!(fingerprint_cut_possible(AGE_KEY_1));
    // 15 bytes whose last ten start inside the two-byte `é`.
    assert!(!fingerprint_cut_possible("abcdéfghijklmn"));
}

#[test]
fn recipient_table_exact_layout() {
    let rows = vec![RecipientRow {
        name: "ops/alice".into(),
        description: "Alice".into(),
        key: AGE_KEY_1.into(),
        short_key: "…n9aqmcac8p".into(),
    }];
    let plain = render_recipient_table(&rows, None, false);
    assert_eq!(
        plain,
        "NAME       DESCRIPTION  KEY\nops/alice  Alice        …n9aqmcac8p\n"
    );
    let colored = render_recipient_table(&rows, Some(AGE_KEY_1), true);
    assert!(colored.starts_with("NAME       DESCRIPTION  KEY\n\u{1b}[1m\u{1b}[32mops/alice\u{1b}[39m\u{1b}[0m  "));
}

#[test]
fn key_source_prefers_self_and_requires_one() {
    assert_eq!(key_source("alice", true, Some("age1x")).unwrap(), KeySource::OwnKeyFile);
    assert_eq!(key_source("alice", false, Some("age1x")).unwrap(), KeySource::Given("age1x".into()));
    match key_source("alice", false, None) {
        Err(HimitsuError::Recipient(m)) => {
            assert_eq!(m, "either --self or --age-key must be provided")
        }
        other => panic!("unexpected: {other:?}"),
    }
    assert!(matches!(key_source("/bad", true, None), Err(HimitsuError::Recipient(_))));
}

#[test]
fn own_public_key_reads_the_comment_line() {
    let contents = "# created: 2024\n# public key: age1abc\nAGE-SECRET-KEY-1XYZ\n";
    assert_eq!(own_public_key(contents).unwrap(), "age1abc");
    match own_public_key("AGE-SECRET-KEY-1XYZ\n") {
        Err(HimitsuError::Recipient(m)) => assert_eq!(m, "cannot extract public key from key file"),
        other => panic!("unexpected: {other:?}"),
    }
}

#[test]
fn descriptions_and_files() {
    assert_eq!(clean_description("  Alice  "), Some("Alice".to_string()));
    assert_eq!(clean_description("   "), None);
    assert_eq!(pub_file_contents(AGE_KEY_1), format!("{AGE_KEY_1}\n"));
    assert_eq!(recipient_name("ops/alice.pub"), "ops/alice");
    assert_eq!(recipient_name("a.b.pub"), "a.b");
}

#[test]
fn show_prints_only_present_metadata() {
    assert_eq!(
        render_show("alice", "age1abc\n", Some("Alice"), Some("")),
        "Name:         alice\nPublic key:   age1abc\nDescription:  Alice\n"
    );
    assert_eq!(
        render_show("bob", " age1b ", None, Some("2024-01-01T00:00:00Z")),
        "Name:         bob\nPublic key:   age1b\nAdded at:     2024-01-01T00:00:00Z\n"
    );
}

#[test]
fn make_row_trims_and_fingerprints() {
    let row = make_row("alice", &format!("{AGE_KEY_1}\n"), None);
    assert_eq!(row.key, AGE_KEY_1);
    assert_eq!(row.description, "");
    assert_eq!(row.short_key, short_fingerprint(AGE_KEY_1));
}
