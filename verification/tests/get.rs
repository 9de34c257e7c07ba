use himitsu::duration::ExpirySeverity;
use himitsu::get::{colorize, expiry_message, metadata_block, named_recipients, short_key};
use himitsu::secret::{Decoded, Timestamp};
use himitsu::strmap::StrMap;

const DAY: i64 = 86_400;

#[test]
fn short_key_cuts_long_keys() {
    assert_eq!(short_key(" age1abc "), "age1abc");
    assert_eq!(short_key("age1qwertyuiopasdf"), "age1qwertyui...");
}

#[test]
fn expiry_message_only_once_expired() {
    let now = Timestamp { seconds: 10 * DAY, nanos: 0 };
    let past = Timestamp { seconds: 7 * DAY, nanos: 0 };
    let future = Timestamp { seconds: 12 * DAY, nanos: 0 };
    assert_eq!(
        expiry_message("prod/KEY", Some(past), now).unwrap(),
        "warning: secret 'prod/KEY' expired at 1970-01-08T00:00:00+00:00"
    );
    assert_eq!(expiry_message("prod/KEY", Some(future), now), None);
    assert_eq!(expiry_message("prod/KEY", None, now), None);
    assert_eq!(expiry_message("prod/KEY", Some(Timestamp { seconds: 0, nanos: 0 }), now), None);
}

#[test]
fn metadata_block_lists_set_fields_and_expiry() {
    let mut d = Decoded::plain(b"v".to_vec());
    d.url = "https://example.com".into();
    d.tags = vec!["pci".into(), "stripe".into()];
    d.expires_at = Some(Timestamp { seconds: 90 * DAY, nanos: 0 });
    let now = Timestamp { seconds: 0, nanos: 0 };
    assert_eq!(
        metadata_block(&d, now, false),
        "url:         https://example.com\ntags:        pci, stripe\nexpires:     1970-04-01T00:00:00+00:00  (expires in 90 days)\n"
    );
    let colored = metadata_block(&d, now, true);
    assert!(colored.contains("\u{1b}[2mexpires:"));
}

#[test]
fn colorize_by_severity() {
    assert_eq!(colorize("x", ExpirySeverity::Expired, true), "\u{1b}[31mx\u{1b}[0m");
    assert_eq!(colorize("x", ExpirySeverity::Soon, true), "\u{1b}[33mx\u{1b}[0m");
    assert_eq!(colorize("x", ExpirySeverity::Soon, false), "x");
}

#[test]
fn named_recipients_marks_unknown_keys() {
    let mut known: StrMap<String> = StrMap::new();
    known.insert("age1alicekeyalicekey".into(), "ops/alice".into());
    let names = named_recipients(&known, &["age1alicekeyalicekey\n".to_string(), "age1bob".to_string()]);
    assert_eq!(names, vec!["ops/alice (age1alicekey...)".to_string(), "(unknown) age1bob".to_string()]);
}
