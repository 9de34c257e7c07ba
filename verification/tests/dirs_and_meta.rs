use himitsu::outputs::{output_entry_from_alias, OutputEntry};
use himitsu::paths::{choose_data_dir, choose_state_dir, config_dir};
use himitsu::recipient::{iso8601_utc, new_sidecar, sidecar_path, RecipientMeta};

#[test]
fn config_dir_is_the_parent() {
    assert_eq!(config_dir("/home/u/.config/himitsu/config.yaml"), "/home/u/.config/himitsu");
    assert_eq!(config_dir("/config.yaml"), "/");
    assert_eq!(config_dir("config.yaml"), "");
    assert_eq!(config_dir("a//b.yaml"), "a");
    assert_eq!(config_dir("a/b/"), "a");
    assert_eq!(config_dir(""), "");
    assert_eq!(config_dir("/"), "");
}

#[test]
fn data_and_state_dirs() {
    assert_eq!(choose_data_dir(Some(" /d "), Some("/c"), "/p"), "/d");
    assert_eq!(choose_data_dir(Some("  "), Some("/c"), "/p"), "/c/share");
    assert_eq!(choose_data_dir(None, None, "/p"), "/p");
    assert_eq!(choose_state_dir(Some("/d"), Some("/c"), Some("/s"), "/p"), "/d/state");
    assert_eq!(choose_state_dir(None, Some("/c"), Some("/s"), "/p"), "/c/state");
    assert_eq!(choose_state_dir(None, None, Some("/s"), "/p"), "/s");
    assert_eq!(choose_state_dir(None, None, None, "/p"), "/p");
}

#[test]
fn recipient_sidecars() {
    assert_eq!(sidecar_path("/r", "ops/alice"), "/r/ops/alice.yaml");
    assert_eq!(new_sidecar(None, "2026-01-01T00:00:00Z"), None);
    assert_eq!(
        new_sidecar(Some("laptop".into()), "2026-01-01T00:00:00Z"),
        Some(RecipientMeta { description: Some("laptop".into()), added_at: Some("2026-01-01T00:00:00Z".into()) })
    );
    let m = RecipientMeta::none();
    assert!(m.description.is_none() && m.added_at.is_none());
}

#[test]
fn alias_entries_hold_one_pair() {
    assert_eq!(
        output_entry_from_alias(vec![("K".into(), "tag:x".into())]),
        Ok(OutputEntry::Alias { key: "K".into(), reference: "tag:x".into() })
    );
    assert_eq!(
        output_entry_from_alias(vec![]),
        Err("alias entry must have exactly one key-value pair".to_string())
    );
}

#[test]
fn sidecar_timestamps_match_the_calendar() {
    assert_eq!(iso8601_utc(0), "1970-01-01T00:00:00Z");
    assert_eq!(iso8601_utc(951_782_400), "2000-02-29T00:00:00Z");
    assert_eq!(iso8601_utc(1_700_000_000), "2023-11-14T22:13:20Z");
    let mut secs: u64 = 0;
    while secs < 20_000_000_000 {
        let want = chrono::DateTime::from_timestamp(secs as i64, 0)
            .unwrap()
            .format("%Y-%m-%dT%H:%M:%SZ")
            .to_string();
        assert_eq!(iso8601_utc(secs), want, "{secs}");
        secs += 86_400 * 37 + 3_671;
    }
}
