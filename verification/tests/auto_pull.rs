use himitsu::config::auto_pull_from;

#[test]
fn env_override_wins_over_config() {
    assert!(auto_pull_from(Some("1"), false));
    assert!(auto_pull_from(Some(" TRUE\n"), false));
    assert!(auto_pull_from(Some("Yes"), false));
    assert!(!auto_pull_from(Some("0"), true));
    assert!(!auto_pull_from(Some("on"), true));
    assert!(!auto_pull_from(Some(""), true));
}

#[test]
fn config_decides_without_env() {
    assert!(auto_pull_from(None, true));
    assert!(!auto_pull_from(None, false));
}
