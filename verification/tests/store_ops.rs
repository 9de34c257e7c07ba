use himitsu::store_ops::{finalize_plan, mutation_message, normalize_description, FinalizePlan};

#[test]
fn successful_mutations_commit_push_and_refresh() {
    assert_eq!(
        finalize_plan("set prod/DB", None, false, true),
        FinalizePlan { commit_message: "himitsu: set prod/DB".into(), push_if_committed: true, refresh_cache: true }
    );
    let p = finalize_plan("set prod/DB", None, true, false);
    assert!(!p.push_if_committed && !p.refresh_cache);
}

#[test]
fn failed_mutations_commit_the_failure_only() {
    assert_eq!(
        finalize_plan("delete x", Some("secret not found: x"), false, true),
        FinalizePlan {
            commit_message: "himitsu: FAILED: delete x: secret not found: x".into(),
            push_if_committed: false,
            refresh_cache: false,
        }
    );
}

#[test]
fn messages_and_descriptions() {
    assert_eq!(mutation_message("rekey", None), "rekey");
    assert_eq!(mutation_message("rekey", Some("prod/")), "rekey prod/");
    assert_eq!(mutation_message("recipient add", Some("alice")), "recipient add alice");
    assert_eq!(normalize_description(Some("  laptop  ".into())), Some("laptop".to_string()));
    assert_eq!(normalize_description(Some("   ".into())), None);
    assert_eq!(normalize_description(None), None);
}
