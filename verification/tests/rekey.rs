use himitsu::error::HimitsuError;
use himitsu::rekey::{rekey_paths, rekey_summary, require_recipients};

fn v(x: &[&str]) -> Vec<String> {
    x.iter().map(|s| s.to_string()).collect()
}

#[test]
fn rekey_scope() {
    let all = v(&["prod", "prod/db", "production/x", "dev/db"]);
    assert_eq!(rekey_paths(all.clone(), None), all);
    assert_eq!(rekey_paths(all.clone(), Some("prod")), v(&["prod", "prod/db"]));
    assert_eq!(rekey_paths(all.clone(), Some("dev/db")), v(&["dev/db"]));
    assert!(rekey_paths(all, Some("")).is_empty());
}

#[test]
fn rekey_needs_recipients_and_reports() {
    assert_eq!(require_recipients(0), Err(HimitsuError::Recipient("no recipients found".into())));
    assert_eq!(require_recipients(2), Ok(()));
    assert_eq!(rekey_summary(3, 2), "Re-encrypted 3 secret(s) for 2 recipient(s)");
}
