use himitsu::args::TagAction;
use himitsu::error::HimitsuError;
use himitsu::tag::{apply_add, apply_rm, validate_action, ValidatedAction};

#[test]
fn add_appends_new_tag() {
    let mut tags = vec!["pci".to_string()];
    apply_add(&mut tags, &["stripe".to_string()]);
    assert_eq!(tags, vec!["pci".to_string(), "stripe".to_string()]);
}

#[test]
fn add_is_idempotent() {
    let mut tags = vec!["pci".to_string(), "stripe".to_string()];
    apply_add(&mut tags, &["pci".to_string(), "stripe".to_string()]);
    assert_eq!(tags, vec!["pci".to_string(), "stripe".to_string()]);
}

#[test]
fn add_preserves_existing_order() {
    let mut tags = vec!["zeta".to_string(), "alpha".to_string()];
    apply_add(&mut tags, &["mu".to_string()]);
    assert_eq!(tags, vec!["zeta".to_string(), "alpha".to_string(), "mu".to_string()]);
}

#[test]
fn add_dedups_within_input() {
    let mut tags = vec![];
    apply_add(&mut tags, &["foo".to_string(), "foo".to_string()]);
    assert_eq!(tags, vec!["foo".to_string()]);
}

#[test]
fn rm_removes_listed_tags() {
    let mut tags = vec!["pci".to_string(), "stripe".to_string(), "mobile".to_string()];
    apply_rm(&mut tags, &["pci".to_string(), "mobile".to_string()]);
    assert_eq!(tags, vec!["stripe".to_string()]);
}

#[test]
fn rm_missing_tag_is_noop() {
    let mut tags = vec!["pci".to_string()];
    apply_rm(&mut tags, &["never-set".to_string()]);
    assert_eq!(tags, vec!["pci".to_string()]);
}

#[test]
fn rm_all_clears_tags() {
    let mut tags = vec!["a".to_string(), "b".to_string()];
    apply_rm(&mut tags, &["a".to_string(), "b".to_string()]);
    assert!(tags.is_empty());
}

#[test]
fn validate_rejects_invalid_input_tag() {
    let action = TagAction::Add { tags: vec!["good".to_string(), "bad tag".to_string()] };
    match validate_action(&action) {
        Err(HimitsuError::InvalidReference(msg)) => {
            assert!(msg.contains("invalid tag"), "got: {msg}");
            assert!(msg.contains("bad tag"), "got: {msg}");
        }
        Err(other) => panic!("expected InvalidReference, got {}", other.to_string()),
        Ok(_) => panic!("expected validation error"),
    }
}

#[test]
fn validate_accepts_well_formed_tags() {
    let action = TagAction::Add { tags: vec!["pci".to_string(), "rotate-2026-q1".to_string()] };
    assert!(validate_action(&action).is_ok());
}

#[test]
fn validate_list_action_is_always_ok() {
    assert!(validate_action(&TagAction::List).is_ok());
}

// ── Further cases ────────────────────────────────────────────────────────

#[test]
fn rm_removes_every_copy_and_keeps_order() {
    let mut tags = vec!["a".to_string(), "b".to_string(), "a".to_string(), "c".to_string()];
    apply_rm(&mut tags, &["a".to_string()]);
    assert_eq!(tags, vec!["b".to_string(), "c".to_string()]);
}

#[test]
fn add_then_remove_restores_the_others() {
    let mut tags = vec!["x".to_string()];
    apply_add(&mut tags, &["y".to_string()]);
    apply_rm(&mut tags, &["y".to_string()]);
    assert_eq!(tags, vec!["x".to_string()]);
}

#[test]
fn validated_rm_keeps_its_tags() {
    assert_eq!(
        validate_action(&TagAction::Rm { tags: vec!["pci".to_string()] }).unwrap(),
        ValidatedAction::Rm(vec!["pci".to_string()])
    );
}
