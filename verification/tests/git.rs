use himitsu::git::is_confirmation;

fn confirm_logic(input: &str) -> bool {
    is_confirmation(input)
}

#[test]
fn confirm_prompt_recognises_yes() {
    assert!(confirm_logic("y"));
    assert!(confirm_logic("Y"));
    assert!(confirm_logic("yes"));
    assert!(confirm_logic("YES"));
    assert!(!confirm_logic("n"));
    assert!(!confirm_logic(""));
    assert!(!confirm_logic("no"));
    assert!(!confirm_logic("yolo"));
}

#[test]
fn confirmation_ignores_surrounding_space() {
    assert!(confirm_logic("  yes\n"));
    assert!(confirm_logic("Yes"));
}
