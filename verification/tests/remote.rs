use himitsu::error::HimitsuError;
use himitsu::remote::{
    add_messages, add_step, add_target, checkout_dir, clears_default, default_line, list_lines,
    remove_messages, set_default, AddStep,
};

#[test]
fn add_targets() {
    assert_eq!(
        add_target("acme/secrets", None),
        Ok(("acme/secrets".to_string(), "git@github.com:acme/secrets.git".to_string()))
    );
    assert_eq!(
        add_target("acme/secrets", Some("https://example.com/x.git".into())),
        Ok(("acme/secrets".to_string(), "https://example.com/x.git".to_string()))
    );
    assert_eq!(
        add_target("git@github.com:myorg/secrets.git", None),
        Ok(("myorg/secrets".to_string(), "git@github.com:myorg/secrets.git".to_string()))
    );
    assert_eq!(
        add_target("https://github.com/myorg/secrets.git", Some("file:///tmp/r".into())),
        Ok(("myorg/secrets".to_string(), "file:///tmp/r".to_string()))
    );
    assert!(matches!(add_target("nope", None), Err(HimitsuError::InvalidConfig(_))));
    assert!(matches!(
        add_target("https://github.com/only-org", None),
        Err(HimitsuError::InvalidConfig(_))
    ));
}

#[test]
fn add_steps() {
    assert_eq!(add_step("a/b", "/s/a/b", false, false, false), Ok(AddStep::Clone));
    assert_eq!(add_step("a/b", "/s/a/b", true, true, false), Ok(AddStep::Update { add_origin: true }));
    assert_eq!(add_step("a/b", "/s/a/b", true, true, true), Ok(AddStep::Update { add_origin: false }));
    assert_eq!(
        add_step("a/b", "/s/a/b", true, false, true),
        Err(HimitsuError::Remote("remote 'a/b' already exists at /s/a/b but is not a git checkout".into()))
    );
    let (a, b) = add_messages(AddStep::Clone, "a/b", "git@x", "/s/a/b");
    assert_eq!((a.as_str(), b.as_str()), ("Cloning git@x → /s/a/b", "Added remote 'a/b'"));
    let (a, b) = add_messages(AddStep::Update { add_origin: false }, "a/b", "git@x", "/s/a/b");
    assert_eq!((a.as_str(), b.as_str()), ("Updating a/b from origin", "Updated remote 'a/b'"));
}

#[test]
fn checkout_dirs() {
    assert_eq!(checkout_dir("/s", "a/b"), Ok("/s/a/b".to_string()));
    assert!(checkout_dir("/s", "a/b/c").is_err());
}

#[test]
fn default_store_handling() {
    assert_eq!(default_line(None), "none set");
    assert_eq!(default_line(Some("a/b")), "a/b");
    let mut d = None;
    assert_eq!(set_default(&mut d, "a/b"), Ok("Default store set to 'a/b'".to_string()));
    assert_eq!(d.as_deref(), Some("a/b"));
    assert!(set_default(&mut d, "bad").is_err());
    assert_eq!(d.as_deref(), Some("a/b"));
    assert!(clears_default(Some("a/b"), "a/b"));
    assert!(!clears_default(Some("a/c"), "a/b"));
    assert!(!clears_default(None, "a/b"));
}

#[test]
fn list_and_remove_messages() {
    assert_eq!(list_lines(vec![]), vec!["no remotes found".to_string()]);
    assert_eq!(list_lines(vec!["a/b".into()]), vec!["a/b".to_string()]);
    let (a, b) = remove_messages("a/b");
    assert_eq!(a, "Removed remote 'a/b'");
    assert_eq!(b, "Cleared default store (was 'a/b')");
}
