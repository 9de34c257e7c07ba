use himitsu::error::HimitsuError;
use himitsu::paths::{choose_store, path_within, relative_to, StoreChoice};

fn found(paths: &[&str]) -> Vec<String> {
    paths.iter().map(|p| p.to_string()).collect()
}

#[test]
fn explicit_choices_win_in_order() {
    let f = found(&["/s/a/b"]);
    assert_eq!(
        choose_store(Some("o/r"), Some("c/x"), Some("d/y"), "/s", &f, None).unwrap(),
        StoreChoice::Slug("o/r".into())
    );
    assert_eq!(
        choose_store(None, Some("c/x"), Some("d/y"), "/s", &f, None).unwrap(),
        StoreChoice::Slug("c/x".into())
    );
    assert_eq!(
        choose_store(None, None, Some("d/y"), "/s", &f, None).unwrap(),
        StoreChoice::Slug("d/y".into())
    );
}

#[test]
fn single_checkout_is_used() {
    let f = found(&["/s/a/b"]);
    assert_eq!(
        choose_store(None, None, None, "/s", &f, None).unwrap(),
        StoreChoice::Checkout { path: "/s/a/b".into(), note: None }
    );
}

#[test]
fn no_checkout_is_an_error() {
    match choose_store(None, None, None, "/s", &[], None) {
        Err(HimitsuError::StoreNotFound(m)) => assert_eq!(
            m,
            "no stores configured; use `himitsu remote add <org/repo>` to add one"
        ),
        other => panic!("unexpected: {other:?}"),
    }
}

#[test]
fn working_directory_picks_among_several() {
    let f = found(&["/s/a/b", "/s/c/d"]);
    let choice = choose_store(None, None, None, "/s", &f, Some("/s/c/d/prod")).unwrap();
    assert_eq!(
        choice,
        StoreChoice::Checkout {
            path: "/s/c/d".into(),
            note: Some(
                "note: multiple stores found — using 'c/d' because you are inside it.\n      Set a default with `himitsu context remote c/d` to silence this.".into()
            ),
        }
    );
    // `/s/c/dd` is not inside `/s/c/d`: components are compared whole.
    match choose_store(None, None, None, "/s", &f, Some("/s/c/dd")) {
        Err(HimitsuError::AmbiguousStore(slugs)) => {
            assert_eq!(slugs, vec!["a/b".to_string(), "c/d".to_string()])
        }
        other => panic!("unexpected: {other:?}"),
    }
}

#[test]
fn component_prefix_and_relative_part() {
    assert!(path_within("/a/b/c", "/a/b"));
    assert!(path_within("/a/b/", "/a//b"));
    assert!(!path_within("/a/bc", "/a/b"));
    assert!(!path_within("a/b", "/a"));
    assert_eq!(relative_to("/s/org/repo", "/s"), "org/repo");
    assert_eq!(relative_to("/s", "/s"), "");
}
