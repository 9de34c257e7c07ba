use himitsu::error::HimitsuError;
use himitsu::selector::{Group, SecretMatch, Selector, Token};
#[test]
fn parse_single_tag() {
    assert_eq!(
        Selector::parse("tag:pci").unwrap(),
        Selector(vec![Group(vec![Token::Tag("pci".to_string())])])
    );
}

#[test]
fn parse_and_combined_tags() {
    assert_eq!(
        Selector::parse("tag:pci+tag:prod").unwrap(),
        Selector(vec![Group(vec![
            Token::Tag("pci".to_string()),
            Token::Tag("prod".to_string()),
        ])])
    );
}

#[test]
fn parse_glob_and_tag() {
    assert_eq!(
        Selector::parse("prod/*+tag:pci").unwrap(),
        Selector(vec![Group(vec![
            Token::Glob("prod/*".to_string()),
            Token::Tag("pci".to_string()),
        ])])
    );
}

#[test]
fn parse_or_combined_tags() {
    assert_eq!(
        Selector::parse("tag:pci,tag:dev").unwrap(),
        Selector(vec![
            Group(vec![Token::Tag("pci".to_string())]),
            Group(vec![Token::Tag("dev".to_string())]),
        ])
    );
}

#[test]
fn parse_literal_path() {
    assert_eq!(
        Selector::parse("prod/api-key").unwrap(),
        Selector(vec![Group(vec![Token::Path("prod/api-key".to_string())])])
    );
}

#[test]
fn parse_question_mark_glob() {
    assert_eq!(
        Selector::parse("prod/key?").unwrap(),
        Selector(vec![Group(vec![Token::Glob("prod/key?".to_string())])])
    );
}

#[test]
fn parse_rejects_empty_selector() {
    assert_invalid_selector(Selector::parse(""));
}

#[test]
fn parse_rejects_empty_tag_name() {
    assert_invalid_selector(Selector::parse("tag:"));
}

#[test]
fn parse_rejects_invalid_tag_characters() {
    assert_invalid_selector(Selector::parse("tag:foo bar"));
}

#[test]
fn parse_rejects_too_long_tag_name() {
    assert_invalid_selector(Selector::parse(&format!("tag:{}", "a".repeat(65))));
}

#[test]
fn parse_rejects_empty_group() {
    assert_invalid_selector(Selector::parse("tag:pci,"));
}

#[test]
fn parse_rejects_empty_token() {
    assert_invalid_selector(Selector::parse("tag:pci+"));
}

#[test]
fn tag_token_matches_secret_tag() {
    let selector = Selector(vec![Group(vec![Token::Tag("pci".to_string())])]);
    let tags = vec!["pci".to_string()];

    assert!(selector.matches(&SecretMatch {
        path: "x",
        tags: &tags,
    }));
}

#[test]
fn and_group_requires_all_tokens() {
    let selector = Selector(vec![Group(vec![
        Token::Tag("pci".to_string()),
        Token::Tag("prod".to_string()),
    ])]);
    let tags = vec!["pci".to_string()];

    assert!(!selector.matches(&SecretMatch {
        path: "x",
        tags: &tags,
    }));
}

#[test]
fn or_groups_match_when_any_group_matches() {
    let selector = Selector(vec![
        Group(vec![Token::Tag("pci".to_string())]),
        Group(vec![Token::Tag("dev".to_string())]),
    ]);
    let tags = vec!["dev".to_string()];

    assert!(selector.matches(&SecretMatch {
        path: "x",
        tags: &tags,
    }));
}

#[test]
fn path_token_matches_exact_path() {
    let selector = Selector(vec![Group(vec![Token::Path("prod/key".to_string())])]);

    assert!(selector.matches(&SecretMatch {
        path: "prod/key",
        tags: &[],
    }));
}

#[test]
fn path_token_rejects_different_path() {
    let selector = Selector(vec![Group(vec![Token::Path("prod/key".to_string())])]);

    assert!(!selector.matches(&SecretMatch {
        path: "dev/key",
        tags: &[],
    }));
}

#[test]
fn glob_token_matches_secret_path() {
    let selector = Selector(vec![Group(vec![Token::Glob("prod/*".to_string())])]);

    assert!(selector.matches(&SecretMatch {
        path: "prod/key",
        tags: &[],
    }));
}

#[test]
fn question_mark_glob_matches_single_character() {
    let selector = Selector(vec![Group(vec![Token::Glob("prod/key?".to_string())])]);

    assert!(selector.matches(&SecretMatch {
        path: "prod/key1",
        tags: &[],
    }));
}

fn assert_invalid_selector(result: Result<Selector, HimitsuError>) {
    assert!(matches!(result, Err(HimitsuError::InvalidSelector(_))));
}
