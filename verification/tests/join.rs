use himitsu::error::HimitsuError;
use himitsu::join::{
    default_recipient_name, is_self_recipient, join_decision, joined_message, pub_file_path,
    read_own_pubkey, JoinStep,
};

const PK: &str = "age1selfkey";

fn v(x: &[&str]) -> Vec<String> {
    x.iter().map(|s| s.to_string()).collect()
}

#[test]
fn own_key_comes_from_the_key_file_comment() {
    let file = format!("# created: now\n# public key: {PK}  \nAGE-SECRET-KEY-1X\n");
    assert_eq!(read_own_pubkey(Some(file)), Ok(PK.to_string()));
    assert_eq!(
        read_own_pubkey(None),
        Err(HimitsuError::Recipient("no age key found — run `himitsu init` first".into()))
    );
    assert_eq!(
        read_own_pubkey(Some("AGE-SECRET-KEY-1X\n".into())),
        Err(HimitsuError::Recipient("cannot extract public key from key file".into()))
    );
}

#[test]
fn joining_writes_the_key_when_absent() {
    let r = join_decision(PK, &v(&["age1other"]), "alice", None).unwrap();
    assert_eq!(r, JoinStep::Write(format!("{PK}\n")));
    assert_eq!(joined_message("alice"), "Joined as recipient 'alice'");
    assert_eq!(pub_file_path("/s/.himitsu/recipients", "alice"), "/s/.himitsu/recipients/alice.pub");
}

#[test]
fn joining_twice_is_a_no_op() {
    assert_eq!(join_decision(PK, &v(&["age1other", PK]), "alice", None), Ok(JoinStep::AlreadyMember));
    assert_eq!(
        join_decision(PK, &v(&[]), "alice", Some(format!("{PK}\n"))),
        Ok(JoinStep::AlreadyMember)
    );
}

#[test]
fn a_name_held_by_another_key_is_refused() {
    assert_eq!(
        join_decision(PK, &v(&["age1other"]), "alice", Some("age1other\n".into())),
        Err(HimitsuError::Recipient(
            "recipient name 'alice' is taken by a different key — use --name to pick another".into()
        ))
    );
}

#[test]
fn default_names() {
    assert_eq!(default_recipient_name(Some("u".into()), Some("w".into())), "u");
    assert_eq!(default_recipient_name(None, Some("w".into())), "w");
    assert_eq!(default_recipient_name(None, None), "self");
}

#[test]
fn self_recipient_checks() {
    assert!(is_self_recipient(Some(PK.into()), Some(v(&["age1a", PK]))));
    assert!(!is_self_recipient(Some(PK.into()), Some(v(&["age1a"]))));
    assert!(is_self_recipient(Some(PK.into()), Some(vec![])));
    assert!(is_self_recipient(None, Some(v(&["age1a"]))));
    assert!(is_self_recipient(Some(PK.into()), None));
}
