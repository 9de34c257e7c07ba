//! `keys`: which key to print.
use vstd::prelude::*;

use crate::args::{KeysArgs, KeysCommand};
use crate::cli::Context;
use crate::error::HimitsuError;

verus! {

/// The key `keys` prints.
#[derive(Debug, PartialEq, Eq)]
pub enum KeysAction {
    /// The invoking user's public key.
    OwnPublic,
    /// A named recipient's public key.
    RecipientPublic(String),
    /// The invoking user's private key.
    OwnPrivate,
}

/// No reference, `self` or `me` all name the invoking user.
pub open spec fn is_self_spec(r: Option<String>) -> bool {
    match r {
        None => true,
        Some(s) => s@ == "self"@ || s@ == "me"@,
    }
}

fn is_self_ref(r: &Option<String>) -> (b: bool)
    ensures
        b == is_self_spec(*r),
{
    match r {
        None => true,
        Some(s) => crate::text::str_eq(s.as_str(), "self") || crate::text::str_eq(s.as_str(), "me"),
    }
}

pub open spec fn no_private_msg() -> Seq<char> {
    "private keys are not stored for other recipients"@
}

/// Decides which key to print: no subcommand means the own public key;
/// private keys exist only for oneself.
pub fn run(args: KeysArgs, _ctx: &Context) -> (r: Result<KeysAction, HimitsuError>)
    ensures
        match args.command {
            None => r == Ok::<KeysAction, HimitsuError>(KeysAction::OwnPublic),
            Some(KeysCommand::Public { ref_ }) => if is_self_spec(ref_) {
                r == Ok::<KeysAction, HimitsuError>(KeysAction::OwnPublic)
            } else {
                r matches Ok(KeysAction::RecipientPublic(n)) && n@ == ref_->Some_0@
            },
            Some(KeysCommand::Private { ref_ }) => if is_self_spec(ref_) {
                r == Ok::<KeysAction, HimitsuError>(KeysAction::OwnPrivate)
            } else {
                r matches Err(e) && e is Recipient && e.detail() == no_private_msg()
            },
        },
{
    match args.command {
        None => Ok(KeysAction::OwnPublic),
        Some(KeysCommand::Public { ref_ }) => {
            if is_self_ref(&ref_) {
                Ok(KeysAction::OwnPublic)
            } else {
                match ref_ {
                    Some(name) => Ok(KeysAction::RecipientPublic(name)),
                    None => Ok(KeysAction::OwnPublic),
                }
            }
        },
        Some(KeysCommand::Private { ref_ }) => {
            if is_self_ref(&ref_) {
                Ok(KeysAction::OwnPrivate)
            } else {
                Err(HimitsuError::Recipient(String::from_str("private keys are not stored for other recipients")))
            }
        },
    }
}

} // verus!
