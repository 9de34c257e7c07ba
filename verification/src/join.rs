//! `join`: adding one's own public key to a store's recipients, and the
//! check whether one already is a recipient.
use vstd::prelude::*;

use crate::env_dsl::{trim, trim_chars};
use crate::error::HimitsuError;
use crate::init::{extract_public_key, recorded_key};
use crate::paths::{join_path, path_join};
use crate::text::{chars_of, copy_string, push_str, slice_eq, split, string_of, views};

verus! {

/// The message when there is no key file to read.
pub open spec fn no_key_msg() -> Seq<char> {
    "no age key found — run `himitsu init` first"@
}

/// The message when the key file records no public key.
pub open spec fn no_public_key_msg() -> Seq<char> {
    "cannot extract public key from key file"@
}

/// One's own public key, from the key file's contents (`None` when it
/// could not be read): the `# public key: ` line, trimmed.
pub fn read_own_pubkey(key_file: Option<String>) -> (r: Result<String, HimitsuError>)
    ensures
        match key_file {
            None => r matches Err(e) && e is Recipient && e.detail() == no_key_msg(),
            Some(c) => match recorded_key(split(c@, '\n')) {
                Some(k) => r matches Ok(s) && s@ == k,
                None => r matches Err(e) && e is Recipient && e.detail() == no_public_key_msg(),
            },
        },
{
    match key_file {
        None => Err(HimitsuError::Recipient(String::from_str("no age key found — run `himitsu init` first"))),
        Some(c) => match extract_public_key(c.as_str()) {
            Some(k) => Ok(k),
            None => Err(HimitsuError::Recipient(String::from_str("cannot extract public key from key file"))),
        },
    }
}

/// The name to join under when none is given: `$USER`, else `$USERNAME`,
/// else `self`.
pub fn default_recipient_name(user: Option<String>, username: Option<String>) -> (r: String)
    ensures
        r@ == match user {
            Some(u) => u@,
            None => match username {
                Some(u) => u@,
                None => "self"@,
            },
        },
{
    match user {
        Some(u) => u,
        None => match username {
            Some(u) => u,
            None => String::from_str("self"),
        },
    }
}

/// The file a recipient's public key is written to: `<name>.pub` in the
/// recipients directory.
pub fn pub_file_path(recipients_dir: &str, name: &str) -> (r: String)
    ensures
        r@ == path_join(recipients_dir@, name@ + ".pub"@),
{
    let mut f = String::from_str(name);
    push_str(&mut f, ".pub");
    join_path(recipients_dir, f.as_str())
}

/// What joining does.
#[derive(Debug, PartialEq, Eq)]
pub enum JoinStep {
    /// One's key is already a recipient: nothing to do.
    AlreadyMember,
    /// Write these contents to the recipient's `.pub` file.
    Write(String),
}

/// The message when the name is taken by another key.
pub open spec fn name_taken_msg(name: Seq<char>) -> Seq<char> {
    "recipient name '"@ + name + "' is taken by a different key — use --name to pick another"@
}

/// What joining under `name` does, given the store's recipients and the
/// current contents of `<name>.pub` (if it exists): nothing when one's key
/// is a recipient or already in that file; an error when the file holds
/// another key; else the key and a line break are written.
pub open spec fn join_spec(
    self_pubkey: Seq<char>,
    recipients: Seq<Seq<char>>,
    name: Seq<char>,
    existing: Option<Seq<char>>,
) -> Result<Option<Seq<char>>, Seq<char>> {
    if recipients.contains(self_pubkey) {
        Ok(None)
    } else {
        match existing {
            Some(e) => if trim(e) == self_pubkey {
                Ok(None)
            } else {
                Err(name_taken_msg(name))
            },
            None => Ok(Some(self_pubkey + "\n"@)),
        }
    }
}

/// Whether `list` holds `x`.
pub fn holds(list: &[String], x: &str) -> (r: bool)
    ensures
        r == views(list@).contains(x@),
{
    let ghost lv = views(list@);
    let xs = chars_of(x);
    let mut i: usize = 0;
    while i < list.len()
        invariant
            i <= list@.len(),
            lv == views(list@),
            xs@ == x@,
            forall|k: int| 0 <= k < i ==> lv[k] != x@,
        decreases list.len() - i,
    {
        assert(lv[i as int] == list@[i as int]@);
        if slice_eq(&chars_of(list[i].as_str()), &xs) {
            return true;
        }
        i += 1;
    }
    false
}

/// Decides what joining does (see `join_spec`).
pub fn join_decision(
    self_pubkey: &str,
    recipients: &[String],
    name: &str,
    existing: Option<String>,
) -> (r: Result<JoinStep, HimitsuError>)
    ensures
        match join_spec(self_pubkey@, views(recipients@), name@, crate::search::opt_view(existing)) {
            Ok(None) => r == Ok::<JoinStep, HimitsuError>(JoinStep::AlreadyMember),
            Ok(Some(c)) => r matches Ok(JoinStep::Write(w)) && w@ == c,
            Err(m) => r matches Err(e) && e is Recipient && e.detail() == m,
        },
{
    if holds(recipients, self_pubkey) {
        return Ok(JoinStep::AlreadyMember);
    }
    match existing {
        Some(e) => {
            if slice_eq(&trim_chars(&chars_of(e.as_str())), &chars_of(self_pubkey)) {
                Ok(JoinStep::AlreadyMember)
            } else {
                let mut m = String::from_str("recipient name '");
                push_str(&mut m, name);
                push_str(&mut m, "' is taken by a different key — use --name to pick another");
                Err(HimitsuError::Recipient(m))
            }
        },
        None => {
            let mut w = String::from_str(self_pubkey);
            push_str(&mut w, "\n");
            Ok(JoinStep::Write(w))
        },
    }
}

/// What is said after joining under `name`.
pub fn joined_message(name: &str) -> (r: String)
    ensures
        r@ == "Joined as recipient '"@ + name@ + "'"@,
{
    let mut m = String::from_str("Joined as recipient '");
    push_str(&mut m, name);
    push_str(&mut m, "'");
    m
}

/// Whether one is a recipient of the store: `true` when one's key or the
/// recipients cannot be read, or there are no recipients; else whether
/// one's key is among them.
pub fn is_self_recipient(self_pubkey: Option<String>, recipients: Option<Vec<String>>) -> (r: bool)
    ensures
        r == match (self_pubkey, recipients) {
            (Some(k), Some(rs)) => rs@.len() == 0 || views(rs@).contains(k@),
            _ => true,
        },
{
    match (self_pubkey, recipients) {
        (Some(k), Some(rs)) => rs.len() == 0 || holds(rs.as_slice(), k.as_str()),
        _ => true,
    }
}

} // verus!
