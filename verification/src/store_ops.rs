//! The chain every store mutation runs afterwards: a commit on success and
//! on failure (`himitsu: FAILED: …`), then a push and a completions-cache
//! refresh on success only; and the messages of the mutations.
use vstd::prelude::*;

use crate::env_dsl::{trim, trim_chars};
use crate::text::{chars_of, push_str, string_of};

verus! {

/// What runs after a mutation.
#[derive(Debug, Clone, PartialEq, Eq)]
pub struct FinalizePlan {
    /// The commit message.
    pub commit_message: String,
    /// Push when the commit recorded something.
    pub push_if_committed: bool,
    /// Refresh the completions cache of the store.
    pub refresh_cache: bool,
}

/// The chain after a mutation described by `msg`: `error` is the failure's
/// text when it failed. The commit records `himitsu: <msg>`, or
/// `himitsu: FAILED: <msg>: <error>`; pushing (unless opted out) and the
/// cache refresh (when there is a store) follow success only.
pub fn finalize_plan(msg: &str, error: Option<&str>, no_push: bool, has_store: bool) -> (r: FinalizePlan)
    ensures
        r.commit_message@ == match error {
            None => "himitsu: "@ + msg@,
            Some(e) => "himitsu: FAILED: "@ + msg@ + ": "@ + e@,
        },
        r.push_if_committed == (error is None && !no_push),
        r.refresh_cache == (error is None && has_store),
{
    match error {
        None => {
            let mut m = String::from_str("himitsu: ");
            push_str(&mut m, msg);
            FinalizePlan { commit_message: m, push_if_committed: !no_push, refresh_cache: has_store }
        },
        Some(e) => {
            let mut m = String::from_str("himitsu: FAILED: ");
            push_str(&mut m, msg);
            push_str(&mut m, ": ");
            push_str(&mut m, e);
            FinalizePlan { commit_message: m, push_if_committed: false, refresh_cache: false }
        },
    }
}

/// A mutation's description: a verb and, when there is one, its object.
pub fn mutation_message(verb: &str, object: Option<&str>) -> (r: String)
    ensures
        r@ == match object {
            Some(o) => verb@ + " "@ + o@,
            None => verb@,
        },
{
    let mut m = String::from_str(verb);
    match object {
        Some(o) => {
            push_str(&mut m, " ");
            push_str(&mut m, o);
        },
        None => {},
    }
    m
}

/// A recipient's description as stored: trimmed, and none when that leaves
/// nothing.
pub fn normalize_description(description: Option<String>) -> (r: Option<String>)
    ensures
        match description {
            None => r is None,
            Some(d) => if trim(d@).len() == 0 {
                r is None
            } else {
                r matches Some(t) && t@ == trim(d@)
            },
        },
{
    match description {
        None => None,
        Some(d) => {
            let t = trim_chars(&chars_of(d.as_str()));
            if t.len() == 0 {
                None
            } else {
                Some(string_of(&t))
            }
        },
    }
}

} // verus!
