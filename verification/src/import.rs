//! `import`: which 1Password field a secret is imported from, checked
//! before anything is read, and the errors `op` can end in.
use vstd::prelude::*;

use crate::args::ImportArgs;
use crate::cli::Context;
use crate::env_dsl::{trim, trim_chars};
use crate::error::HimitsuError;
use crate::text::{chars_of, debug_quoted, has_prefix, push_str, quoted, split, split_chars, string_of};

verus! {

/// What an import does once its source is known to be well-formed.
#[derive(Debug, PartialEq, Eq)]
pub struct ImportPlan {
    /// The `op://vault/item/field` reference read with `op read`.
    pub op_ref: String,
    /// Where the secret is stored.
    pub path: String,
    /// Replace an existing secret.
    pub overwrite: bool,
    pub no_push: bool,
}

/// The non-empty pieces of a list, in order.
pub open spec fn non_empty(parts: Seq<Seq<char>>) -> Seq<Seq<char>>
    decreases parts.len(),
{
    if parts.len() == 0 {
        parts
    } else if parts.last().len() == 0 {
        non_empty(parts.drop_last())
    } else {
        non_empty(parts.drop_last()).push(parts.last())
    }
}

/// Why an import request is refused, as the error kind (0: not supported,
/// 1: invalid reference) and its message; `None` when it can proceed.
pub open spec fn import_problem(sops: bool, op: Option<Seq<char>>) -> Option<(int, Seq<char>)> {
    if sops {
        Some((0, "SOPS import is not yet implemented — use --op for now"@))
    } else {
        match op {
            None => Some((1, "missing source: pass --op <op://vault/item/field>"@)),
            Some(r) => if !has_prefix(r, "op://"@) {
                Some(
                    (
                        1,
                        "1Password reference must start with `op://` (got "@ + debug_quoted(r)
                            + ")"@,
                    ),
                )
            } else {
                let n = non_empty(split(r.skip(5), '/')).len();
                if n == 3 {
                    None
                } else if n == 2 {
                    Some(
                        (
                            0,
                            "whole-item import (op://vault/item) is not yet implemented — pass a field reference like op://vault/item/field"@,
                        ),
                    )
                } else {
                    Some((1, "expected op://vault/item/field, got "@ + debug_quoted(r)))
                }
            },
        }
    }
}

fn count_non_empty(parts: &Vec<Vec<char>>) -> (n: usize)
    ensures
        n == non_empty(crate::text::vec_views(parts@)).len(),
{
    let ghost pv = crate::text::vec_views(parts@);
    let mut n: usize = 0;
    let mut i: usize = 0;
    assert(pv.take(0).len() == 0);
    while i < parts.len()
        invariant
            i <= parts@.len(),
            pv == crate::text::vec_views(parts@),
            n == non_empty(pv.take(i as int)).len(),
            n <= i,
        decreases parts.len() - i,
    {
        assert(pv.take(i + 1).drop_last() == pv.take(i as int));
        assert(pv.take(i + 1).last() == parts@[i as int]@);
        if parts[i].len() > 0 {
            n += 1;
        }
        i += 1;
    }
    assert(pv.take(parts@.len() as int) == pv);
    n
}

/// Checks an import request: only a single-field 1Password reference
/// (`op://vault/item/field`) can be imported.
pub fn run(args: ImportArgs, _ctx: &Context) -> (r: Result<ImportPlan, HimitsuError>)
    ensures
        match import_problem(args.sops is Some, match args.op {
            Some(o) => Some(o@),
            None => None,
        }) {
            None => r matches Ok(p) && p.op_ref@ == args.op->Some_0@ && p.path@ == args.path@
                && p.overwrite == args.overwrite && p.no_push == args.no_push,
            Some((k, m)) => r matches Err(e) && e.detail() == m && (k == 0 ==> e is NotSupported)
                && (k == 1 ==> e is InvalidReference),
        },
{
    if args.sops.is_some() {
        return Err(HimitsuError::NotSupported(String::from_str(
            "SOPS import is not yet implemented — use --op for now",
        )));
    }
    let op_ref = match args.op {
        None => {
            return Err(HimitsuError::InvalidReference(String::from_str(
                "missing source: pass --op <op://vault/item/field>",
            )));
        },
        Some(o) => o,
    };
    let cs = chars_of(op_ref.as_str());
    let scheme = chars_of("op://");
    proof {
        reveal_strlit("op://");
    }
    if !crate::text::starts_with(&cs, &scheme) {
        let mut m = String::from_str("1Password reference must start with `op://` (got ");
        push_str(&mut m, quoted(op_ref.as_str()).as_str());
        push_str(&mut m, ")");
        return Err(HimitsuError::InvalidReference(m));
    }
    let rest = crate::text::slice_of(&cs, 5, cs.len());
    let parts = split_chars(&rest, '/');
    let n = count_non_empty(&parts);
    if n == 2 {
        return Err(HimitsuError::NotSupported(String::from_str(
            "whole-item import (op://vault/item) is not yet implemented — pass a field reference like op://vault/item/field",
        )));
    }
    if n != 3 {
        let mut m = String::from_str("expected op://vault/item/field, got ");
        push_str(&mut m, quoted(op_ref.as_str()).as_str());
        return Err(HimitsuError::InvalidReference(m));
    }
    Ok(ImportPlan { op_ref, path: args.path, overwrite: args.overwrite, no_push: args.no_push })
}

/// The error when the target secret exists and `--overwrite` was not given.
pub fn already_exists(path: &str) -> (e: HimitsuError)
    ensures
        e is InvalidReference && e.detail() == "secret already exists at "@ + path@
            + ": pass --overwrite to replace it"@,
{
    let mut m = String::from_str("secret already exists at ");
    push_str(&mut m, path);
    push_str(&mut m, ": pass --overwrite to replace it");
    HimitsuError::InvalidReference(m)
}

/// The error when `op read` failed: what it printed, trimmed, or its exit
/// status when it printed nothing.
pub fn op_read_failed(stderr: &str, status: &str) -> (e: HimitsuError)
    ensures
        e is External,
        trim(stderr@).len() == 0 ==> e.detail() == "`op read` exited with status "@ + status@,
        trim(stderr@).len() > 0 ==> e.detail() == "`op read` failed: "@ + trim(stderr@),
{
    let t = trim_chars(&chars_of(stderr));
    if t.len() == 0 {
        let mut m = String::from_str("`op read` exited with status ");
        push_str(&mut m, status);
        HimitsuError::External(m)
    } else {
        let mut m = String::from_str("`op read` failed: ");
        push_str(&mut m, string_of(&t).as_str());
        HimitsuError::External(m)
    }
}

/// The error when the `op` program is not installed.
pub fn op_missing() -> (e: HimitsuError)
    ensures
        e is External && e.detail()
            == "`op` CLI not found on PATH — install 1Password CLI from https://developer.1password.com/docs/cli/get-started/"@,
{
    HimitsuError::External(String::from_str(
        "`op` CLI not found on PATH — install 1Password CLI from https://developer.1password.com/docs/cli/get-started/",
    ))
}

} // verus!
