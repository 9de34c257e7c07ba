//! `sync`: which stores to sync, the steps of a fast-forward pull of
//! `origin/<branch>` driven by git's answers, and what is reported.
use vstd::prelude::*;

use crate::env_dsl::{trim, trim_chars};
use crate::error::HimitsuError;
use crate::labels::{valid_slug, validate_remote_slug};
use crate::text::{chars_of, copy_string, decimal, decimal_chars, push_str, string_of, views};

verus! {

/// The stores to sync: the one given (when it is a valid slug), else every
/// known store; `None` when there are none (nothing to do).
pub fn sync_targets(explicit: Option<&str>, remotes: Vec<String>) -> (r: Result<Option<Vec<String>>, HimitsuError>)
    ensures
        match explicit {
            Some(s) => if valid_slug(s@) {
                r matches Ok(Some(v)) && views(v@) == seq![s@]
            } else {
                r matches Err(e) && e is InvalidConfig
            },
            None => if remotes@.len() > 0 {
                r matches Ok(Some(v)) && v@ == remotes@
            } else {
                r matches Ok(None)
            },
        },
{
    match explicit {
        Some(s) => {
            validate_remote_slug(s)?;
            let mut v: Vec<String> = Vec::new();
            v.push(String::from_str(s));
            assert(views(v@) =~= seq![s@]);
            Ok(Some(v))
        },
        None => if remotes.len() > 0 {
            Ok(Some(remotes))
        } else {
            Ok(None)
        },
    }
}

/// How a pull ended.
#[derive(Debug, Clone, PartialEq, Eq)]
pub enum PullOutcome {
    Pulled,
    /// The remote has no branch of that name yet (a fresh, empty remote).
    SkippedEmptyRemote,
    Failed(String),
}

/// Which git command of a pull is running.
#[derive(Debug, Clone, PartialEq, Eq)]
pub enum PullStage {
    /// `git fetch --quiet origin`
    Fetch,
    /// `git symbolic-ref --short HEAD`
    Branch,
    /// `git rev-parse --verify origin/<branch>`
    Verify(String),
    /// `git pull --ff-only --recurse-submodules origin <branch>`
    Pull(String),
}

/// What comes next in a pull: run a git command (its arguments) at a
/// stage, or stop with an outcome.
#[derive(Debug, Clone, PartialEq, Eq)]
pub enum PullNext {
    Run(PullStage, Vec<String>),
    Done(PullOutcome),
}

/// The arguments of the git command of a stage.
pub open spec fn stage_args(st: PullStage) -> Seq<Seq<char>> {
    match st {
        PullStage::Fetch => seq!["fetch"@, "--quiet"@, "origin"@],
        PullStage::Branch => seq!["symbolic-ref"@, "--short"@, "HEAD"@],
        PullStage::Verify(b) => seq!["rev-parse"@, "--verify"@, "origin/"@ + b@],
        PullStage::Pull(b) => seq!["pull"@, "--ff-only"@, "--recurse-submodules"@, "origin"@, b@],
    }
}

fn args_of(st: &PullStage) -> (r: Vec<String>)
    ensures
        views(r@) == stage_args(*st),
{
    let mut v: Vec<String> = Vec::new();
    match st {
        PullStage::Fetch => {
            v.push(String::from_str("fetch"));
            v.push(String::from_str("--quiet"));
            v.push(String::from_str("origin"));
        },
        PullStage::Branch => {
            v.push(String::from_str("symbolic-ref"));
            v.push(String::from_str("--short"));
            v.push(String::from_str("HEAD"));
        },
        PullStage::Verify(b) => {
            v.push(String::from_str("rev-parse"));
            v.push(String::from_str("--verify"));
            let mut r = String::from_str("origin/");
            push_str(&mut r, b.as_str());
            v.push(r);
        },
        PullStage::Pull(b) => {
            v.push(String::from_str("pull"));
            v.push(String::from_str("--ff-only"));
            v.push(String::from_str("--recurse-submodules"));
            v.push(String::from_str("origin"));
            v.push(copy_string(b));
        },
    }
    assert(views(v@) =~= stage_args(*st));
    v
}

/// The first step of a pull: fetch.
pub fn pull_start() -> (r: PullNext)
    ensures
        r matches PullNext::Run(st, a) && st == PullStage::Fetch && views(a@) == stage_args(st),
{
    let st = PullStage::Fetch;
    let a = args_of(&st);
    PullNext::Run(st, a)
}

/// A stage as plain values.
pub enum StageView {
    Fetch,
    Branch,
    Verify(Seq<char>),
    Pull(Seq<char>),
}

/// The plain view of a stage.
pub open spec fn stage_view(st: PullStage) -> StageView {
    match st {
        PullStage::Fetch => StageView::Fetch,
        PullStage::Branch => StageView::Branch,
        PullStage::Verify(b) => StageView::Verify(b@),
        PullStage::Pull(b) => StageView::Pull(b@),
    }
}

/// What comes next, as plain values.
pub enum NextView {
    Run(StageView),
    Pulled,
    Skipped,
    Failed(Seq<char>),
}

/// The plain view of a next step (the arguments are `stage_args` of the
/// stage).
pub open spec fn next_view(n: PullNext) -> NextView {
    match n {
        PullNext::Run(st, _) => NextView::Run(stage_view(st)),
        PullNext::Done(PullOutcome::Pulled) => NextView::Pulled,
        PullNext::Done(PullOutcome::SkippedEmptyRemote) => NextView::Skipped,
        PullNext::Done(PullOutcome::Failed(e)) => NextView::Failed(e@),
    }
}

/// The step after a stage, given what its git command gave (its output, or
/// its error's text): a failed fetch, branch query or pull fails the pull;
/// an empty branch name is a detached HEAD; a branch missing on the remote
/// skips the pull; a pull that succeeds ends it.
pub open spec fn pull_spec(st: StageView, result: Result<Seq<char>, Seq<char>>) -> NextView {
    match (st, result) {
        (StageView::Fetch, Err(e)) => NextView::Failed(e),
        (StageView::Fetch, Ok(_)) => NextView::Run(StageView::Branch),
        (StageView::Branch, Err(e)) => NextView::Failed(e),
        (StageView::Branch, Ok(out)) => if trim(out).len() == 0 {
            NextView::Failed("detached HEAD"@)
        } else {
            NextView::Run(StageView::Verify(trim(out)))
        },
        (StageView::Verify(_), Err(_)) => NextView::Skipped,
        (StageView::Verify(b), Ok(_)) => NextView::Run(StageView::Pull(b)),
        (StageView::Pull(_), Err(e)) => NextView::Failed(e),
        (StageView::Pull(_), Ok(_)) => NextView::Pulled,
    }
}

/// The next step of a pull (see `pull_spec`), with the arguments of the
/// git command to run next.
pub fn pull_step(st: PullStage, result: Result<String, String>) -> (r: PullNext)
    ensures
        next_view(r) == pull_spec(
            stage_view(st),
            match result {
                Ok(o) => Ok(o@),
                Err(e) => Err(e@),
            },
        ),
        r matches PullNext::Run(s, a) ==> views(a@) == stage_args(s),
{
    match st {
        PullStage::Fetch => match result {
            Err(e) => PullNext::Done(PullOutcome::Failed(e)),
            Ok(_) => {
                let n = PullStage::Branch;
                let a = args_of(&n);
                PullNext::Run(n, a)
            },
        },
        PullStage::Branch => match result {
            Err(e) => PullNext::Done(PullOutcome::Failed(e)),
            Ok(out) => {
                let b = trim_chars(&chars_of(out.as_str()));
                if b.len() == 0 {
                    PullNext::Done(PullOutcome::Failed(String::from_str("detached HEAD")))
                } else {
                    let n = PullStage::Verify(string_of(&b));
                    let a = args_of(&n);
                    PullNext::Run(n, a)
                }
            },
        },
        PullStage::Verify(b) => match result {
            Err(_) => PullNext::Done(PullOutcome::SkippedEmptyRemote),
            Ok(_) => {
                let n = PullStage::Pull(b);
                let a = args_of(&n);
                PullNext::Run(n, a)
            },
        },
        PullStage::Pull(_) => match result {
            Err(e) => PullNext::Done(PullOutcome::Failed(e)),
            Ok(_) => PullNext::Done(PullOutcome::Pulled),
        },
    }
}

/// The commit message for changes pending before a sync.
pub fn pending_message(slug: &str) -> (r: String)
    ensures
        r@ == "himitsu sync: pending changes in "@ + slug@,
{
    let mut m = String::from_str("himitsu sync: pending changes in ");
    push_str(&mut m, slug);
    m
}

/// The commit message for secrets a sync rekeyed.
pub fn rekey_message(slug: &str) -> (r: String)
    ensures
        r@ == "himitsu sync: rekey in "@ + slug@,
{
    let mut m = String::from_str("himitsu sync: rekey in ");
    push_str(&mut m, slug);
    m
}

/// The warning for a failed pull.
pub fn pull_warning(slug: &str, error: &str) -> (r: String)
    ensures
        r@ == "warning: pull failed for '"@ + slug@ + "': "@ + error@,
{
    let mut m = String::from_str("warning: pull failed for '");
    push_str(&mut m, slug);
    push_str(&mut m, "': ");
    push_str(&mut m, error);
    m
}

/// The line reported for a synced store: whether it was pulled and, unless
/// rekeying was skipped, how many secrets were rekeyed.
pub open spec fn sync_line_spec(slug: Seq<char>, pulled: bool, no_rekey: bool, rekeyed: nat) -> Seq<char> {
    let label = if pulled {
        "pulled"@
    } else {
        "skipped pull"@
    };
    if no_rekey {
        slug + ": "@ + label
    } else {
        slug + ": "@ + label + ", "@ + decimal(rekeyed) + " secret(s) rekeyed"@
    }
}

/// The line reported for a synced store.
pub fn sync_line(slug: &str, pulled: bool, no_rekey: bool, rekeyed: usize) -> (r: String)
    ensures
        r@ == sync_line_spec(slug@, pulled, no_rekey, rekeyed as nat),
{
    let mut m = String::from_str(slug);
    push_str(&mut m, ": ");
    push_str(&mut m, if pulled { "pulled" } else { "skipped pull" });
    if !no_rekey {
        push_str(&mut m, ", ");
        push_str(&mut m, string_of(&decimal_chars(rekeyed)).as_str());
        push_str(&mut m, " secret(s) rekeyed");
    }
    m
}

} // verus!
