use himitsu::error::HimitsuError;
use himitsu::sync::{
    pending_message, pull_start, pull_step, pull_warning, rekey_message, sync_line, sync_targets,
    PullNext, PullOutcome, PullStage,
};

fn args(v: &[&str]) -> Vec<String> {
    v.iter().map(|s| s.to_string()).collect()
}

#[test]
fn targets() {
    assert_eq!(sync_targets(Some("a/b"), vec![]), Ok(Some(vec!["a/b".to_string()])));
    assert!(matches!(sync_targets(Some("bad"), vec![]), Err(HimitsuError::InvalidConfig(_))));
    assert_eq!(sync_targets(None, vec![]), Ok(None));
    assert_eq!(sync_targets(None, args(&["x/y"])), Ok(Some(args(&["x/y"]))));
}

#[test]
fn a_pull_walks_fetch_branch_verify_pull() {
    let n = pull_start();
    assert_eq!(n, PullNext::Run(PullStage::Fetch, args(&["fetch", "--quiet", "origin"])));
    let n = pull_step(PullStage::Fetch, Ok(String::new()));
    assert_eq!(n, PullNext::Run(PullStage::Branch, args(&["symbolic-ref", "--short", "HEAD"])));
    let n = pull_step(PullStage::Branch, Ok("main\n".into()));
    assert_eq!(
        n,
        PullNext::Run(PullStage::Verify("main".into()), args(&["rev-parse", "--verify", "origin/main"]))
    );
    let n = pull_step(PullStage::Verify("main".into()), Ok("abc".into()));
    assert_eq!(
        n,
        PullNext::Run(
            PullStage::Pull("main".into()),
            args(&["pull", "--ff-only", "--recurse-submodules", "origin", "main"])
        )
    );
    assert_eq!(pull_step(PullStage::Pull("main".into()), Ok(String::new())), PullNext::Done(PullOutcome::Pulled));
}

#[test]
fn pull_failures_and_skips() {
    assert_eq!(
        pull_step(PullStage::Fetch, Err("no network".into())),
        PullNext::Done(PullOutcome::Failed("no network".into()))
    );
    assert_eq!(
        pull_step(PullStage::Branch, Ok("  \n".into())),
        PullNext::Done(PullOutcome::Failed("detached HEAD".into()))
    );
    assert_eq!(
        pull_step(PullStage::Verify("main".into()), Err("unknown".into())),
        PullNext::Done(PullOutcome::SkippedEmptyRemote)
    );
    assert_eq!(
        pull_step(PullStage::Pull("main".into()), Err("conflict".into())),
        PullNext::Done(PullOutcome::Failed("conflict".into()))
    );
}

#[test]
fn sync_messages() {
    assert_eq!(pending_message("a/b"), "himitsu sync: pending changes in a/b");
    assert_eq!(rekey_message("a/b"), "himitsu sync: rekey in a/b");
    assert_eq!(pull_warning("a/b", "boom"), "warning: pull failed for 'a/b': boom");
    assert_eq!(sync_line("a/b", true, true, 3), "a/b: pulled");
    assert_eq!(sync_line("a/b", false, false, 3), "a/b: skipped pull, 3 secret(s) rekeyed");
}
