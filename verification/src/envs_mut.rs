//! Where a preset or output mutation is written: the project config found
//! walking up from the working directory, or the global config.
use vstd::prelude::*;

use crate::env_cache::Scope;
use crate::error::HimitsuError;
use crate::paths::{join_path, path_join};
use crate::search::opt_view;
use crate::text::{copy_string, push_str};

verus! {

/// Which config file a mutation targets.
#[derive(Debug, Clone, Copy, PartialEq, Eq, Structural)]
pub enum ScopeHint {
    /// The project config; an error when none is found walking up.
    Project,
    /// The global config.
    Global,
    /// The project config when one is found walking up, else the global one.
    Auto,
}

/// The scope chosen, with the config file it names.
#[derive(Debug, Clone, PartialEq, Eq)]
pub struct ResolvedScope {
    pub scope: Scope,
    pub config_path: String,
}

/// The file names a project config may have, in the order they are tried.
pub open spec fn project_candidates() -> Seq<Seq<char>> {
    seq![
        ".himitsu.yaml"@,
        "himitsu.yaml"@,
        "himitsu.yml"@,
        ".config/himitsu.yaml"@,
        ".config/himitsu.yml"@,
        ".himitsu/config.yaml"@,
        ".himitsu/config.yml"@,
    ]
}

fn candidates() -> (r: Vec<&'static str>)
    ensures
        r@.map_values(|s: &str| s@) == project_candidates(),
{
    let v = vec![
        ".himitsu.yaml",
        "himitsu.yaml",
        "himitsu.yml",
        ".config/himitsu.yaml",
        ".config/himitsu.yml",
        ".himitsu/config.yaml",
        ".himitsu/config.yml",
    ];
    assert(v@.map_values(|s: &str| s@) =~= project_candidates());
    v
}

/// How many directories the walk up looks at.
pub open spec fn walk_levels() -> int {
    21
}

/// The config paths probed walking up, in order: for each of the first 21
/// directories (the start, then each parent), every candidate name.
pub open spec fn probe_paths(dirs: Seq<Seq<char>>) -> Seq<Seq<char>>
    decreases dirs.len(),
{
    let n = if dirs.len() < walk_levels() {
        dirs.len() as int
    } else {
        walk_levels()
    };
    if n == 0 {
        Seq::empty()
    } else {
        let d = dirs.take(n);
        probe_paths(d.drop_last()) + project_candidates().map_values(
            |c: Seq<char>| path_join(d.last(), c),
        )
    }
}

/// The paths to probe for a project config, given the directories from the
/// working directory up to the root (`Path::ancestors`): each candidate
/// name in each of the first 21 of them, nearest first. The first that
/// exists is the project config.
pub fn project_config_probes(dirs: &[String]) -> (r: Vec<String>)
    ensures
        r@.map_values(|s: String| s@) == probe_paths(dirs@.map_values(|s: String| s@)),
{
    let ghost dv = dirs@.map_values(|s: String| s@);
    let cands = candidates();
    let ghost cv = project_candidates();
    let n = if dirs.len() < 21 {
        dirs.len()
    } else {
        21
    };
    let mut out: Vec<String> = Vec::new();
    let mut i: usize = 0;
    assert(probe_paths(dv.take(0)) =~= Seq::<Seq<char>>::empty());
    while i < n
        invariant
            i <= n,
            n <= dirs@.len(),
            n <= 21,
            dv == dirs@.map_values(|s: String| s@),
            cands@.map_values(|s: &str| s@) == cv,
            cv == project_candidates(),
            out@.map_values(|s: String| s@) == probe_paths(dv.take(i as int)),
        decreases n - i,
    {
        let ghost base = out@.map_values(|s: String| s@);
        let ghost dir = dv[i as int];
        assert(dir == dirs@[i as int]@);
        let mut j: usize = 0;
        while j < cands.len()
            invariant
                i < n,
                n <= dirs@.len(),
                dir == dirs@[i as int]@,
                cands@.map_values(|s: &str| s@) == cv,
                j <= cands@.len(),
                out@.map_values(|s: String| s@) == base + cv.take(j as int).map_values(
                    |c: Seq<char>| path_join(dir, c),
                ),
            decreases cands.len() - j,
        {
            let ghost before = out@;
            assert(cv[j as int] == cands@[j as int]@);
            out.push(join_path(dirs[i].as_str(), cands[j]));
            assert(out@.map_values(|s: String| s@) =~= before.map_values(|s: String| s@).push(
                path_join(dir, cv[j as int]),
            ));
            assert(cv.take(j + 1).map_values(|c: Seq<char>| path_join(dir, c)) =~= cv.take(
                j as int,
            ).map_values(|c: Seq<char>| path_join(dir, c)).push(path_join(dir, cv[j as int])));
            j += 1;
        }
        assert(cv.take(cands@.len() as int) == cv);
        assert(dv.take(i + 1).take(i + 1) == dv.take(i + 1));
        assert(dv.take(i + 1).drop_last() == dv.take(i as int));
        assert(dv.take(i as int).take(i as int) == dv.take(i as int));
        assert(dv.take(i + 1).last() == dir);
        i += 1;
    }
    assert(probe_paths(dv) == probe_paths(dv.take(n as int))) by {
        if dv.len() >= 21 {
            assert(dv.take(n as int).take(n as int) == dv.take(n as int));
        } else {
            assert(dv.take(n as int) == dv);
        }
    }
    out
}

/// The message when project scope is asked for and no project config is
/// found.
pub open spec fn no_project_config_msg(cwd: Seq<char>) -> Seq<char> {
    "no project config (.himitsu.yaml) found walking up from "@ + cwd
}

/// The scope a hint resolves to, given the project config found walking up
/// from `cwd` (if any) and the global config's path.
pub open spec fn scope_spec(
    hint: ScopeHint,
    cwd: Seq<char>,
    found: Option<Seq<char>>,
    global: Seq<char>,
) -> Result<(Scope, Seq<char>), Seq<char>> {
    match (hint, found) {
        (ScopeHint::Global, _) => Ok((Scope::Global, global)),
        (_, Some(p)) => Ok((Scope::Project, p)),
        (ScopeHint::Project, None) => Err(no_project_config_msg(cwd)),
        (ScopeHint::Auto, None) => Ok((Scope::Global, global)),
    }
}

/// Resolves a scope hint: `found` is the first probe that exists (see
/// `project_config_probes`), `global_config` the global config's path.
/// Project scope without a project config is `ProjectConfigRequired`.
pub fn resolve_scope(hint: ScopeHint, cwd: &str, found: Option<String>, global_config: &str) -> (r:
    Result<ResolvedScope, HimitsuError>)
    ensures
        match scope_spec(hint, cwd@, opt_view(found), global_config@) {
            Ok((s, p)) => r matches Ok(rs) && rs.scope == s && rs.config_path@ == p,
            Err(m) => r matches Err(e) && e is ProjectConfigRequired && e.detail() == m,
        },
{
    match (hint, found) {
        (ScopeHint::Global, _) => Ok(
            ResolvedScope { scope: Scope::Global, config_path: String::from_str(global_config) },
        ),
        (_, Some(p)) => Ok(ResolvedScope { scope: Scope::Project, config_path: p }),
        (ScopeHint::Project, None) => {
            let mut m = String::from_str("no project config (.himitsu.yaml) found walking up from ");
            push_str(&mut m, cwd);
            Err(HimitsuError::ProjectConfigRequired(m))
        },
        (ScopeHint::Auto, None) => Ok(
            ResolvedScope { scope: Scope::Global, config_path: String::from_str(global_config) },
        ),
    }
}

} // verus!
