//! `generate`: from the project's `outputs`, one YAML file of env-var
//! values per output, encrypted with sops for the configured age
//! recipients (or printed as plain text).
use vstd::prelude::*;

use crate::args::GenerateArgs;
use crate::config::ProjectConfig;
use crate::env_resolver::{join_strings, joined};
use crate::error::HimitsuError;
use crate::export::{yaml_quote, yaml_quote_exec};
use crate::outputs::{OutputsMap, ResolvedOutput};
use crate::paths::{join_path, path_join};
use crate::strmap::{insert_sorted, lookup, StrMap};
use crate::text::{copy_string, push_str, str_eq, string_of, views};

verus! {

/// Refuses the removed `--env` flag.
pub fn check_args(args: &GenerateArgs) -> (r: Result<(), HimitsuError>)
    ensures
        args.env is None <==> r is Ok,
        r matches Err(e) ==> e is GenerateError && e.detail()
            == "--env flag has been removed; use --output instead"@,
{
    if args.env.is_some() {
        return Err(
            HimitsuError::GenerateError(String::from_str("--env flag has been removed; use --output instead")),
        );
    }
    Ok(())
}

/// The message when the project defines no outputs.
pub open spec fn no_outputs_msg() -> Seq<char> {
    "no `outputs` defined in project config — define outputs: blocks in himitsu.yaml or use `himitsu codegen`"@
}

/// Refuses an empty outputs map.
pub fn require_outputs(outputs: &OutputsMap) -> (r: Result<(), HimitsuError>)
    ensures
        (outputs.entries_view().len() > 0) <==> r is Ok,
        r matches Err(e) ==> e is GenerateError && e.detail() == no_outputs_msg(),
{
    if outputs.is_empty() {
        return Err(
            HimitsuError::GenerateError(
                String::from_str(
                    "no `outputs` defined in project config — define outputs: blocks in himitsu.yaml or use `himitsu codegen`",
                ),
            ),
        );
    }
    Ok(())
}

/// The outputs named `name`, in order.
pub open spec fn named(outputs: Seq<ResolvedOutput>, name: Seq<char>) -> Seq<ResolvedOutput>
    decreases outputs.len(),
{
    if outputs.len() == 0 {
        Seq::empty()
    } else {
        let rest = named(outputs.drop_last(), name);
        if outputs.last().name@ == name {
            rest.push(outputs.last())
        } else {
            rest
        }
    }
}

/// The outputs to generate: all of them, or those named `only`, which must
/// exist.
pub fn select_outputs(all: Vec<ResolvedOutput>, only: Option<&str>) -> (r: Result<
    Vec<ResolvedOutput>,
    HimitsuError,
>)
    ensures
        match only {
            None => r == Ok::<Vec<ResolvedOutput>, HimitsuError>(all),
            Some(n) => if named(all@, n@).len() == 0 {
                r matches Err(e) && e is GenerateError && e.detail() == "output '"@ + n@
                    + "' not found in project config"@
            } else {
                r matches Ok(v) && v@ == named(all@, n@)
            },
        },
{
    match only {
        None => Ok(all),
        Some(n) => {
            let ghost av = all@;
            let mut kept: Vec<ResolvedOutput> = Vec::new();
            let ghost count = all@.len();
            assert(count <= usize::MAX) by {
                assert(all.len() == count);
            }
            let mut rest = all;
            let mut i: usize = 0;
            assert(av.take(0) =~= Seq::<ResolvedOutput>::empty());
            while rest.len() > 0
                invariant
                    i + rest@.len() == av.len(),
                    av.len() == all@.len(),
                    av.len() <= usize::MAX,
                    rest@ == av.skip(i as int),
                    kept@ == named(av.take(i as int), n@),
                decreases rest.len(),
            {
                let o = rest.remove(0);
                assert(o == av[i as int]);
                assert(av.take(i + 1).drop_last() == av.take(i as int));
                assert(av.take(i + 1).last() == av[i as int]);
                assert(rest@ =~= av.skip(i + 1));
                if str_eq(o.name.as_str(), n) {
                    kept.push(o);
                }
                i += 1;
            }
            assert(av.take(av.len() as int) == av);
            if kept.len() == 0 {
                let mut m = String::from_str("output '");
                push_str(&mut m, n);
                push_str(&mut m, "' not found in project config");
                return Err(HimitsuError::GenerateError(m));
            }
            Ok(kept)
        },
    }
}

/// The warning for an output without secrets.
pub fn empty_output_warning(name: &str) -> (r: String)
    ensures
        r@ == "warning: output '"@ + name@ + "' resolved to no secrets — skipping"@,
{
    let mut m = String::from_str("warning: output '");
    push_str(&mut m, name);
    push_str(&mut m, "' resolved to no secrets — skipping");
    m
}

/// Records the value of an env var in an output; the last value of a
/// duplicated key wins. Returns whether the key was already present, in
/// which case the caller warns with `duplicate_warning`.
pub fn add_value(output: &mut StrMap<String>, env_key: String, value: String) -> (dup: bool)
    ensures
        dup == old(output).spec_get(env_key@) is Some,
        final(output).entries_view() == insert_sorted(old(output).entries_view(), env_key@, value),
        final(output).wf(),
{
    let dup = output.contains_key(env_key.as_str());
    output.insert(env_key, value);
    dup
}

/// The warning for a duplicated key.
pub fn duplicate_warning(env_key: &str, output_name: &str) -> (r: String)
    ensures
        r@ == "warning: duplicate key '"@ + env_key@ + "' in output '"@ + output_name@
            + "' — using last value"@,
{
    let mut m = String::from_str("warning: duplicate key '");
    push_str(&mut m, env_key);
    push_str(&mut m, "' in output '");
    push_str(&mut m, output_name);
    push_str(&mut m, "' — using last value");
    m
}

/// One `KEY: "value"` line per variable, in key order.
pub open spec fn plain_lines(entries: Seq<(Seq<char>, String)>) -> Seq<char>
    decreases entries.len(),
{
    if entries.len() == 0 {
        Seq::empty()
    } else {
        plain_lines(entries.drop_last()) + entries.last().0 + ": \""@ + yaml_quote(
            entries.last().1@,
        ) + "\"\n"@
    }
}

/// The plaintext YAML of an output: two comment lines naming it, then its
/// variables with their values as quoted YAML scalars.
pub fn build_plaintext_yaml(secrets: &StrMap<String>, output_name: &str) -> (r: String)
    ensures
        r@ == "# Generated by himitsu for output: "@ + output_name@ + "\n"@
            + "# Do not edit — regenerate with `himitsu generate`\n"@ + plain_lines(
            secrets.entries_view(),
        ),
{
    let ghost ev = secrets.entries_view();
    let mut out = String::from_str("# Generated by himitsu for output: ");
    push_str(&mut out, output_name);
    push_str(&mut out, "\n");
    push_str(&mut out, "# Do not edit — regenerate with `himitsu generate`\n");
    let ghost head = out@;
    let mut i: usize = 0;
    assert(plain_lines(ev.take(0)) =~= Seq::<char>::empty());
    while i < secrets.len()
        invariant
            i <= ev.len(),
            ev == secrets.entries_view(),
            out@ == head + plain_lines(ev.take(i as int)),
        decreases ev.len() - i,
    {
        assert(ev.take(i + 1).drop_last() == ev.take(i as int));
        let k = secrets.key_at(i);
        let v = secrets.value_at(i);
        assert(ev.take(i + 1).last() == (k@, *v));
        push_str(&mut out, k.as_str());
        push_str(&mut out, ": \"");
        push_str(&mut out, string_of(&yaml_quote_exec(v.as_str())).as_str());
        push_str(&mut out, "\"\n");
        i += 1;
    }
    assert(ev.take(ev.len() as int) == ev);
    out
}

/// The message when no target directory is known.
pub open spec fn no_target_msg() -> Seq<char> {
    "no output target specified; use --target or set `generate.target` in himitsu.yaml"@
}

/// The directory generated files go to: `--target`, else the configured
/// `generate.target`.
pub fn resolve_target(target: Option<&str>, project_cfg: &ProjectConfig) -> (r: Result<String, HimitsuError>)
    ensures
        match target {
            Some(t) => r matches Ok(s) && s@ == t@,
            None => match project_cfg.generate {
                Some(g) => r matches Ok(s) && s@ == g.target@,
                None => r matches Err(e) && e is GenerateError && e.detail() == no_target_msg(),
            },
        },
{
    if let Some(t) = target {
        return Ok(String::from_str(t));
    }
    match &project_cfg.generate {
        Some(g) => Ok(copy_string(&g.target)),
        None => Err(
            HimitsuError::GenerateError(
                String::from_str(
                    "no output target specified; use --target or set `generate.target` in himitsu.yaml",
                ),
            ),
        ),
    }
}

/// The message when no recipients are configured.
pub open spec fn no_recipients_msg() -> Seq<char> {
    "no `generate.age_recipients` configured; add recipients to himitsu.yaml or use --stdout for plaintext"@
}

/// The configured recipients of generated files.
pub open spec fn recipients_of(project_cfg: ProjectConfig) -> Seq<Seq<char>> {
    match project_cfg.generate {
        Some(g) => views(g.age_recipients@),
        None => Seq::empty(),
    }
}

/// The file an output is written to, and the arguments of the sops call
/// that encrypts it from standard input.
#[derive(Debug)]
pub struct EnvFilePlan {
    pub path: String,
    pub sops_args: Vec<String>,
}

/// Plans the encrypted file of an output under `target_dir`: the path
/// `<target_dir>/<output>.sops.yaml`, and sops encrypting YAML for the
/// configured age recipients (comma-joined); recipients are required.
pub fn plan_env_file(target_dir: &str, output_name: &str, project_cfg: &ProjectConfig) -> (r: Result<
    EnvFilePlan,
    HimitsuError,
>)
    ensures
        recipients_of(*project_cfg).len() == 0 ==> (r matches Err(e) && e is GenerateError
            && e.detail() == no_recipients_msg()),
        recipients_of(*project_cfg).len() > 0 ==> (r matches Ok(p) && p.path@ == path_join(
            target_dir@,
            output_name@ + ".sops.yaml"@,
        ) && views(p.sops_args@) == seq![
            "--encrypt"@,
            "--age"@,
            joined(recipients_of(*project_cfg), ","@),
            "--input-type"@,
            "yaml"@,
            "--output-type"@,
            "yaml"@,
            "/dev/stdin"@,
        ]),
{
    let mut file = String::from_str(output_name);
    push_str(&mut file, ".sops.yaml");
    let path = join_path(target_dir, file.as_str());
    let recipients: &[String] = match &project_cfg.generate {
        Some(g) => g.age_recipients.as_slice(),
        None => &[],
    };
    assert(views(recipients@) == recipients_of(*project_cfg));
    if recipients.len() == 0 {
        return Err(
            HimitsuError::GenerateError(
                String::from_str(
                    "no `generate.age_recipients` configured; add recipients to himitsu.yaml or use --stdout for plaintext",
                ),
            ),
        );
    }
    let age_arg = join_strings(recipients, ",");
    let sops_args = vec![
        String::from_str("--encrypt"),
        String::from_str("--age"),
        age_arg,
        String::from_str("--input-type"),
        String::from_str("yaml"),
        String::from_str("--output-type"),
        String::from_str("yaml"),
        String::from_str("/dev/stdin"),
    ];
    assert(views(sops_args@) =~= seq![
        "--encrypt"@,
        "--age"@,
        joined(recipients_of(*project_cfg), ","@),
        "--input-type"@,
        "yaml"@,
        "--output-type"@,
        "yaml"@,
        "/dev/stdin"@,
    ]);
    Ok(EnvFilePlan { path, sops_args })
}

/// The error when sops cannot be found.
pub fn sops_not_found() -> (e: HimitsuError)
    ensures
        e is GenerateError && e.detail()
            == "sops not found in PATH; install sops to generate encrypted output, or use --stdout for plaintext"@,
{
    HimitsuError::GenerateError(
        String::from_str(
            "sops not found in PATH; install sops to generate encrypted output, or use --stdout for plaintext",
        ),
    )
}

/// A generate error: `what`, a colon and the detail.
pub fn sops_error(what: &str, detail: &str) -> (e: HimitsuError)
    ensures
        e is GenerateError && e.detail() == what@ + ": "@ + detail@,
{
    let mut m = String::from_str(what);
    push_str(&mut m, ": ");
    push_str(&mut m, detail);
    HimitsuError::GenerateError(m)
}

/// The error when project mode needs a configuration that is missing.
pub fn no_project_config() -> (e: HimitsuError)
    ensures
        e is ProjectConfigRequired && e.detail()
            == "no project config found (himitsu.yaml); use --stdout or --target"@,
{
    HimitsuError::ProjectConfigRequired(
        String::from_str("no project config found (himitsu.yaml); use --stdout or --target"),
    )
}

} // verus!
