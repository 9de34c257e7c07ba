//! The GitHub Actions workflow for self-serve rekeys: its template, the
//! fields a run is triggered with, and the `gh` command that triggers it.
use vstd::prelude::*;

use crate::args::{CiArgs, CiCommand, InstallArgs, RunArgs};
use crate::error::HimitsuError;
use crate::labels::{valid_slug, validate_remote_slug};
use crate::text::{join, push_str, views};

verus! {

/// The operation a workflow run performs.
#[derive(Debug, Clone, Copy, PartialEq, Eq)]
pub enum CiOperation {
    Sync,
    AddRecipient,
    RmRecipient,
}

impl CiOperation {
    /// The workflow input naming the operation.
    pub open spec fn input_name(self) -> Seq<char> {
        match self {
            CiOperation::Sync => "sync"@,
            CiOperation::AddRecipient => "add-recipient"@,
            CiOperation::RmRecipient => "rm-recipient"@,
        }
    }

    /// The workflow input naming the operation.
    pub fn as_input(self) -> (r: &'static str)
        ensures
            r@ == self.input_name(),
    {
        match self {
            CiOperation::Sync => "sync",
            CiOperation::AddRecipient => "add-recipient",
            CiOperation::RmRecipient => "rm-recipient",
        }
    }
}

/// `name=value` appended when the value is present and non-empty.
pub open spec fn optional_field(fields: Seq<Seq<char>>, name: Seq<char>, value: Option<Seq<char>>) -> Seq<
    Seq<char>,
> {
    match value {
        Some(v) => if v.len() > 0 {
            fields.push(name + "="@ + v)
        } else {
            fields
        },
        None => fields,
    }
}

pub open spec fn opt_view(o: Option<String>) -> Option<Seq<char>> {
    match o {
        Some(s) => Some(s@),
        None => None,
    }
}

fn push_optional_field(fields: &mut Vec<String>, name: &str, value: &Option<String>)
    ensures
        views(final(fields)@) == optional_field(views(old(fields)@), name@, opt_view(*value)),
{
    if let Some(v) = value {
        if v.unicode_len() > 0 {
            let mut f = String::from_str(name);
            push_str(&mut f, "=");
            push_str(&mut f, v.as_str());
            let ghost before = views(fields@);
            fields.push(f);
            assert(views(fields@) =~= before.push(f@));
        }
    }
}

/// The `--field` values of a run, in the order the workflow lists them.
pub open spec fn run_fields(args: RunArgs) -> Seq<Seq<char>> {
    let f = seq!["operation="@ + args.operation.input_name()];
    let f = optional_field(f, "remote"@, opt_view(args.target_remote));
    let f = optional_field(f, "recipient-name"@, opt_view(args.recipient_name));
    let f = optional_field(f, "recipient-key"@, opt_view(args.recipient_key));
    f.push("group="@ + args.group@)
}

/// The fields a run is triggered with; a target remote must be a valid
/// `org/repo` slug.
pub fn trigger_fields(args: &RunArgs) -> (r: Result<Vec<String>, HimitsuError>)
    ensures
        r is Ok <==> (args.target_remote matches Some(t) ==> valid_slug(t@)),
        r matches Ok(v) ==> views(v@) == run_fields(*args),
        r matches Err(e) ==> e is InvalidConfig,
{
    if let Some(remote) = &args.target_remote {
        if let Err(e) = validate_remote_slug(remote.as_str()) {
            return Err(e);
        }
    }
    let mut fields: Vec<String> = Vec::new();
    let mut op = String::from_str("operation=");
    push_str(&mut op, args.operation.as_input());
    fields.push(op);
    assert(views(fields@) =~= seq!["operation="@ + args.operation.input_name()]);
    push_optional_field(&mut fields, "remote", &args.target_remote);
    push_optional_field(&mut fields, "recipient-name", &args.recipient_name);
    push_optional_field(&mut fields, "recipient-key", &args.recipient_key);
    let mut g = String::from_str("group=");
    push_str(&mut g, args.group.as_str());
    let ghost before = views(fields@);
    fields.push(g);
    assert(views(fields@) =~= before.push(g@));
    Ok(fields)
}

/// The words of the `gh` command that triggers `workflow` with `fields`.
pub open spec fn gh_words(workflow: Seq<char>, fields: Seq<Seq<char>>) -> Seq<Seq<char>>
    decreases fields.len(),
{
    if fields.len() == 0 {
        seq!["gh"@, "workflow"@, "run"@, workflow]
    } else {
        gh_words(workflow, fields.drop_last()).push("--field"@).push(fields.last())
    }
}

proof fn lemma_join_push(parts: Seq<Seq<char>>, x: Seq<char>, sep: char)
    requires
        parts.len() > 0,
    ensures
        join(parts.push(x), sep) == join(parts, sep).push(sep) + x,
{
    assert(parts.push(x).drop_last() == parts);
}

/// The `gh workflow run` command line, words separated by spaces.
pub fn render_gh_command(workflow: &str, fields: &[String]) -> (r: String)
    ensures
        r@ == join(gh_words(workflow@, views(fields@)), ' '),
{
    let ghost fv = views(fields@);
    let mut r = String::from_str("gh workflow run ");
    push_str(&mut r, workflow);
    proof {
        reveal_strlit("gh workflow run ");
        reveal_strlit("gh");
        reveal_strlit("workflow");
        reveal_strlit("run");
        let w1 = seq!["gh"@];
        let w2 = w1.push("workflow"@);
        let w3 = w2.push("run"@);
        let w4 = w3.push(workflow@);
        lemma_join_push(w1, "workflow"@, ' ');
        lemma_join_push(w2, "run"@, ' ');
        lemma_join_push(w3, workflow@, ' ');
        assert(w4 =~= seq!["gh"@, "workflow"@, "run"@, workflow@]);
        assert(join(w4, ' ') =~= r@);
        assert(fv.take(0) =~= Seq::<Seq<char>>::empty());
    }
    let mut i: usize = 0;
    while i < fields.len()
        invariant
            i <= fields.len(),
            fv == views(fields@),
            r@ == join(gh_words(workflow@, fv.take(i as int)), ' '),
        decreases fields.len() - i,
    {
        assert(fv.take(i + 1).drop_last() == fv.take(i as int));
        assert(fv.take(i + 1).last() == fields@[i as int]@);
        push_str(&mut r, " --field ");
        push_str(&mut r, fields[i].as_str());
        proof {
            reveal_strlit(" --field ");
            reveal_strlit("--field");
            let words = gh_words(workflow@, fv.take(i as int));
            let w1 = words.push("--field"@);
            let w2 = w1.push(fields@[i as int]@);
            lemma_join_push(words, "--field"@, ' ');
            lemma_join_push(w1, fields@[i as int]@, ' ');
            assert(join(w2, ' ') =~= r@);
        }
        i += 1;
    }
    assert(fv.take(fields.len() as int) == fv);
    r
}

/// The workflow file installed by `ci install`.
pub open spec fn workflow_text(default_remote: Seq<char>, action_ref: Seq<char>) -> Seq<char> {
    WORKFLOW_HEAD@ + default_remote + WORKFLOW_MIDDLE@ + action_ref + WORKFLOW_TAIL@
}

pub const WORKFLOW_HEAD: &'static str = "name: Himitsu Self-Serve Rekey\n\non:\n  workflow_dispatch:\n    inputs:\n      operation:\n        description: \"Operation to run\"\n        required: true\n        default: sync\n        type: choice\n        options:\n          - sync\n          - add-recipient\n          - rm-recipient\n      remote:\n        description: \"Target himitsu remote (org/repo)\"\n        required: false\n        default: ";

pub const WORKFLOW_MIDDLE: &'static str = "\n      recipient-name:\n        description: \"Recipient name for add-recipient or rm-recipient\"\n        required: false\n      recipient-key:\n        description: \"Age public key for add-recipient\"\n        required: false\n      group:\n        description: \"Target recipient group\"\n        required: false\n        default: team\n\npermissions:\n  contents: write\n  pull-requests: write\n\njobs:\n  himitsu:\n    runs-on: ubuntu-latest\n    steps:\n      - uses: actions/checkout@v4\n      - uses: darkmatter/himitsu@";

pub const WORKFLOW_TAIL: &'static str = "\n        with:\n          operation: ${{ inputs.operation }}\n          remote: ${{ inputs.remote }}\n          recipient-name: ${{ inputs.recipient-name }}\n          recipient-key: ${{ inputs.recipient-key }}\n          group: ${{ inputs.group }}\n";

/// The workflow file, with the default remote (empty when absent) and the
/// action's git ref filled in.
pub fn workflow_template(default_remote: Option<&str>, action_ref: &str) -> (r: String)
    ensures
        r@ == workflow_text(
            match default_remote {
                Some(d) => d@,
                None => Seq::empty(),
            },
            action_ref@,
        ),
{
    let mut r = String::from_str(WORKFLOW_HEAD);
    match default_remote {
        Some(d) => push_str(&mut r, d),
        None => {},
    }
    push_str(&mut r, WORKFLOW_MIDDLE);
    push_str(&mut r, action_ref);
    push_str(&mut r, WORKFLOW_TAIL);
    proof {
        if default_remote is None {
            assert(r@ =~= workflow_text(Seq::empty(), action_ref@));
        }
    }
    r
}

/// What `ci` asks of the outside world.
#[derive(Debug)]
pub enum CiAction {
    /// Report whether the workflow file exists.
    Status { path: String },
    /// Write `contents` to `path`; an existing file is kept unless `force`.
    Install { path: String, contents: String, force: bool },
    /// Print the command (dry run) or run `gh workflow run` with the fields.
    Trigger { workflow: String, fields: Vec<String>, dry_run: bool },
}

pub open spec fn install_ok(args: InstallArgs) -> bool {
    args.default_remote matches Some(d) ==> valid_slug(d@)
}

/// Decides what `ci` does: a default or target remote must be a valid slug.
pub fn run(args: CiArgs) -> (r: Result<CiAction, HimitsuError>)
    ensures
        match args.command {
            CiCommand::Status(a) => r matches Ok(CiAction::Status { path }) && path@ == a.path@,
            CiCommand::Install(a) => if install_ok(a) {
                r matches Ok(CiAction::Install { path, contents, force }) && path@ == a.path@
                    && force == a.force && contents@ == workflow_text(
                    match a.default_remote {
                        Some(d) => d@,
                        None => Seq::empty(),
                    },
                    a.action_ref@,
                )
            } else {
                r matches Err(e) && e is InvalidConfig
            },
            CiCommand::Run(a) => if a.target_remote matches Some(t) ==> valid_slug(t@) {
                r matches Ok(CiAction::Trigger { workflow, fields, dry_run }) && workflow@
                    == a.workflow@ && views(fields@) == run_fields(a) && dry_run == a.dry_run
            } else {
                r matches Err(e) && e is InvalidConfig
            },
        },
{
    match args.command {
        CiCommand::Status(a) => Ok(CiAction::Status { path: a.path }),
        CiCommand::Install(a) => {
            if let Some(d) = &a.default_remote {
                if let Err(e) = validate_remote_slug(d.as_str()) {
                    return Err(e);
                }
            }
            let contents = match &a.default_remote {
                Some(d) => workflow_template(Some(d.as_str()), a.action_ref.as_str()),
                None => workflow_template(None, a.action_ref.as_str()),
            };
            Ok(CiAction::Install { path: a.path, contents, force: a.force })
        },
        CiCommand::Run(a) => {
            let fields = trigger_fields(&a)?;
            Ok(CiAction::Trigger { workflow: a.workflow, fields, dry_run: a.dry_run })
        },
    }
}

/// `install` refuses to replace an existing workflow file unless forced.
pub fn install_conflict(path: &str, exists: bool, force: bool) -> (r: Result<(), HimitsuError>)
    ensures
        r is Err <==> (exists && !force),
        r matches Err(e) ==> e is External && e.detail() == path@
            + " already exists; pass --force to overwrite"@,
{
    if exists && !force {
        let mut m = String::from_str(path);
        push_str(&mut m, " already exists; pass --force to overwrite");
        Err(HimitsuError::External(m))
    } else {
        Ok(())
    }
}

} // verus!
