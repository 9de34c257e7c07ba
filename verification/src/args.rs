//! The arguments of every subcommand, as plain values. The command line
//! parser fills them in; the library reads them.
use vstd::prelude::*;

verus! {

/// `alias`: show, set or clear the active store context.
#[derive(Debug)]
pub struct AliasArgs {
    pub command: Option<AliasCommand>,
}

#[derive(Debug)]
pub enum AliasCommand {
    /// Set the active store context (`org/repo` or `provider:org/repo`).
    Remote { reference: String },
    /// Clear the active context.
    Clear,
}

/// `check`: verify store checkouts are up to date with their remotes.
#[derive(Debug)]
pub struct CheckArgs {
    pub store: Option<String>,
    pub offline: bool,
}

/// `ci`: manage the self-serve rekey workflow.
#[derive(Debug)]
pub struct CiArgs {
    pub command: CiCommand,
}

#[derive(Debug)]
pub enum CiCommand {
    Status(WorkflowPathArgs),
    Install(InstallArgs),
    Run(RunArgs),
}

#[derive(Debug)]
pub struct WorkflowPathArgs {
    /// Workflow file path (default `.github/workflows/himitsu.yml`).
    pub path: String,
}

#[derive(Debug)]
pub struct InstallArgs {
    pub default_remote: Option<String>,
    /// Git ref of the action used by the generated workflow (default `main`).
    pub action_ref: String,
    pub path: String,
    pub force: bool,
}

#[derive(Debug)]
pub struct RunArgs {
    pub operation: crate::ci::CiOperation,
    pub target_remote: Option<String>,
    pub recipient_name: Option<String>,
    pub recipient_key: Option<String>,
    /// Recipient group (default `team`).
    pub group: String,
    /// Workflow file name (default `himitsu.yml`).
    pub workflow: String,
    pub dry_run: bool,
}

/// `codegen`: generate typed config code from secrets.
#[derive(Debug)]
pub struct CodegenArgs {
    pub env_positional: Option<String>,
    pub lang: Option<String>,
    pub output: Option<String>,
    pub env: Option<String>,
    pub stdout: bool,
    pub merge_common: bool,
}

/// `completions`: print a completion script for a shell, named as the
/// shell calls itself (`bash`, `zsh`, `fish`, `elvish`, `powershell`).
#[derive(Debug)]
pub struct CompletionsArgs {
    pub shell: Option<String>,
    pub refresh_cache: bool,
}

/// `__complete-paths`: print secret paths starting with a prefix.
#[derive(Debug)]
pub struct CompletePathsArgs {
    pub prefix: String,
}

/// `decrypt`: not supported.
#[derive(Debug)]
pub struct DecryptArgs {
    pub env: Option<String>,
}

/// `doctor`: report identity and recipient problems.
#[derive(Debug)]
pub struct DoctorArgs {}

/// `encrypt`: deprecated spelling of `rekey`.
#[derive(Debug)]
pub struct EncryptArgs {
    pub env: Option<String>,
}

/// `generate`: write SOPS-encrypted output files.
#[derive(Debug)]
pub struct GenerateArgs {
    pub target: Option<String>,
    pub output: Option<String>,
    pub env: Option<String>,
    pub stdout: bool,
}

/// `get`: print a secret.
#[derive(Debug)]
pub struct GetArgs {
    pub path: String,
}

/// `git`: run git inside a store checkout.
#[derive(Debug)]
pub struct GitArgs {
    pub args: Vec<String>,
}

/// `group`: manage recipient groups.
#[derive(Debug)]
pub struct GroupArgs {
    pub command: GroupCommand,
}

#[derive(Debug)]
pub enum GroupCommand {
    Add { name: String },
    Rm { name: String },
    Ls,
    AddRecipient { group: String, recipient: String },
    RmRecipient { group: String, recipient: String },
}

/// `import`: import a secret from an external store.
#[derive(Debug)]
pub struct ImportArgs {
    pub path: String,
    pub op: Option<String>,
    pub sops: Option<String>,
    pub overwrite: bool,
    pub no_push: bool,
}

/// `inbox`: manage incoming envelopes (not implemented).
#[derive(Debug)]
pub struct InboxArgs {
    pub command: InboxCommand,
}

#[derive(Debug)]
pub enum InboxCommand {
    List { transport: Option<String> },
    Accept { id: String },
    Reject { id: String },
}

/// `init`: create keys, config and optionally a store.
#[derive(Debug)]
pub struct InitArgs {
    pub json: bool,
    pub name: Option<String>,
    pub url: Option<String>,
    pub home: Option<String>,
    pub key_provider: Option<String>,
    pub no_tui: bool,
    pub project: Option<String>,
}

/// `join`: add oneself as a recipient of the store.
#[derive(Debug)]
pub struct JoinArgs {
    pub name: Option<String>,
    pub no_push: bool,
}

/// `keys`: print age keys.
#[derive(Debug)]
pub struct KeysArgs {
    pub command: Option<KeysCommand>,
}

#[derive(Debug)]
pub enum KeysCommand {
    Public { ref_: Option<String> },
    Private { ref_: Option<String> },
}

/// `ls`: list secrets.
#[derive(Debug)]
pub struct LsArgs {
    pub path: Option<String>,
    pub recursive: bool,
    /// Depth shown (default 1).
    pub depth: usize,
    /// Items per page (default 24).
    pub limit: usize,
    pub offset: usize,
    pub tag: Vec<String>,
}

/// `migrate`: convert legacy configuration.
#[derive(Debug)]
pub struct MigrateArgs {
    pub cmd: MigrateCommand,
}

#[derive(Debug)]
pub enum MigrateCommand {
    Envs { dry_run: bool },
}

/// `read`: print a secret's plaintext only.
#[derive(Debug)]
pub struct ReadArgs {
    pub path: String,
}

/// `recipient`: manage recipients.
#[derive(Debug)]
pub struct RecipientArgs {
    pub command: RecipientCommand,
}

#[derive(Debug)]
pub enum RecipientCommand {
    Add { name: String, self_: bool, age_key: Option<String>, description: Option<String> },
    Rm { name: String },
    Show { name: String },
    Ls,
}

/// `rekey`: re-encrypt secrets for the current recipients.
#[derive(Debug)]
pub struct RekeyArgs {
    pub path: Option<String>,
    pub force: bool,
}

/// `remote`: manage remote stores.
#[derive(Debug)]
pub struct RemoteArgs {
    pub command: RemoteCommand,
}

#[derive(Debug)]
pub enum RemoteCommand {
    Add { slug: String, url: Option<String> },
    Default { slug: Option<String> },
    List,
    Remove { slug: String },
}

/// `schema`: generate and manage JSON schemas.
#[derive(Debug)]
pub struct SchemaArgs {
    pub command: SchemaCommand,
}

#[derive(Debug)]
pub enum SchemaCommand {
    Dump { name: SchemaName, pretty: bool },
    DumpAll { pretty: bool },
    Refresh,
    List,
}

/// The schemas that can be generated.
#[derive(Debug, Clone, Copy, PartialEq, Eq)]
pub enum SchemaName {
    Config,
    SecretEnvelope,
    ShareEnvelope,
}

/// `search`: search secrets across known stores.
#[derive(Debug)]
pub struct SearchArgs {
    pub query: String,
    pub refresh: bool,
    pub json: bool,
}

/// `set`: store a secret.
#[derive(Debug)]
pub struct SetArgs {
    pub path: String,
    pub value: String,
    pub no_push: bool,
    pub totp: Option<String>,
    pub url: Option<String>,
    pub description: Option<String>,
    pub env_key: Option<String>,
    pub expires_at: Option<String>,
    pub tags: Vec<String>,
}

/// `share`: share secrets (not implemented).
#[derive(Debug)]
pub struct ShareArgs {
    pub command: ShareCommand,
}

#[derive(Debug)]
pub enum ShareCommand {
    Send { to: String, path: String, value: Option<String> },
}

/// `sync`: pull stores and rekey drifted secrets.
#[derive(Debug)]
pub struct SyncArgs {
    pub store: Option<String>,
    pub no_rekey: bool,
}

/// `tag`: manage a secret's tags.
#[derive(Debug)]
pub struct TagArgs {
    pub path: String,
    pub action: TagAction,
}

#[derive(Debug)]
pub enum TagAction {
    Add { tags: Vec<String> },
    Rm { tags: Vec<String> },
    List,
}

/// `write`: store a secret's plaintext from an argument or stdin.
#[derive(Debug)]
pub struct WriteArgs {
    pub path: String,
    pub value: Option<String>,
    pub stdin: bool,
    pub no_push: bool,
    pub tags: Vec<String>,
}

/// `exec`: run a command with secrets in its environment.
#[derive(Debug)]
pub struct ExecArgs {
    /// Tag selector, env label, `prefix/*`, `prefix/` or a secret path.
    pub reference: String,
    /// Tags every injected secret must carry.
    pub tags: Vec<String>,
    /// Start the child from an empty environment.
    pub clean: bool,
    /// The command and its arguments.
    pub command: Vec<String>,
}

} // verus!
