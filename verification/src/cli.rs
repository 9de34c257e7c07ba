//! The command line as data: the resolved paths of an invocation, the
//! subcommands, and the dispatcher's decisions around them (which commands
//! need a store, which mutate it and with what commit message, when to push).
use vstd::prelude::*;

use crate::args::{
    AliasArgs, CheckArgs, CodegenArgs, CompletePathsArgs, CompletionsArgs, DecryptArgs,
    EncryptArgs, GenerateArgs, GetArgs, GitArgs, ImportArgs, InboxArgs, InitArgs,
    LsArgs, ReadArgs, RecipientArgs, RecipientCommand, RekeyArgs, RemoteArgs, SchemaArgs,
    SchemaCommand, SearchArgs, SetArgs, ShareArgs, SyncArgs, WriteArgs,
};
use crate::error::HimitsuError;
use crate::glob::ExportArgs;
use crate::paths::{join_path, path_join};
use crate::text::push_str;

verus! {

/// Resolved paths for the current invocation.
#[derive(Debug, Clone)]
pub struct Context {
    /// Data directory (keys).
    pub data_dir: String,
    /// State directory (indexes, store checkouts).
    pub state_dir: String,
    /// Resolved store checkout; empty when no store is needed.
    pub store: String,
    /// Override of the recipients directory inside the store.
    pub recipients_path: Option<String>,
}

impl Context {
    /// The age private key file.
    pub fn key_path(&self) -> (r: String)
        ensures
            r@ == path_join(self.data_dir@, "key"@),
    {
        join_path(self.data_dir.as_str(), "key")
    }

    /// The age public key file.
    pub fn pubkey_path(&self) -> (r: String)
        ensures
            r@ == path_join(self.data_dir@, "key.pub"@),
    {
        join_path(self.data_dir.as_str(), "key.pub")
    }

    /// The directory holding managed store checkouts.
    pub fn stores_dir(&self) -> (r: String)
        ensures
            r@ == path_join(self.state_dir@, "stores"@),
    {
        join_path(self.state_dir.as_str(), "stores")
    }
}

/// The parsed command line.
#[derive(Debug)]
pub struct Cli {
    /// Store path given directly.
    pub store: Option<String>,
    /// Store selected by `org/repo` slug.
    pub remote: Option<String>,
    /// Log verbosity.
    pub verbose: u8,
    /// The subcommand; none opens the dashboard.
    pub command: Option<Command>,
}

/// The subcommands.
#[derive(Debug)]
pub enum Command {
    Init(InitArgs),
    SetSecret(SetArgs),
    Get(GetArgs),
    Read(ReadArgs),
    Write(WriteArgs),
    Ls(LsArgs),
    Rekey(RekeyArgs),
    Encrypt(EncryptArgs),
    Decrypt(DecryptArgs),
    Sync(SyncArgs),
    Search(SearchArgs),
    Recipient(RecipientArgs),
    Remote(RemoteArgs),
    Context(AliasArgs),
    Schema(SchemaArgs),
    Generate(GenerateArgs),
    Export(ExportArgs),
    Codegen(CodegenArgs),
    Git(GitArgs),
    Check(CheckArgs),
    Docs,
    Version,
    Completions(CompletionsArgs),
    CompletePaths(CompletePathsArgs),
    Share(ShareArgs),
    Inbox(InboxArgs),
    Import(ImportArgs),
}

/// The label of a mutating recipient subcommand; showing and listing are
/// read-only.
pub open spec fn recipient_label(cmd: RecipientCommand) -> Option<Seq<char>> {
    match cmd {
        RecipientCommand::Add { name, .. } => Some("add "@ + name@),
        RecipientCommand::Rm { name } => Some("rm "@ + name@),
        RecipientCommand::Show { .. } => None,
        RecipientCommand::Ls => None,
    }
}

/// The commit subject of a command that changes the store, or `None` for
/// read-only commands and those that write outside the store.
pub open spec fn mutation_spec(cmd: Command) -> Option<Seq<char>> {
    match cmd {
        Command::SetSecret(a) => Some("set "@ + a.path@),
        Command::Write(a) => Some("write "@ + a.path@),
        Command::Rekey(a) => Some(
            match a.path {
                Some(p) => "rekey "@ + p@,
                None => "rekey"@,
            },
        ),
        Command::Encrypt(_) => Some("rekey (encrypt)"@),
        Command::Import(_) => Some("import"@),
        Command::Recipient(a) => match recipient_label(a.command) {
            Some(l) => Some("recipient "@ + l),
            None => None,
        },
        Command::Schema(a) => match a.command {
            SchemaCommand::Refresh => Some("schema refresh"@),
            _ => None,
        },
        Command::Share(_) => Some("share"@),
        Command::Inbox(_) => Some("inbox"@),
        _ => None,
    }
}

fn prefixed(prefix: &str, s: &str) -> (r: String)
    ensures
        r@ == prefix@ + s@,
{
    let mut r = String::from_str(prefix);
    push_str(&mut r, s);
    r
}

/// The label of a mutating recipient subcommand.
pub fn recipient_subcommand_label(cmd: &RecipientCommand) -> (r: Option<String>)
    ensures
        match r {
            Some(s) => recipient_label(*cmd) == Some(s@),
            None => recipient_label(*cmd) is None,
        },
{
    match cmd {
        RecipientCommand::Add { name, .. } => Some(prefixed("add ", name.as_str())),
        RecipientCommand::Rm { name } => Some(prefixed("rm ", name.as_str())),
        RecipientCommand::Show { .. } => None,
        RecipientCommand::Ls => None,
    }
}

/// The commit subject of a command that changes the store.
pub fn mutation_message(cmd: &Command) -> (r: Option<String>)
    ensures
        match r {
            Some(s) => mutation_spec(*cmd) == Some(s@),
            None => mutation_spec(*cmd) is None,
        },
{
    match cmd {
        Command::SetSecret(a) => Some(prefixed("set ", a.path.as_str())),
        Command::Write(a) => Some(prefixed("write ", a.path.as_str())),
        Command::Rekey(a) => Some(
            match &a.path {
                Some(p) => prefixed("rekey ", p.as_str()),
                None => String::from_str("rekey"),
            },
        ),
        Command::Encrypt(_) => Some(String::from_str("rekey (encrypt)")),
        Command::Import(_) => Some(String::from_str("import")),
        Command::Recipient(a) => match recipient_subcommand_label(&a.command) {
            Some(l) => Some(prefixed("recipient ", l.as_str())),
            None => None,
        },
        Command::Schema(a) => match &a.command {
            SchemaCommand::Refresh => Some(String::from_str("schema refresh")),
            _ => None,
        },
        Command::Share(_) => Some(String::from_str("share")),
        Command::Inbox(_) => Some(String::from_str("inbox")),
        _ => None,
    }
}

/// Commands that operate on a resolved store.
pub open spec fn needs_store_spec(cmd: Command) -> bool {
    match cmd {
        Command::SetSecret(_) | Command::Get(_) | Command::Read(_) | Command::Write(_) | Command::Rekey(
            _,
        ) | Command::Recipient(_) | Command::Schema(_) | Command::Generate(_) | Command::Export(
            _,
        ) | Command::Codegen(_) | Command::Share(_) | Command::Import(_) => true,
        _ => false,
    }
}

/// Whether the command operates on a resolved store.
pub fn needs_store(cmd: &Command) -> (r: bool)
    ensures
        r == needs_store_spec(*cmd),
{
    match cmd {
        Command::SetSecret(_) | Command::Get(_) | Command::Read(_) | Command::Write(_) | Command::Rekey(
            _,
        ) | Command::Recipient(_) | Command::Schema(_) | Command::Generate(_) | Command::Export(
            _,
        ) | Command::Codegen(_) | Command::Share(_) | Command::Import(_) => true,
        _ => false,
    }
}

/// Commands for which a `--store` path that does not exist yet is offered
/// to be created.
pub open spec fn uses_explicit_path_store_spec(cmd: Command) -> bool {
    match cmd {
        Command::SetSecret(_) | Command::Get(_) | Command::Read(_) | Command::Write(_) | Command::Ls(_)
        | Command::Rekey(_) | Command::Encrypt(_) | Command::Decrypt(_) | Command::Recipient(_)
        | Command::Schema(_) | Command::Generate(_) | Command::Export(_) | Command::Codegen(_)
        | Command::Share(_) | Command::Import(_) => true,
        _ => false,
    }
}

/// Whether a missing `--store` path is offered to be created.
pub fn command_uses_explicit_path_store(cmd: &Command) -> (r: bool)
    ensures
        r == uses_explicit_path_store_spec(*cmd),
{
    match cmd {
        Command::SetSecret(_) | Command::Get(_) | Command::Read(_) | Command::Write(_) | Command::Ls(_)
        | Command::Rekey(_) | Command::Encrypt(_) | Command::Decrypt(_) | Command::Recipient(_)
        | Command::Schema(_) | Command::Generate(_) | Command::Export(_) | Command::Codegen(_)
        | Command::Share(_) | Command::Import(_) => true,
        _ => false,
    }
}

/// Commands that run before any key exists: they never trigger the
/// first-use initialization.
pub open spec fn runs_uninitialized(cmd: Command) -> bool {
    match cmd {
        Command::Init(_) | Command::Git(_) | Command::Version | Command::Docs
        | Command::Completions(_) | Command::CompletePaths(_) => true,
        _ => false,
    }
}

/// Whether himitsu initializes itself before running `cmd`: on first use,
/// when no private key exists yet, for every command that needs one.
pub fn needs_first_run_init(cmd: &Command, key_exists: bool) -> (r: bool)
    ensures
        r == (!key_exists && !runs_uninitialized(*cmd)),
{
    let exempt = match cmd {
        Command::Init(_) | Command::Git(_) | Command::Version | Command::Docs
        | Command::Completions(_) | Command::CompletePaths(_) => true,
        _ => false,
    };
    !exempt && !key_exists
}

/// Whether the command asked not to push after committing.
pub open spec fn no_push_spec(cmd: Command) -> bool {
    match cmd {
        Command::SetSecret(a) => a.no_push,
        Command::Write(a) => a.no_push,
        Command::Import(a) => a.no_push,
        _ => false,
    }
}

/// Whether the command asked not to push after committing.
pub fn no_push(cmd: &Command) -> (r: bool)
    ensures
        r == no_push_spec(*cmd),
{
    match cmd {
        Command::SetSecret(a) => a.no_push,
        Command::Write(a) => a.no_push,
        Command::Import(a) => a.no_push,
        _ => false,
    }
}

/// The commit subject recorded after a mutating command: the outcome is
/// committed either way, a failure marked as such with its error.
pub fn commit_message(mutation: &str, outcome: &Result<(), HimitsuError>) -> (r: String)
    ensures
        match outcome {
            Ok(_) => r@ == "himitsu: "@ + mutation@,
            Err(e) => r@ == "himitsu: FAILED: "@ + mutation@ + ": "@ + e.heading_text()
                + e.detail(),
        },
{
    match outcome {
        Ok(_) => prefixed("himitsu: ", mutation),
        Err(e) => {
            let mut m = prefixed("himitsu: FAILED: ", mutation);
            push_str(&mut m, ": ");
            let text = e.to_string();
            push_str(&mut m, text.as_str());
            m
        },
    }
}

/// Pushing follows only a successful command that produced a commit, and
/// only when the user did not opt out.
pub fn should_push(succeeded: bool, committed: bool, no_push: bool) -> (r: bool)
    ensures
        r == (succeeded && committed && !no_push),
{
    succeeded && committed && !no_push
}

} // verus!
