use himitsu::args::{
    AliasArgs, AliasCommand, GetArgs, LsArgs, ReadArgs, RecipientArgs, RecipientCommand,
    RekeyArgs, RemoteArgs, RemoteCommand, SchemaArgs, SchemaCommand, SearchArgs, SetArgs,
    WriteArgs,
};
use himitsu::cli::{mutation_message, Command};

// The commands below are what `himitsu <argv>` parses to, argument
// defaults included.

fn set(path: &str, value: &str) -> Command {
    Command::SetSecret(SetArgs {
        path: path.into(),
        value: value.into(),
        no_push: false,
        totp: None,
        url: None,
        description: None,
        env_key: None,
        expires_at: None,
        tags: vec![],
    })
}

fn ls() -> Command {
    Command::Ls(LsArgs { path: None, recursive: false, depth: 1, limit: 24, offset: 0, tag: vec![] })
}

#[test]
fn mutation_message_set_includes_path() {
    // himitsu set prod/API_KEY value
    let cmd = set("prod/API_KEY", "value");
    assert_eq!(mutation_message(&cmd).as_deref(), Some("set prod/API_KEY"));
}

#[test]
fn mutation_message_write_includes_path() {
    // himitsu write prod/TOKEN v
    let cmd = Command::Write(WriteArgs {
        path: "prod/TOKEN".into(),
        value: Some("v".into()),
        stdin: false,
        no_push: false,
        tags: vec![],
    });
    assert_eq!(mutation_message(&cmd).as_deref(), Some("write prod/TOKEN"));
}

#[test]
fn mutation_message_rekey_with_and_without_path() {
    // himitsu rekey
    let cmd = Command::Rekey(RekeyArgs { path: None, force: false });
    assert_eq!(mutation_message(&cmd).as_deref(), Some("rekey"));

    // himitsu rekey prod
    let cmd = Command::Rekey(RekeyArgs { path: Some("prod".into()), force: false });
    assert_eq!(mutation_message(&cmd).as_deref(), Some("rekey prod"));
}

#[test]
fn mutation_message_recipient_add_and_rm() {
    // himitsu recipient add ops/alice --self
    let cmd = Command::Recipient(RecipientArgs {
        command: RecipientCommand::Add {
            name: "ops/alice".into(),
            self_: true,
            age_key: None,
            description: None,
        },
    });
    assert_eq!(mutation_message(&cmd).as_deref(), Some("recipient add ops/alice"));

    // himitsu recipient rm ops/alice
    let cmd = Command::Recipient(RecipientArgs {
        command: RecipientCommand::Rm { name: "ops/alice".into() },
    });
    assert_eq!(mutation_message(&cmd).as_deref(), Some("recipient rm ops/alice"));
}

#[test]
fn mutation_message_recipient_show_and_ls_are_readonly() {
    // himitsu recipient show ops/alice
    let cmd = Command::Recipient(RecipientArgs {
        command: RecipientCommand::Show { name: "ops/alice".into() },
    });
    assert_eq!(mutation_message(&cmd), None);

    // himitsu recipient ls
    let cmd = Command::Recipient(RecipientArgs { command: RecipientCommand::Ls });
    assert_eq!(mutation_message(&cmd), None);
}

#[test]
fn mutation_message_schema_refresh_only() {
    // himitsu schema refresh
    let cmd = Command::Schema(SchemaArgs { command: SchemaCommand::Refresh });
    assert_eq!(mutation_message(&cmd).as_deref(), Some("schema refresh"));

    // himitsu schema list
    let cmd = Command::Schema(SchemaArgs { command: SchemaCommand::List });
    assert_eq!(mutation_message(&cmd), None);
}

#[test]
fn mutation_message_readonly_commands_return_none() {
    let cmds = vec![
        ("get prod/API_KEY", Command::Get(GetArgs { path: "prod/API_KEY".into() })),
        ("read prod/API_KEY", Command::Read(ReadArgs { path: "prod/API_KEY".into() })),
        ("ls", ls()),
        (
            "search api",
            Command::Search(SearchArgs { query: "api".into(), refresh: false, json: false }),
        ),
        ("version", Command::Version),
    ];
    for (argv, cmd) in cmds {
        assert_eq!(mutation_message(&cmd), None, "expected {argv:?} to be read-only");
    }
}

#[test]
fn mutation_message_outside_store_commands_return_none() {
    // Generate/Export/Codegen write outside the store; Remote/Context
    // mutate global config. None should trigger a store commit.
    // himitsu remote list
    let cmd = Command::Remote(RemoteArgs { command: RemoteCommand::List });
    assert_eq!(mutation_message(&cmd), None);

    // himitsu context clear
    let cmd = Command::Context(AliasArgs { command: Some(AliasCommand::Clear) });
    assert_eq!(mutation_message(&cmd), None);
}
