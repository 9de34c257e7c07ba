use himitsu::completions::{
    cache_is_fresh, cached_paths, completions_db_path,
    completion_stores, patch_bash, patch_fish, patch_script, patch_zsh, paths_with_prefix,
    shell_from_name, CompletionShell,
};

const SUBS: [&str; 6] = ["get", "read", "set", "write", "ls", "rekey"];

fn bash_arm(sub: &str) -> String {
    format!(
        "        himitsu__subcmd__{sub})\n            opts=\"-h <PATH>\"\n            case \"${{prev}}\" in\n                *)\n                    COMPREPLY=()\n                    ;;\n            esac\n"
    )
}

#[test]
fn bash_patch_routes_secret_arms_through_the_helper() {
    let script = format!("{}{}{}", bash_arm("get"), bash_arm("doctor"), bash_arm("ls"));
    let text = patch_bash(&script);
    assert!(text.starts_with("# himitsu: dynamic completion helper\n# (injected by `himitsu completions bash`)\n"));
    let marker = "himitsu__subcmd__get)\n";
    let start = text.find(marker).unwrap();
    let rest = &text[start + marker.len()..];
    let end = rest.find("        himitsu__subcmd__").unwrap_or(rest.len());
    let get_block = &rest[..end];
    assert!(get_block.contains("himitsu __complete-paths"), "{get_block}");
    assert!(get_block.contains("return 0"));
    // The doctor arm is untouched.
    let d = text.find("himitsu__subcmd__doctor)\n").unwrap();
    let rest = &text[d..];
    let end = rest[1..].find("        himitsu__subcmd__").unwrap() + 1;
    assert!(rest[..end].contains("COMPREPLY=()\n                    ;;"));
    // The ls arm is the last one, patched up to the end of the script.
    let l = text.find("himitsu__subcmd__ls)\n").unwrap();
    assert!(text[l..].contains("himitsu __complete-paths"));
}

#[test]
fn bash_patch_without_arms_only_adds_the_helper() {
    let text = patch_bash("complete -F _himitsu himitsu\n");
    assert_eq!(
        text,
        "# himitsu: dynamic completion helper\n# (injected by `himitsu completions bash`)\ncomplete -F _himitsu himitsu\n"
    );
}

#[test]
fn zsh_patch_swaps_default_on_path_positionals() {
    let script = "_himitsu() {\n'::path -- Secret path:_default' \\\n':store -- Store:_default' \\\n    ':path -- Path:_default' \\\n}\n";
    let text = patch_zsh(script);
    assert!(text.contains("_himitsu_secrets() {"));
    assert!(text.contains("'::path -- Secret path:_himitsu_secrets' \\\n"));
    assert!(text.contains("    ':path -- Path:_himitsu_secrets' \\\n"));
    assert!(text.contains("':store -- Store:_default' \\\n"));
    let still_default: Vec<&str> = text
        .lines()
        .filter(|l| {
            let t = l.trim_start();
            (t.starts_with("':path -- ") || t.starts_with("'::path -- "))
                && l.trim_end().ends_with(":_default' \\")
        })
        .collect();
    assert!(still_default.is_empty(), "{still_default:?}");
    assert!(text.ends_with("}\n"));
}

#[test]
fn fish_patch_appends_one_directive_per_subcommand() {
    let text = patch_fish("complete -c himitsu -f");
    assert!(text.starts_with("complete -c himitsu -f\n# himitsu: dynamic completion for secret-path positionals\n"));
    for sub in SUBS {
        let expected = format!(
            "complete -c himitsu -n \"__fish_seen_subcommand_from {sub}\" -f -a \"(himitsu __complete-paths 2>/dev/null)\"\n"
        );
        assert!(text.contains(&expected), "fish: missing directive for `{sub}`");
    }
    let text2 = patch_fish("x\n");
    assert!(text2.starts_with("x\n# himitsu"));
}

#[test]
fn other_shells_are_left_alone() {
    assert_eq!(patch_script(CompletionShell::PowerShell, "ps"), "ps");
    assert_eq!(patch_script(CompletionShell::Elvish, "el"), "el");
    assert!(patch_script(CompletionShell::Fish, "f").contains("__complete-paths"));
}

#[test]
fn shell_names() {
    assert_eq!(shell_from_name("bash"), Some(CompletionShell::Bash));
    assert_eq!(shell_from_name("zsh"), Some(CompletionShell::Zsh));
    assert_eq!(shell_from_name("fish"), Some(CompletionShell::Fish));
    assert_eq!(shell_from_name("powershell"), Some(CompletionShell::PowerShell));
    assert_eq!(shell_from_name("elvish"), Some(CompletionShell::Elvish));
    assert_eq!(shell_from_name("tcsh"), None);
}

#[test]
fn completion_stores_list_the_explicit_store_once() {
    let checkouts = vec!["/s/a/b".to_string(), "/s/a/c".to_string(), "/s/a/b/".to_string()];
    let got = completion_stores("/s/a/b", true, &checkouts);
    assert_eq!(got, vec!["/s/a/b".to_string(), "/s/a/c".to_string()]);
    let got = completion_stores("/s/a/b", false, &checkouts);
    assert_eq!(got, vec!["/s/a/b".to_string(), "/s/a/c".to_string()]);
    let got = completion_stores("", true, &[]);
    assert!(got.is_empty());
}

#[test]
fn prefix_filter_keeps_order() {
    let paths = vec!["prod/db".to_string(), "dev/db".to_string(), "prod/api".to_string()];
    assert_eq!(paths_with_prefix(&paths, "prod/"), vec!["prod/db".to_string(), "prod/api".to_string()]);
    assert_eq!(paths_with_prefix(&paths, "").len(), 3);
    assert!(paths_with_prefix(&paths, "zz").is_empty());
}

#[test]
fn cache_freshness_and_lookup() {
    assert_eq!(completions_db_path("/state"), "/state/completions.db");
    assert!(cache_is_fresh(Some(42), 42));
    assert!(!cache_is_fresh(Some(41), 42));
    assert!(!cache_is_fresh(Some(-1), 0));
    assert!(!cache_is_fresh(None, 0));
    let rows: Vec<String> = ["prod/db", "dev/db", "prod", "production/x", "dev/db"]
        .iter()
        .map(|s| s.to_string())
        .collect();
    assert_eq!(cached_paths(&rows, ""), vec!["dev/db", "prod", "prod/db", "production/x"]);
    assert_eq!(cached_paths(&rows, "prod"), vec!["prod", "prod/db"]);
    assert_eq!(cached_paths(&rows, "dev"), vec!["dev/db"]);
    assert!(cached_paths(&rows, "zz").is_empty());
}
