//! `completions`: the shell scripts clap_complete generates, patched so
//! that the `<PATH>` positional of the secret subcommands completes secret
//! paths (through `himitsu __complete-paths`) rather than files.
use vstd::prelude::*;

use crate::env_dsl::{is_white, is_white_char, trim_end, trim_start};
use crate::paths::path_within;
use crate::search::same_path;
use crate::strmap::{insert_all, keys_of, StrMap};
use crate::text::{
    chars_of, has_prefix, has_suffix, push_str, replace, replace_chars, slice_of, split,
    split_chars, starts_with, starts_with_at, ends_with, string_of, vec_views, views, copy_string,
};

verus! {

/// The shells completion scripts can be generated for.
#[derive(Debug, Clone, Copy, PartialEq, Eq, Structural)]
pub enum CompletionShell {
    Bash,
    Elvish,
    Fish,
    PowerShell,
    Zsh,
}

/// The shell a name on the command line stands for.
pub open spec fn shell_spec(name: Seq<char>) -> Option<CompletionShell> {
    if name == "bash"@ {
        Some(CompletionShell::Bash)
    } else if name == "elvish"@ {
        Some(CompletionShell::Elvish)
    } else if name == "fish"@ {
        Some(CompletionShell::Fish)
    } else if name == "powershell"@ {
        Some(CompletionShell::PowerShell)
    } else if name == "zsh"@ {
        Some(CompletionShell::Zsh)
    } else {
        None
    }
}

/// The shell named `name` (`bash`, `elvish`, `fish`, `powershell`, `zsh`).
pub fn shell_from_name(name: &str) -> (r: Option<CompletionShell>)
    ensures
        r == shell_spec(name@),
{
    proof {
        reveal_strlit("bash");
        reveal_strlit("elvish");
        reveal_strlit("fish");
        reveal_strlit("powershell");
        reveal_strlit("zsh");
    }
    let cs = chars_of(name);
    if crate::text::slice_eq(&cs, &chars_of("bash")) {
        Some(CompletionShell::Bash)
    } else if crate::text::slice_eq(&cs, &chars_of("elvish")) {
        Some(CompletionShell::Elvish)
    } else if crate::text::slice_eq(&cs, &chars_of("fish")) {
        Some(CompletionShell::Fish)
    } else if crate::text::slice_eq(&cs, &chars_of("powershell")) {
        Some(CompletionShell::PowerShell)
    } else if crate::text::slice_eq(&cs, &chars_of("zsh")) {
        Some(CompletionShell::Zsh)
    } else {
        None
    }
}

/// The subcommands whose `<PATH>` positional names a secret.
pub open spec fn secret_path_subcommands() -> Seq<Seq<char>> {
    seq!["get"@, "read"@, "set"@, "write"@, "ls"@, "rekey"@]
}

fn subcommands() -> (r: Vec<&'static str>)
    ensures
        r@.map_values(|s: &str| s@) == secret_path_subcommands(),
{
    let v = vec!["get", "read", "set", "write", "ls", "rekey"];
    assert(v@.map_values(|s: &str| s@) =~= secret_path_subcommands());
    v
}

/// The first place at or after `from` where `pat` occurs in `s`.
pub open spec fn first_at(s: Seq<char>, pat: Seq<char>, from: int) -> Option<int>
    decreases s.len() - from,
{
    if from < 0 || from + pat.len() > s.len() || pat.len() == 0 {
        None
    } else if has_prefix(s.skip(from), pat) {
        Some(from)
    } else {
        first_at(s, pat, from + 1)
    }
}

/// A place `first_at` finds lies at or after `from`, with `pat` there.
proof fn lemma_first_at(s: Seq<char>, pat: Seq<char>, from: int)
    ensures
        first_at(s, pat, from) matches Some(i) ==> from <= i && i + pat.len() <= s.len()
            && has_prefix(s.skip(i), pat),
    decreases s.len() - from,
{
    if !(from < 0 || from + pat.len() > s.len() || pat.len() == 0) && !has_prefix(s.skip(from), pat) {
        lemma_first_at(s, pat, from + 1);
    }
}

/// Finds the first occurrence of `pat` in `s` at or after `from`.
fn find_from(s: &[char], pat: &[char], from: usize) -> (r: Option<usize>)
    ensures
        first_at(s@, pat@, from as int) matches Some(i) ==> from <= i && i + pat.len() <= s.len()
            && r == Some(i as usize),
        first_at(s@, pat@, from as int) is None ==> r is None,
{
    proof {
        lemma_first_at(s@, pat@, from as int);
    }
    if pat.len() == 0 {
        return None;
    }
    let mut i = from;
    while i <= s.len() && pat.len() <= s.len() - i
        invariant
            pat.len() > 0,
            from <= i,
            first_at(s@, pat@, from as int) == first_at(s@, pat@, i as int),
        decreases s.len() - i,
    {
        if starts_with_at(s, i, pat) {
            return Some(i);
        }
        i += 1;
    }
    None
}

// ── bash ─────────────────────────────────────────────────────────────────

/// The comment put ahead of a patched bash script.
pub open spec fn bash_helper() -> Seq<char> {
    "# himitsu: dynamic completion helper\n# (injected by `himitsu completions bash`)"@
}

/// The line that opens a subcommand's arm in clap's bash script.
pub open spec fn bash_marker(sub: Seq<char>) -> Seq<char> {
    "himitsu__subcmd__"@ + sub + ")\n"@
}

/// What opens the next arm.
pub open spec fn bash_next_arm() -> Seq<char> {
    "        himitsu__subcmd__"@
}

/// The file-completing fallback of an arm.
pub open spec fn bash_needle() -> Seq<char> {
    "COMPREPLY=()\n                    ;;"@
}

/// The secret-path completion that replaces it.
pub open spec fn bash_replacement() -> Seq<char> {
    "COMPREPLY=( $(compgen -W \"$(himitsu __complete-paths \"${cur}\" 2>/dev/null)\" -- \"${cur}\") )\n                    return 0\n                    ;;"@
}

/// The bash script with the arm of `sub` patched: in that arm (from its
/// marker to the next arm, or the end), the first fallback is replaced.
pub open spec fn bash_step(s: Seq<char>, sub: Seq<char>) -> Seq<char> {
    match first_at(s, bash_marker(sub), 0) {
        None => s,
        Some(start) => {
            let after = start + bash_marker(sub).len();
            let end = match first_at(s, bash_next_arm(), after) {
                Some(e) => e,
                None => s.len() as int,
            };
            match first_at(s.take(end), bash_needle(), start) {
                Some(a) => s.take(a) + bash_replacement() + s.skip(a + bash_needle().len()),
                None => s,
            }
        },
    }
}

/// The bash script with the arms of `subs` patched in turn.
pub open spec fn bash_steps(s: Seq<char>, subs: Seq<Seq<char>>) -> Seq<char>
    decreases subs.len(),
{
    if subs.len() == 0 {
        s
    } else {
        bash_step(bash_steps(s, subs.drop_last()), subs.last())
    }
}

/// The patched bash script: the helper comment, the script, and each secret
/// subcommand's arm completing secret paths.
pub open spec fn bash_spec(script: Seq<char>) -> Seq<char> {
    bash_steps(bash_helper() + "\n"@ + script, secret_path_subcommands())
}

fn bash_patch_one(s: Vec<char>, sub: &str) -> (r: Vec<char>)
    ensures
        r@ == bash_step(s@, sub@),
{
    let mut marker = String::from_str("himitsu__subcmd__");
    push_str(&mut marker, sub);
    push_str(&mut marker, ")\n");
    let marker = chars_of(marker.as_str());
    proof {
        reveal_strlit("himitsu__subcmd__");
        reveal_strlit(")\n");
    }
    assert(marker@ == bash_marker(sub@));
    let start = match find_from(&s, &marker, 0) {
        Some(b) => b,
        None => return s,
    };
    let after = start + marker.len();
    let next = chars_of("        himitsu__subcmd__");
    let end = match find_from(&s, &next, after) {
        Some(e) => e,
        None => s.len(),
    };
    let needle = chars_of("COMPREPLY=()\n                    ;;");
    let block = slice_of(&s, 0, end);
    assert(block@ == s@.take(end as int));
    match find_from(&block, &needle, start) {
        Some(a) => {
            let mut out = slice_of(&s, 0, a);
            let rep = chars_of(
                "COMPREPLY=( $(compgen -W \"$(himitsu __complete-paths \"${cur}\" 2>/dev/null)\" -- \"${cur}\") )\n                    return 0\n                    ;;",
            );
            let tail = slice_of(&s, a + needle.len(), s.len());
            crate::text::extend(&mut out, &rep);
            crate::text::extend(&mut out, &tail);
            assert(rep@ == bash_replacement());
            assert(needle@ == bash_needle());
            assert(out@ =~= s@.take(a as int) + bash_replacement() + s@.skip(a + bash_needle().len()));
            out
        },
        None => s,
    }
}

/// Patches clap's bash script: the helper comment first, then the arm of
/// every secret subcommand made to complete secret paths when the word is
/// not a flag.
pub fn patch_bash(script: &str) -> (r: String)
    ensures
        r@ == bash_spec(script@),
{
    let mut head = String::from_str("# himitsu: dynamic completion helper\n# (injected by `himitsu completions bash`)");
    push_str(&mut head, "\n");
    push_str(&mut head, script);
    let mut s = chars_of(head.as_str());
    let subs = subcommands();
    let ghost sv = secret_path_subcommands();
    let ghost start = s@;
    let mut i: usize = 0;
    assert(sv.take(0) =~= Seq::<Seq<char>>::empty());
    while i < subs.len()
        invariant
            i <= subs@.len(),
            subs@.map_values(|x: &str| x@) == sv,
            s@ == bash_steps(start, sv.take(i as int)),
        decreases subs.len() - i,
    {
        assert(sv[i as int] == subs@[i as int]@);
        assert(sv.take(i + 1).drop_last() == sv.take(i as int));
        assert(sv.take(i + 1).last() == sv[i as int]);
        s = bash_patch_one(s, subs[i]);
        i += 1;
    }
    assert(sv.take(subs@.len() as int) == sv);
    string_of(&s)
}

// ── zsh ──────────────────────────────────────────────────────────────────

/// The completion function put ahead of a patched zsh script.
pub open spec fn zsh_helper() -> Seq<char> {
    "# himitsu: dynamic completion helper\n# (injected by `himitsu completions zsh`)\n_himitsu_secrets() {\n    local -a secrets\n    secrets=(${(f)\"$(himitsu __complete-paths \"${words[CURRENT]}\" 2>/dev/null)\"})\n    if (( ${#secrets} )); then\n        compadd -a secrets\n    else\n        _default\n    fi\n}"@
}

/// A `path` positional line of clap's zsh script completed with
/// `_default`, which gets the secret-path function instead.
pub open spec fn zsh_path_line(line: Seq<char>) -> bool {
    let t = trim_start(line);
    (has_prefix(t, "':path -- "@) || has_prefix(t, "'::path -- "@)) && has_suffix(
        trim_end(line),
        ":_default' \\"@,
    )
}

/// One line (with its line break, if any) of the patched zsh script.
pub open spec fn zsh_line(line: Seq<char>) -> Seq<char> {
    if zsh_path_line(line) {
        replace(line, ":_default'"@, ":_himitsu_secrets'"@)
    } else {
        line
    }
}

/// The patched zsh script: the helper, then the script with every `path`
/// positional completed by `_himitsu_secrets`.
pub open spec fn zsh_spec(script: Seq<char>) -> Seq<char> {
    let parts = split(zsh_helper() + "\n"@ + script, '\n');
    zsh_pieces(parts, parts.len() as int)
}

/// The first `k` pieces of `parts`, patched, each but the very last piece
/// of `parts` ending in its line break.
pub open spec fn zsh_pieces(parts: Seq<Seq<char>>, k: int) -> Seq<char>
    decreases k,
{
    if k <= 0 {
        Seq::empty()
    } else {
        zsh_pieces(parts, k - 1) + zsh_line(
            if k < parts.len() {
                parts[k - 1] + "\n"@
            } else {
                parts[k - 1]
            },
        )
    }
}

fn trim_start_of(s: &[char]) -> (r: Vec<char>)
    ensures
        r@ == trim_start(s@),
{
    let mut a: usize = 0;
    assert(s@.skip(0) == s@);
    while a < s.len() && is_white_char(s[a])
        invariant
            a <= s.len(),
            trim_start(s@) == trim_start(s@.skip(a as int)),
        decreases s.len() - a,
    {
        assert(s@.skip(a as int).drop_first() == s@.skip(a + 1));
        a += 1;
    }
    slice_of(s, a, s.len())
}

fn trim_end_of(s: &[char]) -> (r: Vec<char>)
    ensures
        r@ == trim_end(s@),
{
    let mut b: usize = s.len();
    assert(s@.take(b as int) == s@);
    while b > 0 && is_white_char(s[b - 1])
        invariant
            b <= s.len(),
            trim_end(s@) == trim_end(s@.take(b as int)),
        decreases b,
    {
        assert(s@.take(b as int).drop_last() == s@.take(b - 1));
        b -= 1;
    }
    slice_of(s, 0, b)
}

fn patch_zsh_line(line: Vec<char>) -> (r: Vec<char>)
    ensures
        r@ == zsh_line(line@),
{
    let t = trim_start_of(&line);
    let e = trim_end_of(&line);
    let p1 = chars_of("':path -- ");
    let p2 = chars_of("'::path -- ");
    let suf = chars_of(":_default' \\");
    if (starts_with(&t, &p1) || starts_with(&t, &p2)) && ends_with(&e, &suf) {
        let from = chars_of(":_default'");
        let to = chars_of(":_himitsu_secrets'");
        proof {
            reveal_strlit(":_default'");
        }
        replace_chars(&line, &from, &to)
    } else {
        line
    }
}

/// Patches clap's zsh script: the `_himitsu_secrets` function first, then
/// every `path` positional that completed with `_default` switched to it.
pub fn patch_zsh(script: &str) -> (r: String)
    ensures
        r@ == zsh_spec(script@),
{
    let mut head = String::from_str(
        "# himitsu: dynamic completion helper\n# (injected by `himitsu completions zsh`)\n_himitsu_secrets() {\n    local -a secrets\n    secrets=(${(f)\"$(himitsu __complete-paths \"${words[CURRENT]}\" 2>/dev/null)\"})\n    if (( ${#secrets} )); then\n        compadd -a secrets\n    else\n        _default\n    fi\n}",
    );
    push_str(&mut head, "\n");
    push_str(&mut head, script);
    let parts = split_chars(&chars_of(head.as_str()), '\n');
    let ghost pv = vec_views(parts@);
    let mut out: Vec<char> = Vec::new();
    let mut k: usize = 0;
    while k < parts.len()
        invariant
            k <= parts@.len(),
            pv == vec_views(parts@),
            out@ == zsh_pieces(pv, k as int),
        decreases parts.len() - k,
    {
        assert(pv[k as int] == parts@[k as int]@);
        let mut piece = crate::text::slice_of(&parts[k], 0, parts[k].len());
        assert(piece@ =~= pv[k as int]);
        if k + 1 < parts.len() {
            piece.push('\n');
            proof {
                reveal_strlit("\n");
            }
            assert(piece@ =~= pv[k as int] + "\n"@);
        }
        let ghost pc = piece@;
        let patched = patch_zsh_line(piece);
        crate::text::extend(&mut out, &patched);
        assert(out@ == zsh_pieces(pv, k as int) + zsh_line(pc));
        k += 1;
    }
    string_of(&out)
}

// ── fish ─────────────────────────────────────────────────────────────────

/// The directive that completes `sub`'s positional with secret paths.
pub open spec fn fish_directive(sub: Seq<char>) -> Seq<char> {
    "complete -c himitsu -n \"__fish_seen_subcommand_from "@ + sub
        + "\" -f -a \"(himitsu __complete-paths 2>/dev/null)\"\n"@
}

/// The directives of `subs`, in turn.
pub open spec fn fish_directives(subs: Seq<Seq<char>>) -> Seq<char>
    decreases subs.len(),
{
    if subs.len() == 0 {
        Seq::empty()
    } else {
        fish_directives(subs.drop_last()) + fish_directive(subs.last())
    }
}

/// The patched fish script: the script ending in a line break, a comment,
/// and one directive per secret subcommand.
pub open spec fn fish_spec(script: Seq<char>) -> Seq<char> {
    script + (if has_suffix(script, "\n"@) {
        Seq::empty()
    } else {
        "\n"@
    }) + "# himitsu: dynamic completion for secret-path positionals\n"@ + fish_directives(
        secret_path_subcommands(),
    )
}

/// Patches clap's fish script: appends a directive per secret subcommand
/// completing its positional with secret paths.
pub fn patch_fish(script: &str) -> (r: String)
    ensures
        r@ == fish_spec(script@),
{
    let mut out = String::from_str(script);
    proof {
        reveal_strlit("\n");
    }
    if !ends_with(&chars_of(script), &chars_of("\n")) {
        push_str(&mut out, "\n");
    }
    push_str(&mut out, "# himitsu: dynamic completion for secret-path positionals\n");
    let ghost head = out@;
    let subs = subcommands();
    let ghost sv = secret_path_subcommands();
    let mut i: usize = 0;
    assert(head + fish_directives(sv.take(0)) =~= head);
    while i < subs.len()
        invariant
            i <= subs@.len(),
            subs@.map_values(|x: &str| x@) == sv,
            out@ == head + fish_directives(sv.take(i as int)),
        decreases subs.len() - i,
    {
        assert(sv[i as int] == subs@[i as int]@);
        assert(sv.take(i + 1).drop_last() == sv.take(i as int));
        assert(sv.take(i + 1).last() == sv[i as int]);
        push_str(&mut out, "complete -c himitsu -n \"__fish_seen_subcommand_from ");
        push_str(&mut out, subs[i]);
        push_str(&mut out, "\" -f -a \"(himitsu __complete-paths 2>/dev/null)\"\n");
        i += 1;
    }
    assert(sv.take(subs@.len() as int) == sv);
    out
}

/// The completion script for `shell`: bash, zsh and fish patched, the
/// others as generated.
pub open spec fn script_spec(shell: CompletionShell, script: Seq<char>) -> Seq<char> {
    match shell {
        CompletionShell::Bash => bash_spec(script),
        CompletionShell::Zsh => zsh_spec(script),
        CompletionShell::Fish => fish_spec(script),
        _ => script,
    }
}

/// Patches a generated completion script for its shell.
pub fn patch_script(shell: CompletionShell, script: &str) -> (r: String)
    ensures
        r@ == script_spec(shell, script@),
{
    match shell {
        CompletionShell::Bash => patch_bash(script),
        CompletionShell::Zsh => patch_zsh(script),
        CompletionShell::Fish => patch_fish(script),
        _ => String::from_str(script),
    }
}

// ── Candidates ───────────────────────────────────────────────────────────

/// `paths` without repeats (by `same_path`), first occurrences kept in order,
/// after what `seen` already holds.
pub open spec fn unseen(seen: Seq<Seq<char>>, paths: Seq<Seq<char>>) -> Seq<Seq<char>>
    decreases paths.len(),
{
    if paths.len() == 0 {
        seen
    } else {
        let before = unseen(seen, paths.drop_last());
        if exists|j: int| 0 <= j < before.len() && same_path(#[trigger] before[j], paths.last()) {
            before
        } else {
            before.push(paths.last())
        }
    }
}

/// The stores completion reads: the explicit store when it is set and
/// exists, then each checkout under the stores directory not yet listed.
pub open spec fn completion_stores_spec(
    explicit: Seq<char>,
    explicit_exists: bool,
    checkouts: Seq<Seq<char>>,
) -> Seq<Seq<char>> {
    unseen(
        if explicit.len() > 0 && explicit_exists {
            seq![explicit]
        } else {
            Seq::empty()
        },
        checkouts,
    )
}

/// Whether `p` names the same place as an entry of `list`.
fn listed(list: &Vec<String>, p: &str) -> (r: bool)
    ensures
        r == exists|j: int| 0 <= j < list@.len() && same_path(#[trigger] views(list@)[j], p@),
{
    let ghost lv = views(list@);
    let mut i: usize = 0;
    while i < list.len()
        invariant
            i <= list@.len(),
            lv == views(list@),
            forall|j: int| 0 <= j < i ==> !same_path(#[trigger] lv[j], p@),
        decreases list.len() - i,
    {
        assert(lv[i as int] == list@[i as int]@);
        if path_within(list[i].as_str(), p) && path_within(p, list[i].as_str()) {
            return true;
        }
        i += 1;
    }
    false
}

/// The store checkouts completion reads candidates from: the explicit store
/// first when it is set and exists, then each checkout under the stores
/// directory that is not the same place as one already listed.
pub fn completion_stores(explicit: &str, explicit_exists: bool, checkouts: &[String]) -> (r: Vec<String>)
    ensures
        views(r@) == completion_stores_spec(explicit@, explicit_exists, views(checkouts@)),
{
    let ghost cv = views(checkouts@);
    let mut out: Vec<String> = Vec::new();
    if chars_of(explicit).len() > 0 && explicit_exists {
        out.push(String::from_str(explicit));
    }
    let ghost seen = views(out@);
    assert(seen =~= (if explicit@.len() > 0 && explicit_exists {
        seq![explicit@]
    } else {
        Seq::empty()
    }));
    let mut i: usize = 0;
    assert(cv.take(0) =~= Seq::<Seq<char>>::empty());
    while i < checkouts.len()
        invariant
            i <= checkouts@.len(),
            cv == views(checkouts@),
            views(out@) == unseen(seen, cv.take(i as int)),
        decreases checkouts.len() - i,
    {
        assert(cv[i as int] == checkouts@[i as int]@);
        assert(cv.take(i + 1).drop_last() == cv.take(i as int));
        assert(cv.take(i + 1).last() == cv[i as int]);
        if !listed(&out, checkouts[i].as_str()) {
            let ghost before = out@;
            out.push(copy_string(&checkouts[i]));
            assert(views(out@) =~= views(before).push(cv[i as int]));
        }
        i += 1;
    }
    assert(cv.take(checkouts@.len() as int) == cv);
    out
}

/// The paths that start with `prefix` (every path for an empty prefix), in
/// order.
pub open spec fn with_prefix(paths: Seq<Seq<char>>, prefix: Seq<char>) -> Seq<Seq<char>> {
    paths.filter(|p: Seq<char>| has_prefix(p, prefix))
}

/// The secret paths offered for a prefix.
pub fn paths_with_prefix(paths: &[String], prefix: &str) -> (r: Vec<String>)
    ensures
        views(r@) == with_prefix(views(paths@), prefix@),
{
    let ghost pv = views(paths@);
    let pre = chars_of(prefix);
    let mut out: Vec<String> = Vec::new();
    let mut i: usize = 0;
    assert(pv.take(0).filter(|p: Seq<char>| has_prefix(p, prefix@)) =~= Seq::<Seq<char>>::empty());
    while i < paths.len()
        invariant
            i <= paths@.len(),
            pv == views(paths@),
            pre@ == prefix@,
            views(out@) == pv.take(i as int).filter(|p: Seq<char>| has_prefix(p, prefix@)),
        decreases paths.len() - i,
    {
        assert(pv[i as int] == paths@[i as int]@);
        assert(pv.take(i + 1).drop_last() =~= pv.take(i as int));
        reveal(Seq::filter);
        let ghost before = out@;
        if starts_with(&chars_of(paths[i].as_str()), &pre) {
            out.push(copy_string(&paths[i]));
            assert(views(out@) =~= views(before).push(pv[i as int]));
        }
        i += 1;
    }
    assert(pv.take(paths@.len() as int) == pv);
    out
}

// ── The completions cache ────────────────────────────────────────────────

/// The cache database under the state directory.
pub fn completions_db_path(state_dir: &str) -> (r: String)
    ensures
        r@ == crate::paths::path_join(state_dir@, "completions.db"@),
{
    crate::paths::join_path(state_dir, "completions.db")
}

/// Whether a store's cached paths are current: a recorded modification
/// time (`None` or negative when there is none) equal to the current one.
pub fn cache_is_fresh(stored_mtime: Option<i64>, current_mtime: u64) -> (r: bool)
    ensures
        r == (stored_mtime matches Some(m) && m >= 0 && m == current_mtime),
{
    match stored_mtime {
        Some(m) => m >= 0 && m as u64 == current_mtime,
        None => false,
    }
}

/// A cached path offered for a prefix: any path for an empty prefix, else
/// the prefix itself or a path below it.
pub open spec fn under_prefix(p: Seq<char>, prefix: Seq<char>) -> bool {
    prefix.len() == 0 || p == prefix || has_prefix(p, prefix + "/"@)
}

/// The cached paths offered for a prefix: those under it, sorted, each
/// once (across all stores).
pub open spec fn cached_spec(rows: Seq<Seq<char>>, prefix: Seq<char>) -> Seq<Seq<char>> {
    keys_of(
        insert_all(
            Seq::<(Seq<char>, bool)>::empty(),
            rows.filter(|p: Seq<char>| under_prefix(p, prefix)).map_values(|p: Seq<char>| (p, true)),
        ),
    )
}

/// The cached paths of the stores (their rows one after another) offered
/// for a prefix, sorted and without repeats.
pub fn cached_paths(rows: &[String], prefix: &str) -> (r: Vec<String>)
    ensures
        views(r@) == cached_spec(views(rows@), prefix@),
{
    let ghost rv = views(rows@);
    let pre = chars_of(prefix);
    let mut below = String::from_str(prefix);
    push_str(&mut below, "/");
    let below = chars_of(below.as_str());
    let mut set: StrMap<bool> = StrMap::new();
    let ghost f = |p: Seq<char>| under_prefix(p, prefix@);
    let mut i: usize = 0;
    assert(rv.take(0).filter(f) =~= Seq::<Seq<char>>::empty());
    assert(set.entries_view() == insert_all(
        Seq::<(Seq<char>, bool)>::empty(),
        rv.take(0).filter(f).map_values(|p: Seq<char>| (p, true)),
    ));
    while i < rows.len()
        invariant
            i <= rows@.len(),
            rv == views(rows@),
            pre@ == prefix@,
            below@ == prefix@ + "/"@,
            f == (|p: Seq<char>| under_prefix(p, prefix@)),
            set.entries_view() == insert_all(
                Seq::<(Seq<char>, bool)>::empty(),
                rv.take(i as int).filter(f).map_values(|p: Seq<char>| (p, true)),
            ),
        decreases rows.len() - i,
    {
        assert(rv[i as int] == rows@[i as int]@);
        assert(rv.take(i + 1).drop_last() =~= rv.take(i as int));
        reveal(Seq::filter);
        let p = chars_of(rows[i].as_str());
        let keep = pre.len() == 0 || crate::text::slice_eq(&p, &pre) || starts_with(&p, &below);
        assert(keep == f(rv[i as int]));
        if keep {
            let ghost before = rv.take(i as int).filter(f).map_values(|q: Seq<char>| (q, true));
            assert(rv.take(i + 1).filter(f) =~= rv.take(i as int).filter(f).push(rv[i as int]));
            assert(rv.take(i + 1).filter(f).map_values(|q: Seq<char>| (q, true)) =~= before.push(
                (rv[i as int], true),
            ));
            assert(before.push((rv[i as int], true)).drop_last() == before);
            set.insert(copy_string(&rows[i]), true);
        } else {
            assert(rv.take(i + 1).filter(f) =~= rv.take(i as int).filter(f));
        }
        i += 1;
    }
    assert(rv.take(rows@.len() as int) == rv);
    set.keys()
}

} // verus!
