//! `export`: which secrets a pattern selects, the plaintext document built
//! from them (flat YAML or JSON keyed by path), and how `sops` is asked to
//! encrypt it.
use vstd::prelude::*;

use crate::config::ProjectConfig;
use crate::error::HimitsuError;
use crate::json::{json_object_pretty, members_of, pretty_json_object, JsonScalar, JsonScalarView};
use crate::glob::{glob_match, glob_spec, key_of_path, path_to_key};
use crate::strmap::StrMap;
use crate::text::{
    chars_of, decimal, decimal_chars, join, join_with, push_str, replace, replace_chars,
    string_of, utf8_string, views,
};

verus! {

/// The secret paths the pattern matches, in listing order.
pub open spec fn matching(pattern: Seq<char>, paths: Seq<Seq<char>>) -> Seq<Seq<char>>
    decreases paths.len(),
{
    if paths.len() == 0 {
        Seq::empty()
    } else {
        let init = matching(pattern, paths.drop_last());
        if glob_spec(pattern, paths.last()) {
            init.push(paths.last())
        } else {
            init
        }
    }
}

/// The secrets an export pattern selects.
pub fn select_matching(pattern: &str, paths: &[String]) -> (r: Vec<String>)
    ensures
        views(r@) == matching(pattern@, views(paths@)),
{
    let ghost pv = views(paths@);
    let mut out: Vec<String> = Vec::new();
    let mut i: usize = 0;
    assert(views(out@) =~= matching(pattern@, pv.take(0)));
    while i < paths.len()
        invariant
            i <= paths@.len(),
            pv == views(paths@),
            views(out@) == matching(pattern@, pv.take(i as int)),
        decreases paths.len() - i,
    {
        assert(pv.take(i + 1).drop_last() == pv.take(i as int));
        assert(pv.take(i + 1).last() == paths@[i as int]@);
        if glob_match(pattern, paths[i].as_str()) {
            let ghost before = views(out@);
            out.push(string_of(&chars_of(paths[i].as_str())));
            assert(views(out@) =~= before.push(paths@[i as int]@));
        }
        i += 1;
    }
    assert(pv.take(paths@.len() as int) == pv);
    out
}

/// The error when the pattern selects nothing.
pub fn no_match(pattern: &str) -> (e: HimitsuError)
    ensures
        e is SecretNotFound && e.detail() == "no secrets matched pattern '"@ + pattern@ + "'"@,
{
    let mut m = String::from_str("no secrets matched pattern '");
    push_str(&mut m, pattern);
    push_str(&mut m, "'");
    HimitsuError::SecretNotFound(m)
}

/// The progress note printed once secrets are selected.
pub fn matched_note(n: usize) -> (r: String)
    ensures
        r@ == "Matched "@ + decimal(n as nat) + " secret"@ + if n == 1 {
            Seq::<char>::empty()
        } else {
            "s"@
        },
{
    let mut m = String::from_str("Matched ");
    push_str(&mut m, string_of(&decimal_chars(n)).as_str());
    push_str(&mut m, " secret");
    if n != 1 {
        push_str(&mut m, "s");
    }
    proof {
        if n == 1 {
            assert(m@ =~= "Matched "@ + decimal(n as nat) + " secret"@ + Seq::<char>::empty());
        }
    }
    m
}

/// A decrypted secret's text; exports carry text only.
pub fn secret_text(path: &str, data: Vec<u8>) -> (r: Result<String, HimitsuError>)
    ensures
        r is Ok <==> vstd::utf8::valid_utf8(data@),
        r matches Ok(s) ==> s@ == vstd::utf8::decode_utf8(data@),
        r matches Err(e) ==> e is DecryptionFailed && crate::text::has_prefix(
            e.detail(),
            "non-UTF-8 secret at '"@ + path@ + "': "@,
        ),
{
    match utf8_string(data) {
        Ok(s) => Ok(s),
        Err(reason) => {
            let mut m = String::from_str("non-UTF-8 secret at '");
            push_str(&mut m, path);
            push_str(&mut m, "': ");
            let ghost head = m@;
            push_str(&mut m, reason.as_str());
            assert(m@.take(head.len() as int) =~= head);
            Err(HimitsuError::DecryptionFailed(m))
        },
    }
}

// ── Documents ────────────────────────────────────────────────────────────

/// A value as a double-quoted YAML scalar: backslashes, quotes, line feeds
/// and carriage returns escaped.
pub open spec fn yaml_quote(v: Seq<char>) -> Seq<char> {
    replace(
        replace(
            replace(replace(v, seq!['\\'], seq!['\\', '\\']), seq!['"'], seq!['\\', '"']),
            seq!['\n'],
            seq!['\\', 'n'],
        ),
        seq!['\r'],
        seq!['\\', 'r'],
    )
}

/// One `key: "value"` line per secret, keys flattened from paths.
pub open spec fn yaml_lines(entries: Seq<(Seq<char>, String)>) -> Seq<char>
    decreases entries.len(),
{
    if entries.len() == 0 {
        Seq::empty()
    } else {
        yaml_lines(entries.drop_last()) + key_of_path(entries.last().0) + ": \""@ + yaml_quote(
            entries.last().1@,
        ) + "\"\n"@
    }
}

pub(crate) fn yaml_quote_exec(v: &str) -> (r: Vec<char>)
    ensures
        r@ == yaml_quote(v@),
{
    let a = replace_chars(&chars_of(v), &['\\'], &['\\', '\\']);
    let b = replace_chars(&a, &['"'], &['\\', '"']);
    let c = replace_chars(&b, &['\n'], &['\\', 'n']);
    let d = replace_chars(&c, &['\r'], &['\\', 'r']);
    proof {
        assert(['\\']@ =~= seq!['\\']);
        assert(['\\', '\\']@ =~= seq!['\\', '\\']);
        assert(['"']@ =~= seq!['"']);
        assert(['\\', '"']@ =~= seq!['\\', '"']);
        assert(['\n']@ =~= seq!['\n']);
        assert(['\\', 'n']@ =~= seq!['\\', 'n']);
        assert(['\r']@ =~= seq!['\r']);
        assert(['\\', 'r']@ =~= seq!['\\', 'r']);
    }
    d
}

/// The flat YAML document of the secrets (path -> value), in path order.
pub fn build_yaml(secrets: &StrMap<String>) -> (r: String)
    ensures
        r@ == "# Exported by himitsu\n"@ + yaml_lines(secrets.entries_view()),
{
    let ghost ev = secrets.entries_view();
    let mut out = String::from_str("# Exported by himitsu\n");
    let ghost head = out@;
    let mut i: usize = 0;
    assert(yaml_lines(ev.take(0)) =~= Seq::<char>::empty());
    while i < secrets.len()
        invariant
            i <= ev.len(),
            ev == secrets.entries_view(),
            out@ == head + yaml_lines(ev.take(i as int)),
        decreases ev.len() - i,
    {
        assert(ev.take(i + 1).drop_last() == ev.take(i as int));
        let k = secrets.key_at(i);
        let v = secrets.value_at(i);
        assert(ev.take(i + 1).last() == (k@, *v));
        push_str(&mut out, path_to_key(k.as_str()).as_str());
        push_str(&mut out, ": \"");
        push_str(&mut out, string_of(&yaml_quote_exec(v.as_str())).as_str());
        push_str(&mut out, "\"\n");
        i += 1;
    }
    assert(ev.take(ev.len() as int) == ev);
    out
}

/// The flattened `(key, value)` pairs of an export, in path order.
pub open spec fn json_pairs(entries: Seq<(Seq<char>, String)>) -> Seq<(Seq<char>, JsonScalarView)> {
    entries.map_values(|e: (Seq<char>, String)| (key_of_path(e.0), JsonScalarView::Str(e.1@)))
}

/// The JSON document of the secrets, keys flattened from paths.
pub fn build_json(secrets: &StrMap<String>) -> (r: Result<String, HimitsuError>)
    ensures
        r matches Ok(s) && s@ == pretty_json_object(json_pairs(secrets.entries_view())),
{
    let ghost ev = secrets.entries_view();
    let mut pairs: Vec<(String, JsonScalar)> = Vec::new();
    let mut i: usize = 0;
    while i < secrets.len()
        invariant
            i <= ev.len(),
            ev == secrets.entries_view(),
            members_of(pairs@) == json_pairs(ev.take(i as int)),
        decreases ev.len() - i,
    {
        let k = secrets.key_at(i);
        let v = secrets.value_at(i);
        let ghost before = members_of(pairs@);
        pairs.push((path_to_key(k.as_str()), JsonScalar::Str(string_of(&chars_of(v.as_str())))));
        assert(members_of(pairs@) =~= before.push((key_of_path(k@), JsonScalarView::Str(v@))));
        assert(json_pairs(ev.take(i + 1)) =~= json_pairs(ev.take(i as int)).push(
            (key_of_path(ev[i as int].0), JsonScalarView::Str(ev[i as int].1@)),
        ));
        i += 1;
    }
    assert(ev.take(ev.len() as int) == ev);
    match json_object_pretty(&pairs) {
        Ok(s) => Ok(s),
        Err(m) => Err(HimitsuError::External(m)),
    }
}

// ── Encryption ───────────────────────────────────────────────────────────

pub open spec fn no_recipients_msg() -> Seq<char> {
    "no `generate.age_recipients` configured in himitsu.yaml; add recipients or use --stdout for plaintext"@
}

/// The age recipients configured for generated files.
pub open spec fn configured_recipients(cfg: Option<ProjectConfig>) -> Seq<Seq<char>> {
    match cfg {
        Some(c) => match c.generate {
            Some(g) => views(g.age_recipients@),
            None => Seq::empty(),
        },
        None => Seq::empty(),
    }
}

/// The arguments `sops` is run with to encrypt a document of `format`
/// read from stdin; encryption needs configured recipients.
pub fn sops_encrypt_args(format: &str, project_cfg: Option<&ProjectConfig>) -> (r: Result<
    Vec<String>,
    HimitsuError,
>)
    ensures
        configured_recipients(match project_cfg {
            Some(c) => Some(*c),
            None => None,
        }).len() == 0 ==> (r matches Err(e) && e is GenerateError && e.detail()
            == no_recipients_msg()),
        configured_recipients(match project_cfg {
            Some(c) => Some(*c),
            None => None,
        }).len() > 0 ==> (r matches Ok(v) && views(v@) == seq![
            "--encrypt"@,
            "--age"@,
            join(
                configured_recipients(match project_cfg {
                    Some(c) => Some(*c),
                    None => None,
                }),
                ',',
            ),
            "--input-type"@,
            format@,
            "--output-type"@,
            format@,
            "/dev/stdin"@,
        ]),
{
    let recipients: &[String] = match project_cfg {
        Some(c) => match &c.generate {
            Some(g) => g.age_recipients.as_slice(),
            None => &[],
        },
        None => &[],
    };
    if recipients.len() == 0 {
        return Err(HimitsuError::GenerateError(String::from_str(
            "no `generate.age_recipients` configured in himitsu.yaml; add recipients or use --stdout for plaintext",
        )));
    }
    let mut v: Vec<String> = Vec::new();
    v.push(String::from_str("--encrypt"));
    v.push(String::from_str("--age"));
    v.push(join_with(recipients, ','));
    v.push(String::from_str("--input-type"));
    v.push(String::from_str(format));
    v.push(String::from_str("--output-type"));
    v.push(String::from_str(format));
    v.push(String::from_str("/dev/stdin"));
    assert(views(v@) =~= seq![
        "--encrypt"@,
        "--age"@,
        join(views(recipients@), ','),
        "--input-type"@,
        format@,
        "--output-type"@,
        format@,
        "/dev/stdin"@,
    ]);
    Ok(v)
}

/// The error when `sops` is not installed.
pub fn sops_missing() -> (e: HimitsuError)
    ensures
        e is GenerateError && e.detail()
            == "sops not found in PATH; install sops to generate encrypted output, or use --stdout for plaintext"@,
{
    HimitsuError::GenerateError(String::from_str(
        "sops not found in PATH; install sops to generate encrypted output, or use --stdout for plaintext",
    ))
}

/// The error when `sops` ran and failed, with what it printed.
pub fn sops_failed(stderr: &str) -> (e: HimitsuError)
    ensures
        e is GenerateError && e.detail() == "sops encryption failed: "@ + stderr@,
{
    let mut m = String::from_str("sops encryption failed: ");
    push_str(&mut m, stderr);
    HimitsuError::GenerateError(m)
}

} // verus!
