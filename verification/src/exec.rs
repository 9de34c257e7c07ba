//! `exec`: which secrets a reference names, under which env-var names they
//! are injected, and the environment handed to the child process.
//!
//! A reference is a tag selector (`tag:pci`), an env label, a prefix glob
//! (`prod/*`) or trailing-slash prefix (`prod/`), or a single secret path.
//! Two secrets landing on the same env-var name is an error.
use vstd::prelude::*;

use crate::env_dsl::{derive_env_key, derive_key_spec, in_items, in_items_exec, last_component,
    last_component_spec};
use crate::env_resolver::{lemma_branch_view, vals_view, EnvNode, TreeV};
use crate::error::HimitsuError;
use crate::env_dsl::EnvEntry;
use crate::labels::{valid_env_label, validate_env_label};
use crate::outputs::{split_ref_spec, split_store_ref};
use crate::tags::{tag_problem, valid_tag, validate_tag_chars};
use crate::secret::Decoded;
use crate::set::{env_key_problem, valid_env_key, validate_env_key};
use crate::strmap::{
    insert_sorted, lemma_map_vals_insert, lemma_value_decreases, lookup, map_vals, project_first,
    StrMap,
};
use crate::text::{
    chars_of, debug_quoted, ends_with, has_prefix, has_suffix, lower_chars, lower_seq, push_str,
    quoted, starts_with, string_of, utf8_string, views,
};

verus! {

/// One secret a reference resolved to, before decryption.
#[derive(Debug, Clone)]
pub struct ResolvedRef {
    /// Path of the secret within its store.
    pub secret_path: String,
    /// Checkout of the store holding it.
    pub store_path: String,
    /// Env-var name pinned by an env definition, if any.
    pub explicit_key: Option<String>,
}

// ── Env-var names ────────────────────────────────────────────────────────

pub open spec fn no_tail_msg(path: Seq<char>) -> Seq<char> {
    "secret path "@ + debug_quoted(path) + " has no final segment to derive an env-var name from"@
}

/// The env-var name of a resolved secret: the name an env definition
/// pinned, else the one stored on the secret, else the name derived from
/// the path's last segment.
pub open spec fn pick_spec(r: ResolvedRef, d: Decoded) -> Result<Seq<char>, Seq<char>> {
    match r.explicit_key {
        Some(k) => Ok(k@),
        None => if d.env_key@.len() > 0 {
            Ok(d.env_key@)
        } else if last_component_spec(r.secret_path@).len() == 0 {
            Err(no_tail_msg(r.secret_path@))
        } else {
            Ok(derive_key_spec(last_component_spec(r.secret_path@)))
        },
    }
}

/// The env-var name of a resolved secret.
pub fn pick_env_key(r: &ResolvedRef, decoded: &Decoded) -> (k: Result<String, HimitsuError>)
    ensures
        match pick_spec(*r, *decoded) {
            Ok(n) => k matches Ok(s) && s@ == n,
            Err(m) => k matches Err(e) && e is InvalidReference && e.detail() == m,
        },
{
    if let Some(k) = &r.explicit_key {
        return Ok(string_of(&chars_of(k.as_str())));
    }
    if decoded.env_key.unicode_len() > 0 {
        return Ok(string_of(&chars_of(decoded.env_key.as_str())));
    }
    let tail = last_component(&chars_of(r.secret_path.as_str()));
    if tail.len() == 0 {
        let mut m = String::from_str("secret path ");
        let q = quoted(r.secret_path.as_str());
        push_str(&mut m, q.as_str());
        push_str(&mut m, " has no final segment to derive an env-var name from");
        return Err(HimitsuError::InvalidReference(m));
    }
    let t = string_of(&tail);
    Ok(derive_env_key(t.as_str()))
}

// ── Leaves of an env tree ────────────────────────────────────────────────

/// Every `(key, secret path)` of a leaf, depth first, keys in order.
pub open spec fn branch_leaves(s: Seq<(Seq<char>, TreeV)>) -> Seq<(Seq<char>, Seq<char>)>
    decreases s,
{
    if s.len() == 0 {
        Seq::empty()
    } else {
        proof {
            assert(s.drop_last() == s.subrange(0, s.len() - 1));
            assert(decreases_to!(s => s[s.len() - 1]));
        }
        let init = branch_leaves(s.drop_last());
        match s.last().1 {
            TreeV::Leaf(p) => init.push((s.last().0, p)),
            TreeV::Branch(c) => init + branch_leaves(c),
        }
    }
}

/// The leaves of a tree with the key of the branch holding each.
pub open spec fn leaves_of(t: TreeV) -> Seq<(Seq<char>, Seq<char>)> {
    match t {
        TreeV::Leaf(_) => Seq::empty(),
        TreeV::Branch(s) => branch_leaves(s),
    }
}

pub open spec fn pairs_v(v: Seq<(String, String)>) -> Seq<(Seq<char>, Seq<char>)> {
    v.map_values(|p: (String, String)| (p.0@, p.1@))
}

fn walk(node: &EnvNode, out: &mut Vec<(String, String)>)
    ensures
        pairs_v(final(out)@) == pairs_v(old(out)@) + leaves_of(node@),
    decreases node,
{
    match node {
        EnvNode::Leaf { .. } => {
            assert(pairs_v(out@) =~= pairs_v(out@) + Seq::<(Seq<char>, Seq<char>)>::empty());
        },
        EnvNode::Branch(m) => {
            proof {
                lemma_branch_view(*m);
            }
            let ghost s = vals_view(m.entries_view());
            let ghost start = pairs_v(out@);
            let mut i: usize = 0;
            assert(start + branch_leaves(s.take(0)) =~= start);
            while i < m.len()
                invariant
                    i <= m.entries_view().len(),
                    s == vals_view(m.entries_view()),
                    node@ == TreeV::Branch(s),
                    *node == EnvNode::Branch(*m),
                    pairs_v(out@) == start + branch_leaves(s.take(i as int)),
                decreases m.entries_view().len() - i,
            {
                assert(s.take(i + 1).drop_last() == s.take(i as int));
                assert(s.take(i + 1).last() == s[i as int]);
                let key = m.key_at(i);
                let child = m.value_at(i);
                assert(s[i as int] == (m.entries_view()[i as int].0, child@));
                match child {
                    EnvNode::Leaf { secret_path } => {
                        let ghost before = pairs_v(out@);
                        out.push((string_of(&chars_of(key.as_str())), string_of(&chars_of(secret_path.as_str()))));
                        assert(pairs_v(out@) =~= before.push((key@, secret_path@)));
                    },
                    EnvNode::Branch(_) => {
                        proof {
                            lemma_value_decreases(*m, i as int);
                        }
                        let ghost before = pairs_v(out@);
                        walk(child, out);
                        assert(before + branch_leaves(s.take(i as int)) + leaves_of(child@) =~= before
                            + (branch_leaves(s.take(i as int)) + leaves_of(child@)));
                    },
                }
                i += 1;
            }
            assert(s.take(m.entries_view().len() as int) == s);
        },
    }
}

/// Every `(key, secret path)` pair where a leaf sits under a branch; the
/// branches naming the env itself are walked through.
pub fn collect_env_leaves(node: &EnvNode) -> (r: Vec<(String, String)>)
    ensures
        pairs_v(r@) == leaves_of(node@),
{
    let mut out: Vec<(String, String)> = Vec::new();
    walk(node, &mut out);
    assert(pairs_v(out@) =~= Seq::<(Seq<char>, Seq<char>)>::empty() + leaves_of(node@));
    out
}

// ── The injected environment ─────────────────────────────────────────────

/// Why the environment cannot be built: a bad reference or name (with the
/// message), two secrets on one name (with the message), or a secret that
/// is not text (with the start of the message).
pub enum MapFailure {
    Invalid(Seq<char>),
    Conflict(Seq<char>),
    NotText(Seq<char>),
}

/// Every wanted tag is carried; no wanted tags keeps everything.
pub open spec fn carries_all(want: Seq<Seq<char>>, tags: Seq<Seq<char>>) -> bool {
    forall|i: int| 0 <= i < want.len() ==> in_items(tags, #[trigger] want[i])
}

pub open spec fn conflict_msg(key: Seq<char>, prev: Seq<char>, path: Seq<char>) -> Seq<char> {
    "env-var "@ + debug_quoted(key) + " would be set by both "@ + debug_quoted(prev) + " and "@
        + debug_quoted(path) + "; rename one via `set --env-key` or an env-DSL alias"@
}

pub open spec fn not_text_msg(path: Seq<char>) -> Seq<char> {
    "secret "@ + debug_quoted(path)
        + " contains non-UTF-8 bytes — exec can only inject text values: "@
}

pub open spec fn bad_key_msg(key: Seq<char>, path: Seq<char>) -> Seq<char> {
    "invalid reference: "@ + env_key_problem(key) + " (from "@ + debug_quoted(path) + ")"@
}

/// The bindings after one more secret: `name -> (value, source path)`.
pub open spec fn env_step(
    acc: Seq<(Seq<char>, (Seq<char>, Seq<char>))>,
    r: ResolvedRef,
    d: Decoded,
    want: Seq<Seq<char>>,
) -> Result<Seq<(Seq<char>, (Seq<char>, Seq<char>))>, MapFailure> {
    if !carries_all(want, views(d.tags@)) {
        Ok(acc)
    } else {
        match pick_spec(r, d) {
            Err(m) => Err(MapFailure::Invalid(m)),
            Ok(k) => if !valid_env_key(k) {
                Err(MapFailure::Invalid(bad_key_msg(k, r.secret_path@)))
            } else {
                match lookup(acc, k) {
                    Some(prev) => Err(MapFailure::Conflict(conflict_msg(k, prev.1, r.secret_path@))),
                    None => if !vstd::utf8::valid_utf8(d.data@) {
                        Err(MapFailure::NotText(not_text_msg(r.secret_path@)))
                    } else {
                        Ok(insert_sorted(acc, k, (vstd::utf8::decode_utf8(d.data@), r.secret_path@)))
                    },
                }
            },
        }
    }
}

/// The bindings of all the secrets, in order; the first failure stops.
pub open spec fn env_map_spec(items: Seq<(ResolvedRef, Decoded)>, want: Seq<Seq<char>>) -> Result<
    Seq<(Seq<char>, (Seq<char>, Seq<char>))>,
    MapFailure,
>
    decreases items.len(),
{
    if items.len() == 0 {
        Ok(Seq::empty())
    } else {
        match env_map_spec(items.drop_last(), want) {
            Err(f) => Err(f),
            Ok(acc) => env_step(acc, items.last().0, items.last().1, want),
        }
    }
}

/// `r` is what `s` describes: on success the names with their values.
pub open spec fn env_map_holds(
    r: Result<StrMap<String>, HimitsuError>,
    s: Result<Seq<(Seq<char>, (Seq<char>, Seq<char>))>, MapFailure>,
) -> bool {
    match s {
        Ok(a) => r matches Ok(m) && map_vals(m.entries_view(), |v: String| v@) == map_vals(
            a,
            |p: (Seq<char>, Seq<char>)| p.0,
        ),
        Err(MapFailure::Invalid(msg)) => r matches Err(e) && e is InvalidReference && e.detail()
            == msg,
        Err(MapFailure::Conflict(msg)) => r matches Err(e) && e is InvalidConfig && e.detail()
            == msg,
        Err(MapFailure::NotText(start)) => r matches Err(e) && e is InvalidReference && has_prefix(
            e.detail(),
            start,
        ),
    }
}

pub(crate) fn carries_all_exec(want: &[String], tags: &[String]) -> (r: bool)
    ensures
        r == carries_all(views(want@), views(tags@)),
{
    let mut i: usize = 0;
    while i < want.len()
        invariant
            i <= want@.len(),
            forall|j: int| 0 <= j < i ==> in_items(views(tags@), #[trigger] views(want@)[j]),
        decreases want.len() - i,
    {
        if !in_items_exec(tags, &chars_of(want[i].as_str())) {
            assert(!in_items(views(tags@), views(want@)[i as int]));
            return false;
        }
        i += 1;
    }
    true
}

pub(crate) open spec fn bindings_v(m: Seq<(Seq<char>, (String, String))>) -> Seq<(Seq<char>, (Seq<char>, Seq<char>))> {
    map_vals(m, |p: (String, String)| (p.0@, p.1@))
}

/// Adds one secret to the bindings.
fn bind_one(
    map: &mut StrMap<(String, String)>,
    r: ResolvedRef,
    d: Decoded,
    want: &[String],
) -> (res: Result<(), HimitsuError>)
    requires
        old(map).wf(),
    ensures
        final(map).wf(),
        match env_step(bindings_v(old(map).entries_view()), r, d, views(want@)) {
            Ok(a) => res is Ok && bindings_v(final(map).entries_view()) == a,
            Err(f) => env_map_holds(Err::<StrMap<String>, HimitsuError>(res->Err_0), Err(f))
                && res is Err,
        },
{
    let ghost acc = bindings_v(map.entries_view());
    if want.len() > 0 && !carries_all_exec(want, d.tags.as_slice()) {
        return Ok(());
    }
    proof {
        if want@.len() == 0 {
            assert(carries_all(views(want@), views(d.tags@)));
        }
    }
    let key = pick_env_key(&r, &d)?;
    match validate_env_key(key.as_str()) {
        Err(e) => {
            let mut m = e.to_string();
            push_str(&mut m, " (from ");
            let q = quoted(r.secret_path.as_str());
            push_str(&mut m, q.as_str());
            push_str(&mut m, ")");
            proof {
                assert(m@ == bad_key_msg(key@, r.secret_path@));
            }
            return Err(HimitsuError::InvalidReference(m));
        },
        Ok(_) => {},
    }
    match map.get(key.as_str()) {
        Some(prev) => {
            proof {
                lemma_lookup_bindings(map.entries_view(), key@);
            }
            let mut m = String::from_str("env-var ");
            push_str(&mut m, quoted(key.as_str()).as_str());
            push_str(&mut m, " would be set by both ");
            push_str(&mut m, quoted(prev.1.as_str()).as_str());
            push_str(&mut m, " and ");
            push_str(&mut m, quoted(r.secret_path.as_str()).as_str());
            push_str(&mut m, "; rename one via `set --env-key` or an env-DSL alias");
            return Err(HimitsuError::InvalidConfig(m));
        },
        None => {
            proof {
                lemma_lookup_bindings(map.entries_view(), key@);
            }
        },
    }
    let path = r.secret_path;
    match utf8_string(d.data) {
        Err(reason) => {
            let mut m = String::from_str("secret ");
            push_str(&mut m, quoted(path.as_str()).as_str());
            push_str(&mut m, " contains non-UTF-8 bytes — exec can only inject text values: ");
            let ghost head = m@;
            push_str(&mut m, reason.as_str());
            assert(m@.take(head.len() as int) =~= head);
            Err(HimitsuError::InvalidReference(m))
        },
        Ok(value) => {
            let ghost before = map.entries_view();
            let ghost tup = (value, path);
            map.insert(key, (value, path));
            proof {
                lemma_map_vals_insert(before, key@, tup, |p: (String, String)| (p.0@, p.1@));
            }
            Ok(())
        },
    }
}

pub(crate) proof fn lemma_lookup_bindings(s: Seq<(Seq<char>, (String, String))>, k: Seq<char>)
    ensures
        lookup(bindings_v(s), k) == match lookup(s, k) {
            Some(v) => Some((v.0@, v.1@)),
            None => None,
        },
    decreases s.len(),
{
    if s.len() > 0 {
        assert(bindings_v(s)[0] == (s[0].0, (s[0].1.0@, s[0].1.1@)));
        assert(bindings_v(s).drop_first() =~= bindings_v(s.drop_first()));
        lemma_lookup_bindings(s.drop_first(), k);
    }
}

proof fn lemma_env_map_err(items: Seq<(ResolvedRef, Decoded)>, want: Seq<Seq<char>>, k: int)
    requires
        0 <= k <= items.len(),
        env_map_spec(items.take(k), want) is Err,
    ensures
        env_map_spec(items, want) == env_map_spec(items.take(k), want),
    decreases items.len() - k,
{
    if k < items.len() {
        assert(items.take(k + 1).drop_last() == items.take(k));
        lemma_env_map_err(items, want, k + 1);
    } else {
        assert(items.take(k) == items);
    }
}

/// The environment injected into the child: secrets lacking a wanted tag
/// are left out, each other secret is bound to its env-var name (which must
/// be a POSIX name and not taken by an earlier secret) and its value must be
/// text. Names come out sorted.
pub fn build_env_map(items: Vec<(ResolvedRef, Decoded)>, want_tags: &[String]) -> (r: Result<
    StrMap<String>,
    HimitsuError,
>)
    ensures
        env_map_holds(r, env_map_spec(items@, views(want_tags@))),
        r matches Ok(m) ==> m.wf(),
{
    let ghost iv = items@;
    let ghost wv = views(want_tags@);
    let mut rest = items;
    let mut map: StrMap<(String, String)> = StrMap::new();
    let ghost n = iv.len();
    let mut i: usize = 0;
    assert(n == rest.len());
    assert(iv.skip(0) == iv);
    assert(bindings_v(map.entries_view()) =~= Seq::<(Seq<char>, (Seq<char>, Seq<char>))>::empty());
    assert(iv.take(0).len() == 0);
    while rest.len() > 0
        invariant
            i + rest@.len() == n,
            n == iv.len(),
            n <= usize::MAX,
            iv == items@,
            rest@ == iv.skip(i as int),
            wv == views(want_tags@),
            env_map_spec(iv.take(i as int), wv) == Ok::<
                Seq<(Seq<char>, (Seq<char>, Seq<char>))>,
                MapFailure,
            >(bindings_v(map.entries_view())),
            map.wf(),
        decreases rest.len(),
    {
        let ghost before = rest@;
        let (rr, d) = rest.remove(0);
        assert(before[0] == (rr, d));
        assert(iv[i as int] == (rr, d));
        assert(rest@ == iv.skip(i + 1));
        assert(iv.take(i + 1).drop_last() == iv.take(i as int));
        assert(iv.take(i + 1).last() == (rr, d));
        let ghost acc = bindings_v(map.entries_view());
        let ghost step = env_step(acc, rr, d, wv);
        assert(env_map_spec(iv.take(i + 1), wv) == step);
        match bind_one(&mut map, rr, d, want_tags) {
            Err(e) => {
                assert(step is Err);
                proof {
                    lemma_env_map_err(iv, wv, i as int + 1);
                }
                assert(env_map_spec(iv, wv) == step);
                return Err(e);
            },
            Ok(_) => {},
        }
        i += 1;
    }
    assert(iv.take(n as int) == iv);
    let ghost ev = map.entries_view();
    let out = project_first(map);
    assert(map_vals(out.entries_view(), |v: String| v@) =~= map_vals(
        bindings_v(ev),
        |p: (Seq<char>, Seq<char>)| p.0,
    ));
    Ok(out)
}

// ── Shell-expanded references ────────────────────────────────────────────

pub open spec fn glob_hint() -> Seq<char> {
    " the shell likely expanded a glob before himitsu saw it.\n  Hint: quote the glob (e.g. 'prod/*') or just use the prefix (e.g. 'prod/' or 'prod')"@
}

/// File extensions that betray a path the shell produced.
pub open spec fn file_extensions() -> Seq<Seq<char>> {
    seq![".yaml"@, ".age"@, ".json"@, ".yml"@, ".txt"@, ".env"@, ".toml"@, ".cfg"@, ".conf"@]
}

/// The warning for a reference that looks like what the shell makes of an
/// unquoted glob: an absolute or home-relative path, or a name with a file
/// extension (compared case-insensitively).
pub open spec fn shell_warning(r: Seq<char>) -> Option<Seq<char>> {
    if r.len() > 0 && (r[0] == '/' || r[0] == '~') {
        Some(
            "warning: ref "@ + debug_quoted(r) + " looks like an absolute filesystem path —"@
                + glob_hint(),
        )
    } else if exists|i: int|
        0 <= i < file_extensions().len() && has_suffix(
            lower_seq(r),
            #[trigger] file_extensions()[i],
        ) {
        Some("warning: ref "@ + debug_quoted(r) + " has a file extension —"@ + glob_hint())
    } else {
        None
    }
}

/// A warning when the reference looks shell-expanded.
pub fn warn_if_shell_expanded(ref_str: &str) -> (r: Option<String>)
    ensures
        match shell_warning(ref_str@) {
            Some(w) => r matches Some(s) && s@ == w,
            None => r is None,
        },
{
    let cs = chars_of(ref_str);
    if cs.len() > 0 && (cs[0] == '/' || cs[0] == '~') {
        let mut m = String::from_str("warning: ref ");
        push_str(&mut m, quoted(ref_str).as_str());
        push_str(&mut m, " looks like an absolute filesystem path —");
        push_str(
            &mut m,
            " the shell likely expanded a glob before himitsu saw it.\n  Hint: quote the glob (e.g. 'prod/*') or just use the prefix (e.g. 'prod/' or 'prod')",
        );
        return Some(m);
    }
    let lowered = lower_chars(&cs);
    let exts: [&str; 9] = [
        ".yaml",
        ".age",
        ".json",
        ".yml",
        ".txt",
        ".env",
        ".toml",
        ".cfg",
        ".conf",
    ];
    assert(exts@.map_values(|e: &str| e@) =~= file_extensions());
    let mut i: usize = 0;
    let mut found = false;
    while i < 9 && !found
        invariant
            i <= 9,
            exts@.map_values(|e: &str| e@) == file_extensions(),
            lowered@ == lower_seq(ref_str@),
            found ==> exists|j: int|
                0 <= j < file_extensions().len() && has_suffix(
                    lower_seq(ref_str@),
                    #[trigger] file_extensions()[j],
                ),
            !found ==> forall|j: int|
                0 <= j < i ==> !has_suffix(lower_seq(ref_str@), #[trigger] file_extensions()[j]),
        decreases 9 - i + (if found { 0int } else { 1int }),
    {
        let e = chars_of(exts[i]);
        assert(e@ == file_extensions()[i as int]);
        if ends_with(&lowered, &e) {
            found = true;
        } else {
            i += 1;
        }
    }
    if found {
        let mut m = String::from_str("warning: ref ");
        push_str(&mut m, quoted(ref_str).as_str());
        push_str(&mut m, " has a file extension —");
        push_str(
            &mut m,
            " the shell likely expanded a glob before himitsu saw it.\n  Hint: quote the glob (e.g. 'prod/*') or just use the prefix (e.g. 'prod/' or 'prod')",
        );
        Some(m)
    } else {
        None
    }
}

// ── What a reference names ───────────────────────────────────────────────

/// How the secrets of a reference are found.
#[derive(Debug, PartialEq, Eq)]
pub enum RefPlan {
    /// Every secret carrying the tag, in every known store.
    Tag(String),
    /// The secrets of the (concrete) env label, in the active store.
    EnvLabel,
    /// Every secret whose path starts with the prefix (ending in `/`), in
    /// every known store.
    Prefix(String),
    /// The one secret the reference names.
    Single,
}

/// The plan for a reference, or why there is none.
pub enum PlanV {
    Tag(Seq<char>),
    EnvLabel,
    Prefix(Seq<char>),
    Single,
    /// An invalid reference, with the message.
    Reference(Seq<char>),
    /// A reference `exec` does not handle, with the message.
    Unsupported(Seq<char>),
    /// An env label that breaks the label grammar.
    BadLabel,
    /// A secret reference that does not parse.
    BadRef,
}

/// `s` without trailing `/`.
pub open spec fn strip_slashes(s: Seq<char>) -> Seq<char>
    decreases s.len(),
{
    if s.len() > 0 && s.last() == '/' {
        strip_slashes(s.drop_last())
    } else {
        s
    }
}

pub open spec fn empty_tag_msg() -> Seq<char> {
    "tag selector requires a tag name after 'tag:' (e.g. tag:pci)"@
}

pub open spec fn wildcard_label_msg(r: Seq<char>) -> Seq<char> {
    "exec does not support wildcard env labels ("@ + debug_quoted(r)
        + "); pass a concrete env or use `himitsu codegen` for templated output"@
}

pub open spec fn bare_glob_msg() -> Seq<char> {
    "bare `/*` is not a valid ref; specify a prefix (e.g. `prod/*`)"@
}

pub open spec fn bare_slash_msg() -> Seq<char> {
    "bare '/' is not a valid ref; specify a prefix (e.g. 'prod/')"@
}

/// The plan for a reference. `tag:` selectors come first, then env labels
/// (which win over paths), then `prefix/*`, then `prefix/`, then a path.
pub open spec fn plan_spec(r: Seq<char>, is_label: bool) -> PlanV {
    if has_prefix(r, "tag:"@) {
        let name = r.skip(4);
        if name.len() == 0 {
            PlanV::Reference(empty_tag_msg())
        } else if !valid_tag(name) {
            PlanV::Reference("invalid tag in selector: "@ + tag_problem(name))
        } else {
            PlanV::Tag(name)
        }
    } else if is_label {
        if has_suffix(r, "/*"@) {
            PlanV::Unsupported(wildcard_label_msg(r))
        } else if !valid_env_label(r) {
            PlanV::BadLabel
        } else {
            PlanV::EnvLabel
        }
    } else if has_suffix(r, "/*"@) {
        let p = r.take(r.len() - 2);
        if p.len() == 0 {
            PlanV::Reference(bare_glob_msg())
        } else {
            PlanV::Prefix(p.push('/'))
        }
    } else if has_suffix(r, "/"@) {
        let p = strip_slashes(r);
        if p.len() == 0 {
            PlanV::Reference(bare_slash_msg())
        } else {
            PlanV::Prefix(p.push('/'))
        }
    } else if split_ref_spec(r) is None {
        PlanV::BadRef
    } else {
        PlanV::Single
    }
}

/// `r` carries out the plan `p`.
pub open spec fn plan_holds(r: Result<RefPlan, HimitsuError>, p: PlanV) -> bool {
    match p {
        PlanV::Tag(t) => r matches Ok(RefPlan::Tag(s)) && s@ == t,
        PlanV::EnvLabel => r == Ok::<RefPlan, HimitsuError>(RefPlan::EnvLabel),
        PlanV::Prefix(n) => r matches Ok(RefPlan::Prefix(s)) && s@ == n,
        PlanV::Single => r == Ok::<RefPlan, HimitsuError>(RefPlan::Single),
        PlanV::Reference(m) => r matches Err(e) && e is InvalidReference && e.detail() == m,
        PlanV::Unsupported(m) => r matches Err(e) && e is NotSupported && e.detail() == m,
        PlanV::BadLabel => r matches Err(e) && e is InvalidConfig,
        PlanV::BadRef => r matches Err(e) && e is InvalidReference,
    }
}

fn with_slash(p: &[char]) -> (r: String)
    ensures
        r@ == p@.push('/'),
{
    let mut v = crate::text::slice_of(p, 0, p.len());
    v.push('/');
    string_of(&v)
}

/// How the secrets of `ref_str` are found; `envs` holds the defined env
/// labels.
pub fn plan_ref(ref_str: &str, envs: &StrMap<Vec<EnvEntry>>) -> (r: Result<RefPlan, HimitsuError>)
    ensures
        plan_holds(r, plan_spec(ref_str@, envs.spec_get(ref_str@) is Some)),
{
    let cs = chars_of(ref_str);
    let tag_marker = chars_of("tag:");
    proof {
        reveal_strlit("tag:");
    }
    if starts_with(&cs, &tag_marker) {
        let name = crate::text::slice_of(&cs, 4, cs.len());
        if name.len() == 0 {
            return Err(HimitsuError::InvalidReference(String::from_str(
                "tag selector requires a tag name after 'tag:' (e.g. tag:pci)",
            )));
        }
        return match validate_tag_chars(&name) {
            Err(reason) => {
                let mut m = String::from_str("invalid tag in selector: ");
                push_str(&mut m, reason.as_str());
                Err(HimitsuError::InvalidReference(m))
            },
            Ok(_) => Ok(RefPlan::Tag(string_of(&name))),
        };
    }
    let star = chars_of("/*");
    proof {
        reveal_strlit("/*");
        reveal_strlit("/");
    }
    if envs.contains_key(ref_str) {
        if ends_with(&cs, &star) {
            let mut m = String::from_str("exec does not support wildcard env labels (");
            push_str(&mut m, quoted(ref_str).as_str());
            push_str(
                &mut m,
                "); pass a concrete env or use `himitsu codegen` for templated output",
            );
            return Err(HimitsuError::NotSupported(m));
        }
        validate_env_label(ref_str)?;
        return Ok(RefPlan::EnvLabel);
    }
    if ends_with(&cs, &star) {
        let p = crate::text::slice_of(&cs, 0, cs.len() - 2);
        if p.len() == 0 {
            return Err(HimitsuError::InvalidReference(String::from_str(
                "bare `/*` is not a valid ref; specify a prefix (e.g. `prod/*`)",
            )));
        }
        return Ok(RefPlan::Prefix(with_slash(&p)));
    }
    if cs.len() > 0 && cs[cs.len() - 1] == '/' {
        assert(has_suffix(ref_str@, "/"@)) by {
            assert(ref_str@.skip(ref_str@.len() - 1) =~= "/"@);
        }
        let mut end = cs.len();
        assert(cs@.take(end as int) == cs@);
        while end > 0 && cs[end - 1] == '/'
            invariant
                end <= cs@.len(),
                strip_slashes(cs@) == strip_slashes(cs@.take(end as int)),
            decreases end,
        {
            assert(cs@.take(end as int).drop_last() == cs@.take(end - 1));
            end -= 1;
        }
        assert(strip_slashes(cs@.take(end as int)) == cs@.take(end as int));
        if end == 0 {
            return Err(HimitsuError::InvalidReference(String::from_str(
                "bare '/' is not a valid ref; specify a prefix (e.g. 'prod/')",
            )));
        }
        return Ok(RefPlan::Prefix(with_slash(&crate::text::slice_of(&cs, 0, end))));
    }
    assert(!has_suffix(ref_str@, "/"@)) by {
        if has_suffix(ref_str@, "/"@) {
            assert(ref_str@[ref_str@.len() - 1] == "/"@[0]);
        }
    }
    match split_store_ref(&cs) {
        Err(e) => Err(e),
        Ok(_) => Ok(RefPlan::Single),
    }
}

/// The error when a reference named nothing, with a hint suited to it.
pub open spec fn no_match_msg(r: Seq<char>) -> Seq<char> {
    "ref "@ + debug_quoted(r) + " matched no secrets"@ + if has_suffix(r, "/*"@) || has_suffix(
        r,
        "/"@,
    ) {
        "\n  Hint: use a trailing slash without quotes (e.g. 'prod/') to avoid shell glob expansion,\n  or pass --remote <slug> to select a specific store."@
    } else {
        "\n  Hint: pass --remote <slug> to select a specific store, or check 'himitsu ls' for available secrets."@
    }
}

/// The error reported when a reference named no secret.
pub fn no_match_error(ref_str: &str) -> (e: HimitsuError)
    ensures
        e is SecretNotFound && e.detail() == no_match_msg(ref_str@),
{
    let cs = chars_of(ref_str);
    let star = chars_of("/*");
    let slash = chars_of("/");
    let mut m = String::from_str("ref ");
    push_str(&mut m, quoted(ref_str).as_str());
    push_str(&mut m, " matched no secrets");
    if ends_with(&cs, &star) || ends_with(&cs, &slash) {
        push_str(
            &mut m,
            "\n  Hint: use a trailing slash without quotes (e.g. 'prod/') to avoid shell glob expansion,\n  or pass --remote <slug> to select a specific store.",
        );
    } else {
        push_str(
            &mut m,
            "\n  Hint: pass --remote <slug> to select a specific store, or check 'himitsu ls' for available secrets.",
        );
    }
    HimitsuError::SecretNotFound(m)
}

// ── Selecting secrets ────────────────────────────────────────────────────

pub open spec fn ref_v(r: ResolvedRef) -> (Seq<char>, Seq<char>, Option<Seq<char>>) {
    (
        r.secret_path@,
        r.store_path@,
        match r.explicit_key {
            Some(k) => Some(k@),
            None => None,
        },
    )
}

pub open spec fn refs_v(v: Seq<ResolvedRef>) -> Seq<(Seq<char>, Seq<char>, Option<Seq<char>>)> {
    v.map_values(|r: ResolvedRef| ref_v(r))
}

/// The `(store, path)` listings whose path starts with `needle`, in order.
pub open spec fn prefix_hits(listing: Seq<(Seq<char>, Seq<char>)>, needle: Seq<char>) -> Seq<
    (Seq<char>, Seq<char>, Option<Seq<char>>),
>
    decreases listing.len(),
{
    if listing.len() == 0 {
        Seq::empty()
    } else {
        let init = prefix_hits(listing.drop_last(), needle);
        let (store, path) = listing.last();
        if has_prefix(path, needle) {
            init.push((path, store, None))
        } else {
            init
        }
    }
}

pub open spec fn listing_v(l: Seq<(String, String)>) -> Seq<(Seq<char>, Seq<char>)> {
    l.map_values(|p: (String, String)| (p.0@, p.1@))
}

fn copy(s: &String) -> (r: String)
    ensures
        r@ == s@,
{
    string_of(&chars_of(s.as_str()))
}

/// The secrets under a prefix, from `(store, secret path)` listings of
/// every known store.
pub fn select_under_prefix(listing: &[(String, String)], needle: &str) -> (r: Vec<ResolvedRef>)
    ensures
        refs_v(r@) == prefix_hits(listing_v(listing@), needle@),
{
    let ghost lv = listing_v(listing@);
    let nc = chars_of(needle);
    let mut out: Vec<ResolvedRef> = Vec::new();
    let mut i: usize = 0;
    assert(refs_v(out@) =~= prefix_hits(lv.take(0), needle@));
    while i < listing.len()
        invariant
            i <= listing@.len(),
            lv == listing_v(listing@),
            nc@ == needle@,
            refs_v(out@) == prefix_hits(lv.take(i as int), needle@),
        decreases listing.len() - i,
    {
        assert(lv.take(i + 1).drop_last() == lv.take(i as int));
        assert(lv.take(i + 1).last() == (listing@[i as int].0@, listing@[i as int].1@));
        let (store, path) = &listing[i];
        if starts_with(&chars_of(path.as_str()), &nc) {
            let r = ResolvedRef { secret_path: copy(path), store_path: copy(store), explicit_key: None };
            let ghost before = refs_v(out@);
            out.push(r);
            assert(refs_v(out@) =~= before.push(ref_v(r)));
        }
        i += 1;
    }
    assert(lv.take(listing@.len() as int) == lv);
    out
}

/// The `(store, path, tags)` listings whose tags include `tag`, in order; a
/// secret that could not be read (no tags) never matches.
pub open spec fn tag_hits(
    listing: Seq<(Seq<char>, Seq<char>, Option<Seq<Seq<char>>>)>,
    tag: Seq<char>,
) -> Seq<(Seq<char>, Seq<char>, Option<Seq<char>>)>
    decreases listing.len(),
{
    if listing.len() == 0 {
        Seq::empty()
    } else {
        let init = tag_hits(listing.drop_last(), tag);
        let (store, path, tags) = listing.last();
        match tags {
            Some(ts) => if in_items(ts, tag) {
                init.push((path, store, None))
            } else {
                init
            },
            None => init,
        }
    }
}

pub open spec fn tagged_v(l: Seq<(String, String, Option<Vec<String>>)>) -> Seq<
    (Seq<char>, Seq<char>, Option<Seq<Seq<char>>>),
> {
    l.map_values(
        |p: (String, String, Option<Vec<String>>)|
            (
                p.0@,
                p.1@,
                match p.2 {
                    Some(v) => Some(views(v@)),
                    None => None,
                },
            ),
    )
}

/// The secrets carrying `tag`, from `(store, secret path, tags)` listings
/// of every known store (`None` where the secret could not be read).
pub fn select_tagged(listing: &[(String, String, Option<Vec<String>>)], tag: &str) -> (r: Vec<
    ResolvedRef,
>)
    ensures
        refs_v(r@) == tag_hits(tagged_v(listing@), tag@),
{
    let ghost lv = tagged_v(listing@);
    let tc = chars_of(tag);
    let mut out: Vec<ResolvedRef> = Vec::new();
    let mut i: usize = 0;
    assert(refs_v(out@) =~= tag_hits(lv.take(0), tag@));
    while i < listing.len()
        invariant
            i <= listing@.len(),
            lv == tagged_v(listing@),
            tc@ == tag@,
            refs_v(out@) == tag_hits(lv.take(i as int), tag@),
        decreases listing.len() - i,
    {
        assert(lv.take(i + 1).drop_last() == lv.take(i as int));
        assert(lv.take(i + 1).last() == lv[i as int]);
        let (store, path, tags) = &listing[i];
        if let Some(ts) = tags {
            if in_items_exec(ts.as_slice(), &tc) {
                let r = ResolvedRef {
                    secret_path: copy(path),
                    store_path: copy(store),
                    explicit_key: None,
                };
                let ghost before = refs_v(out@);
                out.push(r);
                assert(refs_v(out@) =~= before.push(ref_v(r)));
            }
        }
        i += 1;
    }
    assert(lv.take(listing@.len() as int) == lv);
    out
}

/// The secrets of a resolved env tree, in the active store, each bound to
/// the key the env gave it.
pub fn refs_from_tree(tree: &EnvNode, store: &str) -> (r: Vec<ResolvedRef>)
    ensures
        refs_v(r@) == leaves_of(tree@).map_values(
            |l: (Seq<char>, Seq<char>)| (l.1, store@, Some(l.0)),
        ),
{
    let leaves = collect_env_leaves(tree);
    let ghost lv = pairs_v(leaves@);
    let ghost target = lv.map_values(|l: (Seq<char>, Seq<char>)| (l.1, store@, Some(l.0)));
    let mut out: Vec<ResolvedRef> = Vec::new();
    let mut i: usize = 0;
    assert(refs_v(out@) =~= target.take(0));
    while i < leaves.len()
        invariant
            i <= leaves@.len(),
            lv == pairs_v(leaves@),
            target == lv.map_values(|l: (Seq<char>, Seq<char>)| (l.1, store@, Some(l.0))),
            refs_v(out@) == target.take(i as int),
        decreases leaves.len() - i,
    {
        let (k, p) = &leaves[i];
        let r = ResolvedRef {
            secret_path: copy(p),
            store_path: String::from_str(store),
            explicit_key: Some(copy(k)),
        };
        let ghost before = refs_v(out@);
        out.push(r);
        assert(refs_v(out@) =~= before.push(ref_v(r)));
        assert(target.take(i + 1) =~= target.take(i as int).push(target[i as int]));
        i += 1;
    }
    assert(target.take(leaves@.len() as int) == target);
    out
}

/// The one secret a path reference names, in the active store.
pub fn single_ref(ref_str: &str, store: &str) -> (r: Vec<ResolvedRef>)
    ensures
        refs_v(r@) == seq![(ref_str@, store@, None::<Seq<char>>)],
{
    let r = ResolvedRef {
        secret_path: String::from_str(ref_str),
        store_path: String::from_str(store),
        explicit_key: None,
    };
    let mut out: Vec<ResolvedRef> = Vec::new();
    out.push(r);
    assert(refs_v(out@) =~= seq![ref_v(r)]);
    out
}

} // verus!
