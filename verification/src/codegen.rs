//! Code generation from the store's key inventory: typed stubs for
//! TypeScript, Go, Python and Rust, the banner every generated file
//! starts with, and the default file name of a sops-encrypted env file.
use vstd::prelude::*;

use crate::args::CodegenArgs;
use crate::env_dsl::EnvEntry;
use crate::env_resolver::{
    insert_units, lemma_branch_view, no_rows, resolve, resolve_spec, vals_view, EnvNode, Failure, TreeV,
};
use crate::export::secret_text;
use crate::output_resolver::copy_bytes;
use crate::yaml::{lemma_mapping_view, pair_views, to_yaml, yaml_text, YamlNode, YamlView};
use crate::error::HimitsuError;
use crate::labels::{valid_env_label, validate_env_label};
use crate::paths::{join_path, path_join};
use crate::project::CodegenConfig;
use crate::strmap::{
    insert_sorted, keys_of, lemma_lookup_map_vals, lemma_map_vals_insert, lemma_map_vals_sorted,
    lookup, map_vals, sorted, StrMap,
};
use crate::text::{
    char_index, decimal, has_prefix, decimal_chars, string_to_lower, string_to_upper, str_lower, str_upper, char_lower, char_to_lower, char_to_upper, char_upper, chars_of, copy_string,
    ends_with, find_char, has_char, has_suffix, lower_chars, lower_seq, push_str, replace,
    replace_chars, slice_of, split, split_chars, string_of, vec_views, views,
};

verus! {

// ── Identifier casing ────────────────────────────────────────────────────

/// One `_`-separated word in `PascalCase`: its first character upper-cased
/// (Unicode), the rest ASCII lower-cased. An empty word stays empty.
pub open spec fn capitalized(word: Seq<char>) -> Seq<char> {
    if word.len() == 0 {
        Seq::empty()
    } else {
        char_upper(word[0]) + lower_seq(word.drop_first())
    }
}

/// The capitalised words, concatenated.
pub open spec fn capitalized_all(words: Seq<Seq<char>>) -> Seq<char>
    decreases words.len(),
{
    if words.len() == 0 {
        Seq::empty()
    } else {
        capitalized_all(words.drop_last()) + capitalized(words.last())
    }
}

/// `SCREAMING_SNAKE_CASE` or `snake_case` in `PascalCase`; empty words
/// (from leading, trailing or doubled `_`) vanish.
pub open spec fn pascal_case(s: Seq<char>) -> Seq<char> {
    capitalized_all(split(s, '_'))
}

/// `pascal_case` with its first character lower-cased (Unicode).
pub open spec fn camel_case(s: Seq<char>) -> Seq<char> {
    let p = pascal_case(s);
    if p.len() == 0 {
        Seq::empty()
    } else {
        char_lower(p[0]) + p.drop_first()
    }
}

/// Converts `SCREAMING_SNAKE_CASE` or `snake_case` to `PascalCase`.
pub fn to_pascal_case(s: &str) -> (r: String)
    ensures
        r@ == pascal_case(s@),
{
    let cs = chars_of(s);
    let words = split_chars(&cs, '_');
    let ghost ws = vec_views(words@);
    let mut out = String::new();
    let mut i: usize = 0;
    while i < words.len()
        invariant
            i <= words@.len(),
            ws == vec_views(words@),
            ws.len() == words@.len(),
            ws == split(s@, '_'),
            out@ == capitalized_all(ws.take(i as int)),
        decreases words.len() - i,
    {
        let w = &words[i];
        assert(ws[i as int] == w@);
        if w.len() > 0 {
            let head = char_to_upper(w[0]);
            push_str(&mut out, head.as_str());
            let rest = slice_of(w, 1, w.len());
            let low = lower_chars(&rest);
            let low_s = string_of(&low);
            push_str(&mut out, low_s.as_str());
            assert(rest@ == w@.drop_first());
        } else {
            assert(capitalized(w@) =~= Seq::<char>::empty());
            assert(out@ + capitalized(w@) =~= out@);
        }
        assert(ws.take(i + 1).drop_last() == ws.take(i as int));
        i += 1;
    }
    assert(ws.take(words@.len() as int) == ws);
    out
}

/// Converts `SCREAMING_SNAKE_CASE` to `camelCase`.
pub fn to_camel_case(s: &str) -> (r: String)
    ensures
        r@ == camel_case(s@),
{
    let pascal = to_pascal_case(s);
    let cs = chars_of(pascal.as_str());
    if cs.len() == 0 {
        String::new()
    } else {
        let mut out = char_to_lower(cs[0]);
        let rest = slice_of(&cs, 1, cs.len());
        let rest_s = string_of(&rest);
        push_str(&mut out, rest_s.as_str());
        assert(rest@ == cs@.drop_first());
        out
    }
}

// ── Banner and file names ────────────────────────────────────────────────

/// The rule line of the banner, after the comment marker and a space.
pub open spec fn banner_rule() -> Seq<char> {
    "=============================================================================\n"@
}

/// The banner at the top of every generated file: a rule, the warning,
/// the environment it was generated for (or all of them), a rule and a
/// blank line, each line opened by `comment`.
pub open spec fn header_spec(comment: Seq<char>, env: Option<Seq<char>>) -> Seq<char> {
    let env_note = match env {
        Some(e) => " (environment: "@ + e + ")"@,
        None => " (all environments)"@,
    };
    comment + " "@ + banner_rule() + comment
        + " AUTO-GENERATED by `himitsu codegen` — do not edit manually.\n"@ + comment + env_note
        + "\n"@ + comment + " "@ + banner_rule() + "\n"@
}

/// The view of an optional string slice.
pub open spec fn opt_view(o: Option<&str>) -> Option<Seq<char>> {
    match o {
        Some(s) => Some(s@),
        None => None,
    }
}

/// The banner placed at the top of every generated file.
pub fn gen_header(comment: &str, env: Option<&str>) -> (r: String)
    ensures
        r@ == header_spec(comment@, opt_view(env)),
{
    let mut out = String::new();
    push_str(&mut out, comment);
    push_str(&mut out, " ");
    push_str(&mut out, "=============================================================================\n");
    push_str(&mut out, comment);
    push_str(&mut out, " AUTO-GENERATED by `himitsu codegen` — do not edit manually.\n");
    push_str(&mut out, comment);
    match env {
        Some(e) => {
            push_str(&mut out, " (environment: ");
            push_str(&mut out, e);
            push_str(&mut out, ")");
        },
        None => {
            push_str(&mut out, " (all environments)");
        },
    }
    push_str(&mut out, "\n");
    push_str(&mut out, comment);
    push_str(&mut out, " ");
    push_str(&mut out, "=============================================================================\n");
    push_str(&mut out, "\n");
    let ghost note = match env {
        Some(e) => " (environment: "@ + e@ + ")"@,
        None => " (all environments)"@,
    };
    assert(out@ =~= header_spec(comment@, opt_view(env)));
    out
}

/// The default file of `codegen <env>`: the label without a trailing `/*`,
/// every `/` turned into `-`, then `.sops.yaml`.
pub open spec fn sops_output_name(label: Seq<char>) -> Seq<char> {
    let trimmed = if has_suffix(label, "/*"@) {
        label.take(label.len() - 2)
    } else {
        label
    };
    replace(trimmed, seq!['/'], seq!['-']) + ".sops.yaml"@
}

/// Derives the default output file name from an env label.
pub fn default_sops_output_name(label: &str) -> (r: String)
    ensures
        r@ == sops_output_name(label@),
{
    let cs = chars_of(label);
    let suffix = chars_of("/*");
    proof {
        reveal_strlit("/*");
    }
    assert(suffix@.len() == 2);
    let trimmed = if ends_with(&cs, &suffix) {
        slice_of(&cs, 0, cs.len() - 2)
    } else {
        slice_of(&cs, 0, cs.len())
    };
    proof {
        assert(cs@.subrange(0, cs@.len() as int) == cs@);
        if has_suffix(cs@, suffix@) {
            assert(cs@.subrange(0, cs@.len() - 2) == cs@.take(cs@.len() - 2));
        }
    }
    let slash = vec!['/'];
    let dash = vec!['-'];
    assert(slash@ == seq!['/']);
    assert(dash@ == seq!['-']);
    let replaced = replace_chars(&trimmed, &slash, &dash);
    let mut out = string_of(&replaced);
    push_str(&mut out, ".sops.yaml");
    out
}


// ── The key inventory ────────────────────────────────────────────────────

/// The key names found in a store. A secret path `env/KEY` puts `KEY`
/// under the environment `env`; a path without `/` is a key of no
/// environment. Environments are the keys of `keys_by_env`.
#[derive(Debug)]
pub struct SecretInventory {
    /// Environment → the set of key names under it.
    pub keys_by_env: StrMap<StrMap<()>>,
    /// Every key name, of any environment or none.
    pub all_keys: StrMap<()>,
}

/// An inventory as lists: the environments with their key sets, and all
/// keys, each set a list of `(key, ())` pairs.
pub struct InventoryView {
    pub by_env: Seq<(Seq<char>, Seq<(Seq<char>, ())>)>,
    pub all: Seq<(Seq<char>, ())>,
}

/// The entries of a key set.
pub open spec fn units_view(m: StrMap<()>) -> Seq<(Seq<char>, ())> {
    m.entries_view()
}

impl View for SecretInventory {
    type V = InventoryView;

    open spec fn view(&self) -> InventoryView {
        InventoryView {
            by_env: map_vals(self.keys_by_env.entries_view(), |m: StrMap<()>| units_view(m)),
            all: self.all_keys.entries_view(),
        }
    }
}

/// The empty inventory.
pub open spec fn empty_inventory() -> InventoryView {
    InventoryView { by_env: Seq::empty(), all: Seq::empty() }
}

/// The inventory after one more secret path.
pub open spec fn scan_step(inv: InventoryView, p: Seq<char>) -> InventoryView {
    if has_char(p, '/') {
        let i = char_index(p, '/');
        let env = p.take(i);
        let key = p.skip(i + 1);
        let cur = match lookup(inv.by_env, env) {
            Some(m) => m,
            None => Seq::empty(),
        };
        InventoryView {
            by_env: insert_sorted(inv.by_env, env, insert_sorted(cur, key, ())),
            all: insert_sorted(inv.all, key, ()),
        }
    } else {
        InventoryView { by_env: inv.by_env, all: insert_sorted(inv.all, p, ()) }
    }
}

/// The inventory of a list of secret paths, read in order.
pub open spec fn scan_spec(paths: Seq<Seq<char>>) -> InventoryView
    decreases paths.len(),
{
    if paths.len() == 0 {
        empty_inventory()
    } else {
        scan_step(scan_spec(paths.drop_last()), paths.last())
    }
}

/// Builds the inventory of the given secret paths: each path splits at its
/// first `/` into an environment and a key.
pub fn scan_inventory(paths: &[String]) -> (inv: SecretInventory)
    ensures
        inv@ == scan_spec(views(paths@)),
        sorted(inv@.by_env),
        sorted(inv@.all),
{
    let ghost ps = views(paths@);
    let mut by_env: StrMap<StrMap<()>> = StrMap::new();
    let mut all: StrMap<()> = StrMap::new();
    let ghost f = |m: StrMap<()>| units_view(m);
    let mut i: usize = 0;
    assert(map_vals(by_env.entries_view(), f) =~= Seq::<(Seq<char>, Seq<(Seq<char>, ())>)>::empty());
    assert(ps.take(0) =~= Seq::<Seq<char>>::empty());
    while i < paths.len()
        invariant
            i <= paths@.len(),
            ps == views(paths@),
            ps.len() == paths@.len(),
            f == (|m: StrMap<()>| units_view(m)),
            (InventoryView { by_env: map_vals(by_env.entries_view(), f), all: all.entries_view() })
                == scan_spec(ps.take(i as int)),
            by_env.wf(),
            all.wf(),
        decreases paths.len() - i,
    {
        let ghost before = InventoryView {
            by_env: map_vals(by_env.entries_view(), f),
            all: all.entries_view(),
        };
        let ghost bev = by_env.entries_view();
        let p = &paths[i];
        let pc = chars_of(p.as_str());
        assert(ps[i as int] == pc@);
        match find_char(&pc, '/') {
            Some(j) => {
                assert(has_char(pc@, '/'));
                let env = string_of(&slice_of(&pc, 0, j));
                let key = string_of(&slice_of(&pc, j + 1, pc.len()));
                assert(env@ == pc@.take(j as int));
                assert(key@ == pc@.skip(j + 1));
                let mut cur: StrMap<()> = match by_env.get(env.as_str()) {
                    Some(m) => m.copy(),
                    None => StrMap::new(),
                };
                proof {
                    lemma_lookup_map_vals(bev, env@, f);
                }
                assert(cur.entries_view() == (match lookup(before.by_env, env@) {
                    Some(m) => m,
                    None => Seq::<(Seq<char>, ())>::empty(),
                }));
                let ghost cv = cur.entries_view();
                cur.insert(copy_string(&key), ());
                let ghost nv = cur.entries_view();
                by_env.insert(env, cur);
                all.insert(key, ());
                proof {
                    lemma_map_vals_insert(bev, env@, cur, f);
                    assert(f(cur) == nv);
                }
            },
            None => {
                all.insert(copy_string(p), ());
            },
        }
        assert(ps.take(i + 1).drop_last() == ps.take(i as int));
        assert(ps.take(i + 1).last() == ps[i as int]);
        i += 1;
    }
    assert(ps.take(paths@.len() as int) == ps);
    proof {
        lemma_map_vals_sorted(by_env.entries_view(), f);
    }
    SecretInventory { keys_by_env: by_env, all_keys: all }
}


// ── The keys to generate ─────────────────────────────────────────────────

/// The keys of an environment's set, or none when it is absent.
pub open spec fn env_keys(inv: InventoryView, env: Seq<char>) -> Seq<Seq<char>> {
    match lookup(inv.by_env, env) {
        Some(m) => keys_of(m),
        None => Seq::empty(),
    }
}

/// The key set to generate: the `common` environment's keys when
/// `merge_common`, then those of `env`, or every key when no environment
/// is named.
pub open spec fn effective_spec(inv: InventoryView, env: Option<Seq<char>>, merge_common: bool) -> Seq<
    (Seq<char>, ()),
> {
    let base = if merge_common {
        insert_units(Seq::empty(), env_keys(inv, "common"@))
    } else {
        Seq::empty()
    };
    match env {
        Some(e) => insert_units(base, env_keys(inv, e)),
        None => insert_units(base, keys_of(inv.all)),
    }
}

/// Adds every key of `from` to `acc`, in order.
fn extend_units(acc: &mut StrMap<()>, from: &StrMap<()>)
    ensures
        final(acc).entries_view() == insert_units(old(acc).entries_view(), keys_of(from.entries_view())),
        final(acc).wf(),
{
    proof {
        use_type_invariant(&*acc);
    }
    let ghost ks = keys_of(from.entries_view());
    let mut i: usize = 0;
    assert(ks.take(0) =~= Seq::<Seq<char>>::empty());
    while i < from.len()
        invariant
            i <= from.entries_view().len(),
            ks == keys_of(from.entries_view()),
            acc.entries_view() == insert_units(old(acc).entries_view(), ks.take(i as int)),
            acc.wf(),
        decreases from.entries_view().len() - i,
    {
        let k = copy_string(from.key_at(i));
        acc.insert(k, ());
        assert(ks.take(i + 1).drop_last() == ks.take(i as int));
        assert(ks.take(i + 1).last() == ks[i as int]);
        i += 1;
    }
    assert(ks.take(from.entries_view().len() as int) == ks);
}

/// The keys of the named environment's set, if it has one, added to `acc`.
fn extend_with_env(acc: &mut StrMap<()>, inventory: &SecretInventory, env: &str)
    ensures
        final(acc).entries_view() == insert_units(old(acc).entries_view(), env_keys(inventory@, env@)),
        final(acc).wf(),
{
    proof {
        use_type_invariant(&*acc);
        lemma_lookup_map_vals(
            inventory.keys_by_env.entries_view(),
            env@,
            |m: StrMap<()>| units_view(m),
        );
    }
    match inventory.keys_by_env.get(env) {
        Some(m) => extend_units(acc, m),
        None => {
            assert(env_keys(inventory@, env@) =~= Seq::<Seq<char>>::empty());
        },
    }
}

/// The set of keys to generate for `env` (see `effective_spec`).
pub fn effective_keys(inventory: &SecretInventory, env: Option<&str>, merge_common: bool) -> (r:
    StrMap<()>)
    ensures
        r.entries_view() == effective_spec(inventory@, opt_view(env), merge_common),
        r.wf(),
{
    let mut keys: StrMap<()> = StrMap::new();
    if merge_common {
        extend_with_env(&mut keys, inventory, "common");
    }
    match env {
        Some(e) => extend_with_env(&mut keys, inventory, e),
        None => extend_units(&mut keys, &inventory.all_keys),
    }
    keys
}


// ── Line templates ───────────────────────────────────────────────────────

/// How a name is written into a generated line.
#[derive(Clone, Copy, Debug)]
pub enum Form {
    /// As it is.
    Same,
    /// In `PascalCase`.
    Pascal,
    /// In `camelCase`.
    Camel,
    /// Lower-cased (`str::to_lowercase`).
    Lower,
    /// Upper-cased (`str::to_uppercase`).
    Upper,
    /// Not at all.
    Skip,
}

/// The text `f` makes of `name`.
pub open spec fn form_text(f: Form, name: Seq<char>) -> Seq<char> {
    match f {
        Form::Same => name,
        Form::Pascal => pascal_case(name),
        Form::Camel => camel_case(name),
        Form::Lower => str_lower(name),
        Form::Upper => str_upper(name),
        Form::Skip => Seq::empty(),
    }
}

/// Writes `name` in the form `f`.
pub fn apply_form(f: Form, name: &str) -> (r: String)
    ensures
        r@ == form_text(f, name@),
{
    match f {
        Form::Same => string_of(&chars_of(name)),
        Form::Pascal => to_pascal_case(name),
        Form::Camel => to_camel_case(name),
        Form::Lower => string_to_lower(name),
        Form::Upper => string_to_upper(name),
        Form::Skip => String::new(),
    }
}

/// A line template: fixed text around up to three renderings of a name.
#[derive(Clone, Copy, Debug)]
pub struct Line {
    pub a: &'static str,
    pub f1: Form,
    pub b: &'static str,
    pub f2: Form,
    pub c: &'static str,
    pub f3: Form,
    pub d: &'static str,
}

/// A template with one rendering of the name.
pub open spec fn template1(a: &'static str, f1: Form, b: &'static str) -> Line {
    Line { a, f1, b, f2: Form::Skip, c: "", f3: Form::Skip, d: "" }
}

/// A template with two renderings of the name.
pub open spec fn template2(a: &'static str, f1: Form, b: &'static str, f2: Form, c: &'static str) -> Line {
    Line { a, f1, b, f2, c, f3: Form::Skip, d: "" }
}

/// A template with one rendering of the name.
#[verifier::when_used_as_spec(template1)]
pub fn line1(a: &'static str, f1: Form, b: &'static str) -> (l: Line)
    ensures
        l == template1(a, f1, b),
{
    Line { a, f1, b, f2: Form::Skip, c: "", f3: Form::Skip, d: "" }
}

/// A template with two renderings of the name.
#[verifier::when_used_as_spec(template2)]
pub fn line2(a: &'static str, f1: Form, b: &'static str, f2: Form, c: &'static str) -> (l: Line)
    ensures
        l == template2(a, f1, b, f2, c),
{
    Line { a, f1, b, f2, c, f3: Form::Skip, d: "" }
}

/// The line `l` makes of `name`.
pub open spec fn line_text(l: Line, name: Seq<char>) -> Seq<char> {
    l.a@ + form_text(l.f1, name) + l.b@ + form_text(l.f2, name) + l.c@ + form_text(l.f3, name)
        + l.d@
}

/// One line per name, in order.
pub open spec fn each_text(l: Line, names: Seq<Seq<char>>) -> Seq<char>
    decreases names.len(),
{
    if names.len() == 0 {
        Seq::empty()
    } else {
        each_text(l, names.drop_last()) + line_text(l, names.last())
    }
}

/// One template line.
fn push_line(out: &mut String, l: Line, name: &str)
    ensures
        final(out)@ == old(out)@ + line_text(l, name@),
{
    push_str(out, l.a);
    let x = apply_form(l.f1, name);
    push_str(out, x.as_str());
    push_str(out, l.b);
    let y = apply_form(l.f2, name);
    push_str(out, y.as_str());
    push_str(out, l.c);
    let z = apply_form(l.f3, name);
    push_str(out, z.as_str());
    push_str(out, l.d);
    assert(out@ =~= old(out)@ + line_text(l, name@));
}

/// One template line per name.
fn push_each(out: &mut String, l: Line, names: &[String])
    ensures
        final(out)@ == old(out)@ + each_text(l, views(names@)),
{
    let ghost ns = views(names@);
    let mut i: usize = 0;
    assert(ns.take(0) =~= Seq::<Seq<char>>::empty());
    assert(old(out)@ + each_text(l, ns.take(0)) =~= old(out)@);
    while i < names.len()
        invariant
            i <= names@.len(),
            ns == views(names@),
            out@ == old(out)@ + each_text(l, ns.take(i as int)),
        decreases names.len() - i,
    {
        let name = names[i].as_str();
        assert(ns[i as int] == name@);
        push_line(out, l, name);
        assert(ns.take(i + 1).drop_last() == ns.take(i as int));
        assert(ns.take(i + 1).last() == name@);
        i += 1;
    }
    assert(ns.take(names@.len() as int) == ns);
}

/// A union type's members: `  | "name"` per line, the last closed by `;`.
pub open spec fn union_text(names: Seq<Seq<char>>) -> Seq<char> {
    if names.len() == 0 {
        Seq::empty()
    } else {
        each_text(line1("  | \"", Form::Same, "\"\n"), names.drop_last()) + "  | \""@
            + names.last() + "\";\n"@
    }
}

/// Writes the members of a union type.
fn push_union(out: &mut String, names: &[String])
    ensures
        final(out)@ == old(out)@ + union_text(views(names@)),
{
    let ghost ns = views(names@);
    if names.len() == 0 {
        assert(union_text(ns) =~= Seq::<char>::empty());
        assert(out@ =~= old(out)@ + union_text(ns));
    } else {
        let n = names.len() - 1;
        let mut init: Vec<String> = Vec::new();
        let mut i: usize = 0;
        while i < n
            invariant
                i <= n,
                n + 1 == names@.len(),
                views(init@) == views(names@).take(i as int),
            decreases n - i,
        {
            let ghost before = init@;
            let c = copy_string(&names[i]);
            init.push(c);
            assert(views(init@) =~= views(before).push(c@));
            assert(views(names@).take(i + 1) =~= views(names@).take(i as int).push(names@[i as int]@));
            i += 1;
        }
        push_each(out, line1("  | \"", Form::Same, "\"\n"), &init);
        push_str(out, "  | \"");
        push_str(out, names[n].as_str());
        push_str(out, "\";\n");
        assert(views(init@) == ns.drop_last());
        assert(ns.last() == names[n as int]@);
    }
}

/// Per group: a template line for the group's name, one inner line per key
/// of the group, then a closing line.
pub open spec fn groups_text(
    head: Line,
    inner: Line,
    close: Seq<char>,
    groups: Seq<(Seq<char>, Seq<(Seq<char>, ())>)>,
) -> Seq<char>
    decreases groups.len(),
{
    if groups.len() == 0 {
        Seq::empty()
    } else {
        groups_text(head, inner, close, groups.drop_last()) + line_text(head, groups.last().0)
            + each_text(inner, keys_of(groups.last().1)) + close
    }
}

/// Writes one block per environment of the inventory.
fn push_groups(out: &mut String, head: Line, inner: Line, close: &str, inventory: &SecretInventory)
    ensures
        final(out)@ == old(out)@ + groups_text(head, inner, close@, inventory@.by_env),
{
    let ghost gs = inventory@.by_env;
    let ghost f = |m: StrMap<()>| units_view(m);
    let n = inventory.keys_by_env.len();
    let mut i: usize = 0;
    assert(gs.take(0) =~= Seq::<(Seq<char>, Seq<(Seq<char>, ())>)>::empty());
    assert(old(out)@ + groups_text(head, inner, close@, gs.take(0)) =~= old(out)@);
    while i < n
        invariant
            i <= n,
            n == gs.len(),
            gs == inventory@.by_env,
            gs == map_vals(inventory.keys_by_env.entries_view(), f),
            out@ == old(out)@ + groups_text(head, inner, close@, gs.take(i as int)),
        decreases n - i,
    {
        let name = inventory.keys_by_env.key_at(i);
        let group = inventory.keys_by_env.value_at(i);
        let keys = group.keys();
        assert(gs[i as int] == (name@, units_view(*group)));
        let ghost before = out@;
        push_line(out, head, name.as_str());
        push_each(out, inner, &keys);
        push_str(out, close);
        assert(gs.take(i + 1).drop_last() == gs.take(i as int));
        assert(gs.take(i + 1).last() == gs[i as int]);
        assert(out@ =~= before + line_text(head, name@) + each_text(inner, keys_of(gs[i as int].1))
            + close@);
        i += 1;
    }
    assert(gs.take(n as int) == gs);
}


// ── TypeScript ───────────────────────────────────────────────────────────

/// The TypeScript module for the inventory `inv` and the keys `keys`:
/// union types of the environments and keys, an interface with a
/// `camelCase` property per key, the key names as a constant array, and
/// the keys of each environment.
pub open spec fn typescript_spec(inv: InventoryView, keys: Seq<Seq<char>>, env: Option<Seq<char>>) -> Seq<char> {
    header_spec("//"@, env)
        + "/** All environments discovered in the secret store. */\n"@
        + "export type HimitsuEnvironment =\n"@
        + union_text(keys_of(inv.by_env))
        + "\n"@
        + "/** All secret key names. */\n"@
        + "export type HimitsuKey =\n"@
        + union_text(keys)
        + "\n"@
        + "/** Typed interface for secret values. */\n"@
        + "export interface HimitsuSecrets {\n"@
        + each_text(line1("  readonly ", Form::Camel, ": string;\n"), keys)
        + "}\n\n"@
        + "/** All secret key names as a constant array. */\n"@
        + "export const HIMITSU_KEYS = [\n"@
        + each_text(line1("  \"", Form::Same, "\",\n"), keys)
        + "] as const satisfies readonly HimitsuKey[];\n\n"@
        + "/** Secret keys available in each environment. */\n"@
        + "export const HIMITSU_KEYS_BY_ENV: Record<HimitsuEnvironment, readonly string[]> = {\n"@
        + groups_text(
            line1("  \"", Form::Same, "\": [\n"),
            line1("    \"", Form::Same, "\",\n"),
            "  ],\n"@,
            inv.by_env,
        )
        + "};\n"@
}

impl SecretInventory {
    /// The environments, in order.
    pub fn environments(&self) -> (r: Vec<String>)
        ensures
            views(r@) == keys_of(self@.by_env),
    {
        let r = self.keys_by_env.keys();
        assert(keys_of(self@.by_env) =~= keys_of(self.keys_by_env.entries_view()));
        r
    }
}

/// Generates the TypeScript module.
pub fn gen_typescript(inventory: &SecretInventory, keys: &StrMap<()>, env: Option<&str>) -> (r: String)
    ensures
        r@ == typescript_spec(inventory@, keys_of(keys.entries_view()), opt_view(env)),
{
    let envs = inventory.environments();
    let names = keys.keys();
    let mut out = gen_header("//", env);
    push_str(&mut out, "/** All environments discovered in the secret store. */\n");
    push_str(&mut out, "export type HimitsuEnvironment =\n");
    push_union(&mut out, &envs);
    push_str(&mut out, "\n");
    push_str(&mut out, "/** All secret key names. */\n");
    push_str(&mut out, "export type HimitsuKey =\n");
    push_union(&mut out, &names);
    push_str(&mut out, "\n");
    push_str(&mut out, "/** Typed interface for secret values. */\n");
    push_str(&mut out, "export interface HimitsuSecrets {\n");
    push_each(&mut out, line1("  readonly ", Form::Camel, ": string;\n"), &names);
    push_str(&mut out, "}\n\n");
    push_str(&mut out, "/** All secret key names as a constant array. */\n");
    push_str(&mut out, "export const HIMITSU_KEYS = [\n");
    push_each(&mut out, line1("  \"", Form::Same, "\",\n"), &names);
    push_str(&mut out, "] as const satisfies readonly HimitsuKey[];\n\n");
    push_str(&mut out, "/** Secret keys available in each environment. */\n");
    push_str(
        &mut out,
        "export const HIMITSU_KEYS_BY_ENV: Record<HimitsuEnvironment, readonly string[]> = {\n",
    );
    push_groups(
        &mut out,
        line1("  \"", Form::Same, "\": [\n"),
        line1("    \"", Form::Same, "\",\n"),
        "  ],\n",
        inventory,
    );
    push_str(&mut out, "};\n");
    out
}


// ── Go ───────────────────────────────────────────────────────────────────

/// The Go package: a constant per environment and per key, a struct with a
/// `PascalCase` field per key tagged with its name, and the key names.
pub open spec fn golang_spec(inv: InventoryView, keys: Seq<Seq<char>>, env: Option<Seq<char>>) -> Seq<char> {
    header_spec("//"@, env)
        + "package secrets\n\n"@
        + "// Environments discovered in the secret store.\n"@
        + "const (\n"@
        + each_text(line2("\tEnv", Form::Pascal, " = \"", Form::Same, "\"\n"), keys_of(inv.by_env))
        + ")\n\n"@
        + "// Secret key name constants.\n"@
        + "const (\n"@
        + each_text(line2("\tKey", Form::Pascal, " = \"", Form::Same, "\"\n"), keys)
        + ")\n\n"@
        + "// HimitsuSecrets holds typed secret values.\n"@
        + "type HimitsuSecrets struct {\n"@
        + each_text(
            Line {
                a: "\t",
                f1: Form::Pascal,
                b: " string `json:\"",
                f2: Form::Same,
                c: "\" yaml:\"",
                f3: Form::Same,
                d: "\"`\n",
            },
            keys,
        )
        + "}\n\n"@
        + "// AllKeys contains every secret key name.\n"@
        + "var AllKeys = []string{\n"@
        + each_text(line1("\t\"", Form::Same, "\",\n"), keys)
        + "}\n"@
}

/// Generates the Go package.
pub fn gen_golang(inventory: &SecretInventory, keys: &StrMap<()>, env: Option<&str>) -> (r: String)
    ensures
        r@ == golang_spec(inventory@, keys_of(keys.entries_view()), opt_view(env)),
{
    let envs = inventory.environments();
    let names = keys.keys();
    let mut out = gen_header("//", env);
    push_str(&mut out, "package secrets\n\n");
    push_str(&mut out, "// Environments discovered in the secret store.\n");
    push_str(&mut out, "const (\n");
    push_each(&mut out, line2("\tEnv", Form::Pascal, " = \"", Form::Same, "\"\n"), &envs);
    push_str(&mut out, ")\n\n");
    push_str(&mut out, "// Secret key name constants.\n");
    push_str(&mut out, "const (\n");
    push_each(&mut out, line2("\tKey", Form::Pascal, " = \"", Form::Same, "\"\n"), &names);
    push_str(&mut out, ")\n\n");
    push_str(&mut out, "// HimitsuSecrets holds typed secret values.\n");
    push_str(&mut out, "type HimitsuSecrets struct {\n");
    let field = Line {
        a: "\t",
        f1: Form::Pascal,
        b: " string `json:\"",
        f2: Form::Same,
        c: "\" yaml:\"",
        f3: Form::Same,
        d: "\"`\n",
    };
    push_each(&mut out, field, &names);
    push_str(&mut out, "}\n\n");
    push_str(&mut out, "// AllKeys contains every secret key name.\n");
    push_str(&mut out, "var AllKeys = []string{\n");
    push_each(&mut out, line1("\t\"", Form::Same, "\",\n"), &names);
    push_str(&mut out, "}\n");
    out
}

// ── Python ───────────────────────────────────────────────────────────────

/// The Python module: an enum of the environments (members upper-cased),
/// a frozen dataclass with a lower-cased field per key and the set of key
/// names, and the keys of each environment.
pub open spec fn python_spec(inv: InventoryView, keys: Seq<Seq<char>>, env: Option<Seq<char>>) -> Seq<char> {
    header_spec("#"@, env)
        + "from __future__ import annotations\n\n"@
        + "from dataclasses import dataclass\n"@
        + "from enum import Enum\n"@
        + "from typing import ClassVar, FrozenSet\n\n\n"@
        + "class HimitsuEnvironment(str, Enum):\n"@
        + "    \"\"\"Environments discovered in the secret store.\"\"\"\n\n"@
        + each_text(line2("    ", Form::Upper, " = \"", Form::Same, "\"\n"), keys_of(inv.by_env))
        + "\n\n"@
        + "@dataclass(frozen=True)\n"@
        + "class HimitsuSecrets:\n"@
        + "    \"\"\"Typed secret values.\"\"\"\n\n"@
        + each_text(line1("    ", Form::Lower, ": str\n"), keys)
        + "\n"@
        + "    ALL_KEYS: ClassVar[FrozenSet[str]] = frozenset({\n"@
        + each_text(line1("        \"", Form::Same, "\",\n"), keys)
        + "    })\n\n\n"@
        + "KEYS_BY_ENV: dict[HimitsuEnvironment, frozenset[str]] = {\n"@
        + groups_text(
            line1("    HimitsuEnvironment.", Form::Upper, ": frozenset({\n"),
            line1("        \"", Form::Same, "\",\n"),
            "    }),\n"@,
            inv.by_env,
        )
        + "}\n"@
}

/// Generates the Python module.
pub fn gen_python(inventory: &SecretInventory, keys: &StrMap<()>, env: Option<&str>) -> (r: String)
    ensures
        r@ == python_spec(inventory@, keys_of(keys.entries_view()), opt_view(env)),
{
    let envs = inventory.environments();
    let names = keys.keys();
    let mut out = gen_header("#", env);
    push_str(&mut out, "from __future__ import annotations\n\n");
    push_str(&mut out, "from dataclasses import dataclass\n");
    push_str(&mut out, "from enum import Enum\n");
    push_str(&mut out, "from typing import ClassVar, FrozenSet\n\n\n");
    push_str(&mut out, "class HimitsuEnvironment(str, Enum):\n");
    push_str(&mut out, "    \"\"\"Environments discovered in the secret store.\"\"\"\n\n");
    push_each(&mut out, line2("    ", Form::Upper, " = \"", Form::Same, "\"\n"), &envs);
    push_str(&mut out, "\n\n");
    push_str(&mut out, "@dataclass(frozen=True)\n");
    push_str(&mut out, "class HimitsuSecrets:\n");
    push_str(&mut out, "    \"\"\"Typed secret values.\"\"\"\n\n");
    push_each(&mut out, line1("    ", Form::Lower, ": str\n"), &names);
    push_str(&mut out, "\n");
    push_str(&mut out, "    ALL_KEYS: ClassVar[FrozenSet[str]] = frozenset({\n");
    push_each(&mut out, line1("        \"", Form::Same, "\",\n"), &names);
    push_str(&mut out, "    })\n\n\n");
    push_str(&mut out, "KEYS_BY_ENV: dict[HimitsuEnvironment, frozenset[str]] = {\n");
    push_groups(
        &mut out,
        line1("    HimitsuEnvironment.", Form::Upper, ": frozenset({\n"),
        line1("        \"", Form::Same, "\",\n"),
        "    }),\n",
        inventory,
    );
    push_str(&mut out, "}\n");
    out
}

// ── Rust ─────────────────────────────────────────────────────────────────

/// The Rust module: enums of the environments and of the keys (variants in
/// `PascalCase`) with their names, a struct with a lower-cased field per
/// key, and arrays of the keys and of their names.
pub open spec fn rust_spec(inv: InventoryView, keys: Seq<Seq<char>>, env: Option<Seq<char>>) -> Seq<char> {
    header_spec("//"@, env)
        + "#![allow(dead_code)]\n\n"@
        + "/// Environments discovered in the secret store.\n"@
        + "#[derive(Debug, Clone, Copy, PartialEq, Eq, Hash)]\n"@
        + "pub enum HimitsuEnvironment {\n"@
        + each_text(line2("    /// `", Form::Same, "`\n    ", Form::Pascal, ",\n"), keys_of(inv.by_env))
        + "}\n\n"@
        + "impl HimitsuEnvironment {\n"@
        + "    /// The canonical string name of this environment.\n"@
        + "    pub const fn as_str(&self) -> &'static str {\n"@
        + "        match self {\n"@
        + each_text(line2("            Self::", Form::Pascal, " => \"", Form::Same, "\",\n"), keys_of(inv.by_env))
        + "        }\n"@
        + "    }\n"@
        + "}\n\n"@
        + "/// Secret key names.\n"@
        + "#[derive(Debug, Clone, Copy, PartialEq, Eq, Hash)]\n"@
        + "pub enum HimitsuKey {\n"@
        + each_text(line2("    /// `", Form::Same, "`\n    ", Form::Pascal, ",\n"), keys)
        + "}\n\n"@
        + "impl HimitsuKey {\n"@
        + "    /// The canonical string name of this key.\n"@
        + "    pub const fn as_str(&self) -> &'static str {\n"@
        + "        match self {\n"@
        + each_text(line2("            Self::", Form::Pascal, " => \"", Form::Same, "\",\n"), keys)
        + "        }\n"@
        + "    }\n"@
        + "}\n\n"@
        + "/// Typed container for secret values.\n"@
        + "pub struct HimitsuSecrets {\n"@
        + each_text(line2("    /// `", Form::Same, "`\n    pub ", Form::Lower, ": String,\n"), keys)
        + "}\n\n"@
        + "/// All secret key names.\n"@
        + "pub const ALL_KEYS: [HimitsuKey; "@
        + decimal(keys.len())
        + "] = [\n"@
        + each_text(line1("    HimitsuKey::", Form::Pascal, ",\n"), keys)
        + "];\n\n"@
        + "/// All secret key names as string slices.\n"@
        + "pub const ALL_KEY_NAMES: [&str; "@
        + decimal(keys.len())
        + "] = [\n"@
        + each_text(line1("    \"", Form::Same, "\",\n"), keys)
        + "];\n"@
}

/// Generates the Rust module.
pub fn gen_rust(inventory: &SecretInventory, keys: &StrMap<()>, env: Option<&str>) -> (r: String)
    ensures
        r@ == rust_spec(inventory@, keys_of(keys.entries_view()), opt_view(env)),
{
    let envs = inventory.environments();
    let names = keys.keys();
    let count = string_of(&decimal_chars(keys.len()));
    assert(names@.len() == keys_of(keys.entries_view()).len());
    let mut out = gen_header("//", env);
    push_str(&mut out, "#![allow(dead_code)]\n\n");
    push_str(&mut out, "/// Environments discovered in the secret store.\n");
    push_str(&mut out, "#[derive(Debug, Clone, Copy, PartialEq, Eq, Hash)]\n");
    push_str(&mut out, "pub enum HimitsuEnvironment {\n");
    push_each(&mut out, line2("    /// `", Form::Same, "`\n    ", Form::Pascal, ",\n"), &envs);
    push_str(&mut out, "}\n\n");
    push_str(&mut out, "impl HimitsuEnvironment {\n");
    push_str(&mut out, "    /// The canonical string name of this environment.\n");
    push_str(&mut out, "    pub const fn as_str(&self) -> &'static str {\n");
    push_str(&mut out, "        match self {\n");
    push_each(&mut out, line2("            Self::", Form::Pascal, " => \"", Form::Same, "\",\n"), &envs);
    push_str(&mut out, "        }\n");
    push_str(&mut out, "    }\n");
    push_str(&mut out, "}\n\n");
    push_str(&mut out, "/// Secret key names.\n");
    push_str(&mut out, "#[derive(Debug, Clone, Copy, PartialEq, Eq, Hash)]\n");
    push_str(&mut out, "pub enum HimitsuKey {\n");
    push_each(&mut out, line2("    /// `", Form::Same, "`\n    ", Form::Pascal, ",\n"), &names);
    push_str(&mut out, "}\n\n");
    push_str(&mut out, "impl HimitsuKey {\n");
    push_str(&mut out, "    /// The canonical string name of this key.\n");
    push_str(&mut out, "    pub const fn as_str(&self) -> &'static str {\n");
    push_str(&mut out, "        match self {\n");
    push_each(&mut out, line2("            Self::", Form::Pascal, " => \"", Form::Same, "\",\n"), &names);
    push_str(&mut out, "        }\n");
    push_str(&mut out, "    }\n");
    push_str(&mut out, "}\n\n");
    push_str(&mut out, "/// Typed container for secret values.\n");
    push_str(&mut out, "pub struct HimitsuSecrets {\n");
    push_each(&mut out, line2("    /// `", Form::Same, "`\n    pub ", Form::Lower, ": String,\n"), &names);
    push_str(&mut out, "}\n\n");
    push_str(&mut out, "/// All secret key names.\n");
    push_str(&mut out, "pub const ALL_KEYS: [HimitsuKey; ");
    push_str(&mut out, count.as_str());
    push_str(&mut out, "] = [\n");
    push_each(&mut out, line1("    HimitsuKey::", Form::Pascal, ",\n"), &names);
    push_str(&mut out, "];\n\n");
    push_str(&mut out, "/// All secret key names as string slices.\n");
    push_str(&mut out, "pub const ALL_KEY_NAMES: [&str; ");
    push_str(&mut out, count.as_str());
    push_str(&mut out, "] = [\n");
    push_each(&mut out, line1("    \"", Form::Same, "\",\n"), &names);
    push_str(&mut out, "];\n");
    out
}


// ── Language mode ────────────────────────────────────────────────────────

/// The languages code can be generated for.
#[derive(Clone, Copy, Debug, PartialEq, Eq, Structural)]
pub enum CodegenLang {
    Unspecified,
    Typescript,
    Golang,
    Python,
    Rust,
}

/// The language a name selects: each by its full name or short form
/// (`ts`, `go`, `py`); any other name selects none.
pub open spec fn lang_of(name: Seq<char>) -> CodegenLang {
    if name == "typescript"@ || name == "ts"@ {
        CodegenLang::Typescript
    } else if name == "golang"@ || name == "go"@ {
        CodegenLang::Golang
    } else if name == "python"@ || name == "py"@ {
        CodegenLang::Python
    } else if name == "rust"@ {
        CodegenLang::Rust
    } else {
        CodegenLang::Unspecified
    }
}

/// The language a name selects.
pub fn codegen_lang_from_str(name: &str) -> (r: CodegenLang)
    ensures
        r == lang_of(name@),
{
    if crate::text::str_eq(name, "typescript") || crate::text::str_eq(name, "ts") {
        CodegenLang::Typescript
    } else if crate::text::str_eq(name, "golang") || crate::text::str_eq(name, "go") {
        CodegenLang::Golang
    } else if crate::text::str_eq(name, "python") || crate::text::str_eq(name, "py") {
        CodegenLang::Python
    } else if crate::text::str_eq(name, "rust") {
        CodegenLang::Rust
    } else {
        CodegenLang::Unspecified
    }
}

/// The module generated for `lang`.
pub open spec fn generated_spec(
    lang: CodegenLang,
    inv: InventoryView,
    keys: Seq<Seq<char>>,
    env: Option<Seq<char>>,
) -> Seq<char> {
    match lang {
        CodegenLang::Typescript => typescript_spec(inv, keys, env),
        CodegenLang::Golang => golang_spec(inv, keys, env),
        CodegenLang::Python => python_spec(inv, keys, env),
        CodegenLang::Rust => rust_spec(inv, keys, env),
        CodegenLang::Unspecified => Seq::empty(),
    }
}

/// Generates the module for `lang`; no language is an error.
pub fn generate(lang: CodegenLang, inventory: &SecretInventory, keys: &StrMap<()>, env: Option<&str>) -> (r:
    Result<String, HimitsuError>)
    ensures
        lang != CodegenLang::Unspecified ==> (r matches Ok(code) && code@ == generated_spec(
            lang,
            inventory@,
            keys_of(keys.entries_view()),
            opt_view(env),
        )),
        lang == CodegenLang::Unspecified ==> (r matches Err(e) && e is InvalidConfig && e.detail()
            == "codegen language not specified"@),
{
    match lang {
        CodegenLang::Typescript => Ok(gen_typescript(inventory, keys, env)),
        CodegenLang::Golang => Ok(gen_golang(inventory, keys, env)),
        CodegenLang::Python => Ok(gen_python(inventory, keys, env)),
        CodegenLang::Rust => Ok(gen_rust(inventory, keys, env)),
        CodegenLang::Unspecified => Err(
            HimitsuError::InvalidConfig(String::from_str("codegen language not specified")),
        ),
    }
}

/// The language and output path of language mode: the flags win over the
/// project's codegen settings; a named language must be known, and one of
/// the two must name it. The settings' path is taken under the repository
/// root they were read from.
pub open spec fn config_spec(
    lang_flag: Option<Seq<char>>,
    output_flag: Option<Seq<char>>,
    project: Option<(Seq<char>, Seq<char>)>,
    root: Seq<char>,
) -> Result<(CodegenLang, Option<Seq<char>>), Seq<char>> {
    let lang = match lang_flag {
        Some(l) => if lang_of(l) == CodegenLang::Unspecified {
            Err("unsupported codegen language: "@ + l)
        } else {
            Ok(lang_of(l))
        },
        None => match project {
            Some(pc) => if lang_of(pc.0) == CodegenLang::Unspecified {
                Err("unsupported codegen language in .himitsu.yaml: "@ + pc.0)
            } else {
                Ok(lang_of(pc.0))
            },
            None => Err(
                "codegen language not specified: use --lang or set codegen.lang in .himitsu.yaml"@,
            ),
        },
    };
    match lang {
        Err(m) => Err(m),
        Ok(l) => Ok(
            (
                l,
                match output_flag {
                    Some(o) => Some(o),
                    None => match project {
                        Some(pc) => Some(path_join(root, pc.1)),
                        None => None,
                    },
                },
            ),
        ),
    }
}

/// The project's codegen settings as a pair of language and path.
pub open spec fn project_view(project: Option<&CodegenConfig>) -> Option<(Seq<char>, Seq<char>)> {
    match project {
        Some(pc) => Some((pc.lang@, pc.path@)),
        None => None,
    }
}

/// The result of `config_spec` with the error wrapped as a config error.
pub open spec fn config_holds(
    r: Result<(CodegenLang, Option<String>), HimitsuError>,
    s: Result<(CodegenLang, Option<Seq<char>>), Seq<char>>,
) -> bool {
    match s {
        Ok((l, o)) => r matches Ok((rl, ro)) && rl == l && opt_string_view(ro) == o,
        Err(m) => r matches Err(e) && e is InvalidConfig && e.detail() == m,
    }
}

/// The view of an optional string.
pub open spec fn opt_string_view(o: Option<String>) -> Option<Seq<char>> {
    match o {
        Some(s) => Some(s@),
        None => None,
    }
}

/// Resolves the target language and output path of language mode from the
/// flags and the codegen settings found in the repository at `root`.
pub fn resolve_config(
    lang_flag: Option<&str>,
    output_flag: Option<&str>,
    project: Option<&CodegenConfig>,
    root: &str,
) -> (r: Result<(CodegenLang, Option<String>), HimitsuError>)
    ensures
        config_holds(r, config_spec(opt_view(lang_flag), opt_view(output_flag), project_view(project), root@)),
{
    let lang = match lang_flag {
        Some(l) => {
            let lang = codegen_lang_from_str(l);
            if lang == CodegenLang::Unspecified {
                let mut msg = String::from_str("unsupported codegen language: ");
                push_str(&mut msg, l);
                return Err(HimitsuError::InvalidConfig(msg));
            }
            lang
        },
        None => match project {
            Some(pc) => {
                let lang = codegen_lang_from_str(pc.lang.as_str());
                if lang == CodegenLang::Unspecified {
                    let mut msg = String::from_str("unsupported codegen language in .himitsu.yaml: ");
                    push_str(&mut msg, pc.lang.as_str());
                    return Err(HimitsuError::InvalidConfig(msg));
                }
                lang
            },
            None => {
                return Err(
                    HimitsuError::InvalidConfig(
                        String::from_str(
                            "codegen language not specified: use --lang or set codegen.lang in .himitsu.yaml",
                        ),
                    ),
                );
            },
        },
    };
    let output = match output_flag {
        Some(o) => Some(String::from_str(o)),
        None => match project {
            Some(pc) => Some(join_path(root, pc.path.as_str())),
            None => None,
        },
    };
    Ok((lang, output))
}

/// What language mode produces: the code, and the file to write it to
/// (`None`: print it).
#[derive(Debug)]
pub struct Generated {
    pub code: String,
    pub dest: Option<String>,
}

/// The message when the store holds no secret.
pub open spec fn empty_store_msg() -> Seq<char> {
    "no secrets found in store — nothing to generate"@
}

/// Language mode of `codegen`: resolves language and output, builds the
/// inventory of the store's secret paths, refuses an empty store, and
/// generates the module for the effective key set. With `--stdout`, or
/// without an output path, the code is printed.
pub fn run_language(
    args: &CodegenArgs,
    project: Option<&CodegenConfig>,
    root: &str,
    secret_paths: &[String],
) -> (r: Result<Generated, HimitsuError>)
    ensures
        ({
            let cfg = config_spec(
                opt_string_view(args.lang),
                opt_string_view(args.output),
                project_view(project),
                root@,
            );
            let inv = scan_spec(views(secret_paths@));
            match cfg {
                Err(m) => r matches Err(e) && e is InvalidConfig && e.detail() == m,
                Ok((lang, out)) => if inv.all.len() == 0 {
                    r matches Err(e) && e is InvalidConfig && e.detail() == empty_store_msg()
                } else {
                    r matches Ok(g) && g.code@ == generated_spec(
                        lang,
                        inv,
                        keys_of(effective_spec(inv, opt_string_view(args.env), args.merge_common)),
                        opt_string_view(args.env),
                    ) && opt_string_view(g.dest) == (if args.stdout {
                        None
                    } else {
                        out
                    })
                },
            }
        }),
{
    let lang_flag = match &args.lang {
        Some(l) => Some(l.as_str()),
        None => None,
    };
    let output_flag = match &args.output {
        Some(o) => Some(o.as_str()),
        None => None,
    };
    let env = match &args.env {
        Some(e) => Some(e.as_str()),
        None => None,
    };
    let (lang, output) = resolve_config(lang_flag, output_flag, project, root)?;
    let inventory = scan_inventory(secret_paths);
    if inventory.all_keys.is_empty() {
        return Err(
            HimitsuError::InvalidConfig(
                String::from_str("no secrets found in store — nothing to generate"),
            ),
        );
    }
    let keys = effective_keys(&inventory, env, args.merge_common);
    let code = generate(lang, &inventory, &keys, env)?;
    let dest = if args.stdout {
        None
    } else {
        output
    };
    Ok(Generated { code, dest })
}

// ── Sops mode ────────────────────────────────────────────────────────────

/// The env label that selects sops mode: a positional env without
/// `--lang`.
pub fn sops_label(args: &CodegenArgs) -> (r: Option<String>)
    ensures
        r matches Some(l) ==> args.lang is None && args.env_positional == Some(l),
        r is None ==> args.lang is Some || args.env_positional is None,
{
    match &args.env_positional {
        Some(label) => if args.lang.is_none() {
            Some(label.clone())
        } else {
            None
        },
        None => None,
    }
}

/// What sops mode writes: the tree of the env and the file it goes to.
#[derive(Debug)]
pub struct SopsPlan {
    pub tree: EnvNode,
    pub path: String,
}

/// Plans `codegen <env>`: the label must be a valid env label and a key of
/// the project's `envs`; its tree is resolved against the store's secret
/// paths; the file is the override or the name derived from the label.
pub fn plan_sops(
    label: &str,
    output_override: Option<&str>,
    envs: &StrMap<Vec<EnvEntry>>,
    secret_paths: &[String],
) -> (r: Result<SopsPlan, HimitsuError>)
    ensures
        !valid_env_label(label@) ==> (r matches Err(e) && e is InvalidConfig),
        valid_env_label(label@) && envs.spec_get(label@) is None ==> (r matches Err(e)
            && e is InvalidConfig && e.detail() == "unknown env: "@ + label@),
        valid_env_label(label@) && envs.spec_get(label@) is Some ==> match resolve_spec(
            envs.entries_view(),
            label@,
            views(secret_paths@),
            no_rows(secret_paths@.len()),
        ) {
            Ok(t) => r matches Ok(plan) && plan.tree@ == t && plan.path@ == (match output_override {
                Some(o) => o@,
                None => sops_output_name(label@),
            }),
            Err(Failure::Config(m)) => r matches Err(e) && e is InvalidConfig && e.detail() == m,
            Err(_) => r matches Err(e) && e is InvalidConfig,
        },
{
    validate_env_label(label)?;
    if !envs.contains_key(label) {
        let mut msg = String::from_str("unknown env: ");
        push_str(&mut msg, label);
        return Err(HimitsuError::InvalidConfig(msg));
    }
    let tree = resolve(envs, label, secret_paths)?;
    let path = match output_override {
        Some(o) => String::from_str(o),
        None => default_sops_output_name(label),
    };
    Ok(SopsPlan { tree, path })
}

// ── The sops document ────────────────────────────────────────────────────

/// Why a leaf has no YAML value: no plaintext was handed over for its
/// secret, or the plaintext is not UTF-8.
pub enum LeafFault {
    Missing(Seq<char>),
    NotText(Seq<char>),
}

/// The YAML string of one leaf: the UTF-8 text of its secret's plaintext.
pub open spec fn leaf_yaml(path: Seq<char>, values: Seq<(Seq<char>, Vec<u8>)>) -> Result<
    YamlView,
    LeafFault,
> {
    match lookup(values, path) {
        None => Err(LeafFault::Missing(path)),
        Some(b) => if vstd::utf8::valid_utf8(b@) {
            Ok(YamlView::Str(vstd::utf8::decode_utf8(b@)))
        } else {
            Err(LeafFault::NotText(path))
        },
    }
}

/// The YAML pairs of a branch's entries in order, keys as strings, or the
/// fault of the first leaf (depth first) that has no value.
pub open spec fn materialized_entries(
    s: Seq<(Seq<char>, TreeV)>,
    values: Seq<(Seq<char>, Vec<u8>)>,
) -> Result<Seq<(YamlView, YamlView)>, LeafFault>
    decreases s,
{
    if s.len() == 0 {
        Ok(Seq::empty())
    } else {
        proof {
            assert(s.drop_last() == s.subrange(0, s.len() - 1));
            assert(decreases_to!(s => s[s.len() - 1]));
        }
        match materialized_entries(s.drop_last(), values) {
            Err(f) => Err(f),
            Ok(init) => match s.last().1 {
                TreeV::Leaf(p) => match leaf_yaml(p, values) {
                    Ok(y) => Ok(init.push((YamlView::Str(s.last().0), y))),
                    Err(f) => Err(f),
                },
                TreeV::Branch(c) => match materialized_entries(c, values) {
                    Ok(m) => Ok(init.push((YamlView::Str(s.last().0), YamlView::Mapping(m)))),
                    Err(f) => Err(f),
                },
            },
        }
    }
}

/// The YAML of a resolved tree: branches become mappings, each leaf the
/// text of its secret.
pub open spec fn materialized(t: TreeV, values: Seq<(Seq<char>, Vec<u8>)>) -> Result<
    YamlView,
    LeafFault,
> {
    match t {
        TreeV::Leaf(p) => leaf_yaml(p, values),
        TreeV::Branch(s) => match materialized_entries(s, values) {
            Ok(m) => Ok(YamlView::Mapping(m)),
            Err(f) => Err(f),
        },
    }
}

/// The error reported for a leaf fault: a missing secret by its path; a
/// non-UTF-8 one naming the path, followed by std's description.
pub open spec fn fault_error(f: LeafFault, e: HimitsuError) -> bool {
    match f {
        LeafFault::Missing(p) => e is SecretNotFound && e.detail() == p,
        LeafFault::NotText(p) => e is DecryptionFailed && has_prefix(
            e.detail(),
            "non-UTF-8 secret at '"@ + p + "': "@,
        ),
    }
}

proof fn lemma_entries_err_sticks(
    s: Seq<(Seq<char>, TreeV)>,
    k: int,
    values: Seq<(Seq<char>, Vec<u8>)>,
)
    requires
        0 <= k <= s.len(),
        materialized_entries(s.take(k), values) is Err,
    ensures
        materialized_entries(s, values) == materialized_entries(s.take(k), values),
    decreases s.len() - k,
{
    if k == s.len() {
        assert(s.take(k) == s);
    } else {
        assert(s.drop_last().take(k) == s.take(k));
        lemma_entries_err_sticks(s.drop_last(), k, values);
    }
}

/// The YAML string of one leaf.
fn materialize_leaf(path: &String, values: &StrMap<Vec<u8>>) -> (r: Result<YamlNode, HimitsuError>)
    ensures
        match leaf_yaml(path@, values.entries_view()) {
            Ok(y) => r matches Ok(n) && n@ == y,
            Err(f) => r matches Err(e) && fault_error(f, e),
        },
{
    match values.get(path.as_str()) {
        None => Err(HimitsuError::SecretNotFound(copy_string(path))),
        Some(b) => match secret_text(path.as_str(), copy_bytes(b)) {
            Ok(s) => Ok(YamlNode::Str(s)),
            Err(e) => Err(e),
        },
    }
}

/// Replaces every leaf of a resolved tree by the text of its secret,
/// given the plaintexts by secret path; branches become YAML mappings,
/// their keys in order. The first leaf (depth first) whose plaintext is
/// missing or not UTF-8 fails the whole walk.
pub fn materialize(tree: &EnvNode, values: &StrMap<Vec<u8>>) -> (r: Result<YamlNode, HimitsuError>)
    ensures
        match materialized(tree@, values.entries_view()) {
            Ok(y) => r matches Ok(n) && n@ == y,
            Err(f) => r matches Err(e) && fault_error(f, e),
        },
    decreases tree,
{
    match tree {
        EnvNode::Leaf { secret_path } => materialize_leaf(secret_path, values),
        EnvNode::Branch(m) => {
            proof {
                lemma_branch_view(*m);
            }
            let ghost s = vals_view(m.entries_view());
            let ghost vs = values.entries_view();
            let mut out: Vec<(YamlNode, YamlNode)> = Vec::new();
            let mut i: usize = 0;
            assert(pair_views(out@) =~= Seq::<(YamlView, YamlView)>::empty());
            while i < m.len()
                invariant
                    i <= m.entries_view().len(),
                    s == vals_view(m.entries_view()),
                    vs == values.entries_view(),
                    tree@ == TreeV::Branch(s),
                    *tree == EnvNode::Branch(*m),
                    materialized_entries(s.take(i as int), vs) == Ok::<_, LeafFault>(
                        pair_views(out@),
                    ),
                decreases m.entries_view().len() - i,
            {
                assert(s.take(i + 1).drop_last() == s.take(i as int));
                assert(s.take(i + 1).last() == s[i as int]);
                let key = m.key_at(i);
                let child = m.value_at(i);
                assert(s[i as int] == (m.entries_view()[i as int].0, child@));
                let kn = YamlNode::Str(copy_string(key));
                let ghost before = pair_views(out@);
                match child {
                    EnvNode::Leaf { secret_path } => {
                        match materialize_leaf(secret_path, values) {
                            Ok(n) => {
                                out.push((kn, n));
                                assert(pair_views(out@) =~= before.push((YamlView::Str(key@), n@)));
                            },
                            Err(e) => {
                                proof {
                                    lemma_entries_err_sticks(s, i + 1, vs);
                                    assert(s.take(s.len() as int) == s);
                                }
                                return Err(e);
                            },
                        }
                    },
                    EnvNode::Branch(_) => {
                        proof {
                            crate::strmap::lemma_value_decreases(*m, i as int);
                        }
                        match materialize(child, values) {
                            Ok(n) => {
                                out.push((kn, n));
                                assert(pair_views(out@) =~= before.push((YamlView::Str(key@), n@)));
                            },
                            Err(e) => {
                                proof {
                                    lemma_entries_err_sticks(s, i + 1, vs);
                                }
                                return Err(e);
                            },
                        }
                    },
                }
                i += 1;
            }
            assert(s.take(m.entries_view().len() as int) == s);
            proof {
                lemma_mapping_view(out);
            }
            Ok(YamlNode::Mapping(out))
        },
    }
}

/// The plaintext sops mode writes for an env: the `#` banner naming it,
/// then the YAML of its tree with every leaf replaced by its secret's text.
/// A leaf without a usable plaintext fails as [`materialize`] does; when
/// serde_yaml refuses to write the document, the error is a generation
/// error carrying its message.
pub fn sops_document(label: &str, tree: &EnvNode, values: &StrMap<Vec<u8>>) -> (r: Result<
    String,
    HimitsuError,
>)
    ensures
        match materialized(tree@, values.entries_view()) {
            Err(f) => r matches Err(e) && fault_error(f, e),
            Ok(y) => (r matches Ok(s) ==> s@ == header_spec("#"@, Some(label@)) + yaml_text(y))
                && (r matches Err(e) ==> e is GenerateError),
        },
{
    let y = materialize(tree, values)?;
    let body = to_yaml(&y)?;
    Ok(sops_plaintext(label, body.as_str()))
}

/// The plaintext handed to sops: the `#` banner for the env, then the
/// YAML body.
pub fn sops_plaintext(label: &str, body: &str) -> (r: String)
    ensures
        r@ == header_spec("#"@, Some(label@)) + body@,
{
    let mut out = gen_header("#", Some(label));
    push_str(&mut out, body);
    out
}

} // verus!
