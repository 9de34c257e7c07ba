//! The env DSL: brace expansion of env names, the `{}` placeholder, default
//! env-var key derivation, and flat `KEY = item` resolution with warnings.
//!
//! `my-env-{dev,prod}` stands for the envs `my-env-dev` and `my-env-prod`;
//! inside their entries `{}` is replaced by `dev` and `prod` respectively.
use vstd::prelude::*;

use crate::strmap::StrMap;
use crate::text::{
    chars_of, find_char, has_prefix, push_str, replace, replace_chars, slice_eq, slice_of, split,
    split_chars, starts_with, string_of, upper_chars, upper_seq, vec_views, views,
};

verus! {

/// One entry of an env definition.
#[derive(Debug, Clone, PartialEq, Eq)]
pub enum EnvEntry {
    /// A single secret path; its key is derived from the last segment.
    Single(String),
    /// A secret path bound to an explicit key.
    Alias { key: String, path: String },
    /// Every secret under a prefix.
    Glob(String),
    /// Every secret carrying a tag.
    Tag(String),
    /// The one secret carrying a tag, bound to an explicit key.
    AliasTag { key: String, tag: String },
}

/// The mathematical content of an entry.
pub enum EntryView {
    Single(Seq<char>),
    Alias(Seq<char>, Seq<char>),
    Glob(Seq<char>),
    Tag(Seq<char>),
    AliasTag(Seq<char>, Seq<char>),
}

impl EnvEntry {
    pub open spec fn view(&self) -> EntryView {
        match self {
            EnvEntry::Single(p) => EntryView::Single(p@),
            EnvEntry::Alias { key, path } => EntryView::Alias(key@, path@),
            EnvEntry::Glob(p) => EntryView::Glob(p@),
            EnvEntry::Tag(t) => EntryView::Tag(t@),
            EnvEntry::AliasTag { key, tag } => EntryView::AliasTag(key@, tag@),
        }
    }
}

pub open spec fn entries_view(es: Seq<EnvEntry>) -> Seq<EntryView> {
    es.map_values(|e: EnvEntry| e.view())
}

/// One resolved `KEY = item_path` pair.
#[derive(Debug, Clone, PartialEq, Eq)]
pub struct ResolvedPair {
    /// The expanded env label that produced this pair.
    pub env_label: String,
    /// The environment variable key.
    pub key: String,
    /// The store item path the value comes from.
    pub item_path: String,
}

impl ResolvedPair {
    pub open spec fn view(&self) -> (Seq<char>, Seq<char>, Seq<char>) {
        (self.env_label@, self.key@, self.item_path@)
    }
}

/// A soft warning attached to a resolution result.
#[derive(Debug, Clone, PartialEq, Eq)]
pub struct ResolutionWarning {
    pub env_label: String,
    pub message: String,
}

impl ResolutionWarning {
    pub open spec fn view(&self) -> (Seq<char>, Seq<char>) {
        (self.env_label@, self.message@)
    }
}

/// Pairs and warnings of a resolution.
#[derive(Debug, Clone, PartialEq, Eq)]
pub struct ResolutionOutput {
    pub pairs: Vec<ResolvedPair>,
    pub warnings: Vec<ResolutionWarning>,
}

pub type PairV = (Seq<char>, Seq<char>, Seq<char>);

pub type WarnV = (Seq<char>, Seq<char>);

impl ResolutionOutput {
    pub open spec fn view(&self) -> (Seq<PairV>, Seq<WarnV>) {
        (
            self.pairs@.map_values(|p: ResolvedPair| p.view()),
            self.warnings@.map_values(|w: ResolutionWarning| w.view()),
        )
    }
}

// ── Spec: brace expansion ────────────────────────────────────────────────

/// Index of the first `c` in `s`, or `s.len()` when absent.
pub open spec fn index_of(s: Seq<char>, c: char) -> int
    decreases s.len(),
{
    if s.len() == 0 {
        0
    } else if s[0] == c {
        0
    } else {
        1 + index_of(s.drop_first(), c)
    }
}

/// Unicode white space, as `char::is_whitespace` reports it.
pub open spec fn is_white(c: char) -> bool {
    ||| c == ' '
    ||| c == '\t'
    ||| c == '\n'
    ||| c == '\r'
    ||| c == '\u{0B}'
    ||| c == '\u{0C}'
    ||| c == '\u{85}'
    ||| c == '\u{A0}'
    ||| c == '\u{1680}'
    ||| ('\u{2000}' <= c && c <= '\u{200A}')
    ||| c == '\u{2028}'
    ||| c == '\u{2029}'
    ||| c == '\u{202F}'
    ||| c == '\u{205F}'
    ||| c == '\u{3000}'
}

/// `s` without leading white space.
pub open spec fn trim_start(s: Seq<char>) -> Seq<char>
    decreases s.len(),
{
    if s.len() > 0 && is_white(s[0]) {
        trim_start(s.drop_first())
    } else {
        s
    }
}

/// `s` without trailing white space.
pub open spec fn trim_end(s: Seq<char>) -> Seq<char>
    decreases s.len(),
{
    if s.len() > 0 && is_white(s.last()) {
        trim_end(s.drop_last())
    } else {
        s
    }
}

/// `s` without leading or trailing white space (`str::trim`).
pub open spec fn trim(s: Seq<char>) -> Seq<char> {
    trim_end(trim_start(s))
}

/// The trimmed, non-empty values of a comma list.
pub open spec fn brace_values(parts: Seq<Seq<char>>) -> Seq<Seq<char>>
    decreases parts.len(),
{
    if parts.len() == 0 {
        Seq::empty()
    } else {
        let rest = brace_values(parts.drop_last());
        let v = trim(parts.last());
        if v.len() == 0 {
            rest
        } else {
            rest.push(v)
        }
    }
}

/// The concrete `(label, value)` instances of a label; only the first
/// `{...}` group expands, and a label without one stands for itself with an
/// empty value.
pub open spec fn expand_spec(label: Seq<char>) -> Seq<(Seq<char>, Seq<char>)> {
    let open = index_of(label, '{');
    let after = label.skip(open);
    let close = open + index_of(after, '}');
    let body = label.subrange(open + 1, close);
    if open == label.len() || close == label.len() || body.len() == 0 {
        seq![(label, Seq::<char>::empty())]
    } else {
        let prefix = label.take(open);
        let suffix = label.skip(close + 1);
        brace_values(split(body, ',')).map_values(|v: Seq<char>| (prefix + v + suffix, v))
    }
}

// ── Spec: keys and placeholders ──────────────────────────────────────────

/// `{}` replaced by `value`.
pub open spec fn subst_spec(s: Seq<char>, value: Seq<char>) -> Seq<char> {
    replace(s, seq!['{', '}'], value)
}

/// Default env-var key of an item name: `/` becomes `__`, `-` becomes `_`,
/// then ASCII upper case.
pub open spec fn derive_key_spec(name: Seq<char>) -> Seq<char> {
    upper_seq(replace(replace(name, seq!['/'], seq!['_', '_']), seq!['-'], seq!['_']))
}

/// The last non-empty piece of a list, if any.
pub open spec fn last_nonempty(parts: Seq<Seq<char>>) -> Option<Seq<char>>
    decreases parts.len(),
{
    if parts.len() == 0 {
        None
    } else if parts.last().len() > 0 {
        Some(parts.last())
    } else {
        last_nonempty(parts.drop_last())
    }
}

/// The last non-empty `/` segment of a path, or the path itself when it has
/// none.
pub open spec fn last_component_spec(path: Seq<char>) -> Seq<char> {
    match last_nonempty(split(path, '/')) {
        Some(s) => s,
        None => path,
    }
}

/// Whether `pat` occurs in `s`.
pub open spec fn has_infix(s: Seq<char>, pat: Seq<char>) -> bool {
    exists|i: int| 0 <= i && i + pat.len() <= s.len() && #[trigger] s.subrange(i, i + pat.len()) == pat
}

pub open spec fn in_items(items: Seq<Seq<char>>, p: Seq<char>) -> bool {
    exists|i: int| 0 <= i < items.len() && items[i] == p
}

// ── Spec: resolution ─────────────────────────────────────────────────────

/// Pairs produced by a glob: every item starting with `needle`, keyed by the
/// rest of its path.
pub open spec fn glob_pairs(label: Seq<char>, needle: Seq<char>, items: Seq<Seq<char>>) -> Seq<
    PairV,
>
    decreases items.len(),
{
    if items.len() == 0 {
        Seq::empty()
    } else {
        let rest = glob_pairs(label, needle, items.drop_last());
        let it = items.last();
        if has_prefix(it, needle) {
            rest.push((label, derive_key_spec(it.skip(needle.len() as int)), it))
        } else {
            rest
        }
    }
}

pub open spec fn not_found_msg(r: Seq<char>) -> Seq<char> {
    "item '"@ + r + "' not found in store"@
}

pub open spec fn alias_not_found_msg(r: Seq<char>) -> Seq<char> {
    "aliased item '"@ + r + "' not found in store"@
}

pub open spec fn glob_none_msg(p: Seq<char>) -> Seq<char> {
    "glob '"@ + p + "/*' matched no items"@
}

pub open spec fn tag_preview_msg(t: Seq<char>) -> Seq<char> {
    "tag selector 'tag:"@ + t + "' is not previewable here — see `himitsu codegen <env>` for the resolved tree"@
}

pub open spec fn alias_tag_preview_msg(k: Seq<char>, t: Seq<char>) -> Seq<char> {
    "alias '"@ + k + ": tag:"@ + t + "' is not previewable here — see `himitsu codegen <env>` for the resolved tree"@
}

/// What one entry contributes.
pub open spec fn entry_out(
    label: Seq<char>,
    val: Seq<char>,
    e: EntryView,
    items: Seq<Seq<char>>,
) -> (Seq<PairV>, Seq<WarnV>) {
    match e {
        EntryView::Single(p) => {
            let r = subst_spec(p, val);
            let pair = (label, derive_key_spec(last_component_spec(r)), r);
            if in_items(items, r) {
                (seq![pair], Seq::empty())
            } else if val.len() == 0 && !has_infix(r, seq!['{', '}']) {
                (seq![pair], seq![(label, not_found_msg(r))])
            } else {
                (Seq::empty(), seq![(label, not_found_msg(r))])
            }
        },
        EntryView::Alias(k, p) => {
            let r = subst_spec(p, val);
            let pair = (label, subst_spec(k, val), r);
            if in_items(items, r) {
                (seq![pair], Seq::empty())
            } else {
                (seq![pair], seq![(label, alias_not_found_msg(r))])
            }
        },
        EntryView::Glob(p) => {
            let rp = subst_spec(p, val);
            let ps = glob_pairs(label, rp.push('/'), items);
            if ps.len() > 0 {
                (ps, Seq::empty())
            } else {
                (Seq::empty(), seq![(label, glob_none_msg(rp))])
            }
        },
        EntryView::Tag(t) => (Seq::empty(), seq![(label, tag_preview_msg(t))]),
        EntryView::AliasTag(k, t) => (Seq::empty(), seq![(label, alias_tag_preview_msg(k, t))]),
    }
}

/// What a list of entries contributes, in order.
pub open spec fn entries_out(
    label: Seq<char>,
    val: Seq<char>,
    es: Seq<EntryView>,
    items: Seq<Seq<char>>,
) -> (Seq<PairV>, Seq<WarnV>)
    decreases es.len(),
{
    if es.len() == 0 {
        (Seq::empty(), Seq::empty())
    } else {
        let a = entries_out(label, val, es.drop_last(), items);
        let b = entry_out(label, val, es.last(), items);
        (a.0 + b.0, a.1 + b.1)
    }
}

/// What every expansion of one env label contributes, in order.
pub open spec fn expansions_out(
    exps: Seq<(Seq<char>, Seq<char>)>,
    es: Seq<EntryView>,
    items: Seq<Seq<char>>,
) -> (Seq<PairV>, Seq<WarnV>)
    decreases exps.len(),
{
    if exps.len() == 0 {
        (Seq::empty(), Seq::empty())
    } else {
        let a = expansions_out(exps.drop_last(), es, items);
        let b = entries_out(exps.last().0, exps.last().1, es, items);
        (a.0 + b.0, a.1 + b.1)
    }
}

/// What every env of a map contributes, envs in key order.
pub open spec fn envs_out(envs: Seq<(Seq<char>, Vec<EnvEntry>)>, items: Seq<Seq<char>>) -> (
    Seq<PairV>,
    Seq<WarnV>,
)
    decreases envs.len(),
{
    if envs.len() == 0 {
        (Seq::empty(), Seq::empty())
    } else {
        let a = envs_out(envs.drop_last(), items);
        let b = expansions_out(expand_spec(envs.last().0), entries_view(envs.last().1@), items);
        (a.0 + b.0, a.1 + b.1)
    }
}

// ── Lemmas ───────────────────────────────────────────────────────────────

proof fn lemma_index_of(s: Seq<char>, c: char, i: int)
    requires
        0 <= i <= s.len(),
        i < s.len() ==> s[i] == c,
        forall|j: int| 0 <= j < i ==> s[j] != c,
    ensures
        index_of(s, c) == i,
    decreases i,
{
    if i > 0 {
        assert forall|j: int| 0 <= j < i - 1 implies s.drop_first()[j] != c by {
            assert(s.drop_first()[j] == s[j + 1]);
        }
        lemma_index_of(s.drop_first(), c, i - 1);
    }
}

// ── Implementation ───────────────────────────────────────────────────────

pub fn is_white_char(c: char) -> (r: bool)
    ensures
        r == is_white(c),
{
    c == ' ' || c == '\t' || c == '\n' || c == '\r' || c == '\u{0B}' || c == '\u{0C}' || c
        == '\u{85}' || c == '\u{A0}' || c == '\u{1680}' || ('\u{2000}' <= c && c <= '\u{200A}')
        || c == '\u{2028}' || c == '\u{2029}' || c == '\u{202F}' || c == '\u{205F}' || c
        == '\u{3000}'
}

/// `s` without leading or trailing white space.
pub fn trim_chars(s: &[char]) -> (r: Vec<char>)
    ensures
        r@ == trim(s@),
{
    let mut a: usize = 0;
    assert(s@.skip(0) == s@);
    while a < s.len() && is_white_char(s[a])
        invariant
            a <= s.len(),
            trim_start(s@) == trim_start(s@.skip(a as int)),
        decreases s.len() - a,
    {
        assert(s@.skip(a as int).drop_first() == s@.skip(a + 1));
        a += 1;
    }
    let mut b: usize = s.len();
    assert(s@.skip(a as int) == s@.subrange(a as int, b as int));
    while b > a && is_white_char(s[b - 1])
        invariant
            a <= b <= s.len(),
            trim(s@) == trim_end(s@.subrange(a as int, b as int)),
        decreases b - a,
    {
        assert(s@.subrange(a as int, b as int).drop_last() == s@.subrange(a as int, b - 1));
        b -= 1;
    }
    slice_of(s, a, b)
}

fn single_expansion(cs: &[char]) -> (r: Vec<(String, String)>)
    ensures
        r@.map_values(|e: (String, String)| (e.0@, e.1@)) == seq![(cs@, Seq::<char>::empty())],
{
    let mut v: Vec<(String, String)> = Vec::new();
    v.push((string_of(cs), String::new()));
    assert(v@.map_values(|e: (String, String)| (e.0@, e.1@)) =~= seq![(cs@, Seq::<char>::empty())]);
    v
}

/// Expands a brace-parameterized env label into `(label, value)` instances.
pub fn expand_brace_label(label: &str) -> (r: Vec<(String, String)>)
    ensures
        r@.map_values(|e: (String, String)| (e.0@, e.1@)) == expand_spec(label@),
{
    let cs = chars_of(label);
    let open = match find_char(&cs, '{') {
        Some(i) => i,
        None => {
            proof {
                lemma_index_of(cs@, '{', cs@.len() as int);
            }
            return single_expansion(&cs);
        },
    };
    proof {
        lemma_index_of(cs@, '{', open as int);
    }
    let after = slice_of(&cs, open, cs.len());
    let close_rel = match find_char(&after, '}') {
        Some(i) => i,
        None => {
            proof {
                lemma_index_of(after@, '}', after@.len() as int);
            }
            return single_expansion(&cs);
        },
    };
    proof {
        lemma_index_of(after@, '}', close_rel as int);
    }
    assert(after@ == cs@.skip(open as int));
    let close = open + close_rel;
    let body = slice_of(&cs, open + 1, close);
    if body.len() == 0 {
        return single_expansion(&cs);
    }
    let prefix = slice_of(&cs, 0, open);
    let suffix = slice_of(&cs, close + 1, cs.len());
    assert(prefix@ == cs@.take(open as int));
    assert(suffix@ == cs@.skip(close + 1));
    let parts = split_chars(&body, ',');
    let ghost pv = vec_views(parts@);
    let ghost f = |v: Seq<char>| (prefix@ + v + suffix@, v);
    let mut out: Vec<(String, String)> = Vec::new();
    let mut i: usize = 0;
    while i < parts.len()
        invariant
            i <= parts.len(),
            pv == vec_views(parts@),
            f == (|v: Seq<char>| (prefix@ + v + suffix@, v)),
            out@.map_values(|e: (String, String)| (e.0@, e.1@)) == brace_values(
                pv.take(i as int),
            ).map_values(f),
        decreases parts.len() - i,
    {
        let v = trim_chars(&parts[i]);
        assert(pv.take(i + 1).drop_last() == pv.take(i as int));
        assert(pv.take(i + 1).last() == parts@[i as int]@);
        if v.len() > 0 {
            let mut full: Vec<char> = Vec::new();
            crate::text::extend(&mut full, &prefix);
            crate::text::extend(&mut full, &v);
            crate::text::extend(&mut full, &suffix);
            let ghost before = out@;
            out.push((string_of(&full), string_of(&v)));
            assert(out@.map_values(|e: (String, String)| (e.0@, e.1@)) =~= before.map_values(
                |e: (String, String)| (e.0@, e.1@),
            ).push((full@, v@)));
            assert(brace_values(pv.take(i + 1)).map_values(f) =~= brace_values(
                pv.take(i as int),
            ).map_values(f).push(f(v@)));
        }
        i += 1;
    }
    assert(pv.take(parts.len() as int) == pv);
    out
}

/// Substitutes `{}` with `value` in `s`.
pub fn substitute_placeholder(s: &str, value: &str) -> (r: String)
    ensures
        r@ == subst_spec(s@, value@),
{
    let sc = chars_of(s);
    let vc = chars_of(value);
    let pat = ['{', '}'];
    assert(pat@ == seq!['{', '}']);
    string_of(&replace_chars(&sc, &pat, &vc))
}

fn subst_chars(s: &[char], value: &[char]) -> (r: Vec<char>)
    ensures
        r@ == subst_spec(s@, value@),
{
    let pat = ['{', '}'];
    assert(pat@ == seq!['{', '}']);
    replace_chars(s, &pat, value)
}

/// Derives the default env-var key from an item name.
pub fn derive_env_key(item_name: &str) -> (r: String)
    ensures
        r@ == derive_key_spec(item_name@),
{
    let cs = chars_of(item_name);
    string_of(&derive_key_chars(&cs))
}

/// Derives the default env-var key from an item name given as characters.
pub fn derive_key_chars(cs: &[char]) -> (r: Vec<char>)
    ensures
        r@ == derive_key_spec(cs@),
{
    let slash = ['/'];
    let dunder = ['_', '_'];
    let dash = ['-'];
    let under = ['_'];
    assert(slash@ == seq!['/'] && dunder@ == seq!['_', '_'] && dash@ == seq!['-'] && under@
        == seq!['_']);
    let a = replace_chars(cs, &slash, &dunder);
    let b = replace_chars(&a, &dash, &under);
    upper_chars(&b)
}

/// The last non-empty `/` segment of a path, or the path itself.
pub fn last_component(path: &[char]) -> (r: Vec<char>)
    ensures
        r@ == last_component_spec(path@),
{
    let parts = split_chars(path, '/');
    let ghost pv = vec_views(parts@);
    let mut i: usize = parts.len();
    assert(pv.take(parts.len() as int) == pv);
    while i > 0 && parts[i - 1].len() == 0
        invariant
            i <= parts.len(),
            pv == vec_views(parts@),
            last_nonempty(pv) == last_nonempty(pv.take(i as int)),
        decreases i,
    {
        assert(pv.take(i as int).last() == parts@[i - 1]@);
        assert(pv.take(i as int).drop_last() == pv.take(i - 1));
        i -= 1;
    }
    if i == 0 {
        slice_of(path, 0, path.len())
    } else {
        assert(pv.take(i as int).last() == parts@[i - 1]@);
        slice_of(&parts[i - 1], 0, parts[i - 1].len())
    }
}

fn contains_braces(s: &[char]) -> (r: bool)
    ensures
        r == has_infix(s@, seq!['{', '}']),
{
    let pat = ['{', '}'];
    assert(pat@ == seq!['{', '}']);
    let mut i: usize = 0;
    while i < s.len()
        invariant
            i <= s.len(),
            pat@ == seq!['{', '}'],
            forall|j: int| 0 <= j < i && j + 2 <= s.len() ==> #[trigger] s@.subrange(j, j + 2) != pat@,
        decreases s.len() - i,
    {
        if crate::text::starts_with_at(s, i, &pat) {
            assert(s@.skip(i as int).take(2) == s@.subrange(i as int, i + 2));
            return true;
        }
        assert(i + 2 <= s.len() ==> s@.skip(i as int).take(2) == s@.subrange(i as int, i + 2));
        i += 1;
    }
    false
}

pub fn in_items_exec(items: &[String], p: &[char]) -> (r: bool)
    ensures
        r == in_items(views(items@), p@),
{
    let mut i: usize = 0;
    while i < items.len()
        invariant
            i <= items.len(),
            forall|j: int| 0 <= j < i ==> items@[j]@ != p@,
        decreases items.len() - i,
    {
        let c = chars_of(items[i].as_str());
        if slice_eq(&c, p) {
            assert(views(items@)[i as int] == p@);
            return true;
        }
        i += 1;
    }
    assert forall|j: int| 0 <= j < views(items@).len() implies views(items@)[j] != p@ by {
        assert(views(items@)[j] == items@[j]@);
    }
    false
}

fn message(a: &str, x: &[char], b: &str) -> (r: String)
    ensures
        r@ == a@ + x@ + b@,
{
    let mut m = String::new();
    push_str(&mut m, a);
    let xs = string_of(x);
    push_str(&mut m, xs.as_str());
    push_str(&mut m, b);
    m
}

fn warn(label: &[char], msg: String) -> (r: ResolutionWarning)
    ensures
        r.view() == (label@, msg@),
{
    ResolutionWarning { env_label: string_of(label), message: msg }
}

fn pair(label: &[char], key: &[char], path: &[char]) -> (r: ResolvedPair)
    ensures
        r.view() == (label@, key@, path@),
{
    ResolvedPair { env_label: string_of(label), key: string_of(key), item_path: string_of(path) }
}

/// Resolves one entry, appending its pairs and warnings to `out`.
fn resolve_entry(
    label: &[char],
    val: &[char],
    entry: &EnvEntry,
    items: &[String],
    out: &mut ResolutionOutput,
)
    ensures
        final(out).view().0 == old(out).view().0 + entry_out(
            label@,
            val@,
            entry.view(),
            views(items@),
        ).0,
        final(out).view().1 == old(out).view().1 + entry_out(
            label@,
            val@,
            entry.view(),
            views(items@),
        ).1,
{
    let ghost p0 = out.view().0;
    let ghost w0 = out.view().1;
    match entry {
        EnvEntry::Single(path) => {
            let pc = chars_of(path.as_str());
            let resolved = subst_chars(&pc, val);
            let last = last_component(&resolved);
            let key = derive_key_chars(&last);
            if in_items_exec(items, &resolved) {
                out.pairs.push(pair(label, &key, &resolved));
                assert(out.view().0 =~= p0 + seq![(label@, key@, resolved@)]);
                assert(out.view().1 =~= w0 + Seq::<WarnV>::empty());
            } else if val.len() == 0 && !contains_braces(&resolved) {
                out.pairs.push(pair(label, &key, &resolved));
                let m = message("item '", &resolved, "' not found in store");
                out.warnings.push(warn(label, m));
                assert(out.view().0 =~= p0 + seq![(label@, key@, resolved@)]);
                assert(out.view().1 =~= w0 + seq![(label@, not_found_msg(resolved@))]);
            } else {
                let m = message("item '", &resolved, "' not found in store");
                out.warnings.push(warn(label, m));
                assert(out.view().0 =~= p0 + Seq::<PairV>::empty());
                assert(out.view().1 =~= w0 + seq![(label@, not_found_msg(resolved@))]);
            }
        },
        EnvEntry::Alias { key, path } => {
            let pc = chars_of(path.as_str());
            let kc = chars_of(key.as_str());
            let resolved = subst_chars(&pc, val);
            let final_key = subst_chars(&kc, val);
            out.pairs.push(pair(label, &final_key, &resolved));
            assert(out.view().0 =~= p0 + seq![(label@, final_key@, resolved@)]);
            if in_items_exec(items, &resolved) {
                assert(out.view().1 =~= w0 + Seq::<WarnV>::empty());
            } else {
                let m = message("aliased item '", &resolved, "' not found in store");
                out.warnings.push(warn(label, m));
                assert(out.view().1 =~= w0 + seq![(label@, alias_not_found_msg(resolved@))]);
            }
        },
        EnvEntry::Glob(prefix) => {
            let pc = chars_of(prefix.as_str());
            let rp = subst_chars(&pc, val);
            let mut needle = slice_of(&rp, 0, rp.len());
            needle.push('/');
            let ghost pv = views(items@);
            let mut i: usize = 0;
            let mut found: usize = 0;
            while i < items.len()
                invariant
                    i <= items.len(),
                    pv == views(items@),
                    needle@ == rp@.push('/'),
                    out.view().0 == p0 + glob_pairs(label@, needle@, pv.take(i as int)),
                    out.view().1 == w0,
                    found == glob_pairs(label@, needle@, pv.take(i as int)).len(),
                    found <= i,
                decreases items.len() - i,
            {
                let ic = chars_of(items[i].as_str());
                assert(pv.take(i + 1).drop_last() == pv.take(i as int));
                assert(pv.take(i + 1).last() == ic@);
                if starts_with(&ic, &needle) {
                    let tail = slice_of(&ic, needle.len(), ic.len());
                    assert(tail@ == ic@.skip(needle@.len() as int));
                    let key = derive_key_chars(&tail);
                    let ghost before = out.view().0;
                    out.pairs.push(pair(label, &key, &ic));
                    assert(out.view().0 =~= before.push((label@, key@, ic@)));
                    found += 1;
                }
                i += 1;
            }
            assert(pv.take(items.len() as int) == pv);
            if found == 0 {
                let m = message("glob '", &rp, "/*' matched no items");
                out.warnings.push(warn(label, m));
                assert(out.view().0 =~= p0 + Seq::<PairV>::empty());
                assert(out.view().1 =~= w0 + seq![(label@, glob_none_msg(rp@))]);
            } else {
                assert(out.view().1 =~= w0 + Seq::<WarnV>::empty());
            }
        },
        EnvEntry::Tag(t) => {
            let tc = chars_of(t.as_str());
            let m = message(
                "tag selector 'tag:",
                &tc,
                "' is not previewable here — see `himitsu codegen <env>` for the resolved tree",
            );
            out.warnings.push(warn(label, m));
            assert(out.view().0 =~= p0 + Seq::<PairV>::empty());
            assert(out.view().1 =~= w0 + seq![(label@, tag_preview_msg(tc@))]);
        },
        EnvEntry::AliasTag { key, tag } => {
            let kc = chars_of(key.as_str());
            let tc = chars_of(tag.as_str());
            let mut m = message("alias '", &kc, ": tag:");
            let ts = string_of(&tc);
            push_str(&mut m, ts.as_str());
            push_str(
                &mut m,
                "' is not previewable here — see `himitsu codegen <env>` for the resolved tree",
            );
            assert(m@ =~= alias_tag_preview_msg(kc@, tc@));
            out.warnings.push(warn(label, m));
            assert(out.view().0 =~= p0 + Seq::<PairV>::empty());
            assert(out.view().1 =~= w0 + seq![(label@, alias_tag_preview_msg(kc@, tc@))]);
        },
    }
}

fn resolve_entries(
    label: &[char],
    val: &[char],
    entries: &[EnvEntry],
    items: &[String],
    out: &mut ResolutionOutput,
)
    ensures
        final(out).view().0 == old(out).view().0 + entries_out(
            label@,
            val@,
            entries_view(entries@),
            views(items@),
        ).0,
        final(out).view().1 == old(out).view().1 + entries_out(
            label@,
            val@,
            entries_view(entries@),
            views(items@),
        ).1,
{
    let ghost ev = entries_view(entries@);
    let ghost p0 = out.view().0;
    let ghost w0 = out.view().1;
    let mut i: usize = 0;
    while i < entries.len()
        invariant
            i <= entries.len(),
            ev == entries_view(entries@),
            out.view().0 == p0 + entries_out(label@, val@, ev.take(i as int), views(items@)).0,
            out.view().1 == w0 + entries_out(label@, val@, ev.take(i as int), views(items@)).1,
        decreases entries.len() - i,
    {
        assert(ev.take(i + 1).drop_last() == ev.take(i as int));
        assert(ev.take(i + 1).last() == entries@[i as int].view());
        resolve_entry(label, val, &entries[i], items, out);
        i += 1;
    }
    assert(ev.take(entries.len() as int) == ev);
}

/// Resolves one env definition against the available item names.
pub fn resolve_concrete_env(
    label: &str,
    expansion_value: &str,
    entries: &[EnvEntry],
    available_items: &[String],
) -> (r: ResolutionOutput)
    ensures
        r.view() == entries_out(
            label@,
            expansion_value@,
            entries_view(entries@),
            views(available_items@),
        ),
{
    let lc = chars_of(label);
    let vc = chars_of(expansion_value);
    let mut out = ResolutionOutput { pairs: Vec::new(), warnings: Vec::new() };
    assert(out.view().0 =~= Seq::<PairV>::empty() && out.view().1 =~= Seq::<WarnV>::empty());
    resolve_entries(&lc, &vc, entries, available_items, &mut out);
    assert(out.view().0 =~= entries_out(
        label@,
        expansion_value@,
        entries_view(entries@),
        views(available_items@),
    ).0);
    assert(out.view().1 =~= entries_out(
        label@,
        expansion_value@,
        entries_view(entries@),
        views(available_items@),
    ).1);
    out
}

/// Resolves every env of the map, expanding brace labels; envs are taken in
/// key order and their expansions in order.
pub fn resolve_all(envs: &StrMap<Vec<EnvEntry>>, available_items: &[String]) -> (r:
    ResolutionOutput)
    ensures
        r.view() == envs_out(envs.entries_view(), views(available_items@)),
{
    let mut out = ResolutionOutput { pairs: Vec::new(), warnings: Vec::new() };
    let ghost ev = envs.entries_view();
    let ghost iv = views(available_items@);
    let mut i: usize = 0;
    while i < envs.len()
        invariant
            i <= ev.len(),
            ev == envs.entries_view(),
            iv == views(available_items@),
            out.view() == envs_out(ev.take(i as int), iv),
        decreases ev.len() - i,
    {
        let label = envs.key_at(i);
        let entries = envs.value_at(i);
        let exps = expand_brace_label(label.as_str());
        let ghost xv = exps@.map_values(|e: (String, String)| (e.0@, e.1@));
        let ghost before = out.view();
        let mut j: usize = 0;
        while j < exps.len()
            invariant
                j <= exps.len(),
                xv == exps@.map_values(|e: (String, String)| (e.0@, e.1@)),
                out.view().0 == before.0 + expansions_out(
                    xv.take(j as int),
                    entries_view(entries@),
                    iv,
                ).0,
                out.view().1 == before.1 + expansions_out(
                    xv.take(j as int),
                    entries_view(entries@),
                    iv,
                ).1,
                iv == views(available_items@),
            decreases exps.len() - j,
        {
            assert(xv.take(j + 1).drop_last() == xv.take(j as int));
            assert(xv.take(j + 1).last() == (exps@[j as int].0@, exps@[j as int].1@));
            let lc = chars_of(exps[j].0.as_str());
            let vc = chars_of(exps[j].1.as_str());
            resolve_entries(&lc, &vc, entries.as_slice(), available_items, &mut out);
            assert(out.view().0 =~= before.0 + expansions_out(
                xv.take(j + 1),
                entries_view(entries@),
                iv,
            ).0);
            assert(out.view().1 =~= before.1 + expansions_out(
                xv.take(j + 1),
                entries_view(entries@),
                iv,
            ).1);
            j += 1;
        }
        assert(xv.take(exps.len() as int) == xv);
        assert(ev.take(i + 1).drop_last() == ev.take(i as int));
        assert(ev.take(i + 1).last() == ev[i as int]);
        assert(out.view().0 =~= envs_out(ev.take(i + 1), iv).0);
        assert(out.view().1 =~= envs_out(ev.take(i + 1), iv).1);
        i += 1;
    }
    assert(ev.take(ev.len() as int) == ev);
    out
}

// ── Laws of glob entries ─────────────────────────────────────────────────

/// The pairs of a glob needle are exactly the items under it, in order:
/// each pair names an item starting with the needle, keyed by the rest of
/// its path, and every such item has a pair.
proof fn lemma_glob_pairs_exact(label: Seq<char>, needle: Seq<char>, items: Seq<Seq<char>>)
    ensures
        forall|k: int|
            0 <= k < glob_pairs(label, needle, items).len() ==> {
                let q = #[trigger] glob_pairs(label, needle, items)[k];
                &&& items.contains(q.2)
                &&& has_prefix(q.2, needle)
                &&& q.0 == label
                &&& q.1 == derive_key_spec(q.2.skip(needle.len() as int))
            },
        forall|i: int|
            0 <= i < items.len() && has_prefix(#[trigger] items[i], needle) ==> glob_pairs(
                label,
                needle,
                items,
            ).map_values(|q: PairV| q.2).contains(items[i]),
    decreases items.len(),
{
    if items.len() > 0 {
        let init = items.drop_last();
        lemma_glob_pairs_exact(label, needle, init);
        let rest = glob_pairs(label, needle, init);
        let r = glob_pairs(label, needle, items);
        assert forall|k: int| 0 <= k < r.len() implies {
            let q = #[trigger] r[k];
            &&& items.contains(q.2)
            &&& has_prefix(q.2, needle)
            &&& q.0 == label
            &&& q.1 == derive_key_spec(q.2.skip(needle.len() as int))
        } by {
            if k < rest.len() {
                assert(r[k] == rest[k]);
                let m = choose|m: int| 0 <= m < init.len() && init[m] == rest[k].2;
                assert(items[m] == init[m]);
            } else {
                assert(items[items.len() - 1] == items.last());
            }
        }
        assert forall|i: int| 0 <= i < items.len() && has_prefix(#[trigger] items[i], needle) implies r.map_values(
            |q: PairV| q.2,
        ).contains(items[i]) by {
            if i < init.len() {
                assert(init[i] == items[i]);
                let rv = rest.map_values(|q: PairV| q.2);
                assert(rv.contains(init[i]));
                let k = choose|k: int| 0 <= k < rv.len() && #[trigger] rv[k] == init[i];
                assert(r.map_values(|q: PairV| q.2)[k] == rest[k].2);
            } else {
                assert(r.map_values(|q: PairV| q.2)[rest.len() as int] == items[i]);
            }
        }
    }
}

/// A glob entry `p` (after substitution) contributes exactly the items
/// under `p/`: each pair is an available item starting with `p` and `/`,
/// keyed by the rest of its path, and every such item is contributed; when
/// there is none, the entry contributes nothing and warns.
pub proof fn lemma_glob_entry_exact(label: Seq<char>, val: Seq<char>, p: Seq<char>, items: Seq<Seq<char>>)
    ensures
        ({
            let rp = subst_spec(p, val);
            let out = entry_out(label, val, EntryView::Glob(p), items);
            &&& forall|k: int|
                0 <= k < out.0.len() ==> {
                    let q = #[trigger] out.0[k];
                    &&& items.contains(q.2)
                    &&& has_prefix(q.2, rp + seq!['/'])
                    &&& q.0 == label
                    &&& q.1 == derive_key_spec(q.2.skip(rp.len() as int + 1))
                }
            &&& forall|i: int|
                0 <= i < items.len() && has_prefix(#[trigger] items[i], rp + seq!['/'])
                    ==> out.0.map_values(|q: PairV| q.2).contains(items[i])
            &&& out.0.len() == 0 ==> out.1 == seq![(label, glob_none_msg(rp))]
        }),
{
    let rp = subst_spec(p, val);
    let needle = rp.push('/');
    assert(needle =~= rp + seq!['/']);
    lemma_glob_pairs_exact(label, needle, items);
}

} // verus!
