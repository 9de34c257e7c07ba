//! Resolution of a preset env label into a nested, sorted tree of secret
//! references.
//!
//! A concrete label (`foo/bar`) gives a flat branch keyed by the entries
//! themselves: the last segment of a `Single` path, the explicit key of an
//! `Alias`, the last segment of every secret under a `Glob` prefix or
//! carrying a `Tag`. A wildcard label (`foo/*`) binds `$1` to a path segment
//! of the secrets that match an entry's path, and resolves every entry once
//! per discovered value, under a sub-branch of that name. The tree is rooted
//! at the label's concrete prefix: `foo/bar` gives `{foo: {bar: ..}}`.
//!
//! Tags are read through a lookup supplied by the caller, one answer per
//! secret; a failed lookup aborts the whole resolution.
use vstd::prelude::*;

use crate::env_dsl::{entries_view, in_items, in_items_exec, last_nonempty, EntryView, EnvEntry};
use crate::error::HimitsuError;
use crate::labels::{
    digit_run, is_wildcard_label, label_prefix_segments, lemma_digit_run_bound, lemma_digit_run_of,
    prefix_segments,
    valid_env_label, validate_env_label,
};
use crate::strmap::{
    insert_sorted, keys_of, lemma_insert_sorted_keeps_order, lemma_insert_values,
    lemma_lookup_insert_other, lemma_lookup_insert_same, lemma_sorted_extensional,
    lemma_map_vals_insert, lemma_map_vals_sorted, lemma_value_decreases, lookup, map_vals, sorted,
    StrMap,
};
use crate::text::{
    chars_of, decimal, decimal_chars, has_prefix, has_suffix, is_ascii_digit, push_str, slice_eq,
    split, split_chars, starts_with, string_of, vec_views, views,
};

verus! {

// ── Trees ────────────────────────────────────────────────────────────────

/// A node of a resolved env tree.
#[derive(Debug, PartialEq, Eq)]
pub enum EnvNode {
    /// Terminal reference to a secret in the store.
    Leaf { secret_path: String },
    /// Nested map, sorted by key.
    Branch(StrMap<EnvNode>),
}

/// The mathematical shape of a tree.
pub enum TreeV {
    Leaf(Seq<char>),
    Branch(Seq<(Seq<char>, TreeV)>),
}

impl EnvNode {
    /// The tree as nested association lists.
    pub open spec fn view(&self) -> TreeV
        decreases self,
    {
        match self {
            EnvNode::Leaf { secret_path } => TreeV::Leaf(secret_path@),
            EnvNode::Branch(m) => {
                let ev = m.entries_view();
                proof {
                    assert forall|i: int| 0 <= i < ev.len() implies decreases_to!(m => ev[i].1) by {
                        lemma_value_decreases(*m, i);
                    }
                }
                TreeV::Branch(
                    Seq::new(
                        ev.len(),
                        |i: int|
                            (
                                ev[i].0,
                                if 0 <= i < ev.len() {
                                    ev[i].1.view()
                                } else {
                                    TreeV::Leaf(Seq::empty())
                                },
                            ),
                    ),
                )
            },
        }
    }

    /// An empty branch.
    pub fn empty_branch() -> (r: EnvNode)
        ensures
            r@ == TreeV::Branch(Seq::empty()),
    {
        let m = StrMap::new();
        proof {
            lemma_branch_view(m);
        }
        let r = EnvNode::Branch(m);
        assert(vals_view(m.entries_view()) =~= Seq::empty());
        r
    }
}

/// The view of every value of an association list of nodes.
pub open spec fn vals_view(s: Seq<(Seq<char>, EnvNode)>) -> Seq<(Seq<char>, TreeV)> {
    map_vals(s, |n: EnvNode| n.view())
}

/// The view of a branch lists the views of its values.
pub proof fn lemma_branch_view(m: StrMap<EnvNode>)
    ensures
        EnvNode::Branch(m)@ == TreeV::Branch(vals_view(m.entries_view())),
{
    assert(EnvNode::Branch(m)@->Branch_0 =~= vals_view(m.entries_view()));
}

// ── Spec: concrete envs ──────────────────────────────────────────────────

/// Why a resolution fails: an invalid label, a configuration problem with
/// its message, or the tag lookup of the secret at that index.
pub enum Failure {
    BadLabel,
    Config(Seq<char>),
    Lookup(int),
}

/// The tags of each secret, `None` where the lookup failed.
pub type TagRows = Seq<Option<Seq<Seq<char>>>>;

/// The last non-empty `/` segment of a path.
pub open spec fn last_segment_spec(p: Seq<char>) -> Option<Seq<char>> {
    last_nonempty(split(p, '/'))
}

pub open spec fn no_segment_msg(what: Seq<char>, p: Seq<char>) -> Seq<char> {
    what + " '"@ + p + "' has no final segment"@
}

/// Each path inserted under its last segment, in order.
pub open spec fn insert_paths(acc: Seq<(Seq<char>, Seq<char>)>, paths: Seq<Seq<char>>) -> Result<
    Seq<(Seq<char>, Seq<char>)>,
    Failure,
>
    decreases paths.len(),
{
    if paths.len() == 0 {
        Ok(acc)
    } else {
        match insert_paths(acc, paths.drop_last()) {
            Err(f) => Err(f),
            Ok(a) => match last_segment_spec(paths.last()) {
                None => Err(Failure::Config(no_segment_msg("secret path"@, paths.last()))),
                Some(k) => Ok(insert_sorted(a, k, paths.last())),
            },
        }
    }
}

/// The secrets that start with `needle`, in order.
pub open spec fn under_prefix(secrets: Seq<Seq<char>>, needle: Seq<char>) -> Seq<Seq<char>>
    decreases secrets.len(),
{
    if secrets.len() == 0 {
        Seq::empty()
    } else {
        let rest = under_prefix(secrets.drop_last(), needle);
        if has_prefix(secrets.last(), needle) {
            rest.push(secrets.last())
        } else {
            rest
        }
    }
}

/// The secrets whose tags include `tag`, in order; the first failed lookup
/// met on the way ends the walk.
pub open spec fn tagged(tag: Seq<char>, secrets: Seq<Seq<char>>, rows: TagRows) -> Result<
    Seq<Seq<char>>,
    Failure,
>
    decreases secrets.len(),
{
    if secrets.len() == 0 {
        Ok(Seq::empty())
    } else {
        match tagged(tag, secrets.drop_last(), rows) {
            Err(f) => Err(f),
            Ok(hits) => match rows[secrets.len() - 1] {
                None => Err(Failure::Lookup(secrets.len() - 1)),
                Some(ts) => if in_items(ts, tag) {
                    Ok(hits.push(secrets.last()))
                } else {
                    Ok(hits)
                },
            },
        }
    }
}

/// The parts with `sep` between neighbours.
pub open spec fn joined(parts: Seq<Seq<char>>, sep: Seq<char>) -> Seq<char>
    decreases parts.len(),
{
    if parts.len() == 0 {
        Seq::empty()
    } else if parts.len() == 1 {
        parts[0]
    } else {
        joined(parts.drop_last(), sep) + sep + parts.last()
    }
}

pub open spec fn alias_tag_msg(key: Seq<char>, tag: Seq<char>, hits: Seq<Seq<char>>) -> Seq<char> {
    "alias '"@ + key + "' expects exactly one secret tagged '"@ + tag + "', found "@ + decimal(
        hits.len(),
    ) + if hits.len() == 0 {
        Seq::empty()
    } else {
        " ("@ + joined(hits, ", "@) + ")"@
    }
}

/// What one entry adds to the flat map of a concrete env.
pub open spec fn entry_step(
    acc: Seq<(Seq<char>, Seq<char>)>,
    e: EntryView,
    secrets: Seq<Seq<char>>,
    rows: TagRows,
) -> Result<Seq<(Seq<char>, Seq<char>)>, Failure> {
    match e {
        EntryView::Single(p) => match last_segment_spec(p) {
            None => Err(Failure::Config(no_segment_msg("env entry path"@, p))),
            Some(k) => Ok(insert_sorted(acc, k, p)),
        },
        EntryView::Alias(k, p) => Ok(insert_sorted(acc, k, p)),
        EntryView::Glob(pre) => insert_paths(acc, under_prefix(secrets, pre.push('/'))),
        EntryView::Tag(t) => match tagged(t, secrets, rows) {
            Err(f) => Err(f),
            Ok(hits) => insert_paths(acc, hits),
        },
        EntryView::AliasTag(k, t) => match tagged(t, secrets, rows) {
            Err(f) => Err(f),
            Ok(hits) => if hits.len() == 1 {
                Ok(insert_sorted(acc, k, hits[0]))
            } else {
                Err(Failure::Config(alias_tag_msg(k, t, hits)))
            },
        },
    }
}

/// The flat `key -> secret path` map of a concrete env's entries.
pub open spec fn build_spec(es: Seq<EntryView>, secrets: Seq<Seq<char>>, rows: TagRows) -> Result<
    Seq<(Seq<char>, Seq<char>)>,
    Failure,
>
    decreases es.len(),
{
    if es.len() == 0 {
        Ok(Seq::empty())
    } else {
        match build_spec(es.drop_last(), secrets, rows) {
            Err(f) => Err(f),
            Ok(acc) => entry_step(acc, es.last(), secrets, rows),
        }
    }
}

/// A flat map as a list of leaves.
pub open spec fn leaves(l: Seq<(Seq<char>, Seq<char>)>) -> Seq<(Seq<char>, TreeV)> {
    map_vals(l, |p: Seq<char>| TreeV::Leaf(p))
}

// ── Spec: wildcard envs ──────────────────────────────────────────────────

pub open spec fn strip_slash(s: Seq<char>) -> Seq<char> {
    if s.len() > 0 && s[0] == '/' {
        s.drop_first()
    } else {
        s
    }
}

/// Index of the first segment equal to `x`, or -1.
pub open spec fn first_index(segs: Seq<Seq<char>>, x: Seq<char>) -> int
    decreases segs.len(),
{
    if segs.len() == 0 {
        -1
    } else if segs[0] == x {
        0
    } else {
        let r = first_index(segs.drop_first(), x);
        if r < 0 {
            -1
        } else {
            r + 1
        }
    }
}

/// The segment of `secret` bound at position `idx` of the pattern, when the
/// other segments match; a glob pattern needs at least one more segment.
pub open spec fn capture_of(pat: Seq<Seq<char>>, idx: int, secret: Seq<char>, glob: bool) -> Option<
    Seq<char>,
> {
    let ss = split(strip_slash(secret), '/');
    if (glob && ss.len() <= pat.len()) || (!glob && ss.len() != pat.len()) {
        None
    } else if forall|i: int| 0 <= i < pat.len() && i != idx ==> #[trigger] ss[i] == pat[i] {
        Some(ss[idx])
    } else {
        None
    }
}

/// Distinct non-empty values `$1` takes over the secrets, in first-seen order.
pub open spec fn dollar_values(pat: Seq<char>, secrets: Seq<Seq<char>>, glob: bool) -> Seq<
    Seq<char>,
>
    decreases secrets.len(),
{
    let segs = split(strip_slash(pat), '/');
    let idx = first_index(segs, seq!['$', '1']);
    if idx < 0 || secrets.len() == 0 {
        Seq::empty()
    } else {
        let rest = dollar_values(pat, secrets.drop_last(), glob);
        match capture_of(segs, idx, secrets.last(), glob) {
            Some(c) => if c.len() > 0 && !rest.contains(c) {
                rest.push(c)
            } else {
                rest
            },
            None => rest,
        }
    }
}

/// The path pattern of an entry and whether it is a glob; tags have none.
pub open spec fn entry_pattern(e: EntryView) -> Option<(Seq<char>, bool)> {
    match e {
        EntryView::Single(p) => Some((p, false)),
        EntryView::Glob(p) => Some((p, true)),
        EntryView::Alias(_, p) => Some((p, false)),
        EntryView::Tag(_) => None,
        EntryView::AliasTag(_, _) => None,
    }
}

pub open spec fn insert_units(acc: Seq<(Seq<char>, ())>, vals: Seq<Seq<char>>) -> Seq<
    (Seq<char>, ()),
>
    decreases vals.len(),
{
    if vals.len() == 0 {
        acc
    } else {
        insert_sorted(insert_units(acc, vals.drop_last()), vals.last(), ())
    }
}

/// Every value `$1` takes for some entry, as a sorted set.
pub open spec fn capture_set(es: Seq<EntryView>, secrets: Seq<Seq<char>>) -> Seq<(Seq<char>, ())>
    decreases es.len(),
{
    if es.len() == 0 {
        Seq::empty()
    } else {
        let acc = capture_set(es.drop_last(), secrets);
        match entry_pattern(es.last()) {
            None => acc,
            Some(pg) => insert_units(acc, dollar_values(pg.0, secrets, pg.1)),
        }
    }
}

/// `$1` replaced by `v`; other `$N` captures are kept as written.
pub open spec fn subst_dollar(s: Seq<char>, v: Seq<char>) -> Seq<char>
    decreases s.len(),
{
    if s.len() == 0 {
        Seq::empty()
    } else if s[0] == '$' && s.len() > 1 && is_ascii_digit(s[1]) {
        let n = digit_run(s.drop_first()) as int;
        proof {
            lemma_digit_run_bound(s.drop_first());
        }
        (if s.subrange(1, 1 + n) == seq!['1'] {
            v
        } else {
            s.take(1 + n)
        }) + subst_dollar(s.skip(1 + n), v)
    } else {
        seq![s[0]] + subst_dollar(s.drop_first(), v)
    }
}

pub open spec fn subst_entry(e: EntryView, v: Seq<char>) -> EntryView {
    match e {
        EntryView::Single(p) => EntryView::Single(subst_dollar(p, v)),
        EntryView::Glob(p) => EntryView::Glob(subst_dollar(p, v)),
        EntryView::Alias(k, p) => EntryView::Alias(k, subst_dollar(p, v)),
        EntryView::Tag(t) => EntryView::Tag(t),
        EntryView::AliasTag(k, t) => EntryView::AliasTag(k, t),
    }
}

pub open spec fn subst_entries(es: Seq<EntryView>, v: Seq<char>) -> Seq<EntryView> {
    es.map_values(|e: EntryView| subst_entry(e, v))
}

/// One sub-branch per capture, each the entries resolved with `$1` bound.
pub open spec fn children_spec(
    es: Seq<EntryView>,
    caps: Seq<Seq<char>>,
    secrets: Seq<Seq<char>>,
    rows: TagRows,
) -> Result<Seq<(Seq<char>, TreeV)>, Failure>
    decreases caps.len(),
{
    if caps.len() == 0 {
        Ok(Seq::empty())
    } else {
        match children_spec(es, caps.drop_last(), secrets, rows) {
            Err(f) => Err(f),
            Ok(acc) => match build_spec(subst_entries(es, caps.last()), secrets, rows) {
                Err(f) => Err(f),
                Ok(l) => Ok(insert_sorted(acc, caps.last(), TreeV::Branch(leaves(l)))),
            },
        }
    }
}

// ── Spec: the whole resolution ───────────────────────────────────────────

/// `t` nested under one branch per segment, outermost first.
pub open spec fn wrap_spec(segs: Seq<Seq<char>>, t: TreeV) -> TreeV
    decreases segs.len(),
{
    if segs.len() == 0 {
        t
    } else {
        TreeV::Branch(seq![(segs[0], wrap_spec(segs.drop_first(), t))])
    }
}

pub open spec fn unknown_label_msg(target: Seq<char>) -> Seq<char> {
    "unknown env label '"@ + target + "'"@
}

/// The tree an env label resolves to.
pub open spec fn resolve_spec(
    envs: Seq<(Seq<char>, Vec<EnvEntry>)>,
    target: Seq<char>,
    secrets: Seq<Seq<char>>,
    rows: TagRows,
) -> Result<TreeV, Failure> {
    if !valid_env_label(target) {
        Err(Failure::BadLabel)
    } else {
        match lookup(envs, target) {
            None => Err(Failure::Config(unknown_label_msg(target))),
            Some(es) => {
                let ev = entries_view(es@);
                let segs = prefix_segments(target);
                if has_suffix(target, seq!['/', '*']) {
                    match children_spec(ev, keys_of(capture_set(ev, secrets)), secrets, rows) {
                        Err(f) => Err(f),
                        Ok(c) => Ok(wrap_spec(segs, TreeV::Branch(c))),
                    }
                } else {
                    match build_spec(ev, secrets, rows) {
                        Err(f) => Err(f),
                        Ok(l) => Ok(wrap_spec(segs, TreeV::Branch(leaves(l)))),
                    }
                }
            },
        }
    }
}

/// The tags of each lookup answer, `None` for a failed one.
pub open spec fn rows_v(t: Seq<Result<Vec<String>, HimitsuError>>) -> TagRows {
    t.map_values(
        |r: Result<Vec<String>, HimitsuError>|
            match r {
                Ok(v) => Some(views(v@)),
                Err(_) => None,
            },
    )
}

/// `r` is what the resolution `s` describes; a failed lookup `i` is
/// answered with the error `answers[i]` carried.
pub open spec fn outcome_holds(
    r: Result<EnvNode, HimitsuError>,
    s: Result<TreeV, Failure>,
    answers: Seq<Result<Vec<String>, HimitsuError>>,
) -> bool {
    match s {
        Ok(t) => r matches Ok(n) && n@ == t,
        Err(Failure::BadLabel) => r matches Err(e) && e is InvalidConfig,
        Err(Failure::Config(m)) => r matches Err(e) && e is InvalidConfig && e.detail() == m,
        Err(Failure::Lookup(i)) => r matches Err(e) && 0 <= i < answers.len() && answers[i] == Err::<
            Vec<String>,
            HimitsuError,
        >(e),
    }
}

// ── Implementation: concrete envs ────────────────────────────────────────

/// Why an inner step failed: a configuration message, or the index of the
/// failed tag lookup.
enum Fail {
    Config(String),
    Row(usize),
}

/// A row failure names a failed answer.
spec fn row_ok(f: Fail, answers: Seq<Result<Vec<String>, HimitsuError>>) -> bool {
    f matches Fail::Row(i) ==> i < answers.len() && answers[i as int] is Err
}

impl Fail {
    spec fn view(&self) -> Failure {
        match self {
            Fail::Config(m) => Failure::Config(m@),
            Fail::Row(i) => Failure::Lookup(*i as int),
        }
    }
}

/// The last non-empty `/` segment of `path`.
fn last_segment(path: &[char]) -> (r: Option<Vec<char>>)
    ensures
        match r {
            Some(v) => last_segment_spec(path@) == Some(v@),
            None => last_segment_spec(path@) is None,
        },
{
    let parts = split_chars(path, '/');
    let ghost pv = vec_views(parts@);
    let mut i: usize = parts.len();
    assert(pv.take(parts.len() as int) == pv);
    while i > 0 && parts[i - 1].len() == 0
        invariant
            i <= parts.len(),
            pv == vec_views(parts@),
            pv == split(path@, '/'),
            last_nonempty(pv) == last_nonempty(pv.take(i as int)),
        decreases i,
    {
        assert(pv.take(i as int).last() == parts@[i - 1]@);
        assert(pv.take(i as int).drop_last() == pv.take(i - 1));
        i -= 1;
    }
    if i == 0 {
        None
    } else {
        assert(pv.take(i as int).last() == parts@[i - 1]@);
        Some(crate::text::slice_of(&parts[i - 1], 0, parts[i - 1].len()))
    }
}

proof fn lemma_leaves_insert(acc: Seq<(Seq<char>, Seq<char>)>, k: Seq<char>, p: Seq<char>)
    ensures
        leaves(insert_sorted(acc, k, p)) == insert_sorted(leaves(acc), k, TreeV::Leaf(p)),
{
    lemma_map_vals_insert(acc, k, p, |p: Seq<char>| TreeV::Leaf(p));
}

/// Stores a leaf for `path` under `key`.
fn put_leaf(
    out: &mut StrMap<EnvNode>,
    key: &[char],
    path: &[char],
    Ghost(acc): Ghost<Seq<(Seq<char>, Seq<char>)>>,
)
    requires
        vals_view(old(out).entries_view()) == leaves(acc),
        old(out).wf(),
    ensures
        vals_view(final(out).entries_view()) == leaves(insert_sorted(acc, key@, path@)),
        final(out).wf(),
{
    let node = EnvNode::Leaf { secret_path: string_of(path) };
    let ghost before = out.entries_view();
    out.insert(string_of(key), node);
    proof {
        lemma_map_vals_insert(before, key@, node, |n: EnvNode| n.view());
        lemma_leaves_insert(acc, key@, path@);
    }
}

/// Inserts every path under its last segment.
fn put_paths(
    out: &mut StrMap<EnvNode>,
    paths: &[String],
    Ghost(acc): Ghost<Seq<(Seq<char>, Seq<char>)>>,
) -> (r: Result<(), Fail>)
    requires
        vals_view(old(out).entries_view()) == leaves(acc),
        old(out).wf(),
    ensures
        final(out).wf(),
        match r {
            Ok(_) => insert_paths(acc, views(paths@)) matches Ok(a) && vals_view(
                final(out).entries_view(),
            ) == leaves(a),
            Err(f) => insert_paths(acc, views(paths@)) == Err::<
                Seq<(Seq<char>, Seq<char>)>,
                Failure,
            >(f@),
        },
        r matches Err(f) ==> f is Config,
{
    let ghost pv = views(paths@);
    let ghost mut cur = acc;
    let mut i: usize = 0;
    while i < paths.len()
        invariant
            i <= paths.len(),
            pv == views(paths@),
            insert_paths(acc, pv.take(i as int)) == Ok::<Seq<(Seq<char>, Seq<char>)>, Failure>(
                cur,
            ),
            vals_view(out.entries_view()) == leaves(cur),
            out.wf(),
        decreases paths.len() - i,
    {
        assert(pv.take(i + 1).drop_last() == pv.take(i as int));
        assert(pv.take(i + 1).last() == paths@[i as int]@);
        let pc = chars_of(paths[i].as_str());
        match last_segment(&pc) {
            None => {
                let mut m = String::from_str("secret path '");
                push_str(&mut m, paths[i].as_str());
                push_str(&mut m, "' has no final segment");
                proof {
                    reveal_strlit("secret path");
                    reveal_strlit(" '");
                    reveal_strlit("secret path '");
                    reveal_strlit("' has no final segment");
                    assert(m@ =~= no_segment_msg("secret path"@, pc@));
                    lemma_insert_paths_err(acc, pv, i as int + 1);
                }
                return Err(Fail::Config(m));
            },
            Some(k) => {
                put_leaf(out, &k, &pc, Ghost(cur));
                proof {
                    cur = insert_sorted(cur, k@, pc@);
                }
            },
        }
        i += 1;
    }
    assert(pv.take(paths.len() as int) == pv);
    Ok(())
}

/// A failure on a prefix of the paths is the failure of the whole list.
proof fn lemma_insert_paths_err(acc: Seq<(Seq<char>, Seq<char>)>, ps: Seq<Seq<char>>, k: int)
    requires
        0 <= k <= ps.len(),
        insert_paths(acc, ps.take(k)) is Err,
    ensures
        insert_paths(acc, ps) == insert_paths(acc, ps.take(k)),
    decreases ps.len() - k,
{
    if k < ps.len() {
        assert(ps.take(k + 1).drop_last() == ps.take(k));
        lemma_insert_paths_err(acc, ps, k + 1);
    } else {
        assert(ps.take(k) == ps);
    }
}

/// The secrets that start with `needle`, in order.
fn secrets_under(secrets: &[String], needle: &[char]) -> (r: Vec<String>)
    ensures
        views(r@) == under_prefix(views(secrets@), needle@),
{
    let ghost sv = views(secrets@);
    let mut r: Vec<String> = Vec::new();
    let mut i: usize = 0;
    while i < secrets.len()
        invariant
            i <= secrets.len(),
            sv == views(secrets@),
            views(r@) == under_prefix(sv.take(i as int), needle@),
        decreases secrets.len() - i,
    {
        assert(sv.take(i + 1).drop_last() == sv.take(i as int));
        assert(sv.take(i + 1).last() == secrets@[i as int]@);
        let c = chars_of(secrets[i].as_str());
        if starts_with(&c, needle) {
            let ghost before = views(r@);
            r.push(string_of(&c));
            assert(views(r@) =~= before.push(c@));
        }
        i += 1;
    }
    assert(sv.take(secrets.len() as int) == sv);
    r
}

/// The secrets whose lookup answer includes `tag`, or the index of the first
/// failed answer.
fn tagged_secrets(
    tag: &[char],
    secrets: &[String],
    answers: &[Result<Vec<String>, HimitsuError>],
) -> (r: Result<Vec<String>, usize>)
    requires
        answers@.len() == secrets@.len(),
    ensures
        match r {
            Ok(v) => tagged(tag@, views(secrets@), rows_v(answers@)) == Ok::<
                Seq<Seq<char>>,
                Failure,
            >(views(v@)),
            Err(i) => tagged(tag@, views(secrets@), rows_v(answers@)) == Err::<
                Seq<Seq<char>>,
                Failure,
            >(Failure::Lookup(i as int)),
        },
        r matches Err(i) ==> i < answers@.len() && answers@[i as int] is Err,
{
    let ghost sv = views(secrets@);
    let ghost rv = rows_v(answers@);
    let mut hits: Vec<String> = Vec::new();
    let mut i: usize = 0;
    assert(views(hits@) =~= Seq::<Seq<char>>::empty());
    assert(sv.take(0).len() == 0);
    while i < secrets.len()
        invariant
            i <= secrets.len(),
            answers@.len() == secrets@.len(),
            sv == views(secrets@),
            rv == rows_v(answers@),
            tagged(tag@, sv.take(i as int), rv) == Ok::<Seq<Seq<char>>, Failure>(views(hits@)),
        decreases secrets.len() - i,
    {
        assert(sv.take(i + 1).drop_last() == sv.take(i as int));
        assert(sv.take(i + 1).last() == secrets@[i as int]@);
        assert(sv.take(i + 1).len() - 1 == i);
        match &answers[i] {
            Err(_) => {
                proof {
                    lemma_tagged_err(tag@, sv, rv, i as int + 1);
                }
                return Err(i);
            },
            Ok(ts) => {
                if in_items_exec(ts.as_slice(), tag) {
                    let ghost before = views(hits@);
                    hits.push(string_of(&chars_of(secrets[i].as_str())));
                    assert(views(hits@) =~= before.push(sv[i as int]));
                }
            },
        }
        i += 1;
    }
    assert(sv.take(secrets.len() as int) == sv);
    Ok(hits)
}

proof fn lemma_tagged_err(tag: Seq<char>, ss: Seq<Seq<char>>, rows: TagRows, k: int)
    requires
        0 <= k <= ss.len(),
        tagged(tag, ss.take(k), rows) is Err,
    ensures
        tagged(tag, ss, rows) == tagged(tag, ss.take(k), rows),
    decreases ss.len() - k,
{
    if k < ss.len() {
        assert(ss.take(k + 1).drop_last() == ss.take(k));
        lemma_tagged_err(tag, ss, rows, k + 1);
    } else {
        assert(ss.take(k) == ss);
    }
}

/// The strings with `sep` between neighbours.
pub fn join_strings(parts: &[String], sep: &str) -> (r: String)
    ensures
        r@ == joined(views(parts@), sep@),
{
    let ghost pv = views(parts@);
    let mut r = String::new();
    let mut i: usize = 0;
    assert(r@ =~= joined(pv.take(0), sep@));
    while i < parts.len()
        invariant
            i <= parts.len(),
            pv == views(parts@),
            r@ == joined(pv.take(i as int), sep@),
        decreases parts.len() - i,
    {
        assert(pv.take(i + 1).drop_last() == pv.take(i as int));
        assert(pv.take(i + 1).last() == parts@[i as int]@);
        if i > 0 {
            push_str(&mut r, sep);
        }
        push_str(&mut r, parts[i].as_str());
        proof {
            if i == 0 {
                assert(r@ =~= pv.take(1)[0]);
            }
        }
        i += 1;
    }
    assert(pv.take(parts.len() as int) == pv);
    r
}

proof fn lemma_build_err(es: Seq<EntryView>, ss: Seq<Seq<char>>, rows: TagRows, k: int)
    requires
        0 <= k <= es.len(),
        build_spec(es.take(k), ss, rows) is Err,
    ensures
        build_spec(es, ss, rows) == build_spec(es.take(k), ss, rows),
    decreases es.len() - k,
{
    if k < es.len() {
        assert(es.take(k + 1).drop_last() == es.take(k));
        lemma_build_err(es, ss, rows, k + 1);
    } else {
        assert(es.take(k) == es);
    }
}

fn config_fail(a: &str, x: &str, b: &str) -> (r: Fail)
    ensures
        r@ == Failure::Config(a@ + x@ + b@),
{
    let mut m = String::from_str(a);
    push_str(&mut m, x);
    push_str(&mut m, b);
    Fail::Config(m)
}

/// Applies one entry to the flat map.
fn apply_entry(
    out: &mut StrMap<EnvNode>,
    entry: &EnvEntry,
    secrets: &[String],
    answers: &[Result<Vec<String>, HimitsuError>],
    Ghost(acc): Ghost<Seq<(Seq<char>, Seq<char>)>>,
) -> (r: Result<(), Fail>)
    requires
        answers@.len() == secrets@.len(),
        vals_view(old(out).entries_view()) == leaves(acc),
        old(out).wf(),
    ensures
        final(out).wf(),
        match r {
            Ok(_) => entry_step(acc, entry.view(), views(secrets@), rows_v(answers@)) matches Ok(
                a,
            ) && vals_view(final(out).entries_view()) == leaves(a),
            Err(f) => entry_step(acc, entry.view(), views(secrets@), rows_v(answers@)) == Err::<
                Seq<(Seq<char>, Seq<char>)>,
                Failure,
            >(f@),
        },
        r matches Err(f) ==> row_ok(f, answers@),
{
    match entry {
        EnvEntry::Single(p) => {
            let pc = chars_of(p.as_str());
            match last_segment(&pc) {
                None => {
                    let f = config_fail("env entry path '", p.as_str(), "' has no final segment");
                    proof {
                        reveal_strlit("env entry path '");
                        reveal_strlit("env entry path");
                        reveal_strlit(" '");
                        assert("env entry path '"@ + p@ + "' has no final segment"@ =~= no_segment_msg(
                            "env entry path"@,
                            p@,
                        ));
                    }
                    Err(f)
                },
                Some(k) => {
                    put_leaf(out, &k, &pc, Ghost(acc));
                    Ok(())
                },
            }
        },
        EnvEntry::Alias { key, path } => {
            put_leaf(out, &chars_of(key.as_str()), &chars_of(path.as_str()), Ghost(acc));
            Ok(())
        },
        EnvEntry::Glob(pre) => {
            let mut needle = chars_of(pre.as_str());
            needle.push('/');
            let hits = secrets_under(secrets, &needle);
            put_paths(out, &hits, Ghost(acc))
        },
        EnvEntry::Tag(t) => {
            match tagged_secrets(&chars_of(t.as_str()), secrets, answers) {
                Err(i) => Err(Fail::Row(i)),
                Ok(hits) => put_paths(out, &hits, Ghost(acc)),
            }
        },
        EnvEntry::AliasTag { key, tag } => {
            match tagged_secrets(&chars_of(tag.as_str()), secrets, answers) {
                Err(i) => Err(Fail::Row(i)),
                Ok(hits) => {
                    if hits.len() == 1 {
                        put_leaf(
                            out,
                            &chars_of(key.as_str()),
                            &chars_of(hits[0].as_str()),
                            Ghost(acc),
                        );
                        Ok(())
                    } else {
                        let mut m = String::from_str("alias '");
                        push_str(&mut m, key.as_str());
                        push_str(&mut m, "' expects exactly one secret tagged '");
                        push_str(&mut m, tag.as_str());
                        push_str(&mut m, "', found ");
                        let n = string_of(&decimal_chars(hits.len()));
                        push_str(&mut m, n.as_str());
                        if hits.len() > 0 {
                            push_str(&mut m, " (");
                            let j = join_strings(&hits, ", ");
                            push_str(&mut m, j.as_str());
                            push_str(&mut m, ")");
                        }
                        proof {
                            reveal_strlit(" (");
                            reveal_strlit(", ");
                            reveal_strlit(")");
                            assert(m@ =~= alias_tag_msg(key@, tag@, views(hits@)));
                        }
                        Err(Fail::Config(m))
                    }
                },
            }
        },
    }
}

/// The flat map of a concrete env's entries.
fn build_entries(
    entries: &[EnvEntry],
    secrets: &[String],
    answers: &[Result<Vec<String>, HimitsuError>],
) -> (r: Result<StrMap<EnvNode>, Fail>)
    requires
        answers@.len() == secrets@.len(),
    ensures
        match r {
            Ok(m) => build_spec(entries_view(entries@), views(secrets@), rows_v(answers@)) matches Ok(
                l,
            ) && vals_view(m.entries_view()) == leaves(l) && m.wf(),
            Err(f) => build_spec(entries_view(entries@), views(secrets@), rows_v(answers@)) == Err::<
                Seq<(Seq<char>, Seq<char>)>,
                Failure,
            >(f@),
        },
        r matches Err(f) ==> row_ok(f, answers@),
{
    let ghost ev = entries_view(entries@);
    let ghost sv = views(secrets@);
    let ghost rv = rows_v(answers@);
    let mut out: StrMap<EnvNode> = StrMap::new();
    let ghost mut acc: Seq<(Seq<char>, Seq<char>)> = Seq::empty();
    assert(vals_view(out.entries_view()) =~= leaves(acc));
    assert(ev.take(0).len() == 0);
    let mut i: usize = 0;
    while i < entries.len()
        invariant
            i <= entries.len(),
            answers@.len() == secrets@.len(),
            ev == entries_view(entries@),
            sv == views(secrets@),
            rv == rows_v(answers@),
            build_spec(ev.take(i as int), sv, rv) == Ok::<Seq<(Seq<char>, Seq<char>)>, Failure>(
                acc,
            ),
            vals_view(out.entries_view()) == leaves(acc),
            out.wf(),
        decreases entries.len() - i,
    {
        assert(ev.take(i + 1).drop_last() == ev.take(i as int));
        assert(ev.take(i + 1).last() == entries@[i as int].view());
        match apply_entry(&mut out, &entries[i], secrets, answers, Ghost(acc)) {
            Err(f) => {
                proof {
                    lemma_build_err(ev, sv, rv, i as int + 1);
                }
                return Err(f);
            },
            Ok(_) => {
                proof {
                    acc = entry_step(acc, entries@[i as int].view(), sv, rv)->Ok_0;
                }
            },
        }
        i += 1;
    }
    assert(ev.take(entries.len() as int) == ev);
    Ok(out)
}

// ── Implementation: wildcard envs ────────────────────────────────────────

/// `$1` in `s` replaced by `v`; other captures kept.
fn subst_dollar_chars(s: &[char], v: &[char]) -> (r: Vec<char>)
    ensures
        r@ == subst_dollar(s@, v@),
{
    let mut out: Vec<char> = Vec::new();
    let mut i: usize = 0;
    assert(s@.skip(0) == s@);
    while i < s.len()
        invariant
            i <= s.len(),
            out@ + subst_dollar(s@.skip(i as int), v@) == subst_dollar(s@, v@),
        decreases s.len() - i,
    {
        let ghost t = s@.skip(i as int);
        if s[i] == '$' && i + 1 < s.len() && '0' <= s[i + 1] && s[i + 1] <= '9' {
            let start = i + 1;
            let mut j = start;
            while j < s.len() && '0' <= s[j] && s[j] <= '9'
                invariant
                    start <= j <= s.len(),
                    forall|k: int| start <= k < j ==> is_ascii_digit(#[trigger] s@[k]),
                decreases s.len() - j,
            {
                j += 1;
            }
            proof {
                assert(t.drop_first() == s@.skip(start as int));
                assert(t[1] == s@[start as int]);
                assert forall|k: int| 0 <= k < (j - start) as nat implies is_ascii_digit(
                    #[trigger] s@.skip(start as int)[k],
                ) by {
                    assert(s@.skip(start as int)[k] == s@[start + k]);
                }
                if j < s.len() {
                    assert(s@.skip(start as int)[j - start] == s@[j as int]);
                }
                lemma_digit_run_of(s@.skip(start as int), (j - start) as nat);
                assert(t.subrange(1, 1 + (j - start)) == s@.subrange(start as int, j as int));
                assert(t.take(1 + (j - start)) == s@.subrange(i as int, j as int));
                assert(t.skip(1 + (j - start)) == s@.skip(j as int));
            }
            let ghost before = out@;
            if j == start + 1 && s[start] == '1' {
                assert(s@.subrange(start as int, j as int) =~= seq!['1']);
                let mut k: usize = 0;
                while k < v.len()
                    invariant
                        k <= v.len(),
                        out@ == before + v@.take(k as int),
                    decreases v.len() - k,
                {
                    out.push(v[k]);
                    assert(v@.take(k + 1) == v@.take(k as int).push(v@[k as int]));
                    k += 1;
                }
                assert(v@.take(v.len() as int) == v@);
            } else {
                assert(s@.subrange(start as int, j as int) != seq!['1']) by {
                    if j == start + 1 {
                        assert(s@.subrange(start as int, j as int)[0] == s@[start as int]);
                    }
                }
                let mut k: usize = i;
                while k < j
                    invariant
                        i <= k <= j <= s.len(),
                        out@ == before + s@.subrange(i as int, k as int),
                    decreases j - k,
                {
                    out.push(s[k]);
                    assert(s@.subrange(i as int, k + 1) == s@.subrange(i as int, k as int).push(
                        s@[k as int],
                    ));
                    k += 1;
                }
            }
            i = j;
        } else {
            proof {
                assert(t.drop_first() == s@.skip(i + 1));
                if t.len() > 1 {
                    assert(t[1] == s@[i + 1]);
                }
            }
            out.push(s[i]);
            i += 1;
        }
    }
    assert(s@.skip(s.len() as int) =~= Seq::<char>::empty());
    assert(out@ + Seq::<char>::empty() == out@);
    out
}

/// `$1` in `s` replaced by `value`; other captures such as `$2` are kept.
pub fn substitute_dollar_one(s: &str, value: &str) -> (r: String)
    ensures
        r@ == subst_dollar(s@, value@),
{
    string_of(&subst_dollar_chars(&chars_of(s), &chars_of(value)))
}

/// The entries with `$1` bound to `v` in their paths.
fn substitute_entries(entries: &[EnvEntry], v: &[char]) -> (r: Vec<EnvEntry>)
    ensures
        entries_view(r@) == subst_entries(entries_view(entries@), v@),
{
    let mut r: Vec<EnvEntry> = Vec::new();
    let mut i: usize = 0;
    while i < entries.len()
        invariant
            i <= entries.len(),
            entries_view(r@) == subst_entries(entries_view(entries@), v@).take(i as int),
        decreases entries.len() - i,
    {
        let e = match &entries[i] {
            EnvEntry::Single(p) => EnvEntry::Single(
                string_of(&subst_dollar_chars(&chars_of(p.as_str()), v)),
            ),
            EnvEntry::Glob(p) => EnvEntry::Glob(
                string_of(&subst_dollar_chars(&chars_of(p.as_str()), v)),
            ),
            EnvEntry::Alias { key, path } => EnvEntry::Alias {
                key: string_of(&chars_of(key.as_str())),
                path: string_of(&subst_dollar_chars(&chars_of(path.as_str()), v)),
            },
            EnvEntry::Tag(t) => EnvEntry::Tag(string_of(&chars_of(t.as_str()))),
            EnvEntry::AliasTag { key, tag } => EnvEntry::AliasTag {
                key: string_of(&chars_of(key.as_str())),
                tag: string_of(&chars_of(tag.as_str())),
            },
        };
        assert(e.view() == subst_entry(entries@[i as int].view(), v@));
        let ghost before = entries_view(r@);
        r.push(e);
        assert(entries_view(r@) =~= before.push(e.view()));
        assert(subst_entries(entries_view(entries@), v@).take(i + 1) =~= subst_entries(
            entries_view(entries@),
            v@,
        ).take(i as int).push(subst_entry(entries@[i as int].view(), v@)));
        i += 1;
    }
    assert(subst_entries(entries_view(entries@), v@).take(entries.len() as int) =~= subst_entries(
        entries_view(entries@),
        v@,
    ));
    r
}

proof fn lemma_first_index(segs: Seq<Seq<char>>, x: Seq<char>, j: int)
    requires
        0 <= j <= segs.len(),
        forall|k: int| 0 <= k < j ==> segs[k] != x,
        j < segs.len() ==> segs[j] == x,
    ensures
        first_index(segs, x) == (if j < segs.len() { j } else { -1 }),
    decreases j,
{
    if j > 0 {
        assert(segs[0] != x);
        let t = segs.drop_first();
        assert forall|k: int| 0 <= k < j - 1 implies t[k] != x by {
            assert(t[k] == segs[k + 1]);
        }
        if j < segs.len() {
            assert(t[j - 1] == segs[j]);
        }
        lemma_first_index(t, x, j - 1);
    }
}

/// A leading `/` dropped.
fn strip_slash_chars(s: &[char]) -> (r: Vec<char>)
    ensures
        r@ == strip_slash(s@),
{
    if s.len() > 0 && s[0] == '/' {
        crate::text::slice_of(s, 1, s.len())
    } else {
        crate::text::slice_of(s, 0, s.len())
    }
}

/// The value `$1` binds to in `secret`, if the secret fits the pattern.
fn capture_exec(pat: &Vec<Vec<char>>, idx: usize, secret: &[char], glob: bool) -> (r: Option<
    Vec<char>,
>)
    requires
        idx < pat@.len(),
    ensures
        match r {
            Some(c) => capture_of(vec_views(pat@), idx as int, secret@, glob) == Some(c@),
            None => capture_of(vec_views(pat@), idx as int, secret@, glob) is None,
        },
{
    let ghost pv = vec_views(pat@);
    let stripped = strip_slash_chars(secret);
    let ss = split_chars(&stripped, '/');
    let ghost sv = vec_views(ss@);
    assert(sv == split(strip_slash(secret@), '/'));
    assert(sv.len() == ss@.len() && pv.len() == pat@.len());
    if (glob && ss.len() <= pat.len()) || (!glob && ss.len() != pat.len()) {
        return None;
    }
    let mut k: usize = 0;
    while k < pat.len()
        invariant
            k <= pat@.len(),
            idx < pat@.len(),
            pat@.len() < ss@.len() || pat@.len() == ss@.len(),
            pv == vec_views(pat@),
            sv == vec_views(ss@),
            sv == split(strip_slash(secret@), '/'),
            !((glob && sv.len() <= pv.len()) || (!glob && sv.len() != pv.len())),
            forall|m: int| 0 <= m < k && m != idx ==> #[trigger] sv[m] == pv[m],
        decreases pat.len() - k,
    {
        if k != idx && !slice_eq(&ss[k], &pat[k]) {
            assert(sv[k as int] != pv[k as int]);
            return None;
        }
        k += 1;
    }
    assert(sv[idx as int] == ss@[idx as int]@);
    Some(crate::text::slice_of(&ss[idx], 0, ss[idx].len()))
}

/// Every distinct non-empty value `$1` takes over the secrets, in order.
fn match_dollar_one(pattern: &[char], secrets: &[String], glob: bool) -> (r: Vec<String>)
    ensures
        views(r@) == dollar_values(pattern@, views(secrets@), glob),
{
    let ghost sv = views(secrets@);
    let pat = strip_slash_chars(pattern);
    let segs = split_chars(&pat, '/');
    let ghost pv = vec_views(segs@);
    let marker = ['$', '1'];
    assert(marker@ == seq!['$', '1']);
    let mut idx: usize = 0;
    while idx < segs.len() && !slice_eq(&segs[idx], &marker)
        invariant
            idx <= segs@.len(),
            pv == vec_views(segs@),
            marker@ == seq!['$', '1'],
            forall|k: int| 0 <= k < idx ==> pv[k] != seq!['$', '1'],
        decreases segs.len() - idx,
    {
        idx += 1;
    }
    proof {
        lemma_first_index(pv, seq!['$', '1'], idx as int);
    }
    let mut out: Vec<String> = Vec::new();
    if idx == segs.len() {
        assert(views(out@) =~= dollar_values(pattern@, sv, glob));
        return out;
    }
    let mut i: usize = 0;
    assert(views(out@) =~= dollar_values(pattern@, sv.take(0), glob));
    while i < secrets.len()
        invariant
            i <= secrets.len(),
            sv == views(secrets@),
            pv == vec_views(segs@),
            pv == split(strip_slash(pattern@), '/'),
            idx < segs@.len(),
            first_index(pv, seq!['$', '1']) == idx,
            views(out@) == dollar_values(pattern@, sv.take(i as int), glob),
        decreases secrets.len() - i,
    {
        assert(sv.take(i + 1).drop_last() == sv.take(i as int));
        assert(sv.take(i + 1).last() == secrets@[i as int]@);
        let sc = chars_of(secrets[i].as_str());
        match capture_exec(&segs, idx, &sc, glob) {
            Some(c) => {
                let present = in_items_exec(out.as_slice(), &c);
                assert(present == views(out@).contains(c@)) by {
                    if views(out@).contains(c@) {
                        let w = choose|w: int| 0 <= w < views(out@).len() && views(out@)[w] == c@;
                        assert(in_items(views(out@), c@));
                    }
                }
                if c.len() > 0 && !present {
                    let ghost before = views(out@);
                    out.push(string_of(&c));
                    assert(views(out@) =~= before.push(c@));
                }
            },
            None => {},
        }
        i += 1;
    }
    assert(sv.take(secrets.len() as int) == sv);
    out
}

/// Every value `$1` takes for some entry, as a set.
fn discover_captures(entries: &[EnvEntry], secrets: &[String]) -> (r: StrMap<()>)
    ensures
        r.entries_view() == capture_set(entries_view(entries@), views(secrets@)),
        r.wf(),
{
    let ghost ev = entries_view(entries@);
    let ghost sv = views(secrets@);
    let mut caps: StrMap<()> = StrMap::new();
    let mut i: usize = 0;
    assert(ev.take(0).len() == 0);
    while i < entries.len()
        invariant
            i <= entries.len(),
            ev == entries_view(entries@),
            sv == views(secrets@),
            caps.entries_view() == capture_set(ev.take(i as int), sv),
            caps.wf(),
        decreases entries.len() - i,
    {
        assert(ev.take(i + 1).drop_last() == ev.take(i as int));
        assert(ev.take(i + 1).last() == entries@[i as int].view());
        let found = match &entries[i] {
            EnvEntry::Single(p) => match_dollar_one(&chars_of(p.as_str()), secrets, false),
            EnvEntry::Glob(p) => match_dollar_one(&chars_of(p.as_str()), secrets, true),
            EnvEntry::Alias { key: _, path } => match_dollar_one(
                &chars_of(path.as_str()),
                secrets,
                false,
            ),
            EnvEntry::Tag(_) => Vec::new(),
            EnvEntry::AliasTag { .. } => Vec::new(),
        };
        let ghost base = caps.entries_view();
        let ghost fv = views(found@);
        proof {
            if entry_pattern(entries@[i as int].view()) is None {
                assert(fv =~= Seq::<Seq<char>>::empty());
            }
        }
        let mut j: usize = 0;
        assert(fv.take(0).len() == 0);
        while j < found.len()
            invariant
                j <= found.len(),
                fv == views(found@),
                caps.entries_view() == insert_units(base, fv.take(j as int)),
                caps.wf(),
            decreases found.len() - j,
        {
            assert(fv.take(j + 1).drop_last() == fv.take(j as int));
            assert(fv.take(j + 1).last() == found@[j as int]@);
            caps.insert(string_of(&chars_of(found[j].as_str())), ());
            j += 1;
        }
        assert(fv.take(found.len() as int) == fv);
        i += 1;
    }
    assert(ev.take(entries.len() as int) == ev);
    caps
}

proof fn lemma_children_err(
    es: Seq<EntryView>,
    caps: Seq<Seq<char>>,
    ss: Seq<Seq<char>>,
    rows: TagRows,
    k: int,
)
    requires
        0 <= k <= caps.len(),
        children_spec(es, caps.take(k), ss, rows) is Err,
    ensures
        children_spec(es, caps, ss, rows) == children_spec(es, caps.take(k), ss, rows),
    decreases caps.len() - k,
{
    if k < caps.len() {
        assert(caps.take(k + 1).drop_last() == caps.take(k));
        lemma_children_err(es, caps, ss, rows, k + 1);
    } else {
        assert(caps.take(k) == caps);
    }
}

/// One sub-branch per discovered capture.
fn resolve_wildcard(
    entries: &[EnvEntry],
    secrets: &[String],
    answers: &[Result<Vec<String>, HimitsuError>],
) -> (r: Result<StrMap<EnvNode>, Fail>)
    requires
        answers@.len() == secrets@.len(),
    ensures
        match r {
            Ok(m) => children_spec(
                entries_view(entries@),
                keys_of(capture_set(entries_view(entries@), views(secrets@))),
                views(secrets@),
                rows_v(answers@),
            ) == Ok::<Seq<(Seq<char>, TreeV)>, Failure>(vals_view(m.entries_view())),
            Err(f) => children_spec(
                entries_view(entries@),
                keys_of(capture_set(entries_view(entries@), views(secrets@))),
                views(secrets@),
                rows_v(answers@),
            ) == Err::<Seq<(Seq<char>, TreeV)>, Failure>(f@),
        },
        r matches Err(f) ==> row_ok(f, answers@),
{
    let ghost ev = entries_view(entries@);
    let ghost sv = views(secrets@);
    let ghost rv = rows_v(answers@);
    let caps = discover_captures(entries, secrets);
    let keys = caps.keys();
    let ghost kv = views(keys@);
    let mut children: StrMap<EnvNode> = StrMap::new();
    assert(vals_view(children.entries_view()) =~= Seq::<(Seq<char>, TreeV)>::empty());
    assert(kv.take(0).len() == 0);
    let mut j: usize = 0;
    while j < keys.len()
        invariant
            j <= keys.len(),
            answers@.len() == secrets@.len(),
            ev == entries_view(entries@),
            sv == views(secrets@),
            rv == rows_v(answers@),
            kv == views(keys@),
            kv == keys_of(capture_set(ev, sv)),
            children_spec(ev, kv.take(j as int), sv, rv) == Ok::<
                Seq<(Seq<char>, TreeV)>,
                Failure,
            >(vals_view(children.entries_view())),
        decreases keys.len() - j,
    {
        assert(kv.take(j + 1).drop_last() == kv.take(j as int));
        assert(kv.take(j + 1).last() == keys@[j as int]@);
        let cv = chars_of(keys[j].as_str());
        let subst = substitute_entries(entries, &cv);
        match build_entries(&subst, secrets, answers) {
            Err(f) => {
                proof {
                    lemma_children_err(ev, kv, sv, rv, j as int + 1);
                }
                return Err(f);
            },
            Ok(m) => {
                proof {
                    lemma_branch_view(m);
                }
                let node = EnvNode::Branch(m);
                let ghost before = children.entries_view();
                children.insert(string_of(&cv), node);
                proof {
                    lemma_map_vals_insert(before, cv@, node, |n: EnvNode| n.view());
                }
            },
        }
        j += 1;
    }
    assert(kv.take(keys.len() as int) == kv);
    Ok(children)
}

/// `node` nested under one branch per segment, outermost first.
fn wrap_in_segments(segments: &[String], node: EnvNode) -> (r: EnvNode)
    ensures
        r@ == wrap_spec(views(segments@), node@),
{
    let ghost sv = views(segments@);
    let mut cur = node;
    let mut i: usize = segments.len();
    assert(sv.skip(segments.len() as int) =~= Seq::<Seq<char>>::empty());
    while i > 0
        invariant
            i <= segments.len(),
            sv == views(segments@),
            cur@ == wrap_spec(sv.skip(i as int), node@),
        decreases i,
    {
        i -= 1;
        let mut m: StrMap<EnvNode> = StrMap::new();
        let ghost inner = cur;
        m.insert(string_of(&chars_of(segments[i].as_str())), cur);
        proof {
            lemma_branch_view(m);
            assert(m.entries_view() =~= seq![(sv[i as int], inner)]);
            assert(vals_view(m.entries_view()) =~= seq![(sv[i as int], inner@)]);
            assert(sv.skip(i as int)[0] == sv[i as int]);
            assert(sv.skip(i as int).drop_first() == sv.skip(i + 1));
        }
        cur = EnvNode::Branch(m);
    }
    assert(sv.skip(0) == sv);
    cur
}

// ── Resolution ───────────────────────────────────────────────────────────

/// Resolves `target` against the env map, given the tag lookup's answer for
/// each of `available_secrets` (same order). An answer is consulted only
/// when a tag entry is reached; the first failed one consulted is returned.
pub fn resolve_with_tag_lists(
    envs: &StrMap<Vec<EnvEntry>>,
    target: &str,
    available_secrets: &[String],
    tag_answers: Vec<Result<Vec<String>, HimitsuError>>,
) -> (r: Result<EnvNode, HimitsuError>)
    requires
        tag_answers@.len() == available_secrets@.len(),
    ensures
        outcome_holds(
            r,
            resolve_spec(
                envs.entries_view(),
                target@,
                views(available_secrets@),
                rows_v(tag_answers@),
            ),
            tag_answers@,
        ),
{
    let mut tag_answers = tag_answers;
    match validate_env_label(target) {
        Err(e) => {
            return Err(e);
        },
        Ok(_) => {},
    }
    let entries = match envs.get(target) {
        None => {
            let mut m = String::from_str("unknown env label '");
            push_str(&mut m, target);
            push_str(&mut m, "'");
            proof {
                reveal_strlit("'");
                assert(m@ =~= unknown_label_msg(target@));
            }
            return Err(HimitsuError::InvalidConfig(m));
        },
        Some(es) => es,
    };
    let segs = label_prefix_segments(target);
    let res = if is_wildcard_label(target) {
        resolve_wildcard(entries.as_slice(), available_secrets, tag_answers.as_slice())
    } else {
        match build_entries(entries.as_slice(), available_secrets, tag_answers.as_slice()) {
            Ok(m) => {
                proof {
                    let l = build_spec(
                        entries_view(entries@),
                        views(available_secrets@),
                        rows_v(tag_answers@),
                    )->Ok_0;
                    assert(vals_view(m.entries_view()) == leaves(l));
                }
                Ok(m)
            },
            Err(f) => Err(f),
        }
    };
    match res {
        Ok(m) => {
            proof {
                lemma_branch_view(m);
            }
            Ok(wrap_in_segments(&segs, EnvNode::Branch(m)))
        },
        Err(Fail::Config(m)) => Err(HimitsuError::InvalidConfig(m)),
        Err(Fail::Row(i)) => {
            let ghost before = tag_answers@;
            match tag_answers.remove(i) {
                Err(e) => Err(e),
                Ok(_) => {
                    assert(false);
                    Err(HimitsuError::InvalidConfig(String::new()))
                },
            }
        },
    }
}

/// No tags known for any of `n` secrets.
pub open spec fn no_rows(n: nat) -> TagRows {
    Seq::new(n, |i: int| None)
}

pub open spec fn no_lookup_msg() -> Seq<char> {
    "tag resolution requires a TagLookup; call resolve_with_tags"@
}

/// Resolves `target` against the env map without any tag lookup: reaching
/// a tag entry while there are secrets to inspect is an error that points
/// at [`resolve_with_tags`].
pub fn resolve(envs: &StrMap<Vec<EnvEntry>>, target: &str, available_secrets: &[String]) -> (r:
    Result<EnvNode, HimitsuError>)
    ensures
        match resolve_spec(
            envs.entries_view(),
            target@,
            views(available_secrets@),
            no_rows(available_secrets@.len()),
        ) {
            Err(Failure::Lookup(_)) => r matches Err(e) && e is InvalidConfig && e.detail()
                == no_lookup_msg(),
            s => outcome_holds(r, s, Seq::empty()),
        },
{
    let mut answers: Vec<Result<Vec<String>, HimitsuError>> = Vec::new();
    let mut i: usize = 0;
    while i < available_secrets.len()
        invariant
            i <= available_secrets.len(),
            answers@.len() == i,
            forall|j: int|
                0 <= j < i ==> (#[trigger] answers@[j] matches Err(e) && e is InvalidConfig
                    && e.detail() == no_lookup_msg()),
        decreases available_secrets.len() - i,
    {
        let m = String::from_str("tag resolution requires a TagLookup; call resolve_with_tags");
        proof {
            reveal_strlit("tag resolution requires a TagLookup; call resolve_with_tags");
        }
        answers.push(Err(HimitsuError::InvalidConfig(m)));
        i += 1;
    }
    assert(rows_v(answers@) =~= no_rows(available_secrets@.len()));
    let ghost av = answers@;
    let r = resolve_with_tag_lists(envs, target, available_secrets, answers);
    proof {
        match resolve_spec(
            envs.entries_view(),
            target@,
            views(available_secrets@),
            no_rows(available_secrets@.len()),
        ) {
            Err(Failure::Lookup(j)) => {
                assert(av[j] matches Err(e) && e is InvalidConfig && e.detail() == no_lookup_msg());
            },
            _ => {},
        }
    }
    r
}

/// Resolving does not depend on the order of the available secrets: when
/// every entry of the target is an alias, two lists holding the same secrets
/// in any order resolve to the same tree, or fail alike.
pub proof fn lemma_resolve_permutation(
    envs: Seq<(Seq<char>, Vec<EnvEntry>)>,
    target: Seq<char>,
    s1: Seq<Seq<char>>,
    s2: Seq<Seq<char>>,
)
    requires
        lookup(envs, target) matches Some(es) ==> alias_only(entries_view(es@)),
        s1.to_multiset() == s2.to_multiset(),
    ensures
        resolve_spec(envs, target, s1, no_rows(s1.len())) == resolve_spec(
            envs,
            target,
            s2,
            no_rows(s2.len()),
        ),
{
    assert forall|y: Seq<char>| s1.contains(y) <==> s2.contains(y) by {
        broadcast use vstd::seq_lib::group_to_multiset_ensures;

        assert(s1.contains(y) <==> s1.to_multiset().count(y) > 0);
        assert(s2.contains(y) <==> s2.to_multiset().count(y) > 0);
    }
    lemma_resolve_alias_only(envs, target, s1, no_rows(s1.len()), s2, no_rows(s2.len()));
}

/// Whether the entries of `target` include a tag selector.
pub open spec fn uses_tags(envs: Seq<(Seq<char>, Vec<EnvEntry>)>, target: Seq<char>) -> bool {
    match lookup(envs, target) {
        Some(es) => exists|i: int|
            0 <= i < es@.len() && (#[trigger] es@[i] is Tag || es@[i] is AliasTag),
        None => false,
    }
}

/// `a` is an answer `f` may give for a secret path `s`.
pub open spec fn lookup_answered<F: Fn(&str) -> Result<Vec<String>, HimitsuError>>(
    f: F,
    s: Seq<char>,
    a: Result<Vec<String>, HimitsuError>,
) -> bool {
    exists|x: &str| x@ == s && #[trigger] f.ensures((x,), a)
}

fn entries_use_tags(envs: &StrMap<Vec<EnvEntry>>, target: &str) -> (r: bool)
    ensures
        r == uses_tags(envs.entries_view(), target@),
{
    match envs.get(target) {
        None => false,
        Some(es) => {
            let mut i: usize = 0;
            while i < es.len()
                invariant
                    i <= es@.len(),
                    lookup(envs.entries_view(), target@) == Some(*es),
                    forall|j: int| 0 <= j < i ==> !(#[trigger] es@[j] is Tag || es@[j] is AliasTag),
                decreases es.len() - i,
            {
                match &es[i] {
                    EnvEntry::Tag(_) => {
                        assert(es@[i as int] is Tag);
                        return true;
                    },
                    EnvEntry::AliasTag { .. } => {
                        assert(es@[i as int] is AliasTag);
                        return true;
                    },
                    _ => {},
                }
                i += 1;
            }
            false
        },
    }
}

/// Resolves `target` against the env map, asking `tag_lookup` for the tags
/// of each available secret when the env has tag selectors. A failed lookup
/// that resolution reaches is returned as the error.
pub fn resolve_with_tags<F: Fn(&str) -> Result<Vec<String>, HimitsuError>>(
    envs: &StrMap<Vec<EnvEntry>>,
    target: &str,
    available_secrets: &[String],
    tag_lookup: &F,
) -> (r: Result<EnvNode, HimitsuError>)
    requires
        forall|s: &str| tag_lookup.requires((s,)),
    ensures
        exists|answers: Seq<Result<Vec<String>, HimitsuError>>|
            {
                &&& answers.len() == available_secrets@.len()
                &&& uses_tags(envs.entries_view(), target@) ==> forall|i: int|
                    0 <= i < answers.len() ==> lookup_answered(
                        *tag_lookup,
                        available_secrets@[i]@,
                        #[trigger] answers[i],
                    )
                &&& outcome_holds(
                    r,
                    resolve_spec(
                        envs.entries_view(),
                        target@,
                        views(available_secrets@),
                        rows_v(answers),
                    ),
                    answers,
                )
            },
{
    let needs = entries_use_tags(envs, target);
    let mut answers: Vec<Result<Vec<String>, HimitsuError>> = Vec::new();
    let mut i: usize = 0;
    while i < available_secrets.len()
        invariant
            i <= available_secrets.len(),
            answers@.len() == i,
            forall|s: &str| tag_lookup.requires((s,)),
            needs ==> forall|j: int|
                0 <= j < i ==> lookup_answered(
                    *tag_lookup,
                    available_secrets@[j]@,
                    #[trigger] answers@[j],
                ),
        decreases available_secrets.len() - i,
    {
        let s = available_secrets[i].as_str();
        let a = if needs {
            tag_lookup(s)
        } else {
            Ok(Vec::new())
        };
        proof {
            if needs {
                assert(s@ == available_secrets@[i as int]@);
                assert(tag_lookup.ensures((s,), a));
                assert(lookup_answered(*tag_lookup, available_secrets@[i as int]@, a));
            }
        }
        answers.push(a);
        i += 1;
    }
    let ghost av = answers@;
    resolve_with_tag_lists(envs, target, available_secrets, answers)
}

// ── Laws ─────────────────────────────────────────────────────────────────

/// Every branch of the tree lists its keys in strictly ascending order.
pub open spec fn tree_sorted(t: TreeV) -> bool
    decreases t,
{
    match t {
        TreeV::Leaf(_) => true,
        TreeV::Branch(s) => sorted(s) && forall|i: int|
            0 <= i < s.len() ==> tree_sorted(#[trigger] s[i].1),
    }
}

proof fn lemma_insert_paths_sorted(acc: Seq<(Seq<char>, Seq<char>)>, paths: Seq<Seq<char>>)
    requires
        sorted(acc),
    ensures
        insert_paths(acc, paths) matches Ok(a) ==> sorted(a),
    decreases paths.len(),
{
    if paths.len() > 0 {
        lemma_insert_paths_sorted(acc, paths.drop_last());
        match insert_paths(acc, paths.drop_last()) {
            Ok(a) => match last_segment_spec(paths.last()) {
                Some(k) => lemma_insert_sorted_keeps_order(a, k, paths.last()),
                None => {},
            },
            Err(_) => {},
        }
    }
}

proof fn lemma_build_sorted(es: Seq<EntryView>, ss: Seq<Seq<char>>, rows: TagRows)
    ensures
        build_spec(es, ss, rows) matches Ok(l) ==> sorted(l),
    decreases es.len(),
{
    if es.len() > 0 {
        lemma_build_sorted(es.drop_last(), ss, rows);
        match build_spec(es.drop_last(), ss, rows) {
            Ok(acc) => match es.last() {
                EntryView::Single(p) => match last_segment_spec(p) {
                    Some(k) => lemma_insert_sorted_keeps_order(acc, k, p),
                    None => {},
                },
                EntryView::Alias(k, p) => lemma_insert_sorted_keeps_order(acc, k, p),
                EntryView::Glob(pre) => lemma_insert_paths_sorted(acc, under_prefix(ss, pre.push('/'))),
                EntryView::Tag(t) => match tagged(t, ss, rows) {
                    Ok(hits) => lemma_insert_paths_sorted(acc, hits),
                    Err(_) => {},
                },
                EntryView::AliasTag(k, t) => match tagged(t, ss, rows) {
                    Ok(hits) => if hits.len() == 1 {
                        lemma_insert_sorted_keeps_order(acc, k, hits[0]);
                    },
                    Err(_) => {},
                },
            },
            Err(_) => {},
        }
    }
}

proof fn lemma_leaves_sorted(l: Seq<(Seq<char>, Seq<char>)>)
    requires
        sorted(l),
    ensures
        tree_sorted(TreeV::Branch(leaves(l))),
{
    lemma_map_vals_sorted(l, |p: Seq<char>| TreeV::Leaf(p));
    let lv = leaves(l);
    assert forall|i: int| 0 <= i < lv.len() implies tree_sorted(#[trigger] lv[i].1) by {
        assert(lv[i].1 == TreeV::Leaf(l[i].1));
    }
}

proof fn lemma_children_sorted(
    es: Seq<EntryView>,
    caps: Seq<Seq<char>>,
    ss: Seq<Seq<char>>,
    rows: TagRows,
)
    ensures
        children_spec(es, caps, ss, rows) matches Ok(c) ==> tree_sorted(TreeV::Branch(c)),
    decreases caps.len(),
{
    if caps.len() > 0 {
        lemma_children_sorted(es, caps.drop_last(), ss, rows);
        let es2 = subst_entries(es, caps.last());
        lemma_build_sorted(es2, ss, rows);
        match (children_spec(es, caps.drop_last(), ss, rows), build_spec(es2, ss, rows)) {
            (Ok(acc), Ok(l)) => {
                let node = TreeV::Branch(leaves(l));
                lemma_leaves_sorted(l);
                lemma_insert_sorted_keeps_order(acc, caps.last(), node);
                lemma_insert_values(acc, caps.last(), node, |t: TreeV| tree_sorted(t));
            },
            _ => {},
        }
    }
}

proof fn lemma_wrap_sorted(segs: Seq<Seq<char>>, t: TreeV)
    requires
        tree_sorted(t),
    ensures
        tree_sorted(wrap_spec(segs, t)),
    decreases segs.len(),
{
    if segs.len() > 0 {
        lemma_wrap_sorted(segs.drop_first(), t);
        let s = seq![(segs[0], wrap_spec(segs.drop_first(), t))];
        assert(s[0].1 == wrap_spec(segs.drop_first(), t));
    }
}

/// A resolved tree is sorted at every level, whatever order the entries
/// and the available secrets came in.
pub proof fn lemma_resolved_tree_sorted(
    envs: Seq<(Seq<char>, Vec<EnvEntry>)>,
    target: Seq<char>,
    secrets: Seq<Seq<char>>,
    rows: TagRows,
)
    ensures
        resolve_spec(envs, target, secrets, rows) matches Ok(t) ==> tree_sorted(t),
{
    if valid_env_label(target) {
        match lookup(envs, target) {
            Some(es) => {
                let ev = entries_view(es@);
                let segs = prefix_segments(target);
                if has_suffix(target, seq!['/', '*']) {
                    let caps = keys_of(capture_set(ev, secrets));
                    lemma_children_sorted(ev, caps, secrets, rows);
                    if let Ok(c) = children_spec(ev, caps, secrets, rows) {
                        lemma_wrap_sorted(segs, TreeV::Branch(c));
                    }
                } else {
                    lemma_build_sorted(ev, secrets, rows);
                    if let Ok(l) = build_spec(ev, secrets, rows) {
                        lemma_leaves_sorted(l);
                        lemma_wrap_sorted(segs, TreeV::Branch(leaves(l)));
                    }
                }
            },
            None => {},
        }
    }
}

proof fn lemma_no_captures(es: Seq<EntryView>)
    ensures
        capture_set(es, Seq::empty()) == Seq::<(Seq<char>, ())>::empty(),
    decreases es.len(),
{
    if es.len() > 0 {
        lemma_no_captures(es.drop_last());
        if let Some(pg) = entry_pattern(es.last()) {
            assert(dollar_values(pg.0, Seq::empty(), pg.1) == Seq::<Seq<char>>::empty());
        }
    }
}

/// With no secrets to inspect, a known wildcard env resolves to an empty
/// branch rooted at its concrete prefix.
pub proof fn lemma_wildcard_without_secrets(
    envs: Seq<(Seq<char>, Vec<EnvEntry>)>,
    target: Seq<char>,
    rows: TagRows,
)
    requires
        valid_env_label(target),
        has_suffix(target, seq!['/', '*']),
        lookup(envs, target) is Some,
    ensures
        resolve_spec(envs, target, Seq::empty(), rows) == Ok::<TreeV, Failure>(
            wrap_spec(prefix_segments(target), TreeV::Branch(Seq::empty())),
        ),
{
    let es = lookup(envs, target)->Some_0;
    lemma_no_captures(entries_view(es@));
    assert(keys_of(Seq::<(Seq<char>, ())>::empty()) =~= Seq::<Seq<char>>::empty());
}

// ── Laws: envs of aliases only ───────────────────────────────────────────

/// Every entry is an alias.
pub open spec fn alias_only(es: Seq<EntryView>) -> bool {
    forall|i: int| 0 <= i < es.len() ==> (#[trigger] es[i]) is Alias
}

/// The flat map of alias-only entries does not look at the secrets.
proof fn lemma_build_alias_only(es: Seq<EntryView>, s1: Seq<Seq<char>>, r1: TagRows, s2: Seq<Seq<char>>, r2: TagRows)
    requires
        alias_only(es),
    ensures
        build_spec(es, s1, r1) == build_spec(es, s2, r2),
    decreases es.len(),
{
    if es.len() > 0 {
        assert(alias_only(es.drop_last())) by {
            assert forall|i: int| 0 <= i < es.drop_last().len() implies (#[trigger] es.drop_last()[i]) is Alias by {
                assert(es.drop_last()[i] == es[i]);
            }
        }
        assert(es.last() is Alias) by {
            assert(es[es.len() - 1] is Alias);
        }
        lemma_build_alias_only(es.drop_last(), s1, r1, s2, r2);
    }
}

/// Binding `$1` keeps alias-only entries alias-only.
proof fn lemma_subst_alias_only(es: Seq<EntryView>, v: Seq<char>)
    requires
        alias_only(es),
    ensures
        alias_only(subst_entries(es, v)),
{
    assert forall|i: int| 0 <= i < subst_entries(es, v).len() implies (#[trigger] subst_entries(es, v)[i]) is Alias by {
        assert(es[i] is Alias);
    }
}

/// The sub-branches of alias-only entries do not look at the secrets.
proof fn lemma_children_alias_only(
    es: Seq<EntryView>,
    caps: Seq<Seq<char>>,
    s1: Seq<Seq<char>>,
    r1: TagRows,
    s2: Seq<Seq<char>>,
    r2: TagRows,
)
    requires
        alias_only(es),
    ensures
        children_spec(es, caps, s1, r1) == children_spec(es, caps, s2, r2),
    decreases caps.len(),
{
    if caps.len() > 0 {
        lemma_children_alias_only(es, caps.drop_last(), s1, r1, s2, r2);
        lemma_subst_alias_only(es, caps.last());
        lemma_build_alias_only(subst_entries(es, caps.last()), s1, r1, s2, r2);
    }
}

/// A value is among those `$1` takes exactly when some secret binds it.
proof fn lemma_dollar_values_has(pat: Seq<char>, secrets: Seq<Seq<char>>, glob: bool, c: Seq<char>)
    ensures
        dollar_values(pat, secrets, glob).contains(c) <==> (first_index(split(strip_slash(pat), '/'), seq!['$', '1']) >= 0
            && c.len() > 0 && exists|j: int|
            0 <= j < secrets.len() && capture_of(
                split(strip_slash(pat), '/'),
                first_index(split(strip_slash(pat), '/'), seq!['$', '1']),
                #[trigger] secrets[j],
                glob,
            ) == Some(c)),
    decreases secrets.len(),
{
    let segs = split(strip_slash(pat), '/');
    let idx = first_index(segs, seq!['$', '1']);
    if idx >= 0 && secrets.len() > 0 {
        let d = secrets.drop_last();
        lemma_dollar_values_has(pat, d, glob, c);
        let rest = dollar_values(pat, d, glob);
        let last = secrets.last();
        if (exists|j: int| 0 <= j < secrets.len() && capture_of(segs, idx, #[trigger] secrets[j], glob) == Some(c)) && c.len() > 0 {
            let j = choose|j: int| 0 <= j < secrets.len() && capture_of(segs, idx, #[trigger] secrets[j], glob) == Some(c);
            if j < secrets.len() - 1 {
                assert(d[j] == secrets[j]);
            }
        }
        if exists|j: int| 0 <= j < d.len() && capture_of(segs, idx, #[trigger] d[j], glob) == Some(c) {
            let j = choose|j: int| 0 <= j < d.len() && capture_of(segs, idx, #[trigger] d[j], glob) == Some(c);
            assert(secrets[j] == d[j]);
        }
        assert(secrets[secrets.len() - 1] == last);
        assert(dollar_values(pat, secrets, glob) == match capture_of(segs, idx, last, glob) {
            Some(x) => if x.len() > 0 && !rest.contains(x) {
                rest.push(x)
            } else {
                rest
            },
            None => rest,
        });
        match capture_of(segs, idx, last, glob) {
            Some(x) => {
                if x.len() > 0 && !rest.contains(x) {
                    let dv = rest.push(x);
                    if dv.contains(c) {
                        let k = choose|k: int| 0 <= k < dv.len() && dv[k] == c;
                        if k < rest.len() {
                            assert(rest[k] == c);
                        }
                    }
                    if rest.contains(c) {
                        let k = choose|k: int| 0 <= k < rest.len() && rest[k] == c;
                        assert(dv[k] == c);
                    }
                    if c == x {
                        assert(dv[rest.len() as int] == c);
                    }
                }
            },
            None => {},
        }
    }
}

/// Inserting values as units: a key is present when it was, or is one of
/// the values.
proof fn lemma_insert_units_has(acc: Seq<(Seq<char>, ())>, vals: Seq<Seq<char>>, x: Seq<char>)
    ensures
        (lookup(insert_units(acc, vals), x) is Some) <==> (lookup(acc, x) is Some || vals.contains(x)),
    decreases vals.len(),
{
    if vals.len() > 0 {
        lemma_insert_units_has(acc, vals.drop_last(), x);
        let a = insert_units(acc, vals.drop_last());
        if x == vals.last() {
            lemma_lookup_insert_same(a, vals.last(), ());
            assert(vals[vals.len() - 1] == x);
        } else {
            lemma_lookup_insert_other(a, vals.last(), (), x);
            if vals.contains(x) {
                let j = choose|j: int| 0 <= j < vals.len() && vals[j] == x;
                assert(vals.drop_last()[j] == x);
            }
            if vals.drop_last().contains(x) {
                let j = choose|j: int| 0 <= j < vals.drop_last().len() && vals.drop_last()[j] == x;
                assert(vals[j] == x);
            }
        }
    }
}

/// Inserting units keeps a list sorted.
proof fn lemma_insert_units_sorted(acc: Seq<(Seq<char>, ())>, vals: Seq<Seq<char>>)
    requires
        sorted(acc),
    ensures
        sorted(insert_units(acc, vals)),
    decreases vals.len(),
{
    if vals.len() > 0 {
        lemma_insert_units_sorted(acc, vals.drop_last());
        lemma_insert_sorted_keeps_order(insert_units(acc, vals.drop_last()), vals.last(), ());
    }
}

/// The capture set is sorted.
proof fn lemma_capture_set_sorted(es: Seq<EntryView>, secrets: Seq<Seq<char>>)
    ensures
        sorted(capture_set(es, secrets)),
    decreases es.len(),
{
    if es.len() > 0 {
        lemma_capture_set_sorted(es.drop_last(), secrets);
        match entry_pattern(es.last()) {
            None => {},
            Some(pg) => lemma_insert_units_sorted(capture_set(es.drop_last(), secrets), dollar_values(pg.0, secrets, pg.1)),
        }
    }
}

/// The capture set depends on which secrets there are, not on their order
/// or repeats.
proof fn lemma_capture_set_same(es: Seq<EntryView>, s1: Seq<Seq<char>>, s2: Seq<Seq<char>>, x: Seq<char>)
    requires
        forall|y: Seq<char>| s1.contains(y) <==> s2.contains(y),
    ensures
        (lookup(capture_set(es, s1), x) is Some) <==> (lookup(capture_set(es, s2), x) is Some),
    decreases es.len(),
{
    if es.len() > 0 {
        lemma_capture_set_same(es.drop_last(), s1, s2, x);
        match entry_pattern(es.last()) {
            None => {},
            Some(pg) => {
                lemma_insert_units_has(capture_set(es.drop_last(), s1), dollar_values(pg.0, s1, pg.1), x);
                lemma_insert_units_has(capture_set(es.drop_last(), s2), dollar_values(pg.0, s2, pg.1), x);
                lemma_dollar_values_has(pg.0, s1, pg.1, x);
                lemma_dollar_values_has(pg.0, s2, pg.1, x);
                let segs = split(strip_slash(pg.0), '/');
                let idx = first_index(segs, seq!['$', '1']);
                if exists|j: int| 0 <= j < s1.len() && capture_of(segs, idx, #[trigger] s1[j], pg.1) == Some(x) {
                    let j = choose|j: int| 0 <= j < s1.len() && capture_of(segs, idx, #[trigger] s1[j], pg.1) == Some(x);
                    assert(s1.contains(s1[j]));
                    assert(s2.contains(s1[j]));
                    let k = choose|k: int| 0 <= k < s2.len() && s2[k] == s1[j];
                    assert(capture_of(segs, idx, s2[k], pg.1) == Some(x));
                }
                if exists|j: int| 0 <= j < s2.len() && capture_of(segs, idx, #[trigger] s2[j], pg.1) == Some(x) {
                    let j = choose|j: int| 0 <= j < s2.len() && capture_of(segs, idx, #[trigger] s2[j], pg.1) == Some(x);
                    assert(s2.contains(s2[j]));
                    assert(s1.contains(s2[j]));
                    let k = choose|k: int| 0 <= k < s1.len() && s1[k] == s2[j];
                    assert(capture_of(segs, idx, s1[k], pg.1) == Some(x));
                }
            },
        }
    }
}

/// For an env made of aliases only, the resolved tree depends only on
/// which secrets are available: listing them in another order, or with
/// repeats, gives the same tree (wildcard branches come out in sorted key
/// order either way), and no tag lookup is consulted.
pub proof fn lemma_resolve_alias_only(
    envs: Seq<(Seq<char>, Vec<EnvEntry>)>,
    target: Seq<char>,
    s1: Seq<Seq<char>>,
    r1: TagRows,
    s2: Seq<Seq<char>>,
    r2: TagRows,
)
    requires
        lookup(envs, target) matches Some(es) ==> alias_only(entries_view(es@)),
        forall|y: Seq<char>| s1.contains(y) <==> s2.contains(y),
    ensures
        resolve_spec(envs, target, s1, r1) == resolve_spec(envs, target, s2, r2),
{
    if valid_env_label(target) {
        match lookup(envs, target) {
            None => {},
            Some(es) => {
                let ev = entries_view(es@);
                let c1 = capture_set(ev, s1);
                let c2 = capture_set(ev, s2);
                lemma_capture_set_sorted(ev, s1);
                lemma_capture_set_sorted(ev, s2);
                assert forall|k: Seq<char>| lookup(c1, k) == lookup(c2, k) by {
                    lemma_capture_set_same(ev, s1, s2, k);
                }
                lemma_sorted_extensional(c1, c2);
                lemma_children_alias_only(ev, keys_of(c1), s1, r1, s2, r2);
                lemma_build_alias_only(ev, s1, r1, s2, r2);
            },
        }
    }
}

// ── Glob entries stay under their prefix ─────────────────────────────────

/// The values of a flat map.
pub open spec fn flat_values(l: Seq<(Seq<char>, Seq<char>)>) -> Seq<Seq<char>> {
    l.map_values(|e: (Seq<char>, Seq<char>)| e.1)
}

/// Every secret kept by `under_prefix` is an available secret that starts
/// with the needle.
proof fn lemma_under_prefix_sound(secrets: Seq<Seq<char>>, needle: Seq<char>)
    ensures
        forall|k: int|
            0 <= k < under_prefix(secrets, needle).len() ==> secrets.contains(
                #[trigger] under_prefix(secrets, needle)[k],
            ) && has_prefix(under_prefix(secrets, needle)[k], needle),
    decreases secrets.len(),
{
    if secrets.len() > 0 {
        let init = secrets.drop_last();
        lemma_under_prefix_sound(init, needle);
        let r = under_prefix(secrets, needle);
        assert forall|k: int| 0 <= k < r.len() implies secrets.contains(#[trigger] r[k]) && has_prefix(
            r[k],
            needle,
        ) by {
            if k < under_prefix(init, needle).len() {
                assert(r[k] == under_prefix(init, needle)[k]);
                let j = choose|j: int| 0 <= j < init.len() && init[j] == r[k];
                assert(secrets[j] == init[j]);
            } else {
                assert(r[k] == secrets.last());
                assert(secrets[secrets.len() - 1] == secrets.last());
            }
        }
    }
}

/// Inserting paths stores no value but the paths and those already there.
proof fn lemma_insert_paths_values(
    acc: Seq<(Seq<char>, Seq<char>)>,
    paths: Seq<Seq<char>>,
    p: spec_fn(Seq<char>) -> bool,
)
    requires
        forall|i: int| 0 <= i < acc.len() ==> p(#[trigger] acc[i].1),
        forall|k: int| 0 <= k < paths.len() ==> p(#[trigger] paths[k]),
    ensures
        insert_paths(acc, paths) matches Ok(r) ==> forall|i: int|
            0 <= i < r.len() ==> p(#[trigger] r[i].1),
    decreases paths.len(),
{
    if paths.len() > 0 {
        let init = paths.drop_last();
        assert forall|k: int| 0 <= k < init.len() implies p(#[trigger] init[k]) by {
            assert(init[k] == paths[k]);
        }
        lemma_insert_paths_values(acc, init, p);
        match insert_paths(acc, init) {
            Ok(a) => match last_segment_spec(paths.last()) {
                Some(k) => {
                    assert(p(paths[paths.len() - 1]));
                    crate::strmap::lemma_insert_values(a, k, paths.last(), p);
                },
                None => {},
            },
            Err(_) => {},
        }
    }
}

/// A glob entry `prefix` takes only secrets under `prefix/`: every value of
/// the map it yields was already in the map, or is an available secret
/// whose path starts with `prefix` followed by `/` (so `api` never takes
/// `apix/other`).
pub proof fn lemma_glob_entry_under_prefix(
    acc: Seq<(Seq<char>, Seq<char>)>,
    prefix: Seq<char>,
    secrets: Seq<Seq<char>>,
    rows: TagRows,
)
    ensures
        entry_step(acc, EntryView::Glob(prefix), secrets, rows) matches Ok(r) ==> forall|i: int|
            0 <= i < r.len() ==> flat_values(acc).contains(#[trigger] r[i].1) || (secrets.contains(
                r[i].1,
            ) && has_prefix(r[i].1, prefix + seq!['/'])),
{
    let needle = prefix.push('/');
    assert(needle =~= prefix + seq!['/']);
    let p = |v: Seq<char>|
        flat_values(acc).contains(v) || (secrets.contains(v) && has_prefix(v, prefix + seq!['/']));
    assert forall|i: int| 0 <= i < acc.len() implies p(#[trigger] acc[i].1) by {
        assert(flat_values(acc)[i] == acc[i].1);
    }
    lemma_under_prefix_sound(secrets, needle);
    let hits = under_prefix(secrets, needle);
    assert forall|k: int| 0 <= k < hits.len() implies p(#[trigger] hits[k]) by {}
    lemma_insert_paths_values(acc, hits, p);
}

/// A value justified by some glob entry: an available secret under one of
/// the prefixes followed by `/`.
pub open spec fn under_some_glob(v: Seq<char>, es: Seq<EntryView>, secrets: Seq<Seq<char>>) -> bool {
    secrets.contains(v) && exists|k: int|
        0 <= k < es.len() && #[trigger] es[k] is Glob && has_prefix(v, es[k]->Glob_0 + seq!['/'])
}

/// The flat map of an env made of glob entries holds only available
/// secrets that lie under one of its prefixes followed by `/`.
pub proof fn lemma_glob_entries_under_prefixes(
    es: Seq<EntryView>,
    secrets: Seq<Seq<char>>,
    rows: TagRows,
)
    requires
        forall|k: int| 0 <= k < es.len() ==> #[trigger] es[k] is Glob,
    ensures
        build_spec(es, secrets, rows) matches Ok(r) ==> forall|i: int|
            0 <= i < r.len() ==> under_some_glob(#[trigger] r[i].1, es, secrets),
    decreases es.len(),
{
    if es.len() > 0 {
        let init = es.drop_last();
        assert forall|k: int| 0 <= k < init.len() implies #[trigger] init[k] is Glob by {
            assert(init[k] == es[k]);
        }
        lemma_glob_entries_under_prefixes(init, secrets, rows);
        match build_spec(init, secrets, rows) {
            Ok(acc) => {
                let last = es.last();
                assert(es[es.len() - 1] is Glob);
                let pre = last->Glob_0;
                lemma_glob_entry_under_prefix(acc, pre, secrets, rows);
                match entry_step(acc, last, secrets, rows) {
                    Ok(r) => {
                        assert forall|i: int| 0 <= i < r.len() implies under_some_glob(
                            #[trigger] r[i].1,
                            es,
                            secrets,
                        ) by {
                            if flat_values(acc).contains(r[i].1) {
                                let j = choose|j: int|
                                    0 <= j < flat_values(acc).len() && flat_values(acc)[j] == r[i].1;
                                assert(flat_values(acc)[j] == acc[j].1);
                                assert(under_some_glob(acc[j].1, init, secrets));
                                let k = choose|k: int|
                                    0 <= k < init.len() && #[trigger] init[k] is Glob && has_prefix(
                                        acc[j].1,
                                        init[k]->Glob_0 + seq!['/'],
                                    );
                                assert(es[k] == init[k]);
                            } else {
                                assert(es[es.len() - 1] == last);
                            }
                        }
                    },
                    Err(_) => {},
                }
            },
            Err(_) => {},
        }
    }
}

/// A secret carries a tag: its looked-up tags hold that name.
pub open spec fn row_has_tag(rows: TagRows, i: int, tag: Seq<char>) -> bool {
    rows[i] matches Some(ts) && exists|k: int| 0 <= k < ts.len() && #[trigger] ts[k] == tag
}

/// `v` is one of the secrets, at an index whose tags hold `tag`.
pub open spec fn tagged_secret(v: Seq<char>, secrets: Seq<Seq<char>>, rows: TagRows, tag: Seq<char>) -> bool {
    exists|i: int|
        #![trigger secrets[i]]
        0 <= i < secrets.len() && secrets[i] == v && row_has_tag(rows, i, tag)
}

/// The secrets a tag selects: when every lookup answered, exactly the
/// secrets whose tags hold the name, each by its index; otherwise the walk
/// fails at a secret whose lookup failed.
pub proof fn lemma_tagged_selects(tag: Seq<char>, secrets: Seq<Seq<char>>, rows: TagRows)
    ensures
        tagged(tag, secrets, rows) is Ok <==> (forall|i: int|
            0 <= i < secrets.len() ==> #[trigger] rows[i] is Some),
        tagged(tag, secrets, rows) matches Err(f) ==> (f matches Failure::Lookup(j) && 0 <= j
            < secrets.len() && rows[j] is None),
        tagged(tag, secrets, rows) matches Ok(hits) ==> (forall|h: int|
            0 <= h < hits.len() ==> tagged_secret(#[trigger] hits[h], secrets, rows, tag)),
        tagged(tag, secrets, rows) matches Ok(hits) ==> (forall|i: int|
            0 <= i < secrets.len() && row_has_tag(rows, i, tag) ==> hits.contains(
                #[trigger] secrets[i],
            )),
    decreases secrets.len(),
{
    if secrets.len() > 0 {
        let n = secrets.len() - 1;
        let init = secrets.drop_last();
        lemma_tagged_selects(tag, init, rows);
        match tagged(tag, init, rows) {
            Err(f) => {
                let j = choose|j: int| f == Failure::Lookup(j);
                assert(!(forall|i: int| 0 <= i < secrets.len() ==> #[trigger] rows[i] is Some)) by {
                    assert(init[0] == init[0]);
                    if forall|i: int| 0 <= i < secrets.len() ==> #[trigger] rows[i] is Some {
                        assert forall|i: int| 0 <= i < init.len() implies #[trigger] rows[i] is Some by {
                            assert(rows[i] is Some);
                        }
                    }
                }
            },
            Ok(hits) => {
                match rows[n] {
                    None => {},
                    Some(ts) => {
                        let r = if in_items(ts, tag) { hits.push(secrets.last()) } else { hits };
                        assert(tagged(tag, secrets, rows) == Ok::<_, Failure>(r));
                        assert forall|i: int| 0 <= i < secrets.len() implies #[trigger] rows[i] is Some by {
                            if i < n {
                                assert(init[i] == secrets[i]);
                            }
                        }
                        assert forall|h: int| 0 <= h < r.len() implies tagged_secret(
                            #[trigger] r[h],
                            secrets,
                            rows,
                            tag,
                        ) by {
                            if h < hits.len() {
                                assert(r[h] == hits[h]);
                                assert(tagged_secret(hits[h], init, rows, tag));
                                let i = choose|i: int|
                                    #![trigger init[i]]
                                    0 <= i < init.len() && init[i] == hits[h] && row_has_tag(
                                        rows,
                                        i,
                                        tag,
                                    );
                                assert(secrets[i] == init[i]);
                            } else {
                                assert(r[h] == secrets[n]);
                                assert(row_has_tag(rows, n, tag));
                                assert(secrets[n] == r[h]);
                            }
                        }
                        assert forall|i: int|
                            0 <= i < secrets.len() && row_has_tag(rows, i, tag) implies r.contains(
                            #[trigger] secrets[i],
                        ) by {
                            if i < n {
                                assert(init[i] == secrets[i]);
                                assert(hits.contains(init[i]));
                                let k = choose|k: int| 0 <= k < hits.len() && hits[k] == init[i];
                                assert(r[k] == hits[k]);
                            } else {
                                assert(in_items(ts, tag));
                                assert(r[hits.len() as int] == secrets[n]);
                            }
                        }
                    },
                }
            },
        }
    }
}

/// A tag entry takes only secrets carrying the tag: every value of the map
/// it yields was already in the map or is a secret whose tags hold it.
pub proof fn lemma_tag_entry_selects(
    acc: Seq<(Seq<char>, Seq<char>)>,
    tag: Seq<char>,
    secrets: Seq<Seq<char>>,
    rows: TagRows,
)
    ensures
        entry_step(acc, EntryView::Tag(tag), secrets, rows) matches Ok(r) ==> forall|i: int|
            0 <= i < r.len() ==> flat_values(acc).contains(#[trigger] r[i].1) || tagged_secret(
                r[i].1,
                secrets,
                rows,
                tag,
            ),
{
    lemma_tagged_selects(tag, secrets, rows);
    let p = |v: Seq<char>| flat_values(acc).contains(v) || tagged_secret(v, secrets, rows, tag);
    assert forall|i: int| 0 <= i < acc.len() implies p(#[trigger] acc[i].1) by {
        assert(flat_values(acc)[i] == acc[i].1);
    }
    match tagged(tag, secrets, rows) {
        Ok(hits) => {
            assert forall|k: int| 0 <= k < hits.len() implies p(#[trigger] hits[k]) by {
                assert(tagged_secret(hits[k], secrets, rows, tag));
            }
            lemma_insert_paths_values(acc, hits, p);
        },
        Err(_) => {},
    }
}

/// Inserting paths keeps every key already present and gives each path an
/// entry under its last segment.
proof fn lemma_insert_paths_keys(acc: Seq<(Seq<char>, Seq<char>)>, paths: Seq<Seq<char>>)
    ensures
        insert_paths(acc, paths) matches Ok(r) ==> (forall|k: int|
            0 <= k < paths.len() ==> (last_segment_spec(#[trigger] paths[k]) matches Some(key)
                && lookup(r, key) is Some)),
        insert_paths(acc, paths) matches Ok(r) ==> (forall|key: Seq<char>|
            #[trigger] lookup(acc, key) is Some ==> lookup(r, key) is Some),
    decreases paths.len(),
{
    if paths.len() > 0 {
        let n = paths.len() - 1;
        let init = paths.drop_last();
        lemma_insert_paths_keys(acc, init);
        match insert_paths(acc, init) {
            Ok(a) => match last_segment_spec(paths.last()) {
                Some(k) => {
                    let r = insert_sorted(a, k, paths.last());
                    assert forall|key: Seq<char>| lookup(a, key) is Some implies #[trigger] lookup(r, key) is Some by {
                        if key == k {
                            lemma_lookup_insert_same(a, k, paths.last());
                        } else {
                            lemma_lookup_insert_other(a, k, paths.last(), key);
                        }
                    }
                    lemma_lookup_insert_same(a, k, paths.last());
                    assert forall|j: int| 0 <= j < paths.len() implies (last_segment_spec(
                        #[trigger] paths[j],
                    ) matches Some(key) && lookup(r, key) is Some) by {
                        if j < n {
                            assert(init[j] == paths[j]);
                            let key = last_segment_spec(paths[j])->Some_0;
                            assert(lookup(a, key) is Some);
                            assert(lookup(r, key) is Some);
                        } else {
                            assert(paths[j] == paths.last());
                        }
                    }
                    assert forall|key: Seq<char>| #[trigger] lookup(acc, key) is Some implies lookup(r, key) is Some by {
                        assert(lookup(a, key) is Some);
                        assert(lookup(r, key) is Some);
                    }
                },
                None => {},
            },
            Err(_) => {},
        }
    }
}

/// Every secret kept by `under_prefix` is one that starts with the needle,
/// and every such secret is kept.
proof fn lemma_under_prefix_complete(secrets: Seq<Seq<char>>, needle: Seq<char>)
    ensures
        forall|i: int|
            0 <= i < secrets.len() && has_prefix(#[trigger] secrets[i], needle)
                ==> under_prefix(secrets, needle).contains(secrets[i]),
    decreases secrets.len(),
{
    if secrets.len() > 0 {
        let init = secrets.drop_last();
        lemma_under_prefix_complete(init, needle);
        let rest = under_prefix(init, needle);
        let r = under_prefix(secrets, needle);
        assert forall|i: int| 0 <= i < secrets.len() && has_prefix(#[trigger] secrets[i], needle)
            implies r.contains(secrets[i]) by {
            if i < init.len() {
                assert(init[i] == secrets[i]);
                assert(rest.contains(init[i]));
                let k = choose|k: int| 0 <= k < rest.len() && rest[k] == init[i];
                assert(r[k] == rest[k]);
            } else {
                assert(r[rest.len() as int] == secrets[i]);
            }
        }
    }
}

/// A glob entry takes every secret under `prefix/`: each such secret has an
/// entry under its last segment, and the keys already present stay.
pub proof fn lemma_glob_entry_takes_all(
    acc: Seq<(Seq<char>, Seq<char>)>,
    prefix: Seq<char>,
    secrets: Seq<Seq<char>>,
    rows: TagRows,
)
    ensures
        entry_step(acc, EntryView::Glob(prefix), secrets, rows) matches Ok(r) ==> (forall|i: int|
            0 <= i < secrets.len() && has_prefix(#[trigger] secrets[i], prefix + seq!['/'])
                ==> (last_segment_spec(secrets[i]) matches Some(key) && lookup(r, key) is Some)),
        entry_step(acc, EntryView::Glob(prefix), secrets, rows) matches Ok(r) ==> (forall|
            key: Seq<char>,
        | #[trigger] lookup(acc, key) is Some ==> lookup(r, key) is Some),
{
    let needle = prefix.push('/');
    assert(needle =~= prefix + seq!['/']);
    let hits = under_prefix(secrets, needle);
    lemma_under_prefix_complete(secrets, needle);
    lemma_insert_paths_keys(acc, hits);
    match insert_paths(acc, hits) {
        Ok(r) => {
            assert forall|i: int|
                0 <= i < secrets.len() && has_prefix(#[trigger] secrets[i], prefix + seq!['/'])
                implies (last_segment_spec(secrets[i]) matches Some(key) && lookup(r, key) is Some) by {
                assert(hits.contains(secrets[i]));
                let k = choose|k: int| 0 <= k < hits.len() && hits[k] == secrets[i];
                assert(last_segment_spec(hits[k]) matches Some(key) && lookup(r, key) is Some);
            }
        },
        Err(_) => {},
    }
}

/// A tag entry takes every secret carrying the tag: each has an entry
/// under its last segment, and the keys already present stay.
pub proof fn lemma_tag_entry_takes_all(
    acc: Seq<(Seq<char>, Seq<char>)>,
    tag: Seq<char>,
    secrets: Seq<Seq<char>>,
    rows: TagRows,
)
    ensures
        entry_step(acc, EntryView::Tag(tag), secrets, rows) matches Ok(r) ==> (forall|i: int|
            0 <= i < secrets.len() && row_has_tag(rows, i, tag) ==> (last_segment_spec(
                #[trigger] secrets[i],
            ) matches Some(key) && lookup(r, key) is Some)),
        entry_step(acc, EntryView::Tag(tag), secrets, rows) matches Ok(r) ==> (forall|
            key: Seq<char>,
        | #[trigger] lookup(acc, key) is Some ==> lookup(r, key) is Some),
{
    lemma_tagged_selects(tag, secrets, rows);
    match tagged(tag, secrets, rows) {
        Ok(hits) => {
            lemma_insert_paths_keys(acc, hits);
            match insert_paths(acc, hits) {
                Ok(r) => {
                    assert forall|i: int| 0 <= i < secrets.len() && row_has_tag(rows, i, tag) implies (
                    last_segment_spec(#[trigger] secrets[i]) matches Some(key) && lookup(r, key) is Some) by {
                        assert(hits.contains(secrets[i]));
                        let k = choose|k: int| 0 <= k < hits.len() && hits[k] == secrets[i];
                        assert(last_segment_spec(hits[k]) matches Some(key) && lookup(r, key) is Some);
                    }
                },
                Err(_) => {},
            }
        },
        Err(_) => {},
    }
}

} // verus!
