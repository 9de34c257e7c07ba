//! Glob matching of `/`-separated secret paths, and the naming rules of the
//! export command.
//!
//! Within one segment `*` matches any run of characters and `?` exactly one
//! character; a whole segment `**` matches any number of segments.
use vstd::prelude::*;

use crate::error::HimitsuError;
use crate::text::{chars_of, copy_string, push_char, push_str, split, split_chars, string_of, vec_views};

verus! {

// ── Specification ────────────────────────────────────────────────────────

/// Glob match of one segment: `*` is any run, `?` any single character.
pub open spec fn seg_glob(p: Seq<char>, t: Seq<char>) -> bool
    decreases p.len(), t.len(),
{
    if p.len() == 0 {
        t.len() == 0
    } else if p[0] == '*' {
        seg_glob(p.drop_first(), t) || (t.len() > 0 && seg_glob(p, t.drop_first()))
    } else if t.len() == 0 {
        false
    } else if p[0] == '?' || p[0] == t[0] {
        seg_glob(p.drop_first(), t.drop_first())
    } else {
        false
    }
}

/// The segment `**`.
pub open spec fn is_double_star(s: Seq<char>) -> bool {
    s == seq!['*', '*']
}

/// Segment-wise match; a `**` segment stands for any number of segments.
pub open spec fn parts_match(pat: Seq<Seq<char>>, path: Seq<Seq<char>>) -> bool
    decreases pat.len(), path.len(),
{
    if pat.len() == 0 {
        path.len() == 0
    } else if is_double_star(pat[0]) {
        pat.len() == 1 || parts_match(pat.drop_first(), path) || (path.len() > 0 && parts_match(
            pat,
            path.drop_first(),
        ))
    } else if path.len() == 0 {
        false
    } else {
        seg_glob(pat[0], path[0]) && parts_match(pat.drop_first(), path.drop_first())
    }
}

/// Whether the glob `pattern` matches the secret path `path`.
pub open spec fn glob_spec(pattern: Seq<char>, path: Seq<char>) -> bool {
    parts_match(split(pattern, '/'), split(path, '/'))
}

// ── Implementation ───────────────────────────────────────────────────────

/// Matches the glob `pattern` against the secret path `path`.
pub fn glob_match(pattern: &str, path: &str) -> (r: bool)
    ensures
        r == glob_spec(pattern@, path@),
{
    let pc = chars_of(pattern);
    let tc = chars_of(path);
    let pat_parts = split_chars(&pc, '/');
    let path_parts = split_chars(&tc, '/');
    assert(vec_views(pat_parts@).skip(0) == vec_views(pat_parts@));
    assert(vec_views(path_parts@).skip(0) == vec_views(path_parts@));
    glob_match_parts(&pat_parts, 0, &path_parts, 0)
}

/// Segment-wise match of `pat[pi..]` against `path[ti..]`.
pub fn glob_match_parts(pat: &Vec<Vec<char>>, pi: usize, path: &Vec<Vec<char>>, ti: usize) -> (r:
    bool)
    requires
        pi <= pat.len(),
        ti <= path.len(),
    ensures
        r == parts_match(vec_views(pat@).skip(pi as int), vec_views(path@).skip(ti as int)),
    decreases pat.len() - pi, path.len() - ti,
{
    let ghost ps = vec_views(pat@).skip(pi as int);
    let ghost ts = vec_views(path@).skip(ti as int);
    if pi == pat.len() {
        return ti == path.len();
    }
    assert(ps[0] == pat@[pi as int]@);
    assert(ps.drop_first() == vec_views(pat@).skip(pi + 1));
    if ti < path.len() {
        assert(ts[0] == path@[ti as int]@);
        assert(ts.drop_first() == vec_views(path@).skip(ti + 1));
    }
    let seg = &pat[pi];
    let is_ds = seg.len() == 2 && seg[0] == '*' && seg[1] == '*';
    proof {
        if is_ds {
            assert(seg@ =~= seq!['*', '*']);
        }
        if is_double_star(ps[0]) {
            assert(seg@[0] == '*' && seg@[1] == '*');
        }
    }
    if is_ds {
        if pi + 1 == pat.len() {
            return true;
        }
        if glob_match_parts(pat, pi + 1, path, ti) {
            return true;
        }
        if ti < path.len() {
            return glob_match_parts(pat, pi, path, ti + 1);
        }
        return false;
    }
    assert(!is_double_star(ps[0]));
    if ti == path.len() {
        return false;
    }
    if segment_match(seg, &path[ti]) {
        glob_match_parts(pat, pi + 1, path, ti + 1)
    } else {
        false
    }
}

/// Glob match of a single segment.
pub fn segment_match(pattern: &[char], segment: &[char]) -> (r: bool)
    ensures
        r == seg_glob(pattern@, segment@),
{
    proof {
        assert(pattern@.skip(0) == pattern@);
        assert(segment@.skip(0) == segment@);
    }
    wildcard_match(pattern, 0, segment, 0)
}

/// Glob match of `p[pi..]` against `t[ti..]` within one segment.
pub fn wildcard_match(p: &[char], pi: usize, t: &[char], ti: usize) -> (r: bool)
    requires
        pi <= p.len(),
        ti <= t.len(),
    ensures
        r == seg_glob(p@.skip(pi as int), t@.skip(ti as int)),
    decreases p.len() - pi, t.len() - ti,
{
    let ghost ps = p@.skip(pi as int);
    let ghost ts = t@.skip(ti as int);
    if pi == p.len() {
        return ti == t.len();
    }
    assert(ps[0] == p@[pi as int]);
    assert(ps.drop_first() == p@.skip(pi + 1));
    if ti < t.len() {
        assert(ts[0] == t@[ti as int]);
        assert(ts.drop_first() == t@.skip(ti + 1));
    }
    if p[pi] == '*' {
        if wildcard_match(p, pi + 1, t, ti) {
            return true;
        }
        if ti < t.len() {
            return wildcard_match(p, pi, t, ti + 1);
        }
        return false;
    }
    if ti == t.len() {
        return false;
    }
    if p[pi] == '?' || p[pi] == t[ti] {
        wildcard_match(p, pi + 1, t, ti + 1)
    } else {
        false
    }
}

// ── Export naming ────────────────────────────────────────────────────────

/// Options of the export command.
#[derive(Debug, Clone, PartialEq, Eq)]
pub struct ExportArgs {
    /// Glob pattern selecting secrets to export.
    pub pattern: String,
    /// Output file path; derived from the pattern when absent.
    pub output: Option<String>,
    /// Output format, `yaml` or `json`.
    pub format: String,
    /// Print plaintext to stdout instead of writing an encrypted file.
    pub stdout: bool,
}

/// The flat key a secret path exports under: `/` becomes `_`.
pub open spec fn key_of_path(path: Seq<char>) -> Seq<char> {
    path.map_values(|c: char| if c == '/' { '_' } else { c })
}

/// Converts a secret path to a flat key name (`prod/db/PASS` → `prod_db_PASS`).
pub fn path_to_key(path: &str) -> (r: String)
    ensures
        r@ == key_of_path(path@),
{
    let cs = chars_of(path);
    let mut out: Vec<char> = Vec::new();
    let mut i: usize = 0;
    while i < cs.len()
        invariant
            i <= cs.len(),
            out@ == key_of_path(cs@.take(i as int)),
        decreases cs.len() - i,
    {
        let c = cs[i];
        out.push(if c == '/' { '_' } else { c });
        assert(key_of_path(cs@.take(i + 1)) == key_of_path(cs@.take(i as int)).push(
            if c == '/' { '_' } else { c },
        ));
        i += 1;
    }
    assert(cs@.take(cs.len() as int) == cs@);
    string_of(&out)
}

/// A pattern segment that names something: not empty, not `*`, not `**`.
pub open spec fn meaningful_segment(s: Seq<char>) -> bool {
    s.len() != 0 && s != seq!['*'] && s != seq!['*', '*']
}

/// The first meaningful segment of a list, if any.
pub open spec fn first_meaningful(parts: Seq<Seq<char>>) -> Option<Seq<char>>
    decreases parts.len(),
{
    if parts.len() == 0 {
        None
    } else if meaningful_segment(parts[0]) {
        Some(parts[0])
    } else {
        first_meaningful(parts.drop_first())
    }
}

/// The file name the export writes when no output path is given.
pub open spec fn default_export_path(pattern: Seq<char>, format: Seq<char>) -> Seq<char> {
    let stem = match first_meaningful(split(pattern, '/')) {
        Some(s) => s,
        None => "export"@,
    };
    let ext = if format == "json"@ {
        "sops.json"@
    } else {
        "sops.yaml"@
    };
    stem.push('.') + ext
}

/// Output path of an export: the explicit one, or one derived from the
/// pattern's first meaningful segment and the format.
pub fn resolve_output_path(args: &ExportArgs) -> (r: Result<String, HimitsuError>)
    ensures
        r is Ok,
        r matches Ok(p) ==> p@ == match args.output {
            Some(o) => o@,
            None => default_export_path(args.pattern@, args.format@),
        },
{
    if let Some(out) = &args.output {
        return Ok(copy_string(out));
    }
    let pc = chars_of(args.pattern.as_str());
    let parts = split_chars(&pc, '/');
    let mut i: usize = 0;
    let mut stem: Option<usize> = None;
    assert(vec_views(parts@).skip(0) == vec_views(parts@));
    while i < parts.len() && stem.is_none()
        invariant
            i <= parts.len(),
            stem is None ==> first_meaningful(vec_views(parts@)) == first_meaningful(
                vec_views(parts@).skip(i as int),
            ),
            stem matches Some(k) ==> k < parts.len() && first_meaningful(vec_views(parts@))
                == Some(parts@[k as int]@),
        decreases parts.len() - i + (if stem is None { 1int } else { 0int }),
    {
        let ghost rest = vec_views(parts@).skip(i as int);
        assert(rest[0] == parts@[i as int]@);
        assert(rest.drop_first() == vec_views(parts@).skip(i + 1));
        let seg = &parts[i];
        let star_only = seg.len() == 1 && seg[0] == '*';
        let double = seg.len() == 2 && seg[0] == '*' && seg[1] == '*';
        proof {
            if seg@ == seq!['*'] {
                assert(seg@[0] == '*');
            }
            if seg@ == seq!['*', '*'] {
                assert(seg@[0] == '*' && seg@[1] == '*');
            }
            if star_only {
                assert(seg@ =~= seq!['*']);
            }
            if double {
                assert(seg@ =~= seq!['*', '*']);
            }
        }
        if seg.len() != 0 && !star_only && !double {
            stem = Some(i);
        } else {
            i += 1;
        }
    }
    let mut out = match stem {
        Some(k) => string_of(&parts[k]),
        None => String::from_str("export"),
    };
    proof {
        if stem is None {
            assert(vec_views(parts@).skip(i as int).len() == 0);
        }
    }
    let fc = chars_of(args.format.as_str());
    let json = fc.len() == 4 && fc[0] == 'j' && fc[1] == 's' && fc[2] == 'o' && fc[3] == 'n';
    proof {
        reveal_strlit("json");
        if fc@ == "json"@ {
            assert(fc@[0] == 'j' && fc@[1] == 's' && fc@[2] == 'o' && fc@[3] == 'n');
        }
        if json {
            assert(fc@ == "json"@);
        }
    }
    push_char(&mut out, '.');
    if json {
        push_str(&mut out, "sops.json");
    } else {
        push_str(&mut out, "sops.yaml");
    }
    Ok(out)
}

// ── Laws of segment matching ─────────────────────────────────────────────

/// A common prefix can be put in front of both pattern and text: whatever
/// `q` matches, `a + q` matches with `a` in front (each character of `a`
/// matching itself, a `*` by taking exactly that character).
pub proof fn lemma_seg_glob_prefix(a: Seq<char>, q: Seq<char>, t: Seq<char>)
    requires
        seg_glob(q, t),
    ensures
        seg_glob(a + q, a + t),
    decreases a.len(),
{
    if a.len() > 0 {
        lemma_seg_glob_prefix(a.drop_first(), q, t);
        let p = a + q;
        let u = a + t;
        assert(p.drop_first() =~= a.drop_first() + q);
        assert(u.drop_first() =~= a.drop_first() + t);
        if a[0] == '*' {
            assert(seg_glob(p.drop_first(), u.drop_first()));
            assert(seg_glob(p, u.drop_first()));
        }
    }
}

/// Every pattern matches its own text.
pub proof fn lemma_seg_glob_reflexive(p: Seq<char>)
    ensures
        seg_glob(p, p),
{
    lemma_seg_glob_prefix(p, Seq::empty(), Seq::empty());
    assert(p + Seq::<char>::empty() =~= p);
}

/// A `*` followed by `b` matches any run `x` followed by `b`.
proof fn lemma_star_any_run(x: Seq<char>, b: Seq<char>)
    ensures
        seg_glob(seq!['*'] + b, x + b),
    decreases x.len(),
{
    let p = seq!['*'] + b;
    assert(p.drop_first() =~= b);
    if x.len() == 0 {
        lemma_seg_glob_reflexive(b);
        assert(x + b =~= b);
    } else {
        lemma_star_any_run(x.drop_first(), b);
        assert((x + b).drop_first() =~= x.drop_first() + b);
    }
}

/// Within a segment a `*` matches any run of characters wherever it stands,
/// and a `?` any single character: `a*b` matches `a` + `x` + `b` for every
/// `x`, and `a?b` matches `a` + `c` + `b` for every character `c`.
pub proof fn lemma_seg_glob_wildcards(a: Seq<char>, x: Seq<char>, c: char, b: Seq<char>)
    ensures
        seg_glob(a + seq!['*'] + b, a + x + b),
        seg_glob(a + seq!['?'] + b, a + seq![c] + b),
{
    lemma_star_any_run(x, b);
    lemma_seg_glob_prefix(a, seq!['*'] + b, x + b);
    assert(a + seq!['*'] + b =~= a + (seq!['*'] + b));
    assert(a + x + b =~= a + (x + b));
    let q = seq!['?'] + b;
    let t = seq![c] + b;
    lemma_seg_glob_reflexive(b);
    assert(q.drop_first() =~= b);
    assert(t.drop_first() =~= b);
    assert(seg_glob(q, t));
    lemma_seg_glob_prefix(a, q, t);
    assert(a + seq!['?'] + b =~= a + q);
    assert(a + seq![c] + b =~= a + t);
}

/// A pattern without `*` matches only texts of its own length, and a
/// pattern without `*` or `?` matches exactly itself.
pub proof fn lemma_seg_glob_fixed(p: Seq<char>, t: Seq<char>)
    requires
        !p.contains('*'),
    ensures
        seg_glob(p, t) ==> t.len() == p.len(),
        !p.contains('?') ==> (seg_glob(p, t) <==> t == p),
    decreases p.len(),
{
    if p.len() > 0 {
        assert(p[0] != '*') by {
            assert(p[0] == p[0]);
            if p[0] == '*' {
                assert(p.contains('*'));
            }
        }
        assert(!p.drop_first().contains('*')) by {
            if p.drop_first().contains('*') {
                let k = choose|k: int| 0 <= k < p.drop_first().len() && p.drop_first()[k] == '*';
                assert(p[k + 1] == '*');
            }
        }
        if t.len() > 0 {
            lemma_seg_glob_fixed(p.drop_first(), t.drop_first());
            if !p.contains('?') {
                assert(p[0] != '?') by {
                    if p[0] == '?' {
                        assert(p.contains('?'));
                    }
                }
                assert(!p.drop_first().contains('?')) by {
                    if p.drop_first().contains('?') {
                        let k = choose|k: int| 0 <= k < p.drop_first().len() && p.drop_first()[k] == '?';
                        assert(p[k + 1] == '?');
                    }
                }
                if seg_glob(p, t) {
                    assert(t =~= seq![t[0]] + t.drop_first());
                    assert(p =~= seq![p[0]] + p.drop_first());
                }
                if t == p {
                    assert(t.drop_first() == p.drop_first());
                }
            }
        }
    } else {
        if t == p {
            assert(t.len() == 0);
        }
        if seg_glob(p, t) {
            assert(t =~= p);
        }
    }
}

/// A path pattern without `**` matches a path exactly when both have the
/// same number of segments and each pattern segment matches its segment.
pub proof fn lemma_parts_match_segmentwise(pat: Seq<Seq<char>>, path: Seq<Seq<char>>)
    requires
        forall|i: int| 0 <= i < pat.len() ==> !is_double_star(#[trigger] pat[i]),
    ensures
        parts_match(pat, path) <==> (pat.len() == path.len() && forall|i: int|
            0 <= i < pat.len() ==> seg_glob(#[trigger] pat[i], path[i])),
    decreases pat.len(),
{
    if pat.len() > 0 {
        assert(!is_double_star(pat[0]));
        let p2 = pat.drop_first();
        assert forall|i: int| 0 <= i < p2.len() implies !is_double_star(#[trigger] p2[i]) by {
            assert(p2[i] == pat[i + 1]);
        }
        if path.len() > 0 {
            lemma_parts_match_segmentwise(p2, path.drop_first());
            if parts_match(pat, path) {
                assert forall|i: int| 0 <= i < pat.len() implies seg_glob(#[trigger] pat[i], path[i]) by {
                    if i > 0 {
                        assert(pat[i] == p2[i - 1] && path[i] == path.drop_first()[i - 1]);
                    }
                }
            }
            if pat.len() == path.len() && forall|i: int|
                0 <= i < pat.len() ==> seg_glob(#[trigger] pat[i], path[i]) {
                assert(seg_glob(pat[0], path[0]));
                assert forall|i: int| 0 <= i < p2.len() implies seg_glob(
                    #[trigger] p2[i],
                    path.drop_first()[i],
                ) by {
                    assert(p2[i] == pat[i + 1] && path.drop_first()[i] == path[i + 1]);
                    assert(seg_glob(pat[i + 1], path[i + 1]));
                }
            }
        }
    }
}

/// A `**` segment alone matches every path, and after a matching prefix of
/// segments it matches whatever follows.
pub proof fn lemma_double_star_tail(pre: Seq<Seq<char>>, path: Seq<Seq<char>>, rest: Seq<Seq<char>>)
    requires
        forall|i: int| 0 <= i < pre.len() ==> !is_double_star(#[trigger] pre[i]),
        pre.len() == path.len(),
        forall|i: int| 0 <= i < pre.len() ==> seg_glob(#[trigger] pre[i], path[i]),
    ensures
        parts_match(seq![seq!['*', '*']], rest),
        parts_match(pre.push(seq!['*', '*']), path + rest),
    decreases pre.len(),
{
    assert(is_double_star(seq![seq!['*', '*']][0]));
    if pre.len() > 0 {
        let p = pre.push(seq!['*', '*']);
        let t = path + rest;
        assert(p[0] == pre[0] && t[0] == path[0]);
        assert(!is_double_star(p[0]));
        assert(p.drop_first() =~= pre.drop_first().push(seq!['*', '*']));
        assert(t.drop_first() =~= path.drop_first() + rest);
        assert forall|i: int| 0 <= i < pre.drop_first().len() implies !is_double_star(
            #[trigger] pre.drop_first()[i],
        ) && seg_glob(pre.drop_first()[i], path.drop_first()[i]) by {
            assert(pre.drop_first()[i] == pre[i + 1] && path.drop_first()[i] == path[i + 1]);
        }
        lemma_double_star_tail(pre.drop_first(), path.drop_first(), rest);
        assert(seg_glob(pre[0], path[0]));
    } else {
        assert(pre.push(seq!['*', '*']) =~= seq![seq!['*', '*']]);
        assert(path + rest =~= rest);
    }
}

} // verus!
