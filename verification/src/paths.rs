//! Where things live on disk, computed from the base directories the caller
//! determined: key files under the data directory, store checkouts under
//! the state directory, one checkout per `org/repo` slug.
use vstd::prelude::*;

use crate::config::ProjectConfig;
use crate::error::HimitsuError;
use crate::labels::{valid_slug, validate_remote_slug};
use crate::text::{chars_of, copy_string, join, join_with, push_str, split, split_chars, str_eq, string_of, vec_views, views};

verus! {

/// `part` appended to `base` as a path component: an absolute `part`
/// replaces `base`; a separator is added unless `base` is empty or already
/// ends with one.
pub open spec fn path_join(base: Seq<char>, part: Seq<char>) -> Seq<char> {
    if part.len() > 0 && part[0] == '/' {
        part
    } else if base.len() == 0 || base.last() == '/' {
        base + part
    } else {
        base + seq!['/'] + part
    }
}

/// `part` appended to `base` as a path component.
pub fn join_path(base: &str, part: &str) -> (r: String)
    ensures
        r@ == path_join(base@, part@),
{
    let p = crate::text::chars_of(part);
    if p.len() > 0 && p[0] == '/' {
        return String::from_str(part);
    }
    let b = crate::text::chars_of(base);
    let mut r = String::from_str(base);
    if b.len() > 0 && b[b.len() - 1] != '/' {
        push_str(&mut r, "/");
        proof {
            reveal_strlit("/");
        }
    }
    push_str(&mut r, part);
    proof {
        if b.len() > 0 && b@.last() != '/' {
            assert(r@ =~= base@ + seq!['/'] + part@);
        }
    }
    r
}

/// The age private key file under the data directory.
pub fn key_path(data_dir: &str) -> (r: String)
    ensures
        r@ == path_join(data_dir@, "key"@),
{
    join_path(data_dir, "key")
}

/// The age public key file under the data directory.
pub fn pubkey_path(data_dir: &str) -> (r: String)
    ensures
        r@ == path_join(data_dir@, "key.pub"@),
{
    join_path(data_dir, "key.pub")
}

/// The directory holding managed store checkouts, under the state directory.
pub fn stores_dir(state_dir: &str) -> (r: String)
    ensures
        r@ == path_join(state_dir@, "stores"@),
{
    join_path(state_dir, "stores")
}

/// The checkout of `org/repo` under the stores directory.
pub fn store_checkout(stores_dir: &str, org: &str, repo: &str) -> (r: String)
    ensures
        r@ == path_join(path_join(stores_dir@, org@), repo@),
{
    let o = join_path(stores_dir, org);
    join_path(o.as_str(), repo)
}

/// The checkout path a valid slug names.
pub open spec fn checkout_of(stores_dir: Seq<char>, slug: Seq<char>) -> Seq<char> {
    path_join(path_join(stores_dir, split(slug, '/')[0]), split(slug, '/')[1])
}

/// The local checkout of a remote slug. A malformed slug is a config
/// error; a checkout that `is_checkout` reports missing is `RemoteNotFound`
/// carrying the slug.
pub fn remote_store_path<F: Fn(&str) -> bool>(slug: &str, stores_dir: &str, is_checkout: &F) -> (r: Result<
    String,
    HimitsuError,
>)
    requires
        forall|p: &str| is_checkout.requires((p,)),
    ensures
        !valid_slug(slug@) ==> (r matches Err(e) && e is InvalidConfig),
        valid_slug(slug@) ==> ((r matches Ok(p) && p@ == checkout_of(stores_dir@, slug@)
            && (exists|s: &str| s@ == p@ && is_checkout.ensures((s,), true))) || (r matches Err(e) && e is RemoteNotFound
            && e.detail() == slug@)),
        valid_slug(slug@) && r is Err ==> (r matches Err(e) && e is RemoteNotFound && e.detail()
            == slug@ && exists|s: &str|
            s@ == checkout_of(stores_dir@, slug@) && is_checkout.ensures((s,), false)),
{
    let (org, repo) = match validate_remote_slug(slug) {
        Ok(parts) => parts,
        Err(e) => {
            return Err(e);
        },
    };
    let path = store_checkout(stores_dir, org.as_str(), repo.as_str());
    if is_checkout(path.as_str()) {
        Ok(path)
    } else {
        Err(HimitsuError::RemoteNotFound(String::from_str(slug)))
    }
}

pub open spec fn no_project_config_msg(root: Seq<char>) -> Seq<char> {
    "no project config found at "@ + root
        + " (looked for `.himitsu/config.yaml`, `.config/himitsu.yaml`, or `himitsu.yaml`).\n  Run `himitsu init --project <org/repo>` from this repo to set one up."@
}

pub open spec fn no_default_store_msg(path: Seq<char>) -> Seq<char> {
    "project config at "@ + path
        + " has no `default_store` set.\n  Add `default_store: <org/repo>` or run `himitsu init --project <org/repo>` from the repo root."@
}

/// The store slug project mode uses, from the project configuration found
/// at or above `root` (with the path it was read from). Without a config,
/// or without a `default_store` in it, project mode cannot proceed.
pub fn resolve_store_for_project(root: &str, found: Option<(ProjectConfig, String)>) -> (r: Result<
    String,
    HimitsuError,
>)
    ensures
        match found {
            None => r matches Err(e) && e is ProjectConfigRequired && e.detail()
                == no_project_config_msg(root@),
            Some((pc, path)) => match pc.default_store {
                None => r matches Err(e) && e is ProjectConfigRequired && e.detail()
                    == no_default_store_msg(path@),
                Some(slug) => r matches Ok(s) && s@ == slug@,
            },
        },
{
    match found {
        None => {
            let mut m = String::from_str("no project config found at ");
            push_str(&mut m, root);
            push_str(
                &mut m,
                " (looked for `.himitsu/config.yaml`, `.config/himitsu.yaml`, or `himitsu.yaml`).\n  Run `himitsu init --project <org/repo>` from this repo to set one up.",
            );
            Err(HimitsuError::ProjectConfigRequired(m))
        },
        Some((pc, path)) => match pc.default_store {
            None => {
                let mut m = String::from_str("project config at ");
                push_str(&mut m, path.as_str());
                push_str(
                    &mut m,
                    " has no `default_store` set.\n  Add `default_store: <org/repo>` or run `himitsu init --project <org/repo>` from the repo root.",
                );
                Err(HimitsuError::ProjectConfigRequired(m))
            },
            Some(slug) => Ok(slug),
        },
    }
}


// ── Choosing the store ───────────────────────────────────────────────────

/// The components of a path: its `/`-separated segments, without empty
/// ones and without `.`.
pub open spec fn components(p: Seq<char>) -> Seq<Seq<char>>
    decreases split(p, '/').len(),
{
    kept_segments(split(p, '/'))
}

/// The segments that name a component.
pub open spec fn kept_segments(segs: Seq<Seq<char>>) -> Seq<Seq<char>>
    decreases segs.len(),
{
    if segs.len() == 0 {
        Seq::empty()
    } else {
        let rest = kept_segments(segs.drop_last());
        if segs.last().len() == 0 || segs.last() == seq!['.'] {
            rest
        } else {
            rest.push(segs.last())
        }
    }
}

/// Whether a path is absolute.
pub open spec fn is_absolute(p: Seq<char>) -> bool {
    p.len() > 0 && p[0] == '/'
}

/// `child` lies at or below `base`, component by component (as
/// `Path::starts_with` compares).
pub open spec fn within(child: Seq<char>, base: Seq<char>) -> bool {
    is_absolute(child) == is_absolute(base) && components(base).len() <= components(child).len()
        && components(child).take(components(base).len() as int) == components(base)
}

/// The part of `child` below `base`, components joined by `/`.
pub open spec fn relative_part(child: Seq<char>, base: Seq<char>) -> Seq<char> {
    let k = components(base).len();
    if k <= components(child).len() {
        join(components(child).skip(k as int), '/')
    } else {
        Seq::empty()
    }
}

/// The components of a path.
fn components_of(p: &str) -> (r: Vec<String>)
    ensures
        views(r@) == components(p@),
{
    let cs = chars_of(p);
    let segs = split_chars(&cs, '/');
    let ghost sv = vec_views(segs@);
    let mut out: Vec<String> = Vec::new();
    let mut i: usize = 0;
    while i < segs.len()
        invariant
            i <= segs@.len(),
            sv == vec_views(segs@),
            sv == split(p@, '/'),
            views(out@) == kept_segments(sv.take(i as int)),
        decreases segs.len() - i,
    {
        let seg = &segs[i];
        assert(sv.take(i + 1).drop_last() == sv.take(i as int));
        assert(sv.take(i + 1).last() == seg@);
        let dot = seg.len() == 1 && seg[0] == '.';
        assert(dot == (seg@ == seq!['.'])) by {
            if seg@ == seq!['.'] {
                assert(seg@[0] == '.');
            }
            if dot {
                assert(seg@ =~= seq!['.']);
            }
        }
        if seg.len() > 0 && !dot {
            let ghost before = out@;
            let s = string_of(seg);
            out.push(s);
            assert(views(out@) =~= views(before).push(seg@));
        }
        i += 1;
    }
    assert(sv.take(segs@.len() as int) == sv);
    out
}

/// Whether `child` lies at or below `base`.
pub fn path_within(child: &str, base: &str) -> (r: bool)
    ensures
        r == within(child@, base@),
{
    let c = chars_of(child);
    let b = chars_of(base);
    let abs_c = c.len() > 0 && c[0] == '/';
    let abs_b = b.len() > 0 && b[0] == '/';
    if abs_c != abs_b {
        return false;
    }
    let cc = components_of(child);
    let bc = components_of(base);
    let ghost cv = views(cc@);
    let ghost bv = views(bc@);
    assert(cv.len() == cc@.len());
    assert(bv.len() == bc@.len());
    if bc.len() > cc.len() {
        return false;
    }
    let mut i: usize = 0;
    while i < bc.len()
        invariant
            i <= bc@.len(),
            bc@.len() <= cc@.len(),
            cv == views(cc@),
            bv == views(bc@),
            cv == components(child@),
            bv == components(base@),
            cv.len() == cc@.len(),
            bv.len() == bc@.len(),
            is_absolute(child@) == is_absolute(base@),
            forall|j: int| 0 <= j < i ==> cv[j] == bv[j],
        decreases bc.len() - i,
    {
        if !str_eq(cc[i].as_str(), bc[i].as_str()) {
            assert(cv.take(bv.len() as int)[i as int] != bv[i as int]);
            return false;
        }
        i += 1;
    }
    assert(cv.take(bv.len() as int) =~= bv);
    true
}

/// The part of `child` below `base`.
pub fn relative_to(child: &str, base: &str) -> (r: String)
    ensures
        r@ == relative_part(child@, base@),
{
    let cc = components_of(child);
    let bc = components_of(base);
    let ghost cv = views(cc@);
    assert(cv.len() == cc@.len());
    assert(views(bc@).len() == bc@.len());
    let mut rest: Vec<String> = Vec::new();
    if bc.len() > cc.len() {
        let r = join_with(&rest, '/');
        assert(views(rest@) =~= Seq::<Seq<char>>::empty());
        assert(r@ =~= Seq::<char>::empty());
        return r;
    }
    let k = bc.len();
    let mut i: usize = k;
    assert(views(rest@) =~= cv.subrange(k as int, k as int));
    while i < cc.len()
        invariant
            k <= i <= cc@.len(),
            cv == views(cc@),
            views(rest@) == cv.subrange(k as int, i as int),
        decreases cc.len() - i,
    {
        let ghost before = rest@;
        let s = copy_string(&cc[i]);
        rest.push(s);
        assert(views(rest@) =~= views(before).push(cv[i as int]));
        assert(cv.subrange(k as int, i + 1) =~= cv.subrange(k as int, i as int).push(cv[i as int]));
        i += 1;
    }
    assert(cv.subrange(k as int, cc@.len() as int) =~= cv.skip(k as int));
    join_with(&rest, '/')
}

/// Which store to use without `--store` or project mode.
#[derive(Debug, PartialEq, Eq)]
pub enum StoreChoice {
    /// The store of a slug, cloned if missing.
    Slug(String),
    /// An existing checkout, with a note to print when it was picked
    /// because the working directory lies inside it.
    Checkout { path: String, note: Option<String> },
}

/// The message when no store exists.
pub open spec fn no_stores_msg() -> Seq<char> {
    "no stores configured; use `himitsu remote add <org/repo>` to add one"@
}

/// The note printed when the working directory picks among several stores.
pub open spec fn inside_note(slug: Seq<char>) -> Seq<char> {
    "note: multiple stores found — using '"@ + slug
        + "' because you are inside it.\n      Set a default with `himitsu context remote "@ + slug
        + "` to silence this."@
}

/// The label of a checkout under the stores directory.
pub open spec fn checkout_slug(p: Seq<char>, stores_dir: Seq<char>) -> Seq<char> {
    if within(p, stores_dir) {
        relative_part(p, stores_dir)
    } else {
        p
    }
}

/// The slugs of the checkouts under the stores directory, in order.
pub open spec fn slugs_under(found: Seq<Seq<char>>, stores_dir: Seq<char>) -> Seq<Seq<char>>
    decreases found.len(),
{
    if found.len() == 0 {
        Seq::empty()
    } else {
        let rest = slugs_under(found.drop_last(), stores_dir);
        if within(found.last(), stores_dir) {
            rest.push(relative_part(found.last(), stores_dir))
        } else {
            rest
        }
    }
}

/// The first checkout that holds the working directory.
pub open spec fn first_holding(found: Seq<Seq<char>>, cwd: Seq<char>) -> Option<int>
    decreases found.len(),
{
    if found.len() == 0 {
        None
    } else {
        match first_holding(found.drop_last(), cwd) {
            Some(i) => Some(i),
            None => if within(cwd, found.last()) {
                Some(found.len() - 1)
            } else {
                None
            },
        }
    }
}

/// How the store is chosen (first match wins): the `--remote` slug, the
/// configured context, the configured default store; else the only
/// checkout; else, among several, the one holding the working directory;
/// else no store or an ambiguous choice.
pub open spec fn choice_holds(
    r: Result<StoreChoice, HimitsuError>,
    remote_override: Option<Seq<char>>,
    context: Option<Seq<char>>,
    default_store: Option<Seq<char>>,
    stores_dir: Seq<char>,
    found: Seq<Seq<char>>,
    cwd: Option<Seq<char>>,
) -> bool {
    if remote_override is Some {
        r matches Ok(StoreChoice::Slug(s)) && s@ == remote_override.unwrap()
    } else if context is Some {
        r matches Ok(StoreChoice::Slug(s)) && s@ == context.unwrap()
    } else if default_store is Some {
        r matches Ok(StoreChoice::Slug(s)) && s@ == default_store.unwrap()
    } else if found.len() == 0 {
        r matches Err(e) && e is StoreNotFound && e.detail() == no_stores_msg()
    } else if found.len() == 1 {
        r matches Ok(StoreChoice::Checkout { path, note }) && path@ == found[0] && note is None
    } else {
        match (if cwd is Some { first_holding(found, cwd.unwrap()) } else { None }) {
            Some(i) => r matches Ok(StoreChoice::Checkout { path, note }) && path@ == found[i]
                && (note matches Some(n) && n@ == inside_note(checkout_slug(found[i], stores_dir))),
            None => r matches Err(HimitsuError::AmbiguousStore(v)) && views(v@) == slugs_under(
                found,
                stores_dir,
            ),
        }
    }
}

/// The view of an optional string slice.
pub open spec fn opt_view(o: Option<&str>) -> Option<Seq<char>> {
    match o {
        Some(s) => Some(s@),
        None => None,
    }
}

/// Resolves which store to use when no explicit store or project mode is
/// given, from the configured context and default, the checkouts found
/// under the stores directory, and the working directory.
pub fn choose_store(
    remote_override: Option<&str>,
    context: Option<&str>,
    default_store: Option<&str>,
    stores_dir: &str,
    found: &[String],
    cwd: Option<&str>,
) -> (r: Result<StoreChoice, HimitsuError>)
    ensures
        choice_holds(
            r,
            opt_view(remote_override),
            opt_view(context),
            opt_view(default_store),
            stores_dir@,
            views(found@),
            opt_view(cwd),
        ),
{
    if let Some(slug) = remote_override {
        return Ok(StoreChoice::Slug(String::from_str(slug)));
    }
    if let Some(slug) = context {
        return Ok(StoreChoice::Slug(String::from_str(slug)));
    }
    if let Some(slug) = default_store {
        return Ok(StoreChoice::Slug(String::from_str(slug)));
    }
    let ghost fv = views(found@);
    if found.len() == 0 {
        return Err(
            HimitsuError::StoreNotFound(
                String::from_str("no stores configured; use `himitsu remote add <org/repo>` to add one"),
            ),
        );
    }
    if found.len() == 1 {
        assert(fv[0] == found@[0]@);
        return Ok(StoreChoice::Checkout { path: copy_string(&found[0]), note: None });
    }
    let mut slugs: Vec<String> = Vec::new();
    let mut i: usize = 0;
    while i < found.len()
        invariant
            i <= found@.len(),
            fv == views(found@),
            views(slugs@) == slugs_under(fv.take(i as int), stores_dir@),
        decreases found.len() - i,
    {
        assert(fv.take(i + 1).drop_last() == fv.take(i as int));
        assert(fv.take(i + 1).last() == found@[i as int]@);
        if path_within(found[i].as_str(), stores_dir) {
            let ghost before = slugs@;
            let s = relative_to(found[i].as_str(), stores_dir);
            slugs.push(s);
            assert(views(slugs@) =~= views(before).push(s@));
        }
        i += 1;
    }
    assert(fv.take(found@.len() as int) == fv);
    if let Some(dir) = cwd {
        let mut j: usize = 0;
        while j < found.len()
            invariant
                j <= found@.len(),
                fv == views(found@),
                first_holding(fv.take(j as int), dir@) is None,
                remote_override is None,
                context is None,
                default_store is None,
                found@.len() > 1,
                cwd == Some(dir),
            decreases found.len() - j,
        {
            assert(fv.take(j + 1).drop_last() == fv.take(j as int));
            assert(fv.take(j + 1).last() == found@[j as int]@);
            if path_within(dir, found[j].as_str()) {
                let p = found[j].as_str();
                let slug = if path_within(p, stores_dir) {
                    relative_to(p, stores_dir)
                } else {
                    String::from_str(p)
                };
                let mut note = String::from_str("note: multiple stores found — using '");
                push_str(&mut note, slug.as_str());
                push_str(&mut note, "' because you are inside it.\n      Set a default with `himitsu context remote ");
                push_str(&mut note, slug.as_str());
                push_str(&mut note, "` to silence this.");
                assert(fv[j as int] == p@);
                assert(slug@ == checkout_slug(fv[j as int], stores_dir@));
                assert(note@ =~= inside_note(checkout_slug(fv[j as int], stores_dir@)));
                proof {
                    lemma_first_holding_prefix(fv, dir@, j as int);
                }
                return Ok(StoreChoice::Checkout { path: copy_string(&found[j]), note: Some(note) });
            }
            j += 1;
        }
        assert(fv.take(found@.len() as int) == fv);
    }
    Err(HimitsuError::AmbiguousStore(slugs))
}

/// The first holder found by a left-to-right scan is the first holder.
proof fn lemma_first_holding_prefix(found: Seq<Seq<char>>, cwd: Seq<char>, j: int)
    requires
        0 <= j < found.len(),
        first_holding(found.take(j), cwd) is None,
        within(cwd, found[j]),
    ensures
        first_holding(found, cwd) == Some(j),
    decreases found.len() - j,
{
    if j + 1 == found.len() {
        assert(found.drop_last() == found.take(j));
    } else {
        let shorter = found.drop_last();
        assert(shorter.take(j) == found.take(j));
        assert(shorter[j] == found[j]);
        lemma_first_holding_prefix(shorter, cwd, j);
    }
}

// ── Directories ──────────────────────────────────────────────────────────

/// `p` without trailing `/` (a path of slashes only keeps none).
pub open spec fn strip_trailing_slashes(p: Seq<char>) -> Seq<char>
    decreases p.len(),
{
    if p.len() > 0 && p.last() == '/' {
        strip_trailing_slashes(p.drop_last())
    } else {
        p
    }
}

/// The directory holding `p` (`Path::parent`, empty when there is none):
/// the part before its last `/`, `/` for an entry of the root. Every
/// segment counts as a name (`.` too).
pub open spec fn parent_spec(p: Seq<char>) -> Seq<char> {
    let t = strip_trailing_slashes(p);
    let i = crate::text::char_index(t.reverse(), '/');
    if t.len() == 0 || i >= t.len() {
        Seq::empty()
    } else {
        let head = strip_trailing_slashes(t.take(t.len() - 1 - i));
        if head.len() == 0 {
            seq!['/']
        } else {
            head
        }
    }
}

fn strip_slashes(p: &[char]) -> (r: usize)
    ensures
        r <= p@.len(),
        p@.take(r as int) == strip_trailing_slashes(p@),
{
    let mut n = p.len();
    assert(p@.take(n as int) == p@);
    while n > 0 && p[n - 1] == '/'
        invariant
            n <= p@.len(),
            strip_trailing_slashes(p@) == strip_trailing_slashes(p@.take(n as int)),
        decreases n,
    {
        assert(p@.take(n as int).drop_last() == p@.take(n - 1));
        n -= 1;
    }
    n
}

/// The directory of the global config file: the parent of its path.
pub fn config_dir(config_path: &str) -> (r: String)
    ensures
        r@ == parent_spec(config_path@),
{
    let cs = chars_of(config_path);
    let n = strip_slashes(&cs);
    let t = crate::text::slice_of(&cs, 0, n);
    assert(t@ == strip_trailing_slashes(cs@));
    // the last `/` of t, searching from the end
    let mut j = t.len();
    let ghost rv = t@.reverse();
    while j > 0 && t[j - 1] != '/'
        invariant
            j <= t@.len(),
            rv == t@.reverse(),
            forall|k: int| j <= k < t@.len() ==> t@[k] != '/',
        decreases j,
    {
        j -= 1;
    }
    proof {
        lemma_last_slash(t@, j as int);
    }
    if t.len() == 0 || j == 0 {
        return String::new();
    }
    let h = crate::text::slice_of(&t, 0, j - 1);
    let m = strip_slashes(&h);
    assert(h@ == t@.take(j - 1));
    assert(t@.take(j - 1) == t@.take(t@.len() - 1 - (t@.len() - j)));
    let ghost head = strip_trailing_slashes(t@.take(j - 1));
    assert(h@.take(m as int) == head);
    if m == 0 {
        let r = String::from_str("/");
        proof {
            reveal_strlit("/");
        }
        assert(r@ =~= seq!['/']);
        r
    } else {
        let r = crate::text::string_of(&crate::text::slice_of(&h, 0, m));
        assert(r@ == head);
        r
    }
}

/// Where the last `/` is, read through the reversed text.
proof fn lemma_last_slash(t: Seq<char>, j: int)
    requires
        0 <= j <= t.len(),
        forall|k: int| j <= k < t.len() ==> t[k] != '/',
        j > 0 ==> t[j - 1] == '/',
    ensures
        j > 0 ==> crate::text::char_index(t.reverse(), '/') == t.len() - j,
        j == 0 ==> crate::text::char_index(t.reverse(), '/') >= t.len(),
{
    let rv = t.reverse();
    assert forall|k: int| 0 <= k < t.len() - j implies rv[k] != '/' by {
        assert(rv[k] == t[t.len() - 1 - k]);
    }
    if j > 0 {
        assert(rv[t.len() - j] == t[j - 1]);
        crate::text::lemma_char_index(rv, '/', t.len() - j);
    } else {
        lemma_char_index_absent(rv, '/');
    }
}

/// Without `c`, `char_index` is the length.
proof fn lemma_char_index_absent(s: Seq<char>, c: char)
    requires
        forall|k: int| 0 <= k < s.len() ==> s[k] != c,
    ensures
        crate::text::char_index(s, c) == s.len(),
    decreases s.len(),
{
    if s.len() > 0 {
        assert forall|k: int| 0 <= k < s.drop_first().len() implies s.drop_first()[k] != c by {
            assert(s.drop_first()[k] == s[k + 1]);
        }
        lemma_char_index_absent(s.drop_first(), c);
    }
}

/// The data directory: the configured one (trimmed, when not empty); else
/// `share` beside an explicitly named config file; else the platform's.
pub fn choose_data_dir(custom: Option<&str>, explicit_config_dir: Option<&str>, platform: &str) -> (r: String)
    ensures
        r@ == match custom {
            Some(c) if crate::env_dsl::trim(c@).len() > 0 => crate::env_dsl::trim(c@),
            _ => match explicit_config_dir {
                Some(d) => path_join(d@, "share"@),
                None => platform@,
            },
        },
{
    if let Some(c) = custom {
        let t = crate::env_dsl::trim_chars(&chars_of(c));
        if t.len() > 0 {
            return crate::text::string_of(&t);
        }
    }
    match explicit_config_dir {
        Some(d) => join_path(d, "share"),
        None => String::from_str(platform),
    }
}

/// The state directory: `state` under the configured data directory (when
/// not empty); else `state` beside an explicitly named config file; else
/// the platform's state directory, or the data directory without one.
pub fn choose_state_dir(
    custom: Option<&str>,
    explicit_config_dir: Option<&str>,
    platform_state: Option<&str>,
    data_dir: &str,
) -> (r: String)
    ensures
        r@ == match custom {
            Some(c) if crate::env_dsl::trim(c@).len() > 0 => path_join(crate::env_dsl::trim(c@), "state"@),
            _ => match explicit_config_dir {
                Some(d) => path_join(d@, "state"@),
                None => match platform_state {
                    Some(p) => p@,
                    None => data_dir@,
                },
            },
        },
{
    if let Some(c) = custom {
        let tc = crate::env_dsl::trim_chars(&chars_of(c));
        if tc.len() > 0 {
            let t = crate::text::string_of(&tc);
            return join_path(t.as_str(), "state");
        }
    }
    match explicit_config_dir {
        Some(d) => join_path(d, "state"),
        None => match platform_state {
            Some(p) => String::from_str(p),
            None => String::from_str(data_dir),
        },
    }
}

} // verus!
