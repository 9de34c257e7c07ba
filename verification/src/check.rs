//! `check`: which stores to check, how a checkout stands against its
//! remote (from git's answers), and how that is reported.
use vstd::prelude::*;

use crate::env_dsl::{trim, trim_chars, EntryView, EnvEntry};
use crate::env_cache::entry_views;
use crate::error::HimitsuError;
use crate::labels::{valid_slug, validate_remote_slug};
use crate::strmap::{insert_all, insert_sorted, keys_of, StrMap};
use crate::text::{
    chars_of, copy_string, decimal, decimal_chars, digits_value, is_ascii_digit, push_str, split,
    split_chars, string_of, vec_views, views,
};

verus! {

// ── Stores a project refers to ───────────────────────────────────────────

/// The path an entry names, if any: tags name none.
pub open spec fn entry_path(e: EntryView) -> Option<Seq<char>> {
    match e {
        EntryView::Single(p) => Some(p),
        EntryView::Glob(p) => Some(p),
        EntryView::Alias(_, p) => Some(p),
        EntryView::Tag(_) => None,
        EntryView::AliasTag(_, _) => None,
    }
}

/// The store a qualified path (`org/repo/rest`, at least three segments)
/// names, when its first two segments make a valid slug.
pub open spec fn path_slug(p: Seq<char>) -> Option<Seq<char>> {
    let parts = split(p, '/');
    if parts.len() >= 3 && valid_slug(parts[0] + "/"@ + parts[1]) {
        Some(parts[0] + "/"@ + parts[1])
    } else {
        None
    }
}

/// The slugs the entries name, in order.
pub open spec fn entry_slugs(entries: Seq<EntryView>) -> Seq<Seq<char>>
    decreases entries.len(),
{
    if entries.len() == 0 {
        Seq::empty()
    } else {
        let rest = entry_slugs(entries.drop_last());
        match entry_path(entries.last()) {
            Some(p) => match path_slug(p) {
                Some(s) => rest.push(s),
                None => rest,
            },
            None => rest,
        }
    }
}

/// The slugs a project config refers to, in order of appearance: its
/// default store when valid, then the stores its env entries name.
pub open spec fn referenced_slugs(default_store: Option<Seq<char>>, entries: Seq<EntryView>) -> Seq<
    Seq<char>,
> {
    (match default_store {
        Some(s) => if valid_slug(s) {
            seq![s]
        } else {
            Seq::empty()
        },
        None => Seq::empty(),
    }) + entry_slugs(entries)
}

/// The distinct slugs, sorted.
pub open spec fn sorted_slugs(slugs: Seq<Seq<char>>) -> Seq<Seq<char>> {
    keys_of(insert_all(Seq::<(Seq<char>, bool)>::empty(), slugs.map_values(|s: Seq<char>| (s, true))))
}

/// The store an entry's path names, if any.
fn slug_of_entry(e: &EnvEntry) -> (r: Option<String>)
    ensures
        match entry_path(e.view()) {
            Some(p) => match path_slug(p) {
                Some(s) => r matches Some(x) && x@ == s,
                None => r is None,
            },
            None => r is None,
        },
{
    let p = match e {
        EnvEntry::Single(p) => p,
        EnvEntry::Glob(p) => p,
        EnvEntry::Alias { key: _, path } => path,
        EnvEntry::Tag(_) => {
            return None;
        },
        EnvEntry::AliasTag { key: _, tag: _ } => {
            return None;
        },
    };
    let parts = split_chars(&chars_of(p.as_str()), '/');
    let ghost pv = vec_views(parts@);
    if parts.len() < 3 {
        return None;
    }
    assert(pv[0] == parts@[0]@ && pv[1] == parts@[1]@);
    let mut cand = string_of(&parts[0]);
    push_str(&mut cand, "/");
    push_str(&mut cand, string_of(&parts[1]).as_str());
    match validate_remote_slug(cand.as_str()) {
        Ok(_) => Some(cand),
        Err(_) => None,
    }
}

/// The distinct stores a project config refers to, sorted: its
/// `default_store` when it is a valid slug, and the `org/repo` part of every
/// env entry path with at least three segments whose first two make a valid
/// slug. Tag entries name no store.
pub fn collect_stores_from_project_config(default_store: Option<&str>, entries: &[EnvEntry]) -> (r:
    Vec<String>)
    ensures
        views(r@) == sorted_slugs(
            referenced_slugs(
                match default_store {
                    Some(s) => Some(s@),
                    None => None,
                },
                entry_views(entries@),
            ),
        ),
{
    let ghost ds = match default_store {
        Some(s) => Some(s@),
        None => None::<Seq<char>>,
    };
    let ghost ev = entry_views(entries@);
    let ghost all = referenced_slugs(ds, ev);
    let ghost pairs = all.map_values(|s: Seq<char>| (s, true));
    let mut set: StrMap<bool> = StrMap::new();
    let ghost head: Seq<Seq<char>> = match ds {
        Some(s) => if valid_slug(s) {
            seq![s]
        } else {
            Seq::empty()
        },
        None => Seq::empty(),
    };
    let ghost acc: Seq<Seq<char>> = Seq::empty();
    let ghost hp = (head + acc).map_values(|x: Seq<char>| (x, true));
    if let Some(s) = default_store {
        if validate_remote_slug(s).is_ok() {
            set.insert(String::from_str(s), true);
            assert(hp =~= seq![(s@, true)]);
            assert(hp.drop_last() =~= Seq::<(Seq<char>, bool)>::empty());
            assert(insert_all(Seq::<(Seq<char>, bool)>::empty(), hp.drop_last()) =~= Seq::<
                (Seq<char>, bool),
            >::empty());
            assert(insert_all(Seq::<(Seq<char>, bool)>::empty(), hp) == insert_sorted(
                Seq::<(Seq<char>, bool)>::empty(),
                s@,
                true,
            ));
        } else {
            assert(hp =~= Seq::<(Seq<char>, bool)>::empty());
        }
    } else {
        assert(hp =~= Seq::<(Seq<char>, bool)>::empty());
    }
    assert(set.entries_view() == insert_all(Seq::<(Seq<char>, bool)>::empty(), hp));
    let mut i: usize = 0;
    while i < entries.len()
        invariant
            i <= entries@.len(),
            ev == entry_views(entries@),
            all == head + entry_slugs(ev),
            pairs == all.map_values(|s: Seq<char>| (s, true)),
            acc == entry_slugs(ev.take(i as int)),
            set.entries_view() == insert_all(
                Seq::<(Seq<char>, bool)>::empty(),
                (head + acc).map_values(|s: Seq<char>| (s, true)),
            ),
        decreases entries.len() - i,
    {
        assert(ev[i as int] == entries@[i as int].view());
        assert(ev.take(i + 1).drop_last() == ev.take(i as int));
        assert(ev.take(i + 1).last() == ev[i as int]);
        match slug_of_entry(&entries[i]) {
            Some(s) => {
                let ghost before = (head + acc).map_values(|x: Seq<char>| (x, true));
                proof {
                    acc = acc.push(s@);
                }
                assert((head + acc).map_values(|x: Seq<char>| (x, true)) =~= before.push((s@, true)));
                assert(before.push((s@, true)).drop_last() == before);
                set.insert(s, true);
            },
            None => {},
        }
        i += 1;
    }
    assert(ev.take(entries@.len() as int) == ev);
    assert(head + acc == all);
    set.keys()
}

// ── The state of a checkout ──────────────────────────────────────────────

/// How a checkout stands against its remote.
#[derive(Debug, Clone, PartialEq, Eq)]
pub struct StoreStatus {
    pub behind: u32,
    pub ahead: u32,
    pub dirty: bool,
    pub branch: String,
    /// Warnings that do not fail the check.
    pub warnings: Vec<String>,
}

/// A count git printed, as `trim().parse::<u32>()` reads it: an optional
/// `+` and decimal digits, at most `u32::MAX`; anything else counts 0.
pub open spec fn count_spec(s: Seq<char>) -> u32 {
    let d = unsigned_part(trim(s));
    if d.len() > 0 && all_digits(d) && digits_value(d) <= u32::MAX {
        digits_value(d) as u32
    } else {
        0
    }
}

/// Text without one leading `+`.
pub open spec fn unsigned_part(t: Seq<char>) -> Seq<char> {
    if t.len() > 0 && t[0] == '+' {
        t.skip(1)
    } else {
        t
    }
}

/// Every character is a decimal digit.
pub open spec fn all_digits(d: Seq<char>) -> bool {
    forall|i: int| 0 <= i < d.len() ==> is_ascii_digit(#[trigger] d[i])
}

/// Reads a count git printed; 0 when it does not read.
pub fn parse_count(s: &str) -> (r: u32)
    ensures
        r == count_spec(s@),
{
    let t = trim_chars(&chars_of(s));
    let start: usize = if t.len() > 0 && t[0] == '+' {
        1
    } else {
        0
    };
    let ghost d = unsigned_part(t@);
    assert(d == t@.skip(start as int));
    if start >= t.len() {
        return 0;
    }
    let mut v: u64 = 0;
    let mut i: usize = start;
    assert(t@.skip(start as int).take(0) =~= Seq::<char>::empty());
    while i < t.len()
        invariant
            start <= i <= t@.len(),
            t@ == trim(s@),
            d == unsigned_part(t@),
            d == t@.skip(start as int),
            v == digits_value(d.take(i - start)),
            v <= u32::MAX,
            forall|k: int| 0 <= k < i - start ==> is_ascii_digit(#[trigger] d[k]),
        decreases t.len() - i,
    {
        let c = t[i];
        assert(d[i - start] == c);
        if !(c >= '0' && c <= '9') {
            assert(!all_digits(d)) by {
                assert(!is_ascii_digit(d[i - start]));
            }
            return 0;
        }
        assert(d.take(i - start + 1).drop_last() == d.take(i - start));
        assert(d.take(i - start + 1).last() == c);
        let dv: u64 = (c as u32 - 48) as u64;
        let nv: u64 = v * 10 + dv;
        if nv > 4294967295 {
            assert(!(all_digits(d) && digits_value(d) <= u32::MAX)) by {
                if all_digits(d) {
                    lemma_digits_grow(d, i - start + 1);
                }
            }
            return 0;
        }
        v = nv;
        i += 1;
    }
    assert(d.take(t@.len() - start) == d);
    v as u32
}

/// The value of digits never falls as digits are added.
proof fn lemma_digits_grow(d: Seq<char>, k: int)
    requires
        0 <= k <= d.len(),
        forall|i: int| 0 <= i < d.len() ==> is_ascii_digit(#[trigger] d[i]),
    ensures
        digits_value(d.take(k)) <= digits_value(d),
    decreases d.len() - k,
{
    if k < d.len() {
        lemma_digits_grow(d, k + 1);
        assert(d.take(k + 1).drop_last() == d.take(k));
    } else {
        assert(d.take(k) == d);
    }
}

/// The warning of a failed fetch.
pub open spec fn fetch_warning(e: Seq<char>) -> Seq<char> {
    "fetch failed: "@ + e
}

/// The warning when there is no tracking branch.
pub open spec fn no_tracking_warning() -> Seq<char> {
    "no remote tracking branch — skipping ahead/behind check"@
}

/// The error when the branch cannot be told.
pub open spec fn no_branch_msg(slug: Seq<char>, e: Seq<char>) -> Seq<char> {
    "could not determine branch for '"@ + slug + "': "@ + e
}

/// The status of a checkout from git's answers: the fetch error (`None`
/// when it succeeded or was skipped), the current branch (or its error),
/// whether `origin/<branch>` exists, the behind and ahead counts printed
/// (empty when the command failed) and the short status (`None` when it
/// failed). Without a tracking branch only that is warned of; a failed
/// fetch is warned of otherwise.
pub open spec fn status_spec(
    slug: Seq<char>,
    fetch_error: Option<Seq<char>>,
    branch: Result<Seq<char>, Seq<char>>,
    tracking: bool,
    behind_out: Seq<char>,
    ahead_out: Seq<char>,
    status_out: Option<Seq<char>>,
) -> Result<(u32, u32, bool, Seq<char>, Seq<Seq<char>>), Seq<char>> {
    match branch {
        Err(e) => Err(no_branch_msg(slug, e)),
        Ok(b) => if !tracking {
            Ok((0, 0, false, trim(b), seq![no_tracking_warning()]))
        } else {
            Ok(
                (
                    count_spec(behind_out),
                    count_spec(ahead_out),
                    match status_out {
                        Some(s) => trim(s).len() > 0,
                        None => false,
                    },
                    trim(b),
                    match fetch_error {
                        Some(e) => seq![fetch_warning(e)],
                        None => Seq::empty(),
                    },
                ),
            )
        },
    }
}

/// The status of a checkout from git's answers (see `status_spec`); a
/// branch that cannot be told is a git error.
pub fn store_status(
    slug: &str,
    fetch_error: Option<String>,
    branch: Result<String, String>,
    tracking: bool,
    behind_out: &str,
    ahead_out: &str,
    status_out: Option<String>,
) -> (r: Result<StoreStatus, HimitsuError>)
    ensures
        match status_spec(
            slug@,
            crate::search::opt_view(fetch_error),
            match branch {
                Ok(b) => Ok(b@),
                Err(e) => Err(e@),
            },
            tracking,
            behind_out@,
            ahead_out@,
            crate::search::opt_view(status_out),
        ) {
            Ok((b, a, d, br, w)) => r matches Ok(st) && st.behind == b && st.ahead == a && st.dirty
                == d && st.branch@ == br && views(st.warnings@) == w,
            Err(m) => r matches Err(e) && e is Git && e.detail() == m,
        },
{
    let b = match branch {
        Ok(b) => string_of(&trim_chars(&chars_of(b.as_str()))),
        Err(e) => {
            let mut m = String::from_str("could not determine branch for '");
            push_str(&mut m, slug);
            push_str(&mut m, "': ");
            push_str(&mut m, e.as_str());
            return Err(HimitsuError::Git(m));
        },
    };
    if !tracking {
        let mut w: Vec<String> = Vec::new();
        w.push(String::from_str("no remote tracking branch — skipping ahead/behind check"));
        assert(views(w@) =~= seq![no_tracking_warning()]);
        return Ok(StoreStatus { behind: 0, ahead: 0, dirty: false, branch: b, warnings: w });
    }
    let mut warnings: Vec<String> = Vec::new();
    match fetch_error {
        Some(e) => {
            let mut m = String::from_str("fetch failed: ");
            push_str(&mut m, e.as_str());
            warnings.push(m);
            assert(views(warnings@) =~= seq![fetch_warning(e@)]);
        },
        None => {
            assert(views(warnings@) =~= Seq::<Seq<char>>::empty());
        },
    }
    let dirty = match status_out {
        Some(s) => trim_chars(&chars_of(s.as_str())).len() > 0,
        None => false,
    };
    Ok(
        StoreStatus {
            behind: parse_count(behind_out),
            ahead: parse_count(ahead_out),
            dirty,
            branch: b,
            warnings,
        },
    )
}

// ── The report ───────────────────────────────────────────────────────────

/// The lines printed for a checked store: its warnings, then whether it is
/// behind or up to date, then whether it is ahead and whether it is dirty.
pub open spec fn report_spec(
    slug: Seq<char>,
    behind: u32,
    ahead: u32,
    dirty: bool,
    branch: Seq<char>,
    warnings: Seq<Seq<char>>,
) -> Seq<Seq<char>> {
    warnings.map_values(|w: Seq<char>| "  ⚠ "@ + slug + ": "@ + w) + seq![
        if behind > 0 {
            "⚠ "@ + slug + ": "@ + decimal(behind as nat) + " commit(s) behind origin/"@ + branch
                + " — run `himitsu git pull` then `himitsu generate`"@
        } else {
            "✓ "@ + slug + ": up to date"@
        },
    ] + (if ahead > 0 {
        seq![
            "  info: "@ + slug + " is "@ + decimal(ahead as nat) + " commit(s) ahead of origin/"@
                + branch,
        ]
    } else {
        Seq::empty()
    }) + (if dirty {
        seq!["  info: "@ + slug + " has uncommitted changes"@]
    } else {
        Seq::empty()
    })
}

/// The lines reported for a checked store.
pub fn report_lines(slug: &str, st: &StoreStatus) -> (r: Vec<String>)
    ensures
        views(r@) == report_spec(slug@, st.behind, st.ahead, st.dirty, st.branch@, views(st.warnings@)),
{
    let ghost wv = views(st.warnings@);
    let mut out: Vec<String> = Vec::new();
    let mut i: usize = 0;
    while i < st.warnings.len()
        invariant
            i <= st.warnings@.len(),
            wv == views(st.warnings@),
            views(out@) == wv.take(i as int).map_values(|w: Seq<char>| "  ⚠ "@ + slug@ + ": "@ + w),
        decreases st.warnings.len() - i,
    {
        assert(wv[i as int] == st.warnings@[i as int]@);
        let ghost before = out@;
        let mut m = String::from_str("  ⚠ ");
        push_str(&mut m, slug);
        push_str(&mut m, ": ");
        push_str(&mut m, st.warnings[i].as_str());
        out.push(m);
        assert(views(out@) =~= views(before).push("  ⚠ "@ + slug@ + ": "@ + wv[i as int]));
        assert(wv.take(i + 1).map_values(|w: Seq<char>| "  ⚠ "@ + slug@ + ": "@ + w) =~= wv.take(
            i as int,
        ).map_values(|w: Seq<char>| "  ⚠ "@ + slug@ + ": "@ + w).push("  ⚠ "@ + slug@ + ": "@ + wv[i as int]));
        i += 1;
    }
    assert(wv.take(st.warnings@.len() as int) == wv);
    let ghost w_lines = views(out@);
    let main = if st.behind > 0 {
        let mut m = String::from_str("⚠ ");
        push_str(&mut m, slug);
        push_str(&mut m, ": ");
        push_str(&mut m, string_of(&decimal_chars(st.behind as usize)).as_str());
        push_str(&mut m, " commit(s) behind origin/");
        push_str(&mut m, st.branch.as_str());
        push_str(&mut m, " — run `himitsu git pull` then `himitsu generate`");
        m
    } else {
        let mut m = String::from_str("✓ ");
        push_str(&mut m, slug);
        push_str(&mut m, ": up to date");
        m
    };
    out.push(main);
    let ghost after_main = views(out@);
    if st.ahead > 0 {
        let mut m = String::from_str("  info: ");
        push_str(&mut m, slug);
        push_str(&mut m, " is ");
        push_str(&mut m, string_of(&decimal_chars(st.ahead as usize)).as_str());
        push_str(&mut m, " commit(s) ahead of origin/");
        push_str(&mut m, st.branch.as_str());
        out.push(m);
    }
    let ghost after_ahead = views(out@);
    if st.dirty {
        let mut m = String::from_str("  info: ");
        push_str(&mut m, slug);
        push_str(&mut m, " has uncommitted changes");
        out.push(m);
    }
    assert(views(out@) =~= report_spec(
        slug@,
        st.behind,
        st.ahead,
        st.dirty,
        st.branch@,
        views(st.warnings@),
    ));
    out
}

// ── Which stores ─────────────────────────────────────────────────────────

/// The stores to check: the one given (when it is a valid slug), else the
/// stores the project config refers to when there are any; `None` stands
/// for every known store.
pub fn discover_stores(explicit: Option<&str>, project_slugs: Option<Vec<String>>) -> (r: Result<
    Option<Vec<String>>,
    HimitsuError,
>)
    ensures
        match explicit {
            Some(s) => if valid_slug(s@) {
                r matches Ok(Some(v)) && views(v@) == seq![s@]
            } else {
                r matches Err(e) && e is InvalidConfig
            },
            None => match project_slugs {
                Some(ps) => if ps@.len() > 0 {
                    r matches Ok(Some(v)) && views(v@) == views(ps@)
                } else {
                    r matches Ok(None)
                },
                None => r matches Ok(None),
            },
        },
{
    match explicit {
        Some(s) => {
            match validate_remote_slug(s) {
                Ok(_) => {},
                Err(e) => {
                    return Err(e);
                },
            }
            let mut v: Vec<String> = Vec::new();
            v.push(String::from_str(s));
            assert(views(v@) =~= seq![s@]);
            Ok(Some(v))
        },
        None => match project_slugs {
            Some(ps) => if ps.len() > 0 {
                Ok(Some(ps))
            } else {
                Ok(None)
            },
            None => Ok(None),
        },
    }
}

} // verus!
