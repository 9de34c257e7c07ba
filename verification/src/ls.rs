//! `ls`: a directory-style listing of the secrets of one or more stores.
//! Paths are cut to a display depth (a cut path ends with `/`), optionally
//! filtered by tags, deduplicated and sorted per store, paged, and shown as
//! a table with a footer.
use vstd::prelude::*;

use crate::strmap::{insert_sorted, keys_of, lemma_lookup_map_vals, lemma_map_vals_insert, lookup, map_vals, StrMap};
use crate::tags::valid_tag;
use crate::text::{
    chars_of, copy_string, decimal, decimal_chars, push_char, join, join_with, push_str, split, split_chars, str_eq, string_of,
    strings_of, vec_views, views,
};

verus! {

// ── Tag filter ───────────────────────────────────────────────────────────

/// Every wanted tag is among `have` (AND semantics, case-sensitive).
pub open spec fn all_present(have: Seq<Seq<char>>, want: Seq<Seq<char>>) -> bool {
    forall|i: int| 0 <= i < want.len() ==> have.contains(#[trigger] want[i])
}

/// Whether `have` holds `w`.
fn has_tag(have: &[String], w: &str) -> (r: bool)
    ensures
        r == views(have@).contains(w@),
{
    let ghost hv = views(have@);
    let mut i: usize = 0;
    while i < have.len()
        invariant
            i <= have.len(),
            hv == views(have@),
            forall|j: int| 0 <= j < i ==> hv[j] != w@,
        decreases have.len() - i,
    {
        if str_eq(have[i].as_str(), w) {
            assert(hv[i as int] == w@);
            return true;
        }
        i += 1;
    }
    false
}

/// AND-semantic tag match: `true` when `have` contains every entry of
/// `want`. An empty `want` always matches.
pub fn matches_all_tags(have: &[String], want: &[String]) -> (r: bool)
    ensures
        r == all_present(views(have@), views(want@)),
{
    let ghost wv = views(want@);
    let mut i: usize = 0;
    while i < want.len()
        invariant
            i <= want.len(),
            wv == views(want@),
            forall|j: int| 0 <= j < i ==> views(have@).contains(#[trigger] wv[j]),
        decreases want.len() - i,
    {
        if !has_tag(have, want[i].as_str()) {
            assert(wv[i as int] == want[i as int]@);
            return false;
        }
        i += 1;
    }
    true
}

// ── Display depth ────────────────────────────────────────────────────────

/// `path` cut to at most `depth` segments: a longer path keeps its first
/// `depth` segments and ends with `/`; `usize::MAX` means no limit.
pub open spec fn truncate_spec(path: Seq<char>, depth: usize) -> Seq<char> {
    if depth == usize::MAX {
        path
    } else {
        let segs = split(path, '/');
        if segs.len() > depth {
            join(segs.take(depth as int), '/') + seq!['/']
        } else {
            path
        }
    }
}

/// Truncates `path` to at most `max_depth` components; a truncated path
/// ends with `/` to mark a directory.
pub fn truncate_to_depth(path: &str, max_depth: usize) -> (r: String)
    ensures
        r@ == truncate_spec(path@, max_depth),
{
    if max_depth == usize::MAX {
        return string_of(&chars_of(path));
    }
    let cs = chars_of(path);
    let pieces = split_chars(&cs, '/');
    if pieces.len() > max_depth {
        let all = strings_of(&pieces);
        assert(views(all@).len() == all@.len());
        assert(vec_views(pieces@).len() == pieces@.len());
        let mut head: Vec<String> = Vec::new();
        let mut i: usize = 0;
        while i < max_depth
            invariant
                i <= max_depth,
                max_depth < all@.len(),
                views(all@) == split(path@, '/'),
                views(head@) == views(all@).take(i as int),
            decreases max_depth - i,
        {
            let ghost before = head@;
            let c = copy_string(&all[i]);
            head.push(c);
            assert(views(head@) =~= views(before).push(c@));
            assert(views(all@).take(i + 1) =~= views(all@).take(i as int).push(all@[i as int]@));
            i += 1;
        }
        let mut r = join_with(&head, '/');
        push_str(&mut r, "/");
        proof {
            reveal_strlit("/");
        }
        assert(r@ =~= join(split(path@, '/').take(max_depth as int), '/') + seq!['/']);
        r
    } else {
        string_of(&cs)
    }
}

/// The number of non-empty `/`-separated segments.
pub open spec fn nonempty_count(segs: Seq<Seq<char>>) -> nat
    decreases segs.len(),
{
    if segs.len() == 0 {
        0
    } else {
        nonempty_count(segs.drop_last()) + if segs.last().len() > 0 {
            1nat
        } else {
            0nat
        }
    }
}

proof fn lemma_nonempty_count_bound(segs: Seq<Seq<char>>)
    ensures
        nonempty_count(segs) <= segs.len(),
    decreases segs.len(),
{
    if segs.len() > 0 {
        lemma_nonempty_count_bound(segs.drop_last());
    }
}

/// The depth of a prefix: its non-empty segments.
pub fn prefix_depth(prefix: &str) -> (r: usize)
    ensures
        r == nonempty_count(split(prefix@, '/')),
{
    let cs = chars_of(prefix);
    let pieces = split_chars(&cs, '/');
    let ghost ps = vec_views(pieces@);
    let mut n: usize = 0;
    let mut i: usize = 0;
    while i < pieces.len()
        invariant
            i <= pieces@.len(),
            ps == vec_views(pieces@),
            ps == split(prefix@, '/'),
            n == nonempty_count(ps.take(i as int)),
            n <= i,
        decreases pieces.len() - i,
    {
        assert(ps.take(i + 1).drop_last() == ps.take(i as int));
        assert(ps.take(i + 1).last() == pieces@[i as int]@);
        if pieces[i].len() > 0 {
            n += 1;
        }
        i += 1;
    }
    assert(ps.take(pieces@.len() as int) == ps);
    n
}

// ── Rows ─────────────────────────────────────────────────────────────────

/// Rows grouped by store: each store's slug with its set of display paths.
pub type RowsView = Seq<(Seq<char>, Seq<(Seq<char>, ())>)>;

/// The rows as lists.
pub open spec fn rows_view(m: StrMap<StrMap<()>>) -> RowsView {
    map_vals(m.entries_view(), |x: StrMap<()>| x.entries_view())
}

/// The rows with `(slug, path)` added.
pub open spec fn add_row(rows: RowsView, slug: Seq<char>, path: Seq<char>) -> RowsView {
    let cur = match lookup(rows, slug) {
        Some(m) => m,
        None => Seq::empty(),
    };
    insert_sorted(rows, slug, insert_sorted(cur, path, ()))
}

/// Adds a row.
fn insert_row(rows: &mut StrMap<StrMap<()>>, slug: &str, path: String)
    ensures
        rows_view(*final(rows)) == add_row(rows_view(*old(rows)), slug@, path@),
        final(rows).wf(),
{
    let ghost f = |x: StrMap<()>| x.entries_view();
    let ghost before = old(rows).entries_view();
    proof {
        lemma_lookup_map_vals(before, slug@, f);
    }
    let mut cur: StrMap<()> = match rows.get(slug) {
        Some(m) => m.copy(),
        None => StrMap::new(),
    };
    cur.insert(path, ());
    let ghost nv = cur.entries_view();
    rows.insert(string_of(&chars_of(slug)), cur);
    proof {
        lemma_map_vals_insert(before, slug@, cur, f);
        assert(f(cur) == nv);
    }
}

/// The rows in display order: by store, then by path.
pub open spec fn flat_rows(rows: RowsView) -> Seq<(Seq<char>, Seq<char>)>
    decreases rows.len(),
{
    if rows.len() == 0 {
        Seq::empty()
    } else {
        flat_rows(rows.drop_last()) + keys_of(rows.last().1).map_values(
            |p: Seq<char>| (rows.last().0, p),
        )
    }
}

/// The view of a list of `(slug, path)` rows.
pub open spec fn pair_views(v: Seq<(String, String)>) -> Seq<(Seq<char>, Seq<char>)> {
    v.map_values(|e: (String, String)| (e.0@, e.1@))
}

/// The rows as one list, in display order.
fn flatten_rows(rows: &StrMap<StrMap<()>>) -> (r: Vec<(String, String)>)
    ensures
        pair_views(r@) == flat_rows(rows_view(*rows)),
{
    let ghost rv = rows_view(*rows);
    let mut out: Vec<(String, String)> = Vec::new();
    let mut i: usize = 0;
    assert(rv.take(0) =~= RowsView::empty());
    assert(pair_views(out@) =~= flat_rows(rv.take(0)));
    while i < rows.len()
        invariant
            i <= rows.entries_view().len(),
            rv == rows_view(*rows),
            rv.len() == rows.entries_view().len(),
            pair_views(out@) == flat_rows(rv.take(i as int)),
        decreases rows.entries_view().len() - i,
    {
        let slug = rows.key_at(i);
        let group = rows.value_at(i);
        let paths = group.keys();
        assert(rv[i as int] == (slug@, group.entries_view()));
        let ghost mid = pair_views(out@);
        let mut j: usize = 0;
        while j < paths.len()
            invariant
                j <= paths@.len(),
                views(paths@) == keys_of(group.entries_view()),
                pair_views(out@) == mid + keys_of(group.entries_view()).take(j as int).map_values(
                    |p: Seq<char>| (slug@, p),
                ),
            decreases paths.len() - j,
        {
            let ghost ob = out@;
            let s = copy_string(slug);
            let p = copy_string(&paths[j]);
            out.push((s, p));
            assert(pair_views(out@) =~= pair_views(ob).push((slug@, paths@[j as int]@)));
            assert(keys_of(group.entries_view()).take(j + 1).map_values(|p: Seq<char>| (slug@, p))
                =~= keys_of(group.entries_view()).take(j as int).map_values(
                |p: Seq<char>| (slug@, p),
            ).push((slug@, paths@[j as int]@)));
            j += 1;
        }
        assert(keys_of(group.entries_view()).take(paths@.len() as int) == keys_of(
            group.entries_view(),
        ));
        assert(rv.take(i + 1).drop_last() == rv.take(i as int));
        assert(rv.take(i + 1).last() == rv[i as int]);
        i += 1;
    }
    assert(rv.take(rows.entries_view().len() as int) == rv);
    out
}


// ── Collecting rows ──────────────────────────────────────────────────────

/// A secret path of a store, with its tags when they were read (`None`:
/// not read, or the secret could not be decrypted).
#[derive(Debug)]
pub struct ListedSecret {
    pub path: String,
    pub tags: Option<Vec<String>>,
}

/// The secret paths listed in one store.
#[derive(Debug)]
pub struct StoreListing {
    pub slug: String,
    pub secrets: Vec<ListedSecret>,
}

/// The tags of a listed secret, by view.
pub open spec fn tags_view(t: Option<Vec<String>>) -> Option<Seq<Seq<char>>> {
    match t {
        Some(v) => Some(views(v@)),
        None => None,
    }
}

/// A secret is listed when no tag is wanted, or when its tags were read and
/// hold every wanted tag.
pub open spec fn keep_spec(want: Seq<Seq<char>>, tags: Option<Seq<Seq<char>>>) -> bool {
    want.len() == 0 || (tags matches Some(t) && all_present(t, want))
}

/// The rows after one store's secrets, in order.
pub open spec fn store_rows(
    rows: RowsView,
    slug: Seq<char>,
    secrets: Seq<ListedSecret>,
    depth: usize,
    want: Seq<Seq<char>>,
) -> RowsView
    decreases secrets.len(),
{
    if secrets.len() == 0 {
        rows
    } else {
        let before = store_rows(rows, slug, secrets.drop_last(), depth, want);
        let e = secrets.last();
        if keep_spec(want, tags_view(e.tags)) {
            add_row(before, slug, truncate_spec(e.path@, depth))
        } else {
            before
        }
    }
}

/// The rows of all stores.
pub open spec fn collect_rows(stores: Seq<StoreListing>, depth: usize, want: Seq<Seq<char>>) -> RowsView
    decreases stores.len(),
{
    if stores.len() == 0 {
        Seq::empty()
    } else {
        store_rows(
            collect_rows(stores.drop_last(), depth, want),
            stores.last().slug@,
            stores.last().secrets@,
            depth,
            want,
        )
    }
}

/// Collects the unique `(store, display path)` rows.
fn collect(stores: &[StoreListing], depth: usize, want: &[String]) -> (r: StrMap<StrMap<()>>)
    ensures
        rows_view(r) == collect_rows(stores@, depth, views(want@)),
        r.wf(),
{
    let ghost wv = views(want@);
    let mut rows: StrMap<StrMap<()>> = StrMap::new();
    assert(rows_view(rows) =~= RowsView::empty());
    let mut i: usize = 0;
    while i < stores.len()
        invariant
            i <= stores@.len(),
            wv == views(want@),
            rows_view(rows) == collect_rows(stores@.take(i as int), depth, wv),
            rows.wf(),
        decreases stores.len() - i,
    {
        let store = &stores[i];
        let ghost start = rows_view(rows);
        let mut j: usize = 0;
        while j < store.secrets.len()
            invariant
                j <= store.secrets@.len(),
                wv == views(want@),
                rows_view(rows) == store_rows(start, store.slug@, store.secrets@.take(j as int), depth, wv),
                rows.wf(),
            decreases store.secrets.len() - j,
        {
            let e = &store.secrets[j];
            let keep = if want.len() == 0 {
                true
            } else {
                match &e.tags {
                    Some(t) => matches_all_tags(t.as_slice(), want),
                    None => false,
                }
            };
            assert(store.secrets@.take(j + 1).drop_last() == store.secrets@.take(j as int));
            assert(store.secrets@.take(j + 1).last() == store.secrets@[j as int]);
            if keep {
                let shown = truncate_to_depth(e.path.as_str(), depth);
                insert_row(&mut rows, store.slug.as_str(), shown);
            }
            j += 1;
        }
        assert(store.secrets@.take(store.secrets@.len() as int) == store.secrets@);
        assert(stores@.take(i + 1).drop_last() == stores@.take(i as int));
        assert(stores@.take(i + 1).last() == stores@[i as int]);
        i += 1;
    }
    assert(stores@.take(stores@.len() as int) == stores@);
    rows
}

// ── Paging ───────────────────────────────────────────────────────────────

/// At most `limit` rows after the first `offset`.
pub open spec fn page_spec<A>(rows: Seq<A>, offset: usize, limit: usize) -> Seq<A> {
    if offset >= rows.len() {
        Seq::empty()
    } else if limit >= rows.len() - offset {
        rows.skip(offset as int)
    } else {
        rows.skip(offset as int).take(limit as int)
    }
}

/// The page of rows to show.
fn page_of(rows: &Vec<(String, String)>, offset: usize, limit: usize) -> (r: Vec<(String, String)>)
    ensures
        pair_views(r@) == page_spec(pair_views(rows@), offset, limit),
{
    let ghost all = pair_views(rows@);
    let mut out: Vec<(String, String)> = Vec::new();
    if offset >= rows.len() {
        assert(pair_views(out@) =~= page_spec(all, offset, limit));
        return out;
    }
    let end = if limit >= rows.len() - offset {
        rows.len()
    } else {
        offset + limit
    };
    let mut i: usize = offset;
    assert(pair_views(out@) =~= all.subrange(offset as int, offset as int));
    while i < end
        invariant
            offset <= i <= end <= rows@.len(),
            all == pair_views(rows@),
            pair_views(out@) == all.subrange(offset as int, i as int),
        decreases end - i,
    {
        let ghost ob = out@;
        let s = copy_string(&rows[i].0);
        let p = copy_string(&rows[i].1);
        out.push((s, p));
        assert(pair_views(out@) =~= pair_views(ob).push(all[i as int]));
        assert(all.subrange(offset as int, i + 1) =~= all.subrange(offset as int, i as int).push(
            all[i as int],
        ));
        i += 1;
    }
    assert(pair_views(out@) =~= page_spec(all, offset, limit));
    out
}

// ── Rendering ────────────────────────────────────────────────────────────

/// The length in bytes of a string, as `str::len` reports it.
pub open spec fn byte_width(s: Seq<char>) -> nat {
    (vstd::utf8::encode_utf8(s).len() as usize) as nat
}

/// The widest path of a page, in bytes (0 for none).
pub open spec fn widest_path(page: Seq<(Seq<char>, Seq<char>)>) -> nat
    decreases page.len(),
{
    if page.len() == 0 {
        0
    } else {
        let w = widest_path(page.drop_last());
        let x = byte_width(page.last().1);
        if x > w {
            x
        } else {
            w
        }
    }
}

/// The widest store slug of a page, in bytes (0 for none).
pub open spec fn widest_store(page: Seq<(Seq<char>, Seq<char>)>) -> nat
    decreases page.len(),
{
    if page.len() == 0 {
        0
    } else {
        let w = widest_store(page.drop_last());
        let x = byte_width(page.last().0);
        if x > w {
            x
        } else {
            w
        }
    }
}

/// `a` or `b`, whichever is larger.
pub open spec fn at_least(a: nat, b: nat) -> nat {
    if a > b {
        a
    } else {
        b
    }
}

/// `s` followed by spaces up to `w` characters, as `{:<w$}` pads it.
pub open spec fn pad_spec(s: Seq<char>, w: nat) -> Seq<char> {
    if s.len() >= w {
        s
    } else {
        s + Seq::new((w - s.len()) as nat, |i: int| ' ')
    }
}

/// `n` dashes.
pub open spec fn dashes(n: nat) -> Seq<char> {
    Seq::new(n, |i: int| '-')
}

/// Every row of the page comes from one store.
pub open spec fn single_store(page: Seq<(Seq<char>, Seq<char>)>) -> bool {
    page.len() > 0 && forall|i: int| 0 <= i < page.len() ==> #[trigger] page[i].0 == page[0].0
}

/// One line per path.
pub open spec fn path_lines(page: Seq<(Seq<char>, Seq<char>)>) -> Seq<char>
    decreases page.len(),
{
    if page.len() == 0 {
        Seq::empty()
    } else {
        path_lines(page.drop_last()) + page.last().1 + "\n"@
    }
}

/// One line per row: the padded path, two spaces, the store.
pub open spec fn store_lines(page: Seq<(Seq<char>, Seq<char>)>, w: nat) -> Seq<char>
    decreases page.len(),
{
    if page.len() == 0 {
        Seq::empty()
    } else {
        store_lines(page.drop_last(), w) + pad_spec(page.last().1, w) + "  "@ + page.last().0
            + "\n"@
    }
}

/// The table of a page: a `PATH` column alone when the page comes from a
/// single store, else `PATH` and `STORE` columns; column widths are the
/// widest entry in bytes and at least the heading.
pub open spec fn table_spec(page: Seq<(Seq<char>, Seq<char>)>) -> Seq<char> {
    let path_w = at_least(widest_path(page), 4);
    if single_store(page) {
        pad_spec("PATH"@, path_w) + "\n"@ + dashes(path_w) + "\n"@ + path_lines(page)
    } else {
        let store_w = at_least(widest_store(page), 5);
        pad_spec("PATH"@, path_w) + "  STORE\n"@ + dashes(path_w) + "  "@ + dashes(store_w) + "\n"@
            + store_lines(page, path_w)
    }
}

/// Appends `s` padded with spaces to `w` characters.
pub(crate) fn push_padded(out: &mut String, s: &str, w: usize)
    ensures
        final(out)@ == old(out)@ + pad_spec(s@, w as nat),
{
    push_str(out, s);
    let n = chars_of(s).len();
    let mut k: usize = n;
    while k < w
        invariant
            n == s@.len(),
            n <= k,
            k <= w || n >= w,
            n >= w ==> k == n,
            out@ == old(out)@ + s@ + Seq::new((k - n) as nat, |i: int| ' '),
        decreases w - k,
    {
        let ghost before = out@;
        push_char(out, ' ');
        assert(Seq::new((k + 1 - n) as nat, |i: int| ' ') =~= Seq::new((k - n) as nat, |i: int| ' ').push(' '));
        k += 1;
    }
    if n >= w {
        assert(Seq::new(0nat, |i: int| ' ') =~= Seq::<char>::empty());
        assert(out@ =~= old(out)@ + pad_spec(s@, w as nat));
    } else {
        assert(out@ =~= old(out)@ + pad_spec(s@, w as nat));
    }
}

/// Appends `n` dashes.
fn push_dashes(out: &mut String, n: usize)
    ensures
        final(out)@ == old(out)@ + dashes(n as nat),
{
    let mut k: usize = 0;
    while k < n
        invariant
            k <= n,
            out@ == old(out)@ + dashes(k as nat),
        decreases n - k,
    {
        push_char(out, '-');
        assert(dashes((k + 1) as nat) =~= dashes(k as nat).push('-'));
        k += 1;
    }
    assert(old(out)@ + dashes(0) =~= old(out)@);
}

/// The widest path and store of a page, in bytes.
fn widths(page: &Vec<(String, String)>) -> (r: (usize, usize))
    ensures
        r.0 == widest_path(pair_views(page@)),
        r.1 == widest_store(pair_views(page@)),
{
    let ghost pv = pair_views(page@);
    let mut wp: usize = 0;
    let mut ws: usize = 0;
    let mut i: usize = 0;
    while i < page.len()
        invariant
            i <= page@.len(),
            pv == pair_views(page@),
            wp == widest_path(pv.take(i as int)),
            ws == widest_store(pv.take(i as int)),
        decreases page.len() - i,
    {
        assert(pv.take(i + 1).drop_last() == pv.take(i as int));
        assert(pv.take(i + 1).last() == pv[i as int]);
        let lp = page[i].1.as_str().len();
        let ls = page[i].0.as_str().len();
        if lp > wp {
            wp = lp;
        }
        if ls > ws {
            ws = ls;
        }
        i += 1;
    }
    assert(pv.take(page@.len() as int) == pv);
    (wp, ws)
}

/// Whether every row of a non-empty page has the first row's store.
fn is_single_store(page: &Vec<(String, String)>) -> (r: bool)
    ensures
        r == single_store(pair_views(page@)),
{
    let ghost pv = pair_views(page@);
    if page.len() == 0 {
        return false;
    }
    let first = page[0].0.as_str();
    let mut i: usize = 0;
    while i < page.len()
        invariant
            i <= page@.len(),
            pv == pair_views(page@),
            pv.len() > 0,
            first@ == pv[0].0,
            forall|j: int| 0 <= j < i ==> #[trigger] pv[j].0 == pv[0].0,
        decreases page.len() - i,
    {
        assert(pv[i as int].0 == page@[i as int].0@);
        if !str_eq(page[i].0.as_str(), first) {
            return false;
        }
        i += 1;
    }
    true
}

/// Renders the table of a page.
fn render_table(page: &Vec<(String, String)>) -> (r: String)
    ensures
        r@ == table_spec(pair_views(page@)),
{
    let ghost pv = pair_views(page@);
    let (wp, ws) = widths(page);
    let path_w = if wp > 4 {
        wp
    } else {
        4
    };
    let mut out = String::new();
    push_padded(&mut out, "PATH", path_w);
    if is_single_store(page) {
        push_str(&mut out, "\n");
        push_dashes(&mut out, path_w);
        push_str(&mut out, "\n");
        let ghost head = out@;
        let mut i: usize = 0;
        while i < page.len()
            invariant
                i <= page@.len(),
                pv == pair_views(page@),
                out@ == head + path_lines(pv.take(i as int)),
            decreases page.len() - i,
        {
            assert(pv.take(i + 1).drop_last() == pv.take(i as int));
            assert(pv.take(i + 1).last() == pv[i as int]);
            push_str(&mut out, page[i].1.as_str());
            push_str(&mut out, "\n");
            i += 1;
        }
        assert(pv.take(page@.len() as int) == pv);
        assert(head + path_lines(Seq::<(Seq<char>, Seq<char>)>::empty()) =~= head);
        out
    } else {
        let store_w = if ws > 5 {
            ws
        } else {
            5
        };
        push_str(&mut out, "  STORE\n");
        push_dashes(&mut out, path_w);
        push_str(&mut out, "  ");
        push_dashes(&mut out, store_w);
        push_str(&mut out, "\n");
        let ghost head = out@;
        let mut i: usize = 0;
        assert(head + store_lines(pv.take(0), path_w as nat) =~= head);
        while i < page.len()
            invariant
                i <= page@.len(),
                pv == pair_views(page@),
                out@ == head + store_lines(pv.take(i as int), path_w as nat),
            decreases page.len() - i,
        {
            assert(pv.take(i + 1).drop_last() == pv.take(i as int));
            assert(pv.take(i + 1).last() == pv[i as int]);
            push_padded(&mut out, page[i].1.as_str(), path_w);
            push_str(&mut out, "  ");
            push_str(&mut out, page[i].0.as_str());
            push_str(&mut out, "\n");
            i += 1;
        }
        assert(pv.take(page@.len() as int) == pv);
        out
    }
}


// ── Footer and the whole listing ─────────────────────────────────────────

/// The footer: with paging in play, how many rows of how many are shown and
/// the next offset; else the number of items.
pub open spec fn footer_spec(total: nat, shown: nat, offset: usize, limit: usize) -> Seq<char> {
    if total > limit || offset > 0 {
        "\n"@ + decimal(shown) + " of "@ + decimal(total) + "  (showing "@ + decimal(
            (offset + 1) as nat,
        ) + "–"@ + decimal((offset + shown) as nat) + "; use --offset "@ + decimal(
            (offset + shown) as nat,
        ) + " for next page)\n"@
    } else {
        "\n"@ + decimal(total) + " item"@ + (if total == 1 {
            ""@
        } else {
            "s"@
        }) + "\n"@
    }
}

/// What `ls` prints: the table on standard output, notes on standard error.
#[derive(Debug)]
pub struct LsOutput {
    pub stdout: String,
    pub stderr: String,
}

/// The display depth: the prefix's depth plus `max_depth`, saturating.
pub open spec fn effective_depth(prefix: Option<Seq<char>>, max_depth: usize) -> usize {
    let pd = match prefix {
        Some(p) => nonempty_count(split(p, '/')),
        None => 0,
    };
    if pd + max_depth > usize::MAX {
        usize::MAX
    } else {
        (pd + max_depth) as usize
    }
}

/// The listing: every kept secret of every store cut to the display depth,
/// as sorted unique rows; nothing to show is noted on standard error,
/// else a page of rows is tabled, with the footer on standard error.
pub open spec fn listing_spec(
    stores: Seq<StoreListing>,
    prefix: Option<Seq<char>>,
    max_depth: usize,
    limit: usize,
    offset: usize,
    want: Seq<Seq<char>>,
) -> (Seq<char>, Seq<char>) {
    let rows = flat_rows(collect_rows(stores, effective_depth(prefix, max_depth), want));
    if rows.len() == 0 {
        (
            Seq::empty(),
            match prefix {
                Some(p) => "No secrets under '"@ + p + "'.\n"@,
                None => "No secrets found.\n"@,
            },
        )
    } else {
        let page = page_spec(rows, offset, limit);
        (table_spec(page), footer_spec(rows.len(), page.len(), offset, limit))
    }
}

/// The view of an optional string slice.
pub open spec fn opt_str_view(o: Option<&str>) -> Option<Seq<char>> {
    match o {
        Some(s) => Some(s@),
        None => None,
    }
}

/// Lists the secrets of the given stores under `prefix`.
pub fn show_items(
    stores: &[StoreListing],
    prefix: Option<&str>,
    max_depth: usize,
    limit: usize,
    offset: usize,
    want_tags: &[String],
) -> (r: LsOutput)
    requires
        offset < usize::MAX || flat_rows(
            collect_rows(stores@, effective_depth(opt_str_view(prefix), max_depth), views(want_tags@)),
        ).len() == 0,
    ensures
        (r.stdout@, r.stderr@) == listing_spec(
            stores@,
            opt_str_view(prefix),
            max_depth,
            limit,
            offset,
            views(want_tags@),
        ),
{
    let pd = match prefix {
        Some(p) => prefix_depth(p),
        None => 0,
    };
    let depth = pd.saturating_add(max_depth);
    assert(depth == effective_depth(opt_str_view(prefix), max_depth));
    let rows = collect(stores, depth, want_tags);
    let flat = flatten_rows(&rows);
    let total = flat.len();
    let ghost fv = pair_views(flat@);
    assert(fv.len() == total);
    if total == 0 {
        let mut err = String::new();
        match prefix {
            Some(p) => {
                push_str(&mut err, "No secrets under '");
                push_str(&mut err, p);
                push_str(&mut err, "'.\n");
            },
            None => {
                push_str(&mut err, "No secrets found.\n");
            },
        }
        assert(err@ =~= listing_spec(
            stores@,
            opt_str_view(prefix),
            max_depth,
            limit,
            offset,
            views(want_tags@),
        ).1);
        return LsOutput { stdout: String::new(), stderr: err };
    }
    let page = page_of(&flat, offset, limit);
    let table = render_table(&page);
    let shown = page.len();
    assert(pair_views(page@).len() == shown);
    assert(shown <= total) by {
        assert(page_spec(fv, offset, limit).len() <= fv.len());
    }
    assert(offset < total ==> offset + shown <= total) by {
        if offset < total {
            assert(page_spec(fv, offset, limit).len() <= fv.len() - offset);
        }
    }
    assert(offset >= total ==> shown == 0);
    let end = offset + shown;
    let mut err = String::new();
    if total > limit || offset > 0 {
        push_str(&mut err, "\n");
        push_str(&mut err, string_of(&decimal_chars(shown)).as_str());
        push_str(&mut err, " of ");
        push_str(&mut err, string_of(&decimal_chars(total)).as_str());
        push_str(&mut err, "  (showing ");
        push_str(&mut err, string_of(&decimal_chars(offset + 1)).as_str());
        push_str(&mut err, "–");
        push_str(&mut err, string_of(&decimal_chars(end)).as_str());
        push_str(&mut err, "; use --offset ");
        push_str(&mut err, string_of(&decimal_chars(end)).as_str());
        push_str(&mut err, " for next page)\n");
    } else {
        push_str(&mut err, "\n");
        push_str(&mut err, string_of(&decimal_chars(total)).as_str());
        push_str(&mut err, " item");
        if total == 1 {
            push_str(&mut err, "");
        } else {
            push_str(&mut err, "s");
        }
        push_str(&mut err, "\n");
    }
    LsOutput { stdout: table, stderr: err }
}

// ── The command ──────────────────────────────────────────────────────────

/// What `ls` lists, once its arguments are checked.
#[derive(Debug)]
pub struct LsPlan {
    /// The prefix, trailing `/`s removed.
    pub prefix: Option<String>,
    /// The display depth below the prefix (`usize::MAX`: no limit).
    pub max_depth: usize,
    /// The validated tag filter.
    pub tags: Vec<String>,
}

/// `s` without its trailing `/`s.
pub open spec fn trim_slashes(s: Seq<char>) -> Seq<char>
    decreases s.len(),
{
    if s.len() > 0 && s.last() == '/' {
        trim_slashes(s.drop_last())
    } else {
        s
    }
}

/// Checks the arguments of `ls`: every tag must follow the tag grammar; a
/// recursive listing has no depth limit.
pub fn plan(args: &crate::args::LsArgs) -> (r: Result<LsPlan, crate::error::HimitsuError>)
    ensures
        match crate::set::first_bad_tag(views(args.tag@)) {
            Some(t) => r matches Err(e) && e is InvalidReference && e.detail()
                == crate::set::invalid_tag_msg(t),
            None => r matches Ok(p) && views(p.tags@) == views(args.tag@) && p.max_depth == (if args.recursive {
                usize::MAX
            } else {
                args.depth
            }) && opt_string_view(p.prefix) == (match args.path {
                Some(path) => Some(trim_slashes(path@)),
                None => None,
            }),
        },
{
    let tags = crate::set::validate_tags(args.tag.as_slice())?;
    let max_depth = if args.recursive {
        usize::MAX
    } else {
        args.depth
    };
    let prefix = match &args.path {
        Some(p) => {
            let cs = chars_of(p.as_str());
            let mut end = cs.len();
            assert(cs@.take(end as int) == cs@);
            while end > 0 && cs[end - 1] == '/'
                invariant
                    end <= cs@.len(),
                    trim_slashes(cs@) == trim_slashes(cs@.take(end as int)),
                decreases end,
            {
                assert(cs@.take(end as int).drop_last() == cs@.take(end - 1));
                end -= 1;
            }
            let kept = crate::text::slice_of(&cs, 0, end);
            assert(kept@ == cs@.take(end as int));
            Some(string_of(&kept))
        },
        None => None,
    };
    Ok(LsPlan { prefix, max_depth, tags })
}

/// The view of an optional string.
pub open spec fn opt_string_view(o: Option<String>) -> Option<Seq<char>> {
    match o {
        Some(s) => Some(s@),
        None => None,
    }
}

} // verus!
