//! `search`: secrets of every known store ranked by how well their path
//! (and store slug) match a fuzzy query, and the table that shows them.
use vstd::prelude::*;

use nucleo_matcher::pattern::{CaseMatching, Normalization, Pattern};

use owo_colors::OwoColorize;

use crate::duration::{
    instant, nanos_between, parse_rfc3339, plural, plural_spec, rfc3339_parsed, whole_seconds,
};
use crate::env_dsl::{trim, trim_chars};
use crate::ls::{at_least, byte_width, pad_spec, push_padded};
use crate::paths::{path_within, relative_part, relative_to, within};
use crate::recipient::bytes_of;
use crate::secret::Timestamp;
use crate::strmap::{key_less, key_lt, lemma_key_lt_irreflexive, lemma_key_lt_transitive, lemma_key_lt_asymmetric};
use crate::text::{
    chars_of, copy_string, debug_quoted, decimal, decimal_u128, push_str, quoted, replace,
    replace_chars, string_of,
};

verus! {

// ── Results ──────────────────────────────────────────────────────────────

/// One search hit.
#[derive(Debug)]
pub struct SearchResult {
    pub store: String,
    /// The checkout the hit lives in.
    pub store_path: String,
    pub path: String,
    pub created_at: Option<String>,
    pub updated_at: Option<String>,
    /// The secret's description, when it could be read.
    pub description: Option<String>,
}

/// A search hit as plain values.
pub struct ResultView {
    pub store: Seq<char>,
    pub store_path: Seq<char>,
    pub path: Seq<char>,
    pub created_at: Option<Seq<char>>,
    pub updated_at: Option<Seq<char>>,
    pub description: Option<Seq<char>>,
}

/// The view of an optional string.
pub open spec fn opt_view(o: Option<String>) -> Option<Seq<char>> {
    match o {
        Some(s) => Some(s@),
        None => None,
    }
}

impl SearchResult {
    pub open spec fn view(&self) -> ResultView {
        ResultView {
            store: self.store@,
            store_path: self.store_path@,
            path: self.path@,
            created_at: opt_view(self.created_at),
            updated_at: opt_view(self.updated_at),
            description: opt_view(self.description),
        }
    }
}

/// The views of a list of hits.
pub open spec fn result_views(v: Seq<SearchResult>) -> Seq<ResultView> {
    v.map_values(|r: SearchResult| r.view())
}

fn copy_opt(o: &Option<String>) -> (r: Option<String>)
    ensures
        opt_view(r) == opt_view(*o),
{
    match o {
        Some(s) => Some(copy_string(s)),
        None => None,
    }
}

/// A copy of a hit.
fn copy_result(r: &SearchResult) -> (c: SearchResult)
    ensures
        c.view() == r.view(),
{
    SearchResult {
        store: copy_string(&r.store),
        store_path: copy_string(&r.store_path),
        path: copy_string(&r.path),
        created_at: copy_opt(&r.created_at),
        updated_at: copy_opt(&r.updated_at),
        description: copy_opt(&r.description),
    }
}

// ── Scoring ──────────────────────────────────────────────────────────────

/// A store label reads as an `org/repo` slug rather than a filesystem
/// path: not empty, not starting with `/`, and no drive letter (`:` as
/// second byte).
pub open spec fn slug_like(slug: Seq<char>) -> bool {
    slug.len() > 0 && slug[0] != '/' && !(bytes_of(slug).len() >= 2 && bytes_of(slug)[1] == 58u8)
}

/// Whether a store label reads as an `org/repo` slug.
pub fn is_slug_like(slug: &str) -> (r: bool)
    ensures
        r == slug_like(slug@),
{
    let cs = chars_of(slug);
    if cs.len() == 0 || cs[0] == '/' {
        return false;
    }
    let bytes = slug.as_bytes();
    if bytes.len() >= 2 && bytes[1] == 58u8 {
        return false;
    }
    true
}

/// The score nucleo-matcher's `Pattern` (parsed from `query`, ignoring case,
/// smart normalization) gives the haystack bytes, taken as ASCII; `None`
/// when it does not match.
pub uninterp spec fn fuzzy_score(query: Seq<char>, haystack: Seq<u8>) -> Option<int>;

/// Scores a haystack against a fuzzy query with nucleo-matcher
/// (`Pattern::parse(query, CaseMatching::Ignore, Normalization::Smart)`,
/// then `Pattern::score` on the haystack's bytes as `Utf32Str::Ascii`).
/// nucleo asserts haystacks of at most `u32::MAX` units.
#[verifier::external_body]
fn score(query: &str, haystack: &str) -> (r: Option<u32>)
    requires
        bytes_of(haystack@).len() <= u32::MAX,
    ensures
        match r {
            Some(s) => fuzzy_score(query@, bytes_of(haystack@)) == Some(s as int),
            None => fuzzy_score(query@, bytes_of(haystack@)) is None,
        },
{
    let mut matcher = nucleo_matcher::Matcher::new(nucleo_matcher::Config::DEFAULT);
    let pattern = Pattern::parse(query, CaseMatching::Ignore, Normalization::Smart);
    pattern.score(nucleo_matcher::Utf32Str::Ascii(haystack.as_bytes()), &mut matcher)
}

/// The haystack that adds the store to a path: `store/path`.
pub open spec fn slug_haystack(r: ResultView) -> Seq<char> {
    r.store + "/"@ + r.path
}

/// The best score of a hit: of its path, and of `store/path` when the store
/// reads as a slug.
pub open spec fn best_score(r: ResultView, query: Seq<char>) -> Option<int> {
    let p = fuzzy_score(query, bytes_of(r.path));
    let s = if slug_like(r.store) {
        fuzzy_score(query, bytes_of(slug_haystack(r)))
    } else {
        None
    };
    match (p, s) {
        (Some(a), Some(b)) => Some(if a >= b { a } else { b }),
        (Some(a), None) => Some(a),
        (None, Some(b)) => Some(b),
        (None, None) => None,
    }
}

/// The hits that match, each with its score, in their order.
pub open spec fn scored(cands: Seq<ResultView>, query: Seq<char>) -> Seq<(int, ResultView)>
    decreases cands.len(),
{
    if cands.len() == 0 {
        Seq::empty()
    } else {
        let rest = scored(cands.drop_last(), query);
        match best_score(cands.last(), query) {
            Some(s) => rest.push((s, cands.last())),
            None => rest,
        }
    }
}

/// Haystacks nucleo accepts: every path, and every `store/path`, at most
/// `u32::MAX` bytes.
pub open spec fn scorable(cands: Seq<ResultView>) -> bool {
    forall|i: int|
        0 <= i < cands.len() ==> bytes_of(#[trigger] cands[i].path).len() <= u32::MAX && bytes_of(
            slug_haystack(cands[i]),
        ).len() <= u32::MAX
}

// ── Ranking ──────────────────────────────────────────────────────────────

/// `a` ranks before `b`: a higher score, or the same score and a smaller
/// `(store, path)`.
pub open spec fn rank_before(a: (int, ResultView), b: (int, ResultView)) -> bool {
    a.0 > b.0 || (a.0 == b.0 && (key_lt(a.1.store, b.1.store) || (a.1.store == b.1.store
        && key_lt(a.1.path, b.1.path))))
}

/// Where `x` goes in a ranked list: before the first entry it ranks
/// before, so that it follows the entries it ties with.
pub open spec fn rank_pos(s: Seq<(int, ResultView)>, x: (int, ResultView)) -> int
    decreases s.len(),
{
    if s.len() == 0 || rank_before(x, s[0]) {
        0
    } else {
        1 + rank_pos(s.drop_first(), x)
    }
}

/// The list ranked, ties kept in their order.
pub open spec fn ranked(s: Seq<(int, ResultView)>) -> Seq<(int, ResultView)>
    decreases s.len(),
{
    if s.len() == 0 {
        Seq::empty()
    } else {
        let r = ranked(s.drop_last());
        r.insert(rank_pos(r, s.last()), s.last())
    }
}

/// No entry ranks before an earlier one.
pub open spec fn rank_sorted(s: Seq<(int, ResultView)>) -> bool {
    forall|i: int, j: int| 0 <= i < j < s.len() ==> !rank_before(#[trigger] s[j], #[trigger] s[i])
}

/// Ranking is transitive.
proof fn lemma_rank_transitive(a: (int, ResultView), b: (int, ResultView), c: (int, ResultView))
    requires
        rank_before(a, b),
        rank_before(b, c),
    ensures
        rank_before(a, c),
{
    if a.0 == b.0 && b.0 == c.0 {
        if key_lt(a.1.store, b.1.store) && key_lt(b.1.store, c.1.store) {
            lemma_key_lt_transitive(a.1.store, b.1.store, c.1.store);
        } else if a.1.store == b.1.store && b.1.store == c.1.store {
            lemma_key_lt_transitive(a.1.path, b.1.path, c.1.path);
        }
    }
}

/// Nothing ranks before itself.
proof fn lemma_rank_irreflexive(a: (int, ResultView))
    ensures
        !rank_before(a, a),
{
    lemma_key_lt_irreflexive(a.1.store);
    lemma_key_lt_irreflexive(a.1.path);
}

/// The insertion point lies within the list, after every entry `x` does
/// not rank before, and at an entry `x` ranks before (if any).
proof fn lemma_rank_pos(s: Seq<(int, ResultView)>, x: (int, ResultView))
    ensures
        0 <= rank_pos(s, x) <= s.len(),
        forall|i: int| 0 <= i < rank_pos(s, x) ==> !rank_before(x, #[trigger] s[i]),
        rank_pos(s, x) < s.len() ==> rank_before(x, s[rank_pos(s, x)]),
    decreases s.len(),
{
    if s.len() > 0 && !rank_before(x, s[0]) {
        lemma_rank_pos(s.drop_first(), x);
        assert forall|i: int| 0 <= i < rank_pos(s, x) implies !rank_before(x, #[trigger] s[i]) by {
            if i > 0 {
                assert(s[i] == s.drop_first()[i - 1]);
            }
        }
    }
}

/// Inserting at the rank position keeps a ranked list ranked.
proof fn lemma_insert_ranked(s: Seq<(int, ResultView)>, x: (int, ResultView))
    requires
        rank_sorted(s),
    ensures
        rank_sorted(s.insert(rank_pos(s, x), x)),
{
    lemma_rank_pos(s, x);
    let p = rank_pos(s, x);
    let t = s.insert(p, x);
    assert forall|i: int, j: int| 0 <= i < j < t.len() implies !rank_before(#[trigger] t[j], #[trigger] t[i]) by {
        if i < p && j < p {
            assert(t[i] == s[i] && t[j] == s[j]);
        } else if i < p && j == p {
            assert(t[i] == s[i] && t[j] == x);
        } else if i < p {
            assert(t[i] == s[i] && t[j] == s[j - 1]);
        } else if i == p {
            assert(t[i] == x && t[j] == s[j - 1]);
            if rank_before(s[j - 1], x) {
                if j - 1 == p {
                    lemma_rank_transitive(x, s[p], x);
                    lemma_rank_irreflexive(x);
                } else {
                    lemma_rank_transitive(s[j - 1], x, s[p]);
                }
            }
        } else {
            assert(t[i] == s[i - 1] && t[j] == s[j - 1]);
        }
    }
}

/// A ranked list has no entry ranking before an earlier one.
pub proof fn lemma_ranked_sorted(s: Seq<(int, ResultView)>)
    ensures
        rank_sorted(ranked(s)),
    decreases s.len(),
{
    if s.len() > 0 {
        lemma_ranked_sorted(s.drop_last());
        lemma_insert_ranked(ranked(s.drop_last()), s.last());
    }
}

/// Ranking reorders the list and neither drops nor adds entries.
pub proof fn lemma_ranked_permutes(s: Seq<(int, ResultView)>)
    ensures
        ranked(s).to_multiset() == s.to_multiset(),
    decreases s.len(),
{
    broadcast use vstd::seq_lib::to_multiset_build, vstd::seq_lib::to_multiset_insert;

    if s.len() > 0 {
        lemma_ranked_permutes(s.drop_last());
        let r = ranked(s.drop_last());
        lemma_rank_pos(r, s.last());
        assert(s == s.drop_last().push(s.last()));
        assert(s.drop_last().push(s.last()).to_multiset() == s.drop_last().to_multiset().insert(
            s.last(),
        ));
        assert(ranked(s) == r.insert(rank_pos(r, s.last()), s.last()));
        assert(ranked(s).to_multiset() == r.to_multiset().insert(s.last()));
        assert(s.to_multiset() == s.drop_last().to_multiset().insert(s.last()));
        assert(r.to_multiset() == s.drop_last().to_multiset());
    } else {
        assert(ranked(s) =~= s);
    }
}

// ── Filtering ────────────────────────────────────────────────────────────

/// Whether `a` ranks before `b`.
fn ranks_before(a: &(u32, SearchResult), b: &(u32, SearchResult)) -> (r: bool)
    ensures
        r == rank_before((a.0 as int, a.1.view()), (b.0 as int, b.1.view())),
{
    if a.0 != b.0 {
        return a.0 > b.0;
    }
    let sa = chars_of(a.1.store.as_str());
    let sb = chars_of(b.1.store.as_str());
    if key_less(&sa, &sb) {
        return true;
    }
    if !crate::text::slice_eq(&sa, &sb) {
        return false;
    }
    key_less(&chars_of(a.1.path.as_str()), &chars_of(b.1.path.as_str()))
}

/// The view of a scored list.
pub open spec fn scored_views(v: Seq<(u32, SearchResult)>) -> Seq<(int, ResultView)> {
    v.map_values(|p: (u32, SearchResult)| (p.0 as int, p.1.view()))
}

/// Inserts `x` at its rank.
fn insert_ranked(out: &mut Vec<(u32, SearchResult)>, x: (u32, SearchResult))
    ensures
        scored_views(final(out)@) == scored_views(old(out)@).insert(
            rank_pos(scored_views(old(out)@), (x.0 as int, x.1.view())),
            (x.0 as int, x.1.view()),
        ),
{
    let ghost sv = scored_views(out@);
    let ghost xv = (x.0 as int, x.1.view());
    let mut p: usize = 0;
    assert(sv.skip(0) == sv);
    while p < out.len() && !ranks_before(&x, &out[p])
        invariant
            p <= out@.len(),
            sv == scored_views(out@),
            xv == (x.0 as int, x.1.view()),
            rank_pos(sv, xv) == p + rank_pos(sv.skip(p as int), xv),
        decreases out.len() - p,
    {
        assert(sv.skip(p as int)[0] == sv[p as int]);
        assert(sv.skip(p as int).drop_first() == sv.skip(p + 1));
        p += 1;
    }
    if p < out.len() {
        assert(sv.skip(p as int)[0] == sv[p as int]);
    }
    out.insert(p, x);
    assert(scored_views(out@) =~= sv.insert(p as int, xv));
}

/// Ranks hits by their scores, then by `(store, path)`.
fn rank_all(items: Vec<(u32, SearchResult)>) -> (r: Vec<SearchResult>)
    ensures
        result_views(r@) == ranked(scored_views(items@)).map_values(|p: (int, ResultView)| p.1),
{
    let ghost iv = scored_views(items@);
    let mut out: Vec<(u32, SearchResult)> = Vec::new();
    let mut rest = items;
    let ghost n = iv.len();
    let mut i: usize = 0;
    assert(n == rest.len());
    assert(scored_views(rest@) == iv.skip(0));
    assert(scored_views(out@) =~= ranked(iv.take(0)));
    while rest.len() > 0
        invariant
            i + rest@.len() == n,
            n == iv.len(),
            n <= usize::MAX,
            scored_views(rest@) == iv.skip(i as int),
            scored_views(out@) == ranked(iv.take(i as int)),
        decreases rest.len(),
    {
        let ghost before = rest@;
        let x = rest.remove(0);
        assert(scored_views(before)[0] == (x.0 as int, x.1.view()));
        assert(iv[i as int] == (x.0 as int, x.1.view()));
        assert forall|k: int| 0 <= k < rest@.len() implies scored_views(rest@)[k] == iv.skip(
            i + 1,
        )[k] by {
            assert(rest@[k] == before[k + 1]);
            assert(scored_views(before)[k + 1] == iv.skip(i as int)[k + 1]);
        }
        assert(scored_views(rest@) =~= iv.skip(i + 1));
        assert(iv.take(i + 1).drop_last() == iv.take(i as int));
        assert(iv.take(i + 1).last() == iv[i as int]);
        insert_ranked(&mut out, x);
        i += 1;
    }
    assert(iv.take(n as int) == iv);
    let mut res: Vec<SearchResult> = Vec::new();
    let mut j: usize = 0;
    let ghost ov = scored_views(out@);
    while j < out.len()
        invariant
            j <= out@.len(),
            ov == scored_views(out@),
            result_views(res@) == ov.take(j as int).map_values(|p: (int, ResultView)| p.1),
        decreases out.len() - j,
    {
        let ghost before = res@;
        let c = copy_result(&out[j].1);
        res.push(c);
        assert(result_views(res@) =~= result_views(before).push(c.view()));
        assert(ov.take(j + 1).map_values(|p: (int, ResultView)| p.1) =~= ov.take(j as int).map_values(
            |p: (int, ResultView)| p.1,
        ).push(ov[j as int].1));
        j += 1;
    }
    assert(ov.take(out@.len() as int) == ov);
    res
}

/// Scores every hit against `query` and ranks the matches by descending
/// score, ties by `(store, path)`.
pub fn fuzzy_filter(candidates: &[SearchResult], query: &str) -> (r: Vec<SearchResult>)
    requires
        scorable(result_views(candidates@)),
    ensures
        result_views(r@) == ranked(scored(result_views(candidates@), query@)).map_values(
            |p: (int, ResultView)| p.1,
        ),
{
    let ghost cv = result_views(candidates@);
    let mut items: Vec<(u32, SearchResult)> = Vec::new();
    let mut i: usize = 0;
    assert(scored_views(items@) =~= scored(cv.take(0), query@));
    while i < candidates.len()
        invariant
            i <= candidates@.len(),
            cv == result_views(candidates@),
            scorable(cv),
            scored_views(items@) == scored(cv.take(i as int), query@),
        decreases candidates.len() - i,
    {
        let c = &candidates[i];
        assert(cv[i as int] == c.view());
        assert(cv.take(i + 1).drop_last() == cv.take(i as int));
        assert(cv.take(i + 1).last() == cv[i as int]);
        assert(bytes_of(cv[i as int].path).len() <= u32::MAX);
        assert(bytes_of(slug_haystack(cv[i as int])).len() <= u32::MAX);
        let path_score = score(query, c.path.as_str());
        let slug_score = if is_slug_like(c.store.as_str()) {
            let mut hay = copy_string(&c.store);
            push_str(&mut hay, "/");
            push_str(&mut hay, c.path.as_str());
            assert(hay@ == slug_haystack(c.view()));
            score(query, hay.as_str())
        } else {
            None
        };
        let best = match (path_score, slug_score) {
            (Some(a), Some(b)) => Some(if a >= b { a } else { b }),
            (Some(a), None) => Some(a),
            (None, Some(b)) => Some(b),
            (None, None) => None,
        };
        match best {
            Some(s) => {
                let ghost before = items@;
                items.push((s, copy_result(c)));
                assert(scored_views(items@) =~= scored_views(before).push((s as int, c.view())));
            },
            None => {},
        }
        i += 1;
    }
    assert(cv.take(candidates@.len() as int) == cv);
    rank_all(items)
}

/// Every hit with a score of zero, as the empty query ranks them.
pub open spec fn unscored(cands: Seq<ResultView>) -> Seq<(int, ResultView)> {
    cands.map_values(|r: ResultView| (0int, r))
}

/// The results of a search: with a blank query every hit, by
/// `(store, path)`; otherwise the fuzzy matches.
pub fn search_results(candidates: Vec<SearchResult>, query: &str) -> (r: Vec<SearchResult>)
    requires
        scorable(result_views(candidates@)),
    ensures
        trim(query@).len() == 0 ==> result_views(r@) == ranked(unscored(result_views(candidates@))).map_values(
            |p: (int, ResultView)| p.1,
        ),
        trim(query@).len() > 0 ==> result_views(r@) == ranked(
            scored(result_views(candidates@), query@),
        ).map_values(|p: (int, ResultView)| p.1),
{
    if trim_chars(&chars_of(query)).len() == 0 {
        let ghost cv = result_views(candidates@);
        let mut items: Vec<(u32, SearchResult)> = Vec::new();
        let mut rest = candidates;
        let ghost n = cv.len();
        let mut i: usize = 0;
        assert(n == rest.len());
        assert(result_views(rest@) == cv.skip(0));
        assert(scored_views(items@) =~= unscored(cv.take(0)));
        while rest.len() > 0
            invariant
                i + rest@.len() == n,
                n == cv.len(),
                n <= usize::MAX,
                result_views(rest@) == cv.skip(i as int),
                scored_views(items@) == unscored(cv.take(i as int)),
            decreases rest.len(),
        {
            let ghost before = rest@;
            let c = rest.remove(0);
            assert(result_views(before)[0] == c.view());
            assert(cv[i as int] == c.view());
            assert forall|k: int| 0 <= k < rest@.len() implies result_views(rest@)[k] == cv.skip(
                i + 1,
            )[k] by {
                assert(rest@[k] == before[k + 1]);
                assert(result_views(before)[k + 1] == cv.skip(i as int)[k + 1]);
            }
            assert(result_views(rest@) =~= cv.skip(i + 1));
            let ghost ib = items@;
            items.push((0, c));
            assert(scored_views(items@) =~= scored_views(ib).push((0int, cv[i as int])));
            assert(unscored(cv.take(i + 1)) =~= unscored(cv.take(i as int)).push((0int, cv[i as int])));
            i += 1;
        }
        assert(cv.take(n as int) == cv);
        rank_all(items)
    } else {
        fuzzy_filter(candidates.as_slice(), query)
    }
}

// ── Timestamps and ages ──────────────────────────────────────────────────

/// What chrono's `NaiveDate::parse_from_str(s, "%Y-%m-%d")` makes of `s`:
/// the Unix seconds of that day's midnight in UTC, or `None` when it does
/// not parse.
pub uninterp spec fn date_midnight(s: Seq<char>) -> Option<int>;

/// Parses a `YYYY-MM-DD` date with chrono (`NaiveDate::parse_from_str`) and
/// takes its midnight in UTC (`and_hms_opt(0, 0, 0)`, then
/// `DateTime::from_naive_utc_and_offset`): whole seconds, no nanoseconds.
#[verifier::external_body]
fn parse_date(s: &str) -> (r: Option<Timestamp>)
    ensures
        match r {
            Some(t) => date_midnight(s@) == Some(t.seconds as int) && t.nanos == 0,
            None => date_midnight(s@) is None,
        },
{
    match chrono::NaiveDate::parse_from_str(s, "%Y-%m-%d") {
        Ok(d) => match d.and_hms_opt(0, 0, 0) {
            Some(dt) => Some(
                Timestamp {
                    seconds: chrono::DateTime::<chrono::Utc>::from_naive_utc_and_offset(
                        dt,
                        chrono::Utc,
                    ).timestamp(),
                    nanos: 0,
                },
            ),
            None => None,
        },
        Err(_) => None,
    }
}

/// A timestamp read as RFC 3339, else as a plain `YYYY-MM-DD` date at
/// midnight UTC.
pub open spec fn ts_spec(s: Seq<char>) -> Option<Timestamp> {
    match rfc3339_parsed(s) {
        Ok(p) => Some(instant(p)),
        Err(_) => match date_midnight(s) {
            Some(secs) => Some(Timestamp { seconds: secs as i64, nanos: 0 }),
            None => None,
        },
    }
}

/// Parses an RFC 3339 timestamp or a plain `YYYY-MM-DD` date; `None` when
/// neither reads.
pub fn parse_ts(ts: &str) -> (r: Option<Timestamp>)
    ensures
        r == ts_spec(ts@),
{
    match parse_rfc3339(ts) {
        Ok(t) => Some(t),
        Err(_) => parse_date(ts),
    }
}

/// `n unit ago`, with the unit in the plural unless `n` is one.
pub open spec fn ago_spec(n: int, unit: Seq<char>) -> Seq<char> {
    decimal(n as nat) + " "@ + unit + plural_spec(n) + " ago"@
}

/// How long before `now` the instant `ts` lies, in the largest unit that
/// counts at least one: minutes, hours, days, months of 30 days, years of
/// 365 days; under a minute, and the future, are "just now".
pub open spec fn age_spec(now: Timestamp, ts: Timestamp) -> Seq<char> {
    let secs = whole_seconds(nanos_between(ts, now));
    let days = secs / 86400;
    if secs < 60 {
        "just now"@
    } else if secs / 60 < 60 {
        ago_spec(secs / 60, "minute"@)
    } else if secs / 3600 < 24 {
        ago_spec(secs / 3600, "hour"@)
    } else if days < 30 {
        ago_spec(days, "day"@)
    } else if days < 365 {
        ago_spec(days / 30, "month"@)
    } else {
        ago_spec(days / 365, "year"@)
    }
}

fn ago(n: u128, unit: &str) -> (r: String)
    ensures
        r@ == ago_spec(n as int, unit@),
{
    let mut m = string_of(&decimal_u128(n));
    push_str(&mut m, " ");
    push_str(&mut m, unit);
    push_str(&mut m, plural(n));
    push_str(&mut m, " ago");
    proof {
        reveal_strlit(" ");
        reveal_strlit(" ago");
    }
    m
}

/// The age of `ts` as of `now`, as a short phrase.
pub fn humanize_age(now: Timestamp, ts: Timestamp) -> (r: String)
    ensures
        r@ == age_spec(now, ts),
{
    let delta: i128 = (now.seconds as i128 - ts.seconds as i128) * 1_000_000_000 + (now.nanos as i128
        - ts.nanos as i128);
    assert(delta == nanos_between(ts, now));
    if delta < 60_000_000_000 {
        proof {
            reveal_strlit("just now");
        }
        return String::from_str("just now");
    }
    let secs = (delta / 1_000_000_000) as u128;
    assert(secs == whole_seconds(delta as int));
    let days = secs / 86400;
    proof {
        reveal_strlit("minute");
        reveal_strlit("hour");
        reveal_strlit("day");
        reveal_strlit("month");
        reveal_strlit("year");
    }
    if secs / 60 < 60 {
        ago(secs / 60, "minute")
    } else if secs / 3600 < 24 {
        ago(secs / 3600, "hour")
    } else if days < 30 {
        ago(days, "day")
    } else if days < 365 {
        ago(days / 30, "month")
    } else {
        ago(days / 365, "year")
    }
}

// ── The table ────────────────────────────────────────────────────────────

/// Text in cyan, as owo-colors writes `text.cyan()`.
pub open spec fn cyan(text: Seq<char>) -> Seq<char> {
    "\x1b[36m"@ + text + "\x1b[39m"@
}

/// Dimmed text, as owo-colors writes `text.dimmed()`.
pub open spec fn dimmed(text: Seq<char>) -> Seq<char> {
    "\x1b[2m"@ + text + "\x1b[0m"@
}

/// Paints text cyan with owo-colors (`OwoColorize::cyan`): the cyan code,
/// the text and the default-colour code, as its `Display` impl writes them.
#[verifier::external_body]
fn paint_cyan(text: &str) -> (r: String)
    ensures
        r@ == cyan(text@),
{
    format!("{}", text.cyan())
}

/// Dims text with owo-colors (`OwoColorize::dimmed`): the dim code, the
/// text and the reset code, as its `Display` impl writes them.
#[verifier::external_body]
fn paint_dimmed(text: &str) -> (r: String)
    ensures
        r@ == dimmed(text@),
{
    format!("{}", text.dimmed())
}

/// The UPDATED cell of a hit: the age of its update time, else of its
/// creation time; an em dash when that is missing or does not parse.
pub open spec fn updated_cell(r: ResultView, now: Timestamp) -> Seq<char> {
    let ts = match r.updated_at {
        Some(u) => Some(u),
        None => r.created_at,
    };
    match ts {
        Some(t) => match ts_spec(t) {
            Some(p) => age_spec(now, p),
            None => "—"@,
        },
        None => "—"@,
    }
}

/// A hit's cells: path, updated, description (empty when none), store.
pub open spec fn cells(r: ResultView, now: Timestamp) -> (Seq<char>, Seq<char>, Seq<char>, Seq<char>) {
    (
        r.path,
        updated_cell(r, now),
        match r.description {
            Some(d) => d,
            None => Seq::empty(),
        },
        r.store,
    )
}

/// The cells of every hit.
pub open spec fn table_rows(rs: Seq<ResultView>, now: Timestamp) -> Seq<
    (Seq<char>, Seq<char>, Seq<char>, Seq<char>),
> {
    rs.map_values(|r: ResultView| cells(r, now))
}

/// The widest entry of a column, in bytes (0 for none).
pub open spec fn widest_of(col: Seq<Seq<char>>) -> nat
    decreases col.len(),
{
    if col.len() == 0 {
        0
    } else {
        at_least(byte_width(col.last()), widest_of(col.drop_last()))
    }
}

/// The column widths: each at least as wide as its heading.
pub open spec fn column_widths(rows: Seq<(Seq<char>, Seq<char>, Seq<char>, Seq<char>)>) -> (
    nat,
    nat,
    nat,
) {
    (
        at_least(widest_of(rows.map_values(|x: (Seq<char>, Seq<char>, Seq<char>, Seq<char>)| x.0)), 4),
        at_least(widest_of(rows.map_values(|x: (Seq<char>, Seq<char>, Seq<char>, Seq<char>)| x.1)), 7),
        at_least(widest_of(rows.map_values(|x: (Seq<char>, Seq<char>, Seq<char>, Seq<char>)| x.2)), 11),
    )
}

/// One line of the table.
pub open spec fn row_line(
    row: (Seq<char>, Seq<char>, Seq<char>, Seq<char>),
    w: (nat, nat, nat),
    use_color: bool,
) -> Seq<char> {
    let p = pad_spec(row.0, w.0);
    let u = pad_spec(row.1, w.1);
    (if use_color {
        cyan(p) + "  "@ + dimmed(u)
    } else {
        p + "  "@ + u
    }) + "  "@ + pad_spec(row.2, w.2) + "  "@ + row.3 + "\n"@
}

/// The lines of the rows.
pub open spec fn row_lines(
    rows: Seq<(Seq<char>, Seq<char>, Seq<char>, Seq<char>)>,
    w: (nat, nat, nat),
    use_color: bool,
) -> Seq<char>
    decreases rows.len(),
{
    if rows.len() == 0 {
        Seq::empty()
    } else {
        row_lines(rows.drop_last(), w, use_color) + row_line(rows.last(), w, use_color)
    }
}

/// The table: a heading line `PATH  UPDATED  DESCRIPTION  STORE`, then
/// one line per hit, columns padded to their widest entry.
pub open spec fn table_spec(rs: Seq<ResultView>, use_color: bool, now: Timestamp) -> Seq<char> {
    let rows = table_rows(rs, now);
    let w = column_widths(rows);
    pad_spec("PATH"@, w.0) + "  "@ + pad_spec("UPDATED"@, w.1) + "  "@ + pad_spec(
        "DESCRIPTION"@,
        w.2,
    ) + "  STORE\n"@ + row_lines(rows, w, use_color)
}

/// The views of rows of cells.
pub open spec fn cell_views(v: Seq<(String, String, String, String)>) -> Seq<
    (Seq<char>, Seq<char>, Seq<char>, Seq<char>),
> {
    v.map_values(|c: (String, String, String, String)| (c.0@, c.1@, c.2@, c.3@))
}

/// The UPDATED cell of a hit.
fn updated_of(r: &SearchResult, now: Timestamp) -> (c: String)
    ensures
        c@ == updated_cell(r.view(), now),
{
    let ts = match &r.updated_at {
        Some(u) => Some(u),
        None => match &r.created_at {
            Some(c) => Some(c),
            None => None,
        },
    };
    proof {
        reveal_strlit("—");
    }
    match ts {
        Some(t) => match parse_ts(t.as_str()) {
            Some(p) => humanize_age(now, p),
            None => String::from_str("—"),
        },
        None => String::from_str("—"),
    }
}

/// The cells of every hit.
fn rows_of(results: &[SearchResult], now: Timestamp) -> (r: Vec<(String, String, String, String)>)
    ensures
        cell_views(r@) == table_rows(result_views(results@), now),
{
    let ghost rv = result_views(results@);
    let mut rows: Vec<(String, String, String, String)> = Vec::new();
    let mut i: usize = 0;
    while i < results.len()
        invariant
            i <= results@.len(),
            rv == result_views(results@),
            cell_views(rows@) == table_rows(rv.take(i as int), now),
        decreases results.len() - i,
    {
        let r = &results[i];
        assert(rv[i as int] == r.view());
        let desc = match &r.description {
            Some(d) => copy_string(d),
            None => String::new(),
        };
        let ghost before = rows@;
        rows.push((copy_string(&r.path), updated_of(r, now), desc, copy_string(&r.store)));
        assert(cell_views(rows@) =~= cell_views(before).push(cells(rv[i as int], now)));
        assert(table_rows(rv.take(i + 1), now) =~= table_rows(rv.take(i as int), now).push(
            cells(rv[i as int], now),
        ));
        i += 1;
    }
    assert(rv.take(results@.len() as int) == rv);
    rows
}

/// The widths of the three padded columns, each at least its heading's.
fn widths_of(rows: &Vec<(String, String, String, String)>) -> (r: (usize, usize, usize))
    ensures
        (r.0 as nat, r.1 as nat, r.2 as nat) == column_widths(cell_views(rows@)),
{
    let ghost cv = cell_views(rows@);
    let ghost c0 = cv.map_values(|x: (Seq<char>, Seq<char>, Seq<char>, Seq<char>)| x.0);
    let ghost c1 = cv.map_values(|x: (Seq<char>, Seq<char>, Seq<char>, Seq<char>)| x.1);
    let ghost c2 = cv.map_values(|x: (Seq<char>, Seq<char>, Seq<char>, Seq<char>)| x.2);
    let mut w0: usize = 0;
    let mut w1: usize = 0;
    let mut w2: usize = 0;
    let mut i: usize = 0;
    while i < rows.len()
        invariant
            i <= rows@.len(),
            cv == cell_views(rows@),
            c0 == cv.map_values(|x: (Seq<char>, Seq<char>, Seq<char>, Seq<char>)| x.0),
            c1 == cv.map_values(|x: (Seq<char>, Seq<char>, Seq<char>, Seq<char>)| x.1),
            c2 == cv.map_values(|x: (Seq<char>, Seq<char>, Seq<char>, Seq<char>)| x.2),
            w0 == widest_of(c0.take(i as int)),
            w1 == widest_of(c1.take(i as int)),
            w2 == widest_of(c2.take(i as int)),
        decreases rows.len() - i,
    {
        assert(c0.take(i + 1).drop_last() == c0.take(i as int));
        assert(c1.take(i + 1).drop_last() == c1.take(i as int));
        assert(c2.take(i + 1).drop_last() == c2.take(i as int));
        assert(c0[i as int] == rows@[i as int].0@);
        assert(c1[i as int] == rows@[i as int].1@);
        assert(c2[i as int] == rows@[i as int].2@);
        let l0 = rows[i].0.as_str().len();
        let l1 = rows[i].1.as_str().len();
        let l2 = rows[i].2.as_str().len();
        if l0 > w0 {
            w0 = l0;
        }
        if l1 > w1 {
            w1 = l1;
        }
        if l2 > w2 {
            w2 = l2;
        }
        i += 1;
    }
    assert(c0.take(rows@.len() as int) == c0);
    assert(c1.take(rows@.len() as int) == c1);
    assert(c2.take(rows@.len() as int) == c2);
    (if w0 > 4 {
        w0
    } else {
        4
    }, if w1 > 7 {
        w1
    } else {
        7
    }, if w2 > 11 {
        w2
    } else {
        11
    })
}

/// Renders the hits as a table: `PATH  UPDATED  DESCRIPTION  STORE`, the
/// path cyan and the age dimmed when `use_color` is set.
pub fn render_table(results: &[SearchResult], use_color: bool, now: Timestamp) -> (r: String)
    ensures
        r@ == table_spec(result_views(results@), use_color, now),
{
    let rows = rows_of(results, now);
    let ghost cv = cell_views(rows@);
    let (w0, w1, w2) = widths_of(&rows);
    let ghost w = (w0 as nat, w1 as nat, w2 as nat);
    let mut out = String::new();
    push_padded(&mut out, "PATH", w0);
    push_str(&mut out, "  ");
    push_padded(&mut out, "UPDATED", w1);
    push_str(&mut out, "  ");
    push_padded(&mut out, "DESCRIPTION", w2);
    push_str(&mut out, "  STORE\n");
    let ghost head = out@;
    assert(head == pad_spec("PATH"@, w.0) + "  "@ + pad_spec("UPDATED"@, w.1) + "  "@ + pad_spec(
        "DESCRIPTION"@,
        w.2,
    ) + "  STORE\n"@);
    let mut i: usize = 0;
    assert(row_lines(cv.take(0), w, use_color) =~= Seq::<char>::empty());
    assert(out@ =~= head + row_lines(cv.take(0), w, use_color));
    while i < rows.len()
        invariant
            i <= rows@.len(),
            cv == cell_views(rows@),
            w == (w0 as nat, w1 as nat, w2 as nat),
            out@ == head + row_lines(cv.take(i as int), w, use_color),
        decreases rows.len() - i,
    {
        let ghost before = out@;
        assert(cv[i as int] == (rows@[i as int].0@, rows@[i as int].1@, rows@[i as int].2@, rows@[
            i as int
        ].3@));
        if use_color {
            let mut p = String::new();
            push_padded(&mut p, rows[i].0.as_str(), w0);
            let mut u = String::new();
            push_padded(&mut u, rows[i].1.as_str(), w1);
            push_str(&mut out, paint_cyan(p.as_str()).as_str());
            push_str(&mut out, "  ");
            push_str(&mut out, paint_dimmed(u.as_str()).as_str());
        } else {
            push_padded(&mut out, rows[i].0.as_str(), w0);
            push_str(&mut out, "  ");
            push_padded(&mut out, rows[i].1.as_str(), w1);
        }
        push_str(&mut out, "  ");
        push_padded(&mut out, rows[i].2.as_str(), w2);
        push_str(&mut out, "  ");
        push_str(&mut out, rows[i].3.as_str());
        push_str(&mut out, "\n");
        assert(out@ =~= before + row_line(cv[i as int], w, use_color));
        assert(cv.take(i + 1).drop_last() == cv.take(i as int));
        assert(cv.take(i + 1).last() == cv[i as int]);
        i += 1;
    }
    assert(cv.take(rows@.len() as int) == cv);
    out
}

/// What is said when a search finds nothing.
pub open spec fn no_results_spec(query: Seq<char>) -> Seq<char> {
    "No results for "@ + debug_quoted(query)
        + ".\nTip: run `himitsu remote add <org/repo>` to register stores.\n"@
}

/// What is said when a search finds nothing: the query, quoted, and a tip.
pub fn no_results_message(query: &str) -> (r: String)
    ensures
        r@ == no_results_spec(query@),
{
    let mut m = String::from_str("No results for ");
    push_str(&mut m, quoted(query).as_str());
    push_str(&mut m, ".\nTip: run `himitsu remote add <org/repo>` to register stores.\n");
    m
}

// ── Stores ───────────────────────────────────────────────────────────────

/// Two paths name the same place, component by component.
pub open spec fn same_path(a: Seq<char>, b: Seq<char>) -> bool {
    within(a, b) && within(b, a)
}

/// The label of a store: its `org/repo` part below the stores directory,
/// backslashes turned to slashes; else the store path itself.
pub open spec fn label_spec(store: Seq<char>, stores_dir: Seq<char>) -> Seq<char> {
    let rel = replace(relative_part(store, stores_dir), seq!['\\'], seq!['/']);
    if within(store, stores_dir) && rel.len() > 0 {
        rel
    } else {
        store
    }
}

/// A readable label for a store checkout.
pub fn store_label(store: &str, stores_dir: &str) -> (r: String)
    ensures
        r@ == label_spec(store@, stores_dir@),
{
    if path_within(store, stores_dir) {
        let rel = relative_to(store, stores_dir);
        let s = replace_chars(&chars_of(rel.as_str()), &['\\'], &['/']);
        assert(seq!['\\'] =~= ['\\']@);
        assert(seq!['/'] =~= ['/']@);
        if s.len() > 0 {
            return string_of(&s);
        }
    }
    copy_string(&String::from_str(store))
}

/// The checkouts under the stores directory other than `explicit`, as
/// `(org/repo, path)`.
pub open spec fn checkout_stores(cks: Seq<(Seq<char>, Seq<char>, Seq<char>)>, explicit: Seq<char>) -> Seq<
    (Seq<char>, Seq<char>),
>
    decreases cks.len(),
{
    if cks.len() == 0 {
        Seq::empty()
    } else {
        let rest = checkout_stores(cks.drop_last(), explicit);
        let c = cks.last();
        if same_path(c.2, explicit) {
            rest
        } else {
            rest.push((c.0 + "/"@ + c.1, c.2))
        }
    }
}

/// The stores a search reads: the explicit store first when it is set and
/// exists, then every checkout but that one.
pub open spec fn stores_spec(
    explicit: Seq<char>,
    explicit_exists: bool,
    stores_dir: Seq<char>,
    cks: Seq<(Seq<char>, Seq<char>, Seq<char>)>,
) -> Seq<(Seq<char>, Seq<char>)> {
    (if explicit.len() > 0 && explicit_exists {
        seq![(label_spec(explicit, stores_dir), explicit)]
    } else {
        Seq::empty()
    }) + checkout_stores(cks, explicit)
}

/// The views of `(org, repo, path)` checkouts.
pub open spec fn triple_views(v: Seq<(String, String, String)>) -> Seq<(Seq<char>, Seq<char>, Seq<char>)> {
    v.map_values(|t: (String, String, String)| (t.0@, t.1@, t.2@))
}

/// The views of `(label, path)` stores.
pub open spec fn store_views(v: Seq<(String, String)>) -> Seq<(Seq<char>, Seq<char>)> {
    v.map_values(|t: (String, String)| (t.0@, t.1@))
}

/// The stores a search reads, each as `(label, path)`: the explicit store
/// (`--store`) first when it is set and exists, then each `org/repo`
/// checkout found under the stores directory, skipping the explicit one.
pub fn collect_stores(
    explicit: &str,
    explicit_exists: bool,
    stores_dir: &str,
    checkouts: &[(String, String, String)],
) -> (r: Vec<(String, String)>)
    ensures
        store_views(r@) == stores_spec(explicit@, explicit_exists, stores_dir@, triple_views(checkouts@)),
{
    let ghost tv = triple_views(checkouts@);
    let mut out: Vec<(String, String)> = Vec::new();
    if chars_of(explicit).len() > 0 && explicit_exists {
        out.push((store_label(explicit, stores_dir), copy_string(&String::from_str(explicit))));
    }
    let ghost head = store_views(out@);
    assert(head =~= (if explicit@.len() > 0 && explicit_exists {
        seq![(label_spec(explicit@, stores_dir@), explicit@)]
    } else {
        Seq::empty()
    }));
    let mut i: usize = 0;
    assert(store_views(out@) =~= head + checkout_stores(tv.take(0), explicit@));
    while i < checkouts.len()
        invariant
            i <= checkouts@.len(),
            tv == triple_views(checkouts@),
            store_views(out@) == head + checkout_stores(tv.take(i as int), explicit@),
        decreases checkouts.len() - i,
    {
        let c = &checkouts[i];
        assert(tv[i as int] == (c.0@, c.1@, c.2@));
        assert(tv.take(i + 1).drop_last() == tv.take(i as int));
        assert(tv.take(i + 1).last() == tv[i as int]);
        let same = path_within(c.2.as_str(), explicit) && path_within(explicit, c.2.as_str());
        if !same {
            let ghost before = out@;
            let mut label = copy_string(&c.0);
            push_str(&mut label, "/");
            push_str(&mut label, c.1.as_str());
            out.push((label, copy_string(&c.2)));
            assert(store_views(out@) =~= store_views(before).push((c.0@ + "/"@ + c.1@, c.2@)));
        }
        i += 1;
    }
    assert(tv.take(checkouts@.len() as int) == tv);
    out
}

// ── Laws of the fuzzy filter ─────────────────────────────────────────────

/// Every scored hit carries the best score of its result.
proof fn lemma_scored_scores(cands: Seq<ResultView>, query: Seq<char>)
    ensures
        forall|k: int|
            0 <= k < scored(cands, query).len() ==> best_score(
                (#[trigger] scored(cands, query)[k]).1,
                query,
            ) == Some(scored(cands, query)[k].0),
    decreases cands.len(),
{
    if cands.len() > 0 {
        lemma_scored_scores(cands.drop_last(), query);
        let rest = scored(cands.drop_last(), query);
        let r = scored(cands, query);
        assert forall|k: int| 0 <= k < r.len() implies best_score((#[trigger] r[k]).1, query) == Some(
            r[k].0,
        ) by {
            if k < rest.len() {
                assert(r[k] == rest[k]);
            }
        }
    }
}

/// The outcome of the fuzzy filter: hits ordered by descending score, hits
/// of equal score by store, then by path. Stated on the scores
/// themselves: a hit never follows one of strictly lower score, and among
/// equal scores a hit never follows one with a later store, or with the
/// same store and a later path.
pub proof fn lemma_filter_descending(cands: Seq<ResultView>, query: Seq<char>)
    ensures
        ({
            let out = ranked(scored(cands, query)).map_values(|p: (int, ResultView)| p.1);
            forall|i: int, j: int|
                0 <= i < j < out.len() ==> {
                    &&& best_score(#[trigger] out[i], query) is Some
                    &&& best_score(#[trigger] out[j], query) is Some
                    &&& best_score(out[i], query)->Some_0 >= best_score(out[j], query)->Some_0
                    &&& best_score(out[i], query) == best_score(out[j], query) ==> !key_lt(
                        out[j].store,
                        out[i].store,
                    ) && (out[j].store == out[i].store ==> !key_lt(out[j].path, out[i].path))
                }
        }),
{
    let sc = scored(cands, query);
    let rk = ranked(sc);
    let out = rk.map_values(|p: (int, ResultView)| p.1);
    lemma_scored_scores(cands, query);
    lemma_ranked_sorted(sc);
    lemma_ranked_permutes(sc);
    assert forall|k: int| 0 <= k < rk.len() implies best_score((#[trigger] rk[k]).1, query) == Some(
        rk[k].0,
    ) by {
        assert(rk.to_multiset().count(rk[k]) > 0) by {
            rk.to_multiset_ensures();
            assert(rk.contains(rk[k]));
        }
        assert(sc.contains(rk[k])) by {
            sc.to_multiset_ensures();
            assert(sc.to_multiset().count(rk[k]) > 0);
        }
        let m = choose|m: int| 0 <= m < sc.len() && sc[m] == rk[k];
        assert(best_score(sc[m].1, query) == Some(sc[m].0));
    }
    assert forall|i: int, j: int| 0 <= i < j < out.len() implies {
        &&& best_score(#[trigger] out[i], query) is Some
        &&& best_score(#[trigger] out[j], query) is Some
        &&& best_score(out[i], query)->Some_0 >= best_score(out[j], query)->Some_0
        &&& best_score(out[i], query) == best_score(out[j], query) ==> !key_lt(
            out[j].store,
            out[i].store,
        ) && (out[j].store == out[i].store ==> !key_lt(out[j].path, out[i].path))
    } by {
        assert(out[i] == rk[i].1 && out[j] == rk[j].1);
        assert(best_score(rk[i].1, query) == Some(rk[i].0));
        assert(best_score(rk[j].1, query) == Some(rk[j].0));
        assert(!rank_before(rk[j], rk[i]));
    }
}

/// The scored hits are exactly the candidates with a score.
proof fn lemma_scored_members(cands: Seq<ResultView>, query: Seq<char>)
    ensures
        forall|k: int|
            0 <= k < scored(cands, query).len() ==> cands.contains(
                (#[trigger] scored(cands, query)[k]).1,
            ),
        forall|c: int|
            0 <= c < cands.len() && best_score(#[trigger] cands[c], query) is Some ==> exists|k: int|
                0 <= k < scored(cands, query).len() && (#[trigger] scored(cands, query)[k]).1
                    == cands[c],
    decreases cands.len(),
{
    if cands.len() > 0 {
        let init = cands.drop_last();
        lemma_scored_members(init, query);
        let rest = scored(init, query);
        let r = scored(cands, query);
        assert forall|k: int| 0 <= k < r.len() implies cands.contains((#[trigger] r[k]).1) by {
            if k < rest.len() {
                assert(r[k] == rest[k]);
                let m = choose|m: int| 0 <= m < init.len() && init[m] == rest[k].1;
                assert(cands[m] == init[m]);
            } else {
                assert(r[k].1 == cands[cands.len() - 1]);
            }
        }
        assert forall|c: int|
            0 <= c < cands.len() && best_score(#[trigger] cands[c], query) is Some implies exists|k: int|
            0 <= k < r.len() && (#[trigger] r[k]).1 == cands[c] by {
            if c < init.len() {
                assert(init[c] == cands[c]);
                assert(best_score(init[c], query) is Some);
                let k = choose|k: int| 0 <= k < rest.len() && (#[trigger] rest[k]).1 == init[c];
                assert(r[k] == rest[k]);
            } else {
                assert(r[rest.len() as int].1 == cands[c]);
            }
        }
    }
}

/// The fuzzy filter keeps exactly the candidates that score: every hit is
/// a candidate with a score, and every candidate with a score is a hit.
pub proof fn lemma_filter_keeps_scoring(cands: Seq<ResultView>, query: Seq<char>)
    ensures
        ({
            let out = ranked(scored(cands, query)).map_values(|p: (int, ResultView)| p.1);
            &&& forall|i: int|
                0 <= i < out.len() ==> cands.contains(#[trigger] out[i]) && best_score(out[i], query) is Some
            &&& forall|c: int|
                0 <= c < cands.len() && best_score(#[trigger] cands[c], query) is Some ==> out.contains(cands[c])
        }),
{
    let sc = scored(cands, query);
    let rk = ranked(sc);
    let out = rk.map_values(|p: (int, ResultView)| p.1);
    lemma_scored_scores(cands, query);
    lemma_scored_members(cands, query);
    lemma_ranked_permutes(sc);
    assert forall|i: int| 0 <= i < out.len() implies cands.contains(#[trigger] out[i]) && best_score(
        out[i],
        query,
    ) is Some by {
        assert(out[i] == rk[i].1);
        assert(sc.contains(rk[i])) by {
            rk.to_multiset_ensures();
            sc.to_multiset_ensures();
            assert(rk.contains(rk[i]));
            assert(sc.to_multiset().count(rk[i]) > 0);
        }
        let m = choose|m: int| 0 <= m < sc.len() && sc[m] == rk[i];
        assert(best_score(sc[m].1, query) == Some(sc[m].0));
        assert(cands.contains(sc[m].1));
    }
    assert forall|c: int|
        0 <= c < cands.len() && best_score(#[trigger] cands[c], query) is Some implies out.contains(
        cands[c],
    ) by {
        let k = choose|k: int| 0 <= k < sc.len() && (#[trigger] sc[k]).1 == cands[c];
        assert(rk.contains(sc[k])) by {
            rk.to_multiset_ensures();
            sc.to_multiset_ensures();
            assert(sc.contains(sc[k]));
            assert(rk.to_multiset().count(sc[k]) > 0);
        }
        let m = choose|m: int| 0 <= m < rk.len() && rk[m] == sc[k];
        assert(out[m] == cands[c]);
    }
}

/// A hit's score is the better of its path score and, when the store reads
/// as a slug, its `store/path` score: at least each of them, and one of
/// them.
pub proof fn lemma_best_score_is_max(r: ResultView, query: Seq<char>)
    ensures
        fuzzy_score(query, bytes_of(r.path)) matches Some(a) ==> (best_score(r, query) matches Some(
            b,
        ) && b >= a),
        slug_like(r.store) ==> (fuzzy_score(query, bytes_of(slug_haystack(r))) matches Some(a) ==> (
        best_score(r, query) matches Some(b) && b >= a)),
        best_score(r, query) matches Some(b) ==> (fuzzy_score(query, bytes_of(r.path)) == Some(b) || (
        slug_like(r.store) && fuzzy_score(query, bytes_of(slug_haystack(r))) == Some(b))),
        best_score(r, query) is None <==> (fuzzy_score(query, bytes_of(r.path)) is None && (
        slug_like(r.store) ==> fuzzy_score(query, bytes_of(slug_haystack(r))) is None)),
{
}

/// With a blank query every candidate is listed, ordered by store and then
/// by path: the listing holds the candidates (each as often as given), and
/// no entry follows one with a later store, or the same store and a later
/// path.
pub proof fn lemma_listing_by_store_then_path(cands: Seq<ResultView>)
    ensures
        ({
            let out = ranked(unscored(cands)).map_values(|p: (int, ResultView)| p.1);
            &&& out.to_multiset() == cands.to_multiset()
            &&& forall|i: int, j: int|
                0 <= i < j < out.len() ==> !key_lt((#[trigger] out[j]).store, (#[trigger] out[i]).store)
                    && (out[j].store == out[i].store ==> !key_lt(out[j].path, out[i].path))
        }),
{
    let us = unscored(cands);
    let rk = ranked(us);
    let out = rk.map_values(|p: (int, ResultView)| p.1);
    lemma_ranked_sorted(us);
    lemma_ranked_permutes(us);
    assert forall|k: int| 0 <= k < rk.len() implies (#[trigger] rk[k]).0 == 0 by {
        assert(rk.to_multiset().count(rk[k]) > 0) by {
            rk.to_multiset_ensures();
            assert(rk.contains(rk[k]));
        }
        assert(us.contains(rk[k])) by {
            us.to_multiset_ensures();
        }
    }
    assert forall|i: int, j: int| 0 <= i < j < out.len() implies !key_lt(
        (#[trigger] out[j]).store,
        (#[trigger] out[i]).store,
    ) && (out[j].store == out[i].store ==> !key_lt(out[j].path, out[i].path)) by {
        assert(out[i] == rk[i].1 && out[j] == rk[j].1);
        assert(rk[i].0 == 0 && rk[j].0 == 0);
        assert(!rank_before(rk[j], rk[i]));
    }
    let f = |p: (int, ResultView)| p.1;
    assert(us.map_values(f) =~= cands);
    assert(out.to_multiset() == cands.to_multiset()) by {
        lemma_map_preserves_multiset(rk, us, f);
    }
}

/// Mapping two lists with the same items gives lists with the same items.
proof fn lemma_map_preserves_multiset(
    a: Seq<(int, ResultView)>,
    b: Seq<(int, ResultView)>,
    f: spec_fn((int, ResultView)) -> ResultView,
)
    requires
        a.to_multiset() == b.to_multiset(),
    ensures
        a.map_values(f).to_multiset() == b.map_values(f).to_multiset(),
    decreases a.len(),
{
    broadcast use vstd::seq_lib::group_to_multiset_ensures;

    if a.len() == 0 {
        assert(a.to_multiset().len() == a.len());
        assert(b.to_multiset().len() == b.len());
        assert(b.len() == 0);
        assert(a.map_values(f) =~= Seq::<ResultView>::empty());
        assert(b.map_values(f) =~= Seq::<ResultView>::empty());
    } else {
        let x = a.last();
        assert(a.to_multiset().count(x) > 0) by {
            assert(a.contains(x)) by {
                assert(a[a.len() - 1] == x);
            }
        }
        assert(b.contains(x));
        let i = choose|i: int| 0 <= i < b.len() && b[i] == x;
        let b2 = b.remove(i);
        assert(a.drop_last().to_multiset() == a.to_multiset().remove(x)) by {
            assert(a.drop_last().push(x) =~= a);
        }
        assert(b2.to_multiset() == b.to_multiset().remove(x));
        lemma_map_preserves_multiset(a.drop_last(), b2, f);
        assert(a.map_values(f) =~= a.drop_last().map_values(f).push(f(x)));
        assert(b.map_values(f).remove(i) =~= b2.map_values(f));
        assert(b.map_values(f)[i] == f(x));
        assert(b.map_values(f).remove(i).to_multiset() == b.map_values(f).to_multiset().remove(f(x)));
        assert(b.map_values(f).to_multiset().count(f(x)) > 0) by {
            assert(b.map_values(f).contains(f(x)));
        }
    }
}

} // verus!
