//! The cache of `envs:` presets: how a preset's entries are laid out as
//! rows and read back, how a config file's bytes are fingerprinted, and
//! when the rows already cached for a file are current.
use vstd::prelude::*;

use sha2::Digest;

use crate::env_dsl::{EntryView, EnvEntry};
use crate::error::HimitsuError;
use crate::text::{chars_of, copy_string, push_char, push_str, slice_eq, views};

verus! {

// ── Scopes ───────────────────────────────────────────────────────────────

/// Which config file a cached preset map comes from.
#[derive(Debug, Clone, Copy, PartialEq, Eq, Structural)]
pub enum Scope {
    /// A project config, found walking up from the working directory.
    Project,
    /// The global config.
    Global,
}

impl Scope {
    /// The name a scope is stored under.
    pub open spec fn name_spec(self) -> Seq<char> {
        match self {
            Scope::Project => "project"@,
            Scope::Global => "global"@,
        }
    }

    /// The name a scope is stored under: `project` or `global`.
    pub fn as_str(self) -> (r: &'static str)
        ensures
            r@ == self.name_spec(),
    {
        match self {
            Scope::Project => "project",
            Scope::Global => "global",
        }
    }

    /// The scope a stored name stands for, or the message refusing it.
    pub open spec fn parse_spec(s: Seq<char>) -> Result<Scope, Seq<char>> {
        if s == "project"@ {
            Ok(Scope::Project)
        } else if s == "global"@ {
            Ok(Scope::Global)
        } else {
            Err("invalid scope '"@ + s + "' in env_cache"@)
        }
    }

    /// Reads a stored scope name; any other name is an index error.
    pub fn from_str(s: &str) -> (r: Result<Scope, HimitsuError>)
        ensures
            match Scope::parse_spec(s@) {
                Ok(sc) => r == Ok::<Scope, HimitsuError>(sc),
                Err(m) => r matches Err(e) && e is Index && e.detail() == m,
            },
    {
        proof {
            reveal_strlit("project");
            reveal_strlit("global");
        }
        let cs = chars_of(s);
        if slice_eq(&cs, &chars_of("project")) {
            Ok(Scope::Project)
        } else if slice_eq(&cs, &chars_of("global")) {
            Ok(Scope::Global)
        } else {
            let mut m = String::from_str("invalid scope '");
            push_str(&mut m, s);
            push_str(&mut m, "' in env_cache");
            Err(HimitsuError::Index(m))
        }
    }
}

/// A scope read back from its stored name is the scope itself.
pub proof fn lemma_scope_round_trip(s: Scope)
    ensures
        Scope::parse_spec(s.name_spec()) == Ok::<Scope, Seq<char>>(s),
{
    reveal_strlit("project");
    reveal_strlit("global");
    assert("project"@ != "global"@) by {
        assert("project"@.len() != "global"@.len());
    }
}

// ── Rows ─────────────────────────────────────────────────────────────────

/// One cached entry: its kind, its value (path or tag) and, for the
/// aliased kinds, the key it binds.
#[derive(Debug)]
pub struct EntryRow {
    pub kind: String,
    pub value: String,
    pub alias_key: Option<String>,
}

/// A row as plain values.
pub open spec fn row_view(r: EntryRow) -> (Seq<char>, Seq<char>, Option<Seq<char>>) {
    (
        r.kind@,
        r.value@,
        match r.alias_key {
            Some(k) => Some(k@),
            None => None,
        },
    )
}

/// The row an entry is cached as: `single`, `glob` and `tag` carry their
/// path or tag; `alias` and `alias_tag` carry the path or tag and the key.
pub open spec fn row_spec(e: EntryView) -> (Seq<char>, Seq<char>, Option<Seq<char>>) {
    match e {
        EntryView::Single(p) => ("single"@, p, None),
        EntryView::Glob(p) => ("glob"@, p, None),
        EntryView::Alias(k, p) => ("alias"@, p, Some(k)),
        EntryView::Tag(t) => ("tag"@, t, None),
        EntryView::AliasTag(k, t) => ("alias_tag"@, t, Some(k)),
    }
}

/// The row of an entry.
pub fn entry_row(e: &EnvEntry) -> (r: EntryRow)
    ensures
        row_view(r) == row_spec(e.view()),
{
    match e {
        EnvEntry::Single(p) => EntryRow {
            kind: String::from_str("single"),
            value: copy_string(p),
            alias_key: None,
        },
        EnvEntry::Glob(p) => EntryRow {
            kind: String::from_str("glob"),
            value: copy_string(p),
            alias_key: None,
        },
        EnvEntry::Alias { key, path } => EntryRow {
            kind: String::from_str("alias"),
            value: copy_string(path),
            alias_key: Some(copy_string(key)),
        },
        EnvEntry::Tag(t) => EntryRow {
            kind: String::from_str("tag"),
            value: copy_string(t),
            alias_key: None,
        },
        EnvEntry::AliasTag { key, tag } => EntryRow {
            kind: String::from_str("alias_tag"),
            value: copy_string(tag),
            alias_key: Some(copy_string(key)),
        },
    }
}

/// The entry a row stands for, or the message refusing it: an aliased kind
/// needs its key, and no other kind is known.
pub open spec fn entry_spec(kind: Seq<char>, value: Seq<char>, key: Option<Seq<char>>) -> Result<
    EntryView,
    Seq<char>,
> {
    if kind == "single"@ {
        Ok(EntryView::Single(value))
    } else if kind == "glob"@ {
        Ok(EntryView::Glob(value))
    } else if kind == "alias"@ {
        match key {
            Some(k) => Ok(EntryView::Alias(k, value)),
            None => Err("alias row missing alias_key"@),
        }
    } else if kind == "tag"@ {
        Ok(EntryView::Tag(value))
    } else if kind == "alias_tag"@ {
        match key {
            Some(k) => Ok(EntryView::AliasTag(k, value)),
            None => Err("alias_tag row missing alias_key"@),
        }
    } else {
        Err("unknown env_entry kind '"@ + kind + "'"@)
    }
}

/// Reads a row back as an entry; a malformed row is an index error.
pub fn row_entry(row: &EntryRow) -> (r: Result<EnvEntry, HimitsuError>)
    ensures
        match entry_spec(row.kind@, row.value@, row_view(*row).2) {
            Ok(v) => r matches Ok(e) && e.view() == v,
            Err(m) => r matches Err(e) && e is Index && e.detail() == m,
        },
{
    proof {
        reveal_strlit("single");
        reveal_strlit("glob");
        reveal_strlit("alias");
        reveal_strlit("tag");
        reveal_strlit("alias_tag");
    }
    let k = chars_of(row.kind.as_str());
    let value = copy_string(&row.value);
    if slice_eq(&k, &chars_of("single")) {
        Ok(EnvEntry::Single(value))
    } else if slice_eq(&k, &chars_of("glob")) {
        Ok(EnvEntry::Glob(value))
    } else if slice_eq(&k, &chars_of("alias")) {
        match &row.alias_key {
            Some(key) => Ok(EnvEntry::Alias { key: copy_string(key), path: value }),
            None => Err(HimitsuError::Index(String::from_str("alias row missing alias_key"))),
        }
    } else if slice_eq(&k, &chars_of("tag")) {
        Ok(EnvEntry::Tag(value))
    } else if slice_eq(&k, &chars_of("alias_tag")) {
        match &row.alias_key {
            Some(key) => Ok(EnvEntry::AliasTag { key: copy_string(key), tag: value }),
            None => Err(HimitsuError::Index(String::from_str("alias_tag row missing alias_key"))),
        }
    } else {
        let mut m = String::from_str("unknown env_entry kind '");
        push_str(&mut m, row.kind.as_str());
        push_str(&mut m, "'");
        Err(HimitsuError::Index(m))
    }
}

/// An entry read back from its row is the entry itself.
pub proof fn lemma_row_round_trip(e: EntryView)
    ensures
        entry_spec(row_spec(e).0, row_spec(e).1, row_spec(e).2) == Ok::<EntryView, Seq<char>>(e),
{
    reveal_strlit("single");
    reveal_strlit("glob");
    reveal_strlit("alias");
    reveal_strlit("tag");
    reveal_strlit("alias_tag");
    assert("glob"@ != "single"@) by {
        assert("glob"@[0] != "single"@[0]);
    }
    assert("alias"@ != "single"@) by {
        assert("alias"@[0] != "single"@[0]);
    }
    assert("alias"@ != "glob"@) by {
        assert("alias"@[0] != "glob"@[0]);
    }
    assert("tag"@ != "single"@) by {
        assert("tag"@[0] != "single"@[0]);
    }
    assert("tag"@ != "glob"@) by {
        assert("tag"@[0] != "glob"@[0]);
    }
    assert("tag"@ != "alias"@) by {
        assert("tag"@[0] != "alias"@[0]);
    }
    assert("alias_tag"@ != "single"@) by {
        assert("alias_tag"@[0] != "single"@[0]);
    }
    assert("alias_tag"@ != "glob"@) by {
        assert("alias_tag"@[0] != "glob"@[0]);
    }
    assert("alias_tag"@ != "alias"@) by {
        assert("alias_tag"@.len() != "alias"@.len());
    }
    assert("alias_tag"@ != "tag"@) by {
        assert("alias_tag"@[0] != "tag"@[0]);
    }
}

/// The rows of a preset's entries, in their order (a row's position is its
/// index).
pub open spec fn rows_spec(entries: Seq<EntryView>) -> Seq<(Seq<char>, Seq<char>, Option<Seq<char>>)> {
    entries.map_values(|e: EntryView| row_spec(e))
}

/// The views of a list of entries.
pub open spec fn entry_views(v: Seq<EnvEntry>) -> Seq<EntryView> {
    v.map_values(|e: EnvEntry| e.view())
}

/// The views of a list of rows.
pub open spec fn row_views(v: Seq<EntryRow>) -> Seq<(Seq<char>, Seq<char>, Option<Seq<char>>)> {
    v.map_values(|r: EntryRow| row_view(r))
}

/// The rows a preset's entries are cached as, in order.
pub fn entry_rows(entries: &[EnvEntry]) -> (r: Vec<EntryRow>)
    ensures
        row_views(r@) == rows_spec(entry_views(entries@)),
{
    let ghost ev = entry_views(entries@);
    let mut out: Vec<EntryRow> = Vec::new();
    let mut i: usize = 0;
    while i < entries.len()
        invariant
            i <= entries@.len(),
            ev == entry_views(entries@),
            row_views(out@) == rows_spec(ev.take(i as int)),
        decreases entries.len() - i,
    {
        assert(ev[i as int] == entries@[i as int].view());
        let ghost before = out@;
        out.push(entry_row(&entries[i]));
        assert(row_views(out@) =~= row_views(before).push(row_spec(ev[i as int])));
        assert(rows_spec(ev.take(i + 1)) =~= rows_spec(ev.take(i as int)).push(row_spec(ev[i as int])));
        i += 1;
    }
    assert(ev.take(entries@.len() as int) == ev);
    out
}

/// The entries of rows read in order: the first malformed row's message,
/// else every entry.
pub open spec fn entries_spec(rows: Seq<(Seq<char>, Seq<char>, Option<Seq<char>>)>) -> Result<
    Seq<EntryView>,
    Seq<char>,
>
    decreases rows.len(),
{
    if rows.len() == 0 {
        Ok(Seq::empty())
    } else {
        match entries_spec(rows.drop_last()) {
            Err(m) => Err(m),
            Ok(es) => match entry_spec(rows.last().0, rows.last().1, rows.last().2) {
                Ok(e) => Ok(es.push(e)),
                Err(m) => Err(m),
            },
        }
    }
}

/// Reads a preset's rows, in position order, back as entries.
pub fn read_entries(rows: &[EntryRow]) -> (r: Result<Vec<EnvEntry>, HimitsuError>)
    ensures
        match entries_spec(row_views(rows@)) {
            Ok(es) => r matches Ok(v) && entry_views(v@) == es,
            Err(m) => r matches Err(e) && e is Index && e.detail() == m,
        },
{
    let ghost rv = row_views(rows@);
    let mut out: Vec<EnvEntry> = Vec::new();
    let mut i: usize = 0;
    assert(rv.take(0) =~= Seq::<(Seq<char>, Seq<char>, Option<Seq<char>>)>::empty());
    assert(entry_views(out@) =~= Seq::<EntryView>::empty());
    while i < rows.len()
        invariant
            i <= rows@.len(),
            rv == row_views(rows@),
            entries_spec(rv.take(i as int)) == Ok::<Seq<EntryView>, Seq<char>>(entry_views(out@)),
        decreases rows.len() - i,
    {
        assert(rv[i as int] == row_view(rows@[i as int]));
        assert(rv.take(i + 1).drop_last() == rv.take(i as int));
        assert(rv.take(i + 1).last() == rv[i as int]);
        match row_entry(&rows[i]) {
            Ok(e) => {
                let ghost before = out@;
                out.push(e);
                assert(entry_views(out@) =~= entry_views(before).push(e.view()));
            },
            Err(err) => {
                proof {
                    lemma_entries_err_sticks(rv, i as int + 1);
                }
                return Err(err);
            },
        }
        i += 1;
    }
    assert(rv.take(rows@.len() as int) == rv);
    Ok(out)
}

/// Once a prefix of the rows fails, every longer prefix fails with the same
/// message.
proof fn lemma_entries_err_sticks(rows: Seq<(Seq<char>, Seq<char>, Option<Seq<char>>)>, k: int)
    requires
        0 <= k <= rows.len(),
        entries_spec(rows.take(k)) is Err,
    ensures
        entries_spec(rows) == entries_spec(rows.take(k)),
    decreases rows.len() - k,
{
    if k < rows.len() {
        assert(rows.take(k + 1).drop_last() == rows.take(k));
        lemma_entries_err_sticks(rows, k + 1);
    } else {
        assert(rows.take(k) == rows);
    }
}

/// Entries cached as rows read back as the same entries.
pub proof fn lemma_rows_read_back(entries: Seq<EntryView>)
    ensures
        entries_spec(rows_spec(entries)) == Ok::<Seq<EntryView>, Seq<char>>(entries),
    decreases entries.len(),
{
    if entries.len() > 0 {
        lemma_rows_read_back(entries.drop_last());
        lemma_row_round_trip(entries.last());
        assert(rows_spec(entries).drop_last() =~= rows_spec(entries.drop_last()));
        assert(entries.drop_last().push(entries.last()) =~= entries);
    } else {
        assert(rows_spec(entries) =~= Seq::empty());
        assert(entries =~= Seq::empty());
    }
}

// ── Fingerprints ─────────────────────────────────────────────────────────

/// The SHA-256 digest of `bytes`.
pub uninterp spec fn sha256(bytes: Seq<u8>) -> Seq<u8>;

/// Hashes bytes with the sha2 crate's `Sha256::digest`; the digest is 32
/// bytes long.
#[verifier::external_body]
fn sha256_digest(bytes: &[u8]) -> (r: Vec<u8>)
    ensures
        r@ == sha256(bytes@),
        r@.len() == 32,
{
    sha2::Sha256::digest(bytes).to_vec()
}

/// A lowercase hex digit.
pub open spec fn hex_digit(n: int) -> char {
    if n < 10 {
        (48 + n) as char
    } else {
        (87 + n) as char
    }
}

/// Bytes as lowercase hex, two digits each.
pub open spec fn hex_of(bytes: Seq<u8>) -> Seq<char>
    decreases bytes.len(),
{
    if bytes.len() == 0 {
        Seq::empty()
    } else {
        hex_of(bytes.drop_last()) + seq![
            hex_digit(bytes.last() as int / 16),
            hex_digit(bytes.last() as int % 16),
        ]
    }
}

fn hex_char(n: u8) -> (c: char)
    requires
        n < 16,
    ensures
        c == hex_digit(n as int),
{
    if n < 10 {
        (48 + n) as char
    } else {
        (87 + n) as char
    }
}

/// The fingerprint of a config file's bytes: their SHA-256 digest in
/// lowercase hex (64 digits).
pub fn hash_bytes(bytes: &[u8]) -> (r: String)
    ensures
        r@ == hex_of(sha256(bytes@)),
        r@.len() == 64,
{
    let d = sha256_digest(bytes);
    let mut s = String::new();
    let mut i: usize = 0;
    assert(d@.take(0) =~= Seq::<u8>::empty());
    while i < d.len()
        invariant
            i <= d@.len(),
            d@.len() == 32,
            s@ == hex_of(d@.take(i as int)),
            s@.len() == 2 * i,
        decreases d.len() - i,
    {
        assert(d@.take(i + 1).drop_last() == d@.take(i as int));
        assert(d@.take(i + 1).last() == d@[i as int]);
        let b = d[i];
        push_char(&mut s, hex_char(b / 16));
        push_char(&mut s, hex_char(b % 16));
        i += 1;
    }
    assert(d@.take(32) == d@);
    s
}

// ── Freshness ────────────────────────────────────────────────────────────

/// The cached rows of a file are current: with none cached, when there is
/// nothing to cache; otherwise when they all carry the new fingerprint and
/// name exactly the labels to cache.
pub open spec fn cache_current(
    hashes: Seq<Seq<char>>,
    stored: Seq<Seq<char>>,
    new_hash: Seq<char>,
    labels: Seq<Seq<char>>,
) -> bool {
    if hashes.len() == 0 {
        labels.len() == 0
    } else {
        hashes.len() == 1 && hashes[0] == new_hash && stored.to_set() == labels.to_set()
    }
}

/// Whether every entry of `a` occurs in `b`.
fn all_in(a: &[String], b: &[String]) -> (r: bool)
    ensures
        r == (forall|i: int| 0 <= i < a@.len() ==> #[trigger] views(b@).contains(views(a@)[i])),
{
    let ghost av = views(a@);
    let ghost bv = views(b@);
    let mut i: usize = 0;
    while i < a.len()
        invariant
            i <= a@.len(),
            av == views(a@),
            bv == views(b@),
            forall|k: int| 0 <= k < i ==> #[trigger] bv.contains(av[k]),
        decreases a.len() - i,
    {
        assert(av[i as int] == a@[i as int]@);
        let mut found = false;
        let mut j: usize = 0;
        while j < b.len()
            invariant
                i < a@.len(),
                av == views(a@),
                j <= b@.len(),
                bv == views(b@),
                av[i as int] == a@[i as int]@,
                found ==> bv.contains(av[i as int]),
                !found ==> forall|k: int| 0 <= k < j ==> bv[k] != av[i as int],
            decreases b.len() - j,
        {
            assert(bv[j as int] == b@[j as int]@);
            if slice_eq(&chars_of(a[i].as_str()), &chars_of(b[j].as_str())) {
                found = true;
            }
            j += 1;
        }
        if !found {
            assert(!bv.contains(av[i as int]));
            return false;
        }
        i += 1;
    }
    true
}

/// Whether the rows cached for a file (their distinct fingerprints and
/// their labels) are current for the new fingerprint and labels, so that a
/// refresh can leave them be.
pub fn cache_matches(hashes: &[String], stored: &[String], new_hash: &str, labels: &[String]) -> (r: bool)
    ensures
        r == cache_current(views(hashes@), views(stored@), new_hash@, views(labels@)),
{
    if hashes.len() == 0 {
        return labels.len() == 0;
    }
    if hashes.len() != 1 {
        return false;
    }
    assert(views(hashes@)[0] == hashes@[0]@);
    if !slice_eq(&chars_of(hashes[0].as_str()), &chars_of(new_hash)) {
        return false;
    }
    let ghost sv = views(stored@);
    let ghost lv = views(labels@);
    let fwd = all_in(stored, labels);
    let back = all_in(labels, stored);
    if fwd && back {
        assert(sv.to_set() =~= lv.to_set()) by {
            assert forall|x: Seq<char>| sv.to_set().contains(x) implies lv.to_set().contains(x) by {
                let k = choose|k: int| 0 <= k < sv.len() && sv[k] == x;
                assert(lv.contains(sv[k]));
            }
            assert forall|x: Seq<char>| lv.to_set().contains(x) implies sv.to_set().contains(x) by {
                let k = choose|k: int| 0 <= k < lv.len() && lv[k] == x;
                assert(sv.contains(lv[k]));
            }
        }
        true
    } else {
        proof {
            if fwd {
                let k = choose|k: int| 0 <= k < lv.len() && !#[trigger] sv.contains(lv[k]);
                assert(lv.to_set().contains(lv[k]));
                assert(!sv.to_set().contains(lv[k]));
            } else {
                let k = choose|k: int| 0 <= k < sv.len() && !#[trigger] lv.contains(sv[k]);
                assert(sv.to_set().contains(sv[k]));
                assert(!lv.to_set().contains(sv[k]));
            }
        }
        false
    }
}

/// A cached preset read back: its label, scope and entries in order.
#[derive(Debug)]
pub struct CachedEnv {
    pub label: String,
    pub scope: Scope,
    pub entries: Vec<EnvEntry>,
}

} // verus!
