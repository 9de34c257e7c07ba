//! A string-keyed map kept sorted by key, so that walking it is
//! deterministic: entries come out in ascending code-point order of their
//! keys, however they were inserted.
//!
//! The map is an association list. Its contracts speak of the list of
//! `(key, value)` pairs through `entries_view`, and of the spec functions
//! `lookup`, `insert_sorted` and `remove_key` on such lists.
use vstd::prelude::*;

use crate::text::{chars_of, copy_string};

verus! {

// ── Key order ────────────────────────────────────────────────────────────

/// Lexicographic order on character sequences by code point; this is the
/// order `String`'s `Ord` gives, since UTF-8 preserves code-point order.
pub open spec fn key_lt(a: Seq<char>, b: Seq<char>) -> bool
    decreases a.len(),
{
    if a.len() == 0 {
        b.len() > 0
    } else if b.len() == 0 {
        false
    } else if a[0] < b[0] {
        true
    } else if a[0] == b[0] {
        key_lt(a.drop_first(), b.drop_first())
    } else {
        false
    }
}

/// No key is below itself.
pub proof fn lemma_key_lt_irreflexive(a: Seq<char>)
    ensures
        !key_lt(a, a),
    decreases a.len(),
{
    if a.len() > 0 {
        lemma_key_lt_irreflexive(a.drop_first());
    }
}

/// The order is transitive.
pub proof fn lemma_key_lt_transitive(a: Seq<char>, b: Seq<char>, c: Seq<char>)
    requires
        key_lt(a, b),
        key_lt(b, c),
    ensures
        key_lt(a, c),
    decreases a.len(),
{
    if a.len() > 0 && b.len() > 0 && c.len() > 0 {
        if a[0] == b[0] && b[0] == c[0] {
            lemma_key_lt_transitive(a.drop_first(), b.drop_first(), c.drop_first());
        }
    }
}

/// Two different keys are ordered one way or the other.
pub proof fn lemma_key_lt_total(a: Seq<char>, b: Seq<char>)
    requires
        a != b,
    ensures
        key_lt(a, b) || key_lt(b, a),
    decreases a.len(),
{
    if a.len() > 0 && b.len() > 0 {
        if a[0] == b[0] {
            if a.drop_first() == b.drop_first() {
                assert(a == seq![a[0]] + a.drop_first());
                assert(b == seq![b[0]] + b.drop_first());
            }
            lemma_key_lt_total(a.drop_first(), b.drop_first());
        } else {
        }
    } else if a.len() == 0 && b.len() == 0 {
        assert(a == b);
    }
}

/// The order is asymmetric.
pub proof fn lemma_key_lt_asymmetric(a: Seq<char>, b: Seq<char>)
    requires
        key_lt(a, b),
    ensures
        !key_lt(b, a),
{
    if key_lt(b, a) {
        lemma_key_lt_transitive(a, b, a);
        lemma_key_lt_irreflexive(a);
    }
}

/// Compares two keys.
pub fn key_less(a: &[char], b: &[char]) -> (r: bool)
    ensures
        r == key_lt(a@, b@),
{
    let mut i: usize = 0;
    assert(a@.skip(0) == a@ && b@.skip(0) == b@);
    while i < a.len() && i < b.len() && a[i] == b[i]
        invariant
            i <= a.len(),
            i <= b.len(),
            key_lt(a@, b@) == key_lt(a@.skip(i as int), b@.skip(i as int)),
        decreases a.len() - i,
    {
        let ghost x = a@.skip(i as int);
        let ghost y = b@.skip(i as int);
        assert(x.drop_first() == a@.skip(i + 1));
        assert(y.drop_first() == b@.skip(i + 1));
        assert(x[0] == y[0]);
        i += 1;
    }
    if i == a.len() {
        i < b.len()
    } else if i == b.len() {
        false
    } else {
        let ghost x = a@.skip(i as int);
        let ghost y = b@.skip(i as int);
        let ca = a[i];
        let cb = b[i];
        assert(x[0] == ca && y[0] == cb);
        ca < cb
    }
}

// ── Association lists ────────────────────────────────────────────────────

/// Keys strictly ascending.
pub open spec fn sorted<V>(s: Seq<(Seq<char>, V)>) -> bool {
    forall|i: int, j: int| 0 <= i < j < s.len() ==> key_lt(#[trigger] s[i].0, #[trigger] s[j].0)
}

/// The value of the first entry with key `k`.
pub open spec fn lookup<V>(s: Seq<(Seq<char>, V)>, k: Seq<char>) -> Option<V>
    decreases s.len(),
{
    if s.len() == 0 {
        None
    } else if s[0].0 == k {
        Some(s[0].1)
    } else {
        lookup(s.drop_first(), k)
    }
}

/// Insertion into a sorted list: the entry for `k` is replaced, or a new
/// one is placed before the first larger key.
pub open spec fn insert_sorted<V>(s: Seq<(Seq<char>, V)>, k: Seq<char>, v: V) -> Seq<
    (Seq<char>, V),
>
    decreases s.len(),
{
    if s.len() == 0 {
        seq![(k, v)]
    } else if s[0].0 == k {
        seq![(k, v)] + s.drop_first()
    } else if key_lt(k, s[0].0) {
        seq![(k, v)] + s
    } else {
        seq![s[0]] + insert_sorted(s.drop_first(), k, v)
    }
}

/// Removal of the first entry with key `k`.
pub open spec fn remove_key<V>(s: Seq<(Seq<char>, V)>, k: Seq<char>) -> Seq<(Seq<char>, V)>
    decreases s.len(),
{
    if s.len() == 0 {
        s
    } else if s[0].0 == k {
        s.drop_first()
    } else {
        seq![s[0]] + remove_key(s.drop_first(), k)
    }
}

/// The keys of a list, in order.
pub open spec fn keys_of<V>(s: Seq<(Seq<char>, V)>) -> Seq<Seq<char>> {
    s.map_values(|e: (Seq<char>, V)| e.0)
}

/// Successive insertions, left to right.
pub open spec fn insert_all<V>(s: Seq<(Seq<char>, V)>, pairs: Seq<(Seq<char>, V)>) -> Seq<
    (Seq<char>, V),
>
    decreases pairs.len(),
{
    if pairs.len() == 0 {
        s
    } else {
        insert_sorted(insert_all(s, pairs.drop_last()), pairs.last().0, pairs.last().1)
    }
}

// ── Laws ─────────────────────────────────────────────────────────────────

/// A read of the key just written gives the value written.
pub proof fn lemma_lookup_insert_same<V>(s: Seq<(Seq<char>, V)>, k: Seq<char>, v: V)
    ensures
        lookup(insert_sorted(s, k, v), k) == Some(v),
    decreases s.len(),
{
    if s.len() > 0 && s[0].0 != k && !key_lt(k, s[0].0) {
        lemma_lookup_insert_same(s.drop_first(), k, v);
        assert((seq![s[0]] + insert_sorted(s.drop_first(), k, v)).drop_first() == insert_sorted(
            s.drop_first(),
            k,
            v,
        ));
    }
}

/// A write leaves the reads of every other key unchanged.
pub proof fn lemma_lookup_insert_other<V>(
    s: Seq<(Seq<char>, V)>,
    k: Seq<char>,
    v: V,
    other: Seq<char>,
)
    requires
        other != k,
    ensures
        lookup(insert_sorted(s, k, v), other) == lookup(s, other),
    decreases s.len(),
{
    let r = insert_sorted(s, k, v);
    if s.len() > 0 {
        if s[0].0 == k {
            assert(r[0] == (k, v));
            assert(r.drop_first() == s.drop_first());
        } else if key_lt(k, s[0].0) {
            assert(r[0] == (k, v));
            assert(r.drop_first() == s);
        } else {
            lemma_lookup_insert_other(s.drop_first(), k, v, other);
            assert(r[0] == s[0]);
            assert(r.drop_first() == insert_sorted(s.drop_first(), k, v));
            if s[0].0 == other {
                assert(lookup(r, other) == Some(s[0].1));
                assert(lookup(s, other) == Some(s[0].1));
            } else {
                assert(lookup(r, other) == lookup(r.drop_first(), other));
                assert(lookup(s, other) == lookup(s.drop_first(), other));
            }
        }
    } else {
        assert(r[0] == (k, v));
        assert(seq![(k, v)].drop_first() =~= Seq::<(Seq<char>, V)>::empty());
    }
}

/// Writing the same entry twice is the same as writing it once.
pub proof fn lemma_insert_idempotent<V>(s: Seq<(Seq<char>, V)>, k: Seq<char>, v: V)
    ensures
        insert_sorted(insert_sorted(s, k, v), k, v) == insert_sorted(s, k, v),
    decreases s.len(),
{
    let once = insert_sorted(s, k, v);
    if s.len() == 0 || s[0].0 == k || key_lt(k, s[0].0) {
        assert(once[0] == (k, v));
        assert(once.drop_first() == (if s.len() == 0 {
            s
        } else if s[0].0 == k {
            s.drop_first()
        } else {
            s
        }));
        assert(seq![(k, v)] + once.drop_first() == once);
    } else {
        lemma_insert_idempotent(s.drop_first(), k, v);
        assert(once[0] == s[0]);
        assert(once.drop_first() == insert_sorted(s.drop_first(), k, v));
    }
}

/// Every key of `s` is above `k`.
pub open spec fn all_above<V>(s: Seq<(Seq<char>, V)>, k: Seq<char>) -> bool {
    forall|i: int| 0 <= i < s.len() ==> key_lt(k, #[trigger] s[i].0)
}

proof fn lemma_insert_keys_above<V>(s: Seq<(Seq<char>, V)>, k: Seq<char>, v: V, low: Seq<char>)
    requires
        all_above(s, low),
        key_lt(low, k),
    ensures
        all_above(insert_sorted(s, k, v), low),
    decreases s.len(),
{
    let r = insert_sorted(s, k, v);
    if s.len() > 0 && s[0].0 != k && !key_lt(k, s[0].0) {
        lemma_insert_keys_above(s.drop_first(), k, v, low);
        assert forall|i: int| 0 <= i < r.len() implies key_lt(low, #[trigger] r[i].0) by {
            if i > 0 {
                assert(r[i] == insert_sorted(s.drop_first(), k, v)[i - 1]);
            }
        }
    } else {
        assert forall|i: int| 0 <= i < r.len() implies key_lt(low, #[trigger] r[i].0) by {
            if i > 0 {
                if s.len() > 0 && s[0].0 == k {
                    assert(r[i] == s[i]);
                } else {
                    assert(r[i] == s[i - 1]);
                }
            }
        }
    }
}

/// Insertion keeps a list sorted.
pub proof fn lemma_insert_sorted_keeps_order<V>(s: Seq<(Seq<char>, V)>, k: Seq<char>, v: V)
    requires
        sorted(s),
    ensures
        sorted(insert_sorted(s, k, v)),
    decreases s.len(),
{
    let r = insert_sorted(s, k, v);
    if s.len() == 0 {
    } else if s[0].0 == k {
        assert forall|i: int, j: int| 0 <= i < j < r.len() implies key_lt(
            #[trigger] r[i].0,
            #[trigger] r[j].0,
        ) by {
            assert(r[j] == s[j]);
            if i > 0 {
                assert(r[i] == s[i]);
            }
        }
    } else if key_lt(k, s[0].0) {
        assert forall|i: int, j: int| 0 <= i < j < r.len() implies key_lt(
            #[trigger] r[i].0,
            #[trigger] r[j].0,
        ) by {
            assert(r[j] == s[j - 1]);
            if i > 0 {
                assert(r[i] == s[i - 1]);
            } else if j - 1 > 0 {
                assert(key_lt(s[0].0, s[j - 1].0));
                lemma_key_lt_transitive(k, s[0].0, s[j - 1].0);
            }
        }
    } else {
        let t = s.drop_first();
        assert(sorted(t)) by {
            assert forall|i: int, j: int| 0 <= i < j < t.len() implies key_lt(
                #[trigger] t[i].0,
                #[trigger] t[j].0,
            ) by {
                assert(t[i] == s[i + 1] && t[j] == s[j + 1]);
            }
        }
        lemma_insert_sorted_keeps_order(t, k, v);
        lemma_key_lt_total(k, s[0].0);
        assert(all_above(t, s[0].0)) by {
            assert forall|i: int| 0 <= i < t.len() implies key_lt(s[0].0, #[trigger] t[i].0) by {
                assert(t[i] == s[i + 1]);
            }
        }
        lemma_insert_keys_above(t, k, v, s[0].0);
        let rt = insert_sorted(t, k, v);
        assert forall|i: int, j: int| 0 <= i < j < r.len() implies key_lt(
            #[trigger] r[i].0,
            #[trigger] r[j].0,
        ) by {
            assert(r[j] == rt[j - 1]);
            if i > 0 {
                assert(r[i] == rt[i - 1]);
            }
        }
    }
}

/// In a sorted list, a key below the first key is absent.
proof fn lemma_lookup_below_first<V>(s: Seq<(Seq<char>, V)>, k: Seq<char>)
    requires
        sorted(s),
        s.len() > 0,
        key_lt(k, s[0].0),
    ensures
        lookup(s, k) is None,
    decreases s.len(),
{
    lemma_key_lt_irreflexive(k);
    let t = s.drop_first();
    assert(s[0].0 != k);
    if t.len() > 0 {
        assert(t[0] == s[1]);
        assert(key_lt(s[0].0, s[1].0));
        lemma_key_lt_transitive(k, s[0].0, s[1].0);
        assert(sorted(t)) by {
            assert forall|i: int, j: int| 0 <= i < j < t.len() implies key_lt(
                #[trigger] t[i].0,
                #[trigger] t[j].0,
            ) by {
                assert(t[i] == s[i + 1] && t[j] == s[j + 1]);
            }
        }
        lemma_lookup_below_first(t, k);
    }
}

/// A read of a removed key finds nothing, in a sorted list.
pub proof fn lemma_lookup_remove_same<V>(s: Seq<(Seq<char>, V)>, k: Seq<char>)
    requires
        sorted(s),
    ensures
        lookup(remove_key(s, k), k) is None,
    decreases s.len(),
{
    if s.len() > 0 {
        let t = s.drop_first();
        assert(sorted(t)) by {
            assert forall|i: int, j: int| 0 <= i < j < t.len() implies key_lt(
                #[trigger] t[i].0,
                #[trigger] t[j].0,
            ) by {
                assert(t[i] == s[i + 1] && t[j] == s[j + 1]);
            }
        }
        if s[0].0 == k {
            if t.len() > 0 {
                assert(key_lt(s[0].0, s[1].0));
                lemma_lookup_below_first(t, k);
            }
        } else {
            lemma_lookup_remove_same(t, k);
            assert((seq![s[0]] + remove_key(t, k)).drop_first() == remove_key(t, k));
        }
    }
}

/// Removal leaves the reads of every other key unchanged.
pub proof fn lemma_lookup_remove_other<V>(s: Seq<(Seq<char>, V)>, k: Seq<char>, other: Seq<char>)
    requires
        other != k,
    ensures
        lookup(remove_key(s, k), other) == lookup(s, other),
    decreases s.len(),
{
    if s.len() > 0 && s[0].0 != k {
        lemma_lookup_remove_other(s.drop_first(), k, other);
        assert((seq![s[0]] + remove_key(s.drop_first(), k)).drop_first() == remove_key(
            s.drop_first(),
            k,
        ));
    }
}

/// Removal keeps a list sorted.
pub proof fn lemma_remove_keeps_order<V>(s: Seq<(Seq<char>, V)>, k: Seq<char>)
    requires
        sorted(s),
    ensures
        sorted(remove_key(s, k)),
    decreases s.len(),
{
    if s.len() > 0 {
        let t = s.drop_first();
        assert(sorted(t)) by {
            assert forall|i: int, j: int| 0 <= i < j < t.len() implies key_lt(
                #[trigger] t[i].0,
                #[trigger] t[j].0,
            ) by {
                assert(t[i] == s[i + 1] && t[j] == s[j + 1]);
            }
        }
        if s[0].0 != k {
            lemma_remove_keeps_order(t, k);
            lemma_remove_subset(t, k);
            let r = remove_key(s, k);
            let rt = remove_key(t, k);
            assert forall|i: int, j: int| 0 <= i < j < r.len() implies key_lt(
                #[trigger] r[i].0,
                #[trigger] r[j].0,
            ) by {
                assert(r[j] == rt[j - 1]);
                if i > 0 {
                    assert(r[i] == rt[i - 1]);
                } else {
                    let m = choose|m: int| 0 <= m < t.len() && t[m] == rt[j - 1];
                    assert(s[m + 1] == t[m]);
                }
            }
        }
    }
}

/// Every entry left after a removal was in the list.
proof fn lemma_remove_subset<V>(s: Seq<(Seq<char>, V)>, k: Seq<char>)
    ensures
        forall|i: int|
            0 <= i < remove_key(s, k).len() ==> exists|m: int|
                0 <= m < s.len() && s[m] == #[trigger] remove_key(s, k)[i],
    decreases s.len(),
{
    if s.len() > 0 {
        let t = s.drop_first();
        lemma_remove_subset(t, k);
        let r = remove_key(s, k);
        assert forall|i: int| 0 <= i < r.len() implies exists|m: int|
            0 <= m < s.len() && s[m] == #[trigger] r[i] by {
            if s[0].0 == k {
                assert(s[i + 1] == r[i]);
            } else if i == 0 {
                assert(s[0] == r[0]);
            } else {
                let rt = remove_key(t, k);
                assert(r[i] == rt[i - 1]);
                let m = choose|m: int| 0 <= m < t.len() && t[m] == rt[i - 1];
                assert(s[m + 1] == r[i]);
            }
        }
    }
}

/// Sorted lists that agree on every read are the same list: the layout of
/// the map depends only on its contents, never on the order of writes.
pub proof fn lemma_sorted_extensional<V>(s1: Seq<(Seq<char>, V)>, s2: Seq<(Seq<char>, V)>)
    requires
        sorted(s1),
        sorted(s2),
        forall|k: Seq<char>| lookup(s1, k) == lookup(s2, k),
    ensures
        s1 == s2,
    decreases s1.len() + s2.len(),
{
    if s1.len() == 0 && s2.len() == 0 {
        assert(s1 =~= s2);
    } else if s1.len() == 0 {
        assert(lookup(s2, s2[0].0) is Some);
        assert(lookup(s1, s2[0].0) is None);
    } else if s2.len() == 0 {
        assert(lookup(s1, s1[0].0) is Some);
        assert(lookup(s2, s1[0].0) is None);
    } else {
        let a = s1[0].0;
        let b = s2[0].0;
        if a != b {
            lemma_key_lt_total(a, b);
            if key_lt(a, b) {
                lemma_lookup_below_first(s2, a);
                assert(lookup(s1, a) is Some);
            } else {
                lemma_lookup_below_first(s1, b);
                assert(lookup(s2, b) is Some);
            }
        } else {
            assert(lookup(s1, a) == Some(s1[0].1));
            assert(lookup(s2, a) == Some(s2[0].1));
            let t1 = s1.drop_first();
            let t2 = s2.drop_first();
            assert(sorted(t1)) by {
                assert forall|i: int, j: int| 0 <= i < j < t1.len() implies key_lt(
                    #[trigger] t1[i].0,
                    #[trigger] t1[j].0,
                ) by {
                    assert(t1[i] == s1[i + 1] && t1[j] == s1[j + 1]);
                }
            }
            assert(sorted(t2)) by {
                assert forall|i: int, j: int| 0 <= i < j < t2.len() implies key_lt(
                    #[trigger] t2[i].0,
                    #[trigger] t2[j].0,
                ) by {
                    assert(t2[i] == s2[i + 1] && t2[j] == s2[j + 1]);
                }
            }
            assert forall|k: Seq<char>| lookup(t1, k) == lookup(t2, k) by {
                if k == a {
                    lemma_key_lt_irreflexive(a);
                    if t1.len() > 0 {
                        assert(key_lt(s1[0].0, s1[1].0));
                        lemma_lookup_below_first(t1, k);
                    }
                    if t2.len() > 0 {
                        assert(key_lt(s2[0].0, s2[1].0));
                        lemma_lookup_below_first(t2, k);
                    }
                } else {
                    assert(lookup(s1, k) == lookup(t1, k));
                    assert(lookup(s2, k) == lookup(t2, k));
                }
            }
            lemma_sorted_extensional(t1, t2);
            assert(s1 == seq![s1[0]] + t1);
            assert(s2 == seq![s2[0]] + t2);
        }
    }
}

// ── The map ──────────────────────────────────────────────────────────────

/// The `(key, value)` pairs of a vector of entries, keys by their view.
pub open spec fn pairs_view<V>(s: Seq<(String, V)>) -> Seq<(Seq<char>, V)> {
    s.map_values(|e: (String, V)| (e.0@, e.1))
}

/// A map from strings to values, kept sorted by key.
#[derive(Debug, PartialEq, Eq)]
pub struct StrMap<V> {
    entries: Vec<(String, V)>,
}

impl<V> StrMap<V> {
    /// The entries as a list of `(key, value)` pairs, in key order.
    pub closed spec fn entries_view(&self) -> Seq<(Seq<char>, V)> {
        pairs_view(self.entries@)
    }

    /// The map is sorted by key: an invariant of every map.
    #[verifier::type_invariant]
    pub open spec fn wf(&self) -> bool {
        sorted(self.entries_view())
    }

    /// The value stored under `k`.
    pub open spec fn spec_get(&self, k: Seq<char>) -> Option<V> {
        lookup(self.entries_view(), k)
    }

    /// An empty map.
    pub fn new() -> (m: Self)
        ensures
            m.entries_view() == Seq::<(Seq<char>, V)>::empty(),
            m.wf(),
    {
        let m = StrMap { entries: Vec::new() };
        assert(m.entries_view() =~= Seq::<(Seq<char>, V)>::empty());
        m
    }

    /// Number of entries.
    pub fn len(&self) -> (r: usize)
        ensures
            r == self.entries_view().len(),
    {
        self.entries.len()
    }

    /// Whether the map has no entries.
    pub fn is_empty(&self) -> (r: bool)
        ensures
            r == (self.entries_view().len() == 0),
    {
        self.entries.len() == 0
    }

    /// The key of the `i`-th entry.
    pub fn key_at(&self, i: usize) -> (r: &String)
        requires
            i < self.entries_view().len(),
        ensures
            r@ == self.entries_view()[i as int].0,
    {
        &self.entries[i].0
    }

    /// The value of the `i`-th entry.
    pub fn value_at(&self, i: usize) -> (r: &V)
        requires
            i < self.entries_view().len(),
        ensures
            *r == self.entries_view()[i as int].1,
    {
        &self.entries[i].1
    }

    /// Index of the first entry with key `k`.
    fn position(&self, k: &[char]) -> (r: Option<usize>)
        ensures
            match r {
                Some(i) => i < self.entries_view().len() && self.entries_view()[i as int].0 == k@
                    && lookup(self.entries_view(), k@) == Some(self.entries_view()[i as int].1)
                    && forall|j: int| 0 <= j < i ==> self.entries_view()[j].0 != k@,
                None => lookup(self.entries_view(), k@) is None,
            },
    {
        let ghost ev = self.entries_view();
        let mut i: usize = 0;
        assert(ev.skip(0) == ev);
        while i < self.entries.len()
            invariant
                ev == self.entries_view(),
                i <= ev.len(),
                ev.len() == self.entries@.len(),
                lookup(ev, k@) == lookup(ev.skip(i as int), k@),
                forall|j: int| 0 <= j < i ==> ev[j].0 != k@,
            decreases self.entries.len() - i,
        {
            let kc = chars_of(self.entries[i].0.as_str());
            assert(ev[i as int].0 == kc@);
            assert(ev.skip(i as int)[0] == ev[i as int]);
            if crate::text::slice_eq(&kc, k) {
                return Some(i);
            }
            assert(ev.skip(i as int).drop_first() == ev.skip(i + 1));
            i += 1;
        }
        None
    }

    /// The value stored under `k`, if any.
    pub fn get(&self, k: &str) -> (r: Option<&V>)
        ensures
            match r {
                Some(v) => self.spec_get(k@) == Some(*v),
                None => self.spec_get(k@) is None,
            },
    {
        let kc = chars_of(k);
        match self.position(&kc) {
            Some(i) => Some(&self.entries[i].1),
            None => None,
        }
    }

    /// Whether an entry is stored under `k`.
    pub fn contains_key(&self, k: &str) -> (r: bool)
        ensures
            r == self.spec_get(k@) is Some,
    {
        let kc = chars_of(k);
        self.position(&kc).is_some()
    }

    /// Stores `v` under `k`, replacing any previous value.
    pub fn insert(&mut self, k: String, v: V)
        ensures
            final(self).entries_view() == insert_sorted(old(self).entries_view(), k@, v),
            final(self).wf(),
    {
        proof {
            use_type_invariant(&*self);
        }
        let mut entries: Vec<(String, V)> = Vec::new();
        std::mem::swap(&mut entries, &mut self.entries);
        let ghost ev = pairs_view(entries@);
        assert(sorted(ev));
        let kc = chars_of(k.as_str());
        let mut i: usize = 0;
        let mut done = false;
        assert(ev.skip(0) == ev && ev.take(0) =~= Seq::<(Seq<char>, V)>::empty());
        while i < entries.len() && !done
            invariant
                ev == pairs_view(entries@),
                ev.len() == entries@.len(),
                kc@ == k@,
                i <= ev.len(),
                !done ==> insert_sorted(ev, k@, v) == ev.take(i as int) + insert_sorted(
                    ev.skip(i as int),
                    k@,
                    v,
                ),
                done ==> i < ev.len() && (ev[i as int].0 == k@ || key_lt(k@, ev[i as int].0)),
                done ==> insert_sorted(ev, k@, v) == ev.take(i as int) + insert_sorted(
                    ev.skip(i as int),
                    k@,
                    v,
                ),
            decreases entries.len() - i + (if done { 0int } else { 1int }),
        {
            let ek = chars_of(entries[i].0.as_str());
            assert(ev[i as int].0 == ek@);
            assert(ev.skip(i as int)[0] == ev[i as int]);
            if crate::text::slice_eq(&ek, &kc) || key_less(&kc, &ek) {
                done = true;
            } else {
                assert(ev.skip(i as int).drop_first() == ev.skip(i + 1));
                assert(ev.take(i + 1) == ev.take(i as int).push(ev[i as int]));
                assert(ev.take(i as int) + insert_sorted(ev.skip(i as int), k@, v) == ev.take(
                    i + 1,
                ) + insert_sorted(ev.skip(i + 1), k@, v));
                i += 1;
            }
        }
        proof {
            if sorted(ev) {
                lemma_insert_sorted_keeps_order(ev, k@, v);
            }
        }
        if done {
            let same = {
                let ek = chars_of(entries[i].0.as_str());
                crate::text::slice_eq(&ek, &kc)
            };
            if same {
                entries.set(i, (k, v));
                assert(pairs_view(entries@) =~= ev.take(i as int) + (seq![(k@, v)] + ev.skip(
                    i as int,
                ).drop_first()));
            } else {
                entries.insert(i, (k, v));
                assert(pairs_view(entries@) =~= ev.take(i as int) + (seq![(k@, v)] + ev.skip(
                    i as int,
                )));
            }
        } else {
            entries.push((k, v));
            assert(ev.take(i as int) == ev);
            assert(ev.skip(i as int) =~= Seq::<(Seq<char>, V)>::empty());
            assert(pairs_view(entries@) =~= ev + seq![(k@, v)]);
        }
        self.entries = entries;
    }

    /// Removes the entry stored under `k`, returning its value.
    pub fn remove(&mut self, k: &str) -> (r: Option<V>)
        ensures
            final(self).entries_view() == remove_key(old(self).entries_view(), k@),
            r == lookup(old(self).entries_view(), k@),
            final(self).wf(),
    {
        proof {
            use_type_invariant(&*self);
        }
        let ghost ev = self.entries_view();
        proof {
            if sorted(ev) {
                lemma_remove_keeps_order(ev, k@);
            }
            lemma_remove_at_position(ev, k@);
        }
        let kc = chars_of(k);
        match self.position(&kc) {
            Some(i) => {
                let mut entries: Vec<(String, V)> = Vec::new();
                std::mem::swap(&mut entries, &mut self.entries);
                assert(pairs_view(entries@) == ev);
                let (_, v) = entries.remove(i);
                assert(pairs_view(entries@) =~= ev.take(i as int) + ev.skip(i + 1));
                self.entries = entries;
                Some(v)
            },
            None => {
                proof {
                    lemma_remove_absent(ev, k@);
                }
                None
            },
        }
    }

    /// The keys, in ascending order.
    pub fn keys(&self) -> (r: Vec<String>)
        ensures
            crate::text::views(r@) == keys_of(self.entries_view()),
    {
        let mut r: Vec<String> = Vec::new();
        let mut i: usize = 0;
        while i < self.entries.len()
            invariant
                i <= self.entries@.len(),
                crate::text::views(r@) == keys_of(self.entries_view().take(i as int)),
            decreases self.entries.len() - i,
        {
            r.push(copy_string(&self.entries[i].0));
            assert(keys_of(self.entries_view().take(i + 1)) == keys_of(
                self.entries_view().take(i as int),
            ).push(self.entries_view()[i as int].0));
            i += 1;
        }
        assert(self.entries_view().take(self.entries@.len() as int) == self.entries_view());
        r
    }

    /// A map holding the given pairs, later pairs overriding earlier ones.
    pub fn from_pairs(pairs: Vec<(String, V)>) -> (m: Self)
        ensures
            m.entries_view() == insert_all(Seq::<(Seq<char>, V)>::empty(), pairs_view(pairs@)),
            m.wf(),
    {
        let ghost pv = pairs_view(pairs@);
        let mut m = StrMap::new();
        let mut rest = pairs;
        let ghost n = pv.len();
        let mut i: usize = 0;
        assert(pv.skip(0) == pv);
        assert(n == rest.len());
        while rest.len() > 0
            invariant
                i + rest@.len() == n,
                pairs_view(rest@) == pv.skip(i as int),
                n <= usize::MAX,
                m.entries_view() == insert_all(Seq::<(Seq<char>, V)>::empty(), pv.take(i as int)),
                m.wf(),
                n == pv.len(),
            decreases rest.len(),
        {
            let ghost before = rest@;
            let (k, v) = rest.remove(0);
            assert(rest@ == before.drop_first());
            assert(pairs_view(before)[0] == (k@, v));
            assert((k@, v) == pv[i as int]);
            assert(pairs_view(rest@) =~= pairs_view(before).drop_first());
            assert(pv.skip(i as int).drop_first() == pv.skip(i + 1));
            assert(pv.take(i + 1).drop_last() == pv.take(i as int));
            m.insert(k, v);
            i += 1;
        }
        assert(pv.take(n as int) == pv);
        m
    }
}

/// A value stored in the map is structurally smaller than the map.
pub proof fn lemma_value_decreases<V>(m: StrMap<V>, i: int)
    requires
        0 <= i < m.entries_view().len(),
    ensures
        decreases_to!(m => m.entries_view()[i].1),
{
    assert(m.entries_view()[i].1 == m.entries@[i].1);
    assert(decreases_to!(m => m.entries));
    assert(decreases_to!(m.entries => m.entries@));
    assert(decreases_to!(m.entries@ => m.entries@[i]));
    assert(decreases_to!(m.entries@[i] => m.entries@[i].1));
}

/// An association list with every value passed through `f`.
pub open spec fn map_vals<V, W>(s: Seq<(Seq<char>, V)>, f: spec_fn(V) -> W) -> Seq<(Seq<char>, W)> {
    s.map_values(|e: (Seq<char>, V)| (e.0, f(e.1)))
}

/// Mapping the values commutes with insertion.
pub proof fn lemma_map_vals_insert<V, W>(s: Seq<(Seq<char>, V)>, k: Seq<char>, v: V, f: spec_fn(V) -> W)
    ensures
        map_vals(insert_sorted(s, k, v), f) == insert_sorted(map_vals(s, f), k, f(v)),
    decreases s.len(),
{
    let ms = map_vals(s, f);
    if s.len() == 0 {
        assert(map_vals(insert_sorted(s, k, v), f) =~= seq![(k, f(v))]);
    } else {
        assert(ms[0] == (s[0].0, f(s[0].1)));
        assert(ms.drop_first() =~= map_vals(s.drop_first(), f));
        if s[0].0 == k {
            assert(map_vals(insert_sorted(s, k, v), f) =~= seq![(k, f(v))] + ms.drop_first());
        } else if key_lt(k, s[0].0) {
            assert(map_vals(insert_sorted(s, k, v), f) =~= seq![(k, f(v))] + ms);
        } else {
            lemma_map_vals_insert(s.drop_first(), k, v, f);
            assert(map_vals(insert_sorted(s, k, v), f) =~= seq![ms[0]] + map_vals(
                insert_sorted(s.drop_first(), k, v),
                f,
            ));
        }
    }
}

/// Insertion stores no value but the one inserted and those already there.
pub proof fn lemma_insert_values<V>(s: Seq<(Seq<char>, V)>, k: Seq<char>, v: V, p: spec_fn(V) -> bool)
    requires
        forall|i: int| 0 <= i < s.len() ==> p(#[trigger] s[i].1),
        p(v),
    ensures
        forall|i: int| 0 <= i < insert_sorted(s, k, v).len() ==> p(#[trigger] insert_sorted(s, k, v)[i].1),
    decreases s.len(),
{
    let r = insert_sorted(s, k, v);
    if s.len() > 0 && s[0].0 != k && !key_lt(k, s[0].0) {
        lemma_insert_values(s.drop_first(), k, v, p);
        assert forall|i: int| 0 <= i < r.len() implies p(#[trigger] r[i].1) by {
            if i > 0 {
                assert(r[i] == insert_sorted(s.drop_first(), k, v)[i - 1]);
            }
        }
    } else {
        assert forall|i: int| 0 <= i < r.len() implies p(#[trigger] r[i].1) by {
            if i > 0 {
                if s.len() > 0 && s[0].0 == k {
                    assert(r[i] == s[i]);
                } else {
                    assert(r[i] == s[i - 1]);
                }
            }
        }
    }
}

/// Mapping the values keeps the keys, hence their order.
pub proof fn lemma_map_vals_sorted<V, W>(s: Seq<(Seq<char>, V)>, f: spec_fn(V) -> W)
    ensures
        sorted(map_vals(s, f)) == sorted(s),
{
    let m = map_vals(s, f);
    assert forall|i: int| 0 <= i < s.len() implies #[trigger] m[i].0 == s[i].0 by {}
    if sorted(s) {
        assert forall|i: int, j: int| 0 <= i < j < m.len() implies key_lt(
            #[trigger] m[i].0,
            #[trigger] m[j].0,
        ) by {
            assert(m[i].0 == s[i].0 && m[j].0 == s[j].0);
        }
    }
    if sorted(m) {
        assert forall|i: int, j: int| 0 <= i < j < s.len() implies key_lt(
            #[trigger] s[i].0,
            #[trigger] s[j].0,
        ) by {
            assert(m[i].0 == s[i].0 && m[j].0 == s[j].0);
        }
    }
}

/// The map with each value replaced by its first component.
pub fn project_first<A, B>(m: StrMap<(A, B)>) -> (r: StrMap<A>)
    ensures
        r.entries_view() == map_vals(m.entries_view(), |p: (A, B)| p.0),
        r.wf(),
{
    proof {
        use_type_invariant(&m);
    }
    let ghost ev = m.entries_view();
    let ghost target = map_vals(ev, |p: (A, B)| p.0);
    let mut rest = m.entries;
    let mut out: Vec<(String, A)> = Vec::new();
    let ghost n = rest@.len();
    let mut i: usize = 0;
    assert(n == rest.len());
    assert(pairs_view(rest@).skip(0) == ev);
    assert(pairs_view(out@) =~= target.take(0));
    while rest.len() > 0
        invariant
            i + rest@.len() == n,
            n == ev.len(),
            n <= usize::MAX,
            ev.len() == target.len(),
            target == map_vals(ev, |p: (A, B)| p.0),
            pairs_view(rest@) == ev.skip(i as int),
            pairs_view(out@) == target.take(i as int),
        decreases rest.len(),
    {
        let ghost before = rest@;
        let (k, v) = rest.remove(0);
        assert(pairs_view(before)[0] == (k@, v));
        assert(ev[i as int] == (k@, v));
        assert(pairs_view(rest@) =~= pairs_view(before).drop_first());
        assert(ev.skip(i as int).drop_first() == ev.skip(i + 1));
        let ghost ob = out@;
        out.push((k, v.0));
        assert(pairs_view(out@) =~= pairs_view(ob).push((k@, v.0)));
        assert(target.take(i + 1) == target.take(i as int).push(target[i as int]));
        i += 1;
    }
    assert(target.take(n as int) == target);
    proof {
        lemma_map_vals_sorted(ev, |p: (A, B)| p.0);
    }
    StrMap { entries: out }
}

proof fn lemma_remove_at_position<V>(s: Seq<(Seq<char>, V)>, k: Seq<char>)
    ensures
        forall|i: int|
            0 <= i < s.len() && s[i].0 == k && (forall|j: int| 0 <= j < i ==> s[j].0 != k)
                ==> remove_key(s, k) == s.take(i) + s.skip(i + 1) && lookup(s, k) == Some(s[i].1),
    decreases s.len(),
{
    if s.len() > 0 {
        lemma_remove_at_position(s.drop_first(), k);
        assert forall|i: int|
            0 <= i < s.len() && s[i].0 == k && (forall|j: int| 0 <= j < i ==> s[j].0 != k)
            implies remove_key(s, k) == s.take(i) + s.skip(i + 1) && lookup(s, k) == Some(
            s[i].1,
        ) by {
            if i == 0 {
                assert(s.take(0) + s.skip(1) =~= s.drop_first());
            } else {
                let t = s.drop_first();
                assert(s[0].0 != k);
                assert(t[i - 1] == s[i]);
                assert forall|j: int| 0 <= j < i - 1 implies t[j].0 != k by {
                    assert(t[j] == s[j + 1]);
                }
                assert(remove_key(t, k) == t.take(i - 1) + t.skip(i));
                assert(s.take(i) + s.skip(i + 1) =~= seq![s[0]] + (t.take(i - 1) + t.skip(i)));
            }
        }
    }
}

/// Removing a key that was absent before inserting it gives back the list
/// as it was.
pub proof fn lemma_remove_insert_absent<V>(s: Seq<(Seq<char>, V)>, k: Seq<char>, v: V)
    requires
        lookup(s, k) is None,
    ensures
        remove_key(insert_sorted(s, k, v), k) == s,
    decreases s.len(),
{
    if s.len() == 0 {
        assert(remove_key(seq![(k, v)], k) =~= s);
    } else if key_lt(k, s[0].0) {
        assert((seq![(k, v)] + s).drop_first() =~= s);
    } else {
        lemma_remove_insert_absent(s.drop_first(), k, v);
        let r = seq![s[0]] + insert_sorted(s.drop_first(), k, v);
        assert(r.drop_first() =~= insert_sorted(s.drop_first(), k, v));
        assert(seq![s[0]] + s.drop_first() =~= s);
    }
}

/// Removing a key that is absent changes nothing.
pub proof fn lemma_remove_absent<V>(s: Seq<(Seq<char>, V)>, k: Seq<char>)
    requires
        lookup(s, k) is None,
    ensures
        remove_key(s, k) == s,
    decreases s.len(),
{
    if s.len() > 0 {
        lemma_remove_absent(s.drop_first(), k);
        assert(seq![s[0]] + s.drop_first() == s);
    }
}


impl<V: Copy> StrMap<V> {
    /// A copy of the map, entry for entry.
    pub fn copy(&self) -> (r: Self)
        ensures
            r.entries_view() == self.entries_view(),
            r.wf(),
    {
        proof {
            use_type_invariant(self);
        }
        let mut out: Vec<(String, V)> = Vec::new();
        let mut i: usize = 0;
        while i < self.entries.len()
            invariant
                i <= self.entries@.len(),
                pairs_view(out@) == pairs_view(self.entries@).take(i as int),
            decreases self.entries.len() - i,
        {
            let k = copy_string(&self.entries[i].0);
            let v = self.entries[i].1;
            let ghost ob = out@;
            out.push((k, v));
            assert(pairs_view(out@) =~= pairs_view(ob).push((k@, v)));
            assert(pairs_view(self.entries@).take(i + 1) =~= pairs_view(self.entries@).take(
                i as int,
            ).push(pairs_view(self.entries@)[i as int]));
            i += 1;
        }
        assert(pairs_view(self.entries@).take(self.entries@.len() as int) == pairs_view(
            self.entries@,
        ));
        assert(pairs_view(out@) == self.entries_view());
        StrMap { entries: out }
    }
}

impl<V: Clone> Clone for StrMap<V> {
    /// The same keys in the same order, each value cloned by `V`'s own `clone`.
    fn clone(&self) -> (r: Self)
        ensures
            r.entries_view().len() == self.entries_view().len(),
            forall|i: int|
                0 <= i < self.entries_view().len() ==> #[trigger] r.entries_view()[i].0
                    == self.entries_view()[i].0 && cloned::<V>(
                    self.entries_view()[i].1,
                    r.entries_view()[i].1,
                ),
    {
        proof {
            use_type_invariant(self);
        }
        let mut out: Vec<(String, V)> = Vec::new();
        let mut i: usize = 0;
        while i < self.entries.len()
            invariant
                i <= self.entries@.len(),
                out@.len() == i,
                sorted(self.entries_view()),
                forall|j: int|
                    0 <= j < i ==> #[trigger] out@[j].0@ == self.entries@[j].0@ && cloned::<V>(
                        self.entries@[j].1,
                        out@[j].1,
                    ),
            decreases self.entries.len() - i,
        {
            let k = copy_string(&self.entries[i].0);
            let v = self.entries[i].1.clone();
            out.push((k, v));
            i += 1;
        }
        let ghost ov = pairs_view(out@);
        assert(sorted(ov)) by {
            assert forall|a: int, b: int| 0 <= a < b < ov.len() implies key_lt(
                #[trigger] ov[a].0,
                #[trigger] ov[b].0,
            ) by {
                assert(ov[a].0 == self.entries_view()[a].0);
                assert(ov[b].0 == self.entries_view()[b].0);
            }
        }
        StrMap { entries: out }
    }
}

/// Reading through a value mapping reads the mapped value.
pub proof fn lemma_lookup_map_vals<V, W>(s: Seq<(Seq<char>, V)>, k: Seq<char>, f: spec_fn(V) -> W)
    ensures
        lookup(map_vals(s, f), k) == (match lookup(s, k) {
            Some(v) => Some(f(v)),
            None => None,
        }),
    decreases s.len(),
{
    if s.len() > 0 {
        assert(map_vals(s, f)[0] == (s[0].0, f(s[0].1)));
        assert(map_vals(s, f).drop_first() =~= map_vals(s.drop_first(), f));
        lemma_lookup_map_vals(s.drop_first(), k, f);
    }
}

} // verus!
