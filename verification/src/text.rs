//! Character-level helpers shared by every parser in the crate.
//!
//! Strings are reasoned about through their view, a `Seq<char>`. The spec
//! functions here give `split`, `join`, `replace` and ASCII case mapping a
//! precise meaning; the executable functions are proved against them.
use vstd::prelude::*;

verus! {

// ── Specifications ───────────────────────────────────────────────────────

/// `s` split at every occurrence of `sep`, as `str::split` does: always at
/// least one piece, empty pieces kept.
pub open spec fn split(s: Seq<char>, sep: char) -> Seq<Seq<char>>
    decreases s.len(),
{
    if s.len() == 0 {
        seq![Seq::<char>::empty()]
    } else {
        let r = split(s.drop_last(), sep);
        if s.last() == sep {
            r.push(Seq::<char>::empty())
        } else {
            r.update(r.len() - 1, r.last().push(s.last()))
        }
    }
}

/// The pieces joined back together with `sep` between neighbours.
pub open spec fn join(parts: Seq<Seq<char>>, sep: char) -> Seq<char>
    decreases parts.len(),
{
    if parts.len() == 0 {
        Seq::<char>::empty()
    } else if parts.len() == 1 {
        parts[0]
    } else {
        join(parts.drop_last(), sep).push(sep) + parts.last()
    }
}

/// `true` when `p` is a prefix of `s`.
pub open spec fn has_prefix(s: Seq<char>, p: Seq<char>) -> bool {
    p.len() <= s.len() && s.take(p.len() as int) == p
}

/// `true` when `p` is a suffix of `s`.
pub open spec fn has_suffix(s: Seq<char>, p: Seq<char>) -> bool {
    p.len() <= s.len() && s.skip(s.len() - p.len()) == p
}

/// `true` when `c` occurs in `s`.
pub open spec fn has_char(s: Seq<char>, c: char) -> bool {
    exists|i: int| 0 <= i < s.len() && s[i] == c
}

/// Leftmost, non-overlapping replacement of `pat` by `to`, as
/// `str::replace` does for a non-empty pattern.
pub open spec fn replace(s: Seq<char>, pat: Seq<char>, to: Seq<char>) -> Seq<char>
    decreases s.len(),
{
    if pat.len() == 0 || s.len() < pat.len() {
        s
    } else if s.take(pat.len() as int) == pat {
        to + replace(s.skip(pat.len() as int), pat, to)
    } else {
        seq![s[0]] + replace(s.drop_first(), pat, to)
    }
}

/// ASCII upper-casing of one character; every other character is kept.
pub open spec fn upper(c: char) -> char {
    if 'a' <= c && c <= 'z' {
        ((c as u32) - 32) as char
    } else {
        c
    }
}

/// ASCII lower-casing of one character; every other character is kept.
pub open spec fn lower(c: char) -> char {
    if 'A' <= c && c <= 'Z' {
        ((c as u32) + 32) as char
    } else {
        c
    }
}

pub open spec fn upper_seq(s: Seq<char>) -> Seq<char> {
    s.map_values(|c: char| upper(c))
}

pub open spec fn lower_seq(s: Seq<char>) -> Seq<char> {
    s.map_values(|c: char| lower(c))
}

pub open spec fn is_ascii_digit(c: char) -> bool {
    '0' <= c && c <= '9'
}

pub open spec fn is_ascii_alpha(c: char) -> bool {
    ('a' <= c && c <= 'z') || ('A' <= c && c <= 'Z')
}

pub open spec fn is_ascii_alnum(c: char) -> bool {
    is_ascii_alpha(c) || is_ascii_digit(c)
}

/// The views of a vector of strings.
pub open spec fn views(v: Seq<String>) -> Seq<Seq<char>> {
    v.map_values(|s: String| s@)
}

/// The views of a vector of character vectors.
pub open spec fn vec_views(v: Seq<Vec<char>>) -> Seq<Seq<char>> {
    v.map_values(|s: Vec<char>| s@)
}

/// Decimal digits of a natural number, most significant first, no leading
/// zeros (`0` is `"0"`).
pub open spec fn decimal(n: nat) -> Seq<char>
    decreases n,
{
    if n < 10 {
        seq![digit_char(n)]
    } else {
        decimal(n / 10).push(digit_char(n % 10))
    }
}

pub open spec fn digit_char(d: nat) -> char {
    ((d + 48) as u32) as char
}

/// The value of a digit string, read as a decimal number.
pub open spec fn digits_value(s: Seq<char>) -> nat
    decreases s.len(),
{
    if s.len() == 0 {
        0
    } else {
        digits_value(s.drop_last()) * 10 + ((s.last() as u32) - 48) as nat
    }
}

// ── Laws ─────────────────────────────────────────────────────────────────

/// `split` never yields an empty list.
pub proof fn lemma_split_nonempty(s: Seq<char>, sep: char)
    ensures
        split(s, sep).len() >= 1,
    decreases s.len(),
{
    if s.len() > 0 {
        lemma_split_nonempty(s.drop_last(), sep);
    }
}

/// Joining the pieces of a split with the same separator gives back the
/// original string.
pub proof fn lemma_join_split(s: Seq<char>, sep: char)
    ensures
        join(split(s, sep), sep) == s,
    decreases s.len(),
{
    if s.len() > 0 {
        let r = split(s.drop_last(), sep);
        lemma_split_nonempty(s.drop_last(), sep);
        lemma_join_split(s.drop_last(), sep);
        if s.last() == sep {
            let r2 = r.push(Seq::<char>::empty());
            assert(r2.drop_last() == r);
            assert(s == s.drop_last().push(sep));
        } else {
            let r2 = r.update(r.len() - 1, r.last().push(s.last()));
            if r.len() == 1 {
                assert(s == s.drop_last().push(s.last()));
            } else {
                assert(r2.drop_last() == r.drop_last());
                assert(join(r, sep) == join(r.drop_last(), sep).push(sep) + r.last());
                assert(s == s.drop_last().push(s.last()));
                assert(join(r2, sep) == join(r.drop_last(), sep).push(sep) + r.last().push(
                    s.last(),
                ));
            }
        }
    }
}

/// No piece of a split contains the separator.
pub proof fn lemma_split_pieces_lack_sep(s: Seq<char>, sep: char)
    ensures
        forall|i: int| 0 <= i < split(s, sep).len() ==> !has_char(#[trigger] split(s, sep)[i], sep),
    decreases s.len(),
{
    if s.len() > 0 {
        lemma_split_nonempty(s.drop_last(), sep);
        lemma_split_pieces_lack_sep(s.drop_last(), sep);
        let r = split(s.drop_last(), sep);
        if s.last() != sep {
            let r2 = r.update(r.len() - 1, r.last().push(s.last()));
            assert forall|i: int| 0 <= i < r2.len() implies !has_char(#[trigger] r2[i], sep) by {
                if i == r.len() - 1 {
                    assert(!has_char(r[i], sep));
                    let p = r[i].push(s.last());
                    if has_char(p, sep) {
                        let j = choose|j: int| 0 <= j < p.len() && p[j] == sep;
                        assert(p[j] == sep);
                        if j < r[i].len() {
                            assert(r[i][j] == sep);
                        }
                    }
                }
            }
        } else {
            let r2 = r.push(Seq::<char>::empty());
            assert forall|i: int| 0 <= i < r2.len() implies !has_char(#[trigger] r2[i], sep) by {
                if i < r.len() {
                    assert(r2[i] == r[i]);
                }
            }
        }
    }
}

// ── Executable helpers ───────────────────────────────────────────────────

/// Appends one character to a string (`String::push`).
#[verifier::external_body]
pub(crate) fn push_char(s: &mut String, c: char)
    ensures
        final(s)@ == old(s)@.push(c),
{
    s.push(c);
}

/// How `{:?}` renders a string: in double quotes, with quotes, backslashes
/// and unprintable characters escaped.
pub uninterp spec fn debug_quoted(s: Seq<char>) -> Seq<char>;

/// The `Debug` rendering of a string (`format!("{:?}", s)`).
#[verifier::external_body]
pub(crate) fn quoted(s: &str) -> (r: String)
    ensures
        r@ == debug_quoted(s@),
{
    format!("{:?}", s)
}

/// The string `bytes` encode when they are valid UTF-8 (`String::from_utf8`);
/// otherwise std's description of the first invalid sequence, whose text is
/// not stated here.
#[verifier::external_body]
pub(crate) fn utf8_string(bytes: Vec<u8>) -> (r: Result<String, String>)
    ensures
        r is Ok <==> vstd::utf8::valid_utf8(bytes@),
        r matches Ok(s) ==> s@ == vstd::utf8::decode_utf8(bytes@),
{
    match String::from_utf8(bytes) {
        Ok(s) => Ok(s),
        Err(e) => Err(format!("{e}")),
    }
}

/// What `char::to_uppercase` yields for `c`: its full Unicode uppercase
/// mapping, which may be more than one character.
pub uninterp spec fn char_upper(c: char) -> Seq<char>;

/// What `char::to_lowercase` yields for `c`: its full Unicode lowercase
/// mapping.
pub uninterp spec fn char_lower(c: char) -> Seq<char>;

/// What `str::to_uppercase` returns for `s`.
pub uninterp spec fn str_upper(s: Seq<char>) -> Seq<char>;

/// What `str::to_lowercase` returns for `s`.
pub uninterp spec fn str_lower(s: Seq<char>) -> Seq<char>;

/// The Unicode uppercase mapping of one character (`char::to_uppercase`),
/// collected into a string.
#[verifier::external_body]
pub(crate) fn char_to_upper(c: char) -> (r: String)
    ensures
        r@ == char_upper(c),
{
    c.to_uppercase().to_string()
}

/// The Unicode lowercase mapping of one character (`char::to_lowercase`),
/// collected into a string.
#[verifier::external_body]
pub(crate) fn char_to_lower(c: char) -> (r: String)
    ensures
        r@ == char_lower(c),
{
    c.to_lowercase().to_string()
}

/// Unicode upper-casing of a string (`str::to_uppercase`).
#[verifier::external_body]
pub(crate) fn string_to_upper(s: &str) -> (r: String)
    ensures
        r@ == str_upper(s@),
{
    s.to_uppercase()
}

/// Unicode lower-casing of a string (`str::to_lowercase`).
#[verifier::external_body]
pub(crate) fn string_to_lower(s: &str) -> (r: String)
    ensures
        r@ == str_lower(s@),
{
    s.to_lowercase()
}

/// The characters of a string slice, in order.
pub fn chars_of(s: &str) -> (v: Vec<char>)
    ensures
        v@ == s@,
{
    let mut v: Vec<char> = Vec::new();
    for c in it: s.chars()
        invariant
            v@ == it.seq().take(it.index() as int),
    {
        v.push(c);
    }
    v
}

/// A string made of the given characters.
pub fn string_of(v: &[char]) -> (s: String)
    ensures
        s@ == v@,
{
    let mut s = String::new();
    let mut i: usize = 0;
    while i < v.len()
        invariant
            i <= v.len(),
            s@ == v@.take(i as int),
        decreases v.len() - i,
    {
        push_char(&mut s, v[i]);
        assert(v@.take(i + 1) == v@.take(i as int).push(v@[i as int]));
        i += 1;
    }
    assert(v@.take(v.len() as int) == v@);
    s
}

/// Copy of a string, character for character.
pub fn copy_string(s: &String) -> (r: String)
    ensures
        r@ == s@,
{
    s.clone()
}

/// String equality on views.
pub fn str_eq(a: &str, b: &str) -> (r: bool)
    ensures
        r == (a@ == b@),
{
    let x = chars_of(a);
    let y = chars_of(b);
    slice_eq(&x, &y)
}

/// Sequence equality of two character slices.
pub fn slice_eq(a: &[char], b: &[char]) -> (r: bool)
    ensures
        r == (a@ == b@),
{
    if a.len() != b.len() {
        return false;
    }
    let mut i: usize = 0;
    while i < a.len()
        invariant
            a.len() == b.len(),
            i <= a.len(),
            forall|j: int| 0 <= j < i ==> a@[j] == b@[j],
        decreases a.len() - i,
    {
        if a[i] != b[i] {
            return false;
        }
        i += 1;
    }
    assert(a@ == b@);
    true
}

/// `true` when `p` is a prefix of `s`.
pub fn starts_with(s: &[char], p: &[char]) -> (r: bool)
    ensures
        r == has_prefix(s@, p@),
{
    if p.len() > s.len() {
        return false;
    }
    let mut i: usize = 0;
    while i < p.len()
        invariant
            p.len() <= s.len(),
            i <= p.len(),
            forall|j: int| 0 <= j < i ==> s@[j] == p@[j],
        decreases p.len() - i,
    {
        if s[i] != p[i] {
            assert(s@.take(p.len() as int)[i as int] != p@[i as int]);
            return false;
        }
        i += 1;
    }
    assert(s@.take(p.len() as int) == p@);
    true
}

/// `true` when `p` is a prefix of `s` starting at index `at`.
pub fn starts_with_at(s: &[char], at: usize, p: &[char]) -> (r: bool)
    requires
        at <= s.len(),
    ensures
        r == has_prefix(s@.skip(at as int), p@),
{
    if p.len() > s.len() - at {
        return false;
    }
    let mut i: usize = 0;
    while i < p.len()
        invariant
            at <= s.len(),
            p.len() <= s.len() - at,
            i <= p.len(),
            forall|j: int| 0 <= j < i ==> s@[at + j] == p@[j],
        decreases p.len() - i,
    {
        if s[at + i] != p[i] {
            assert(s@.skip(at as int).take(p.len() as int)[i as int] != p@[i as int]);
            return false;
        }
        i += 1;
    }
    assert(s@.skip(at as int).take(p.len() as int) == p@);
    true
}

/// `true` when `p` is a suffix of `s`.
pub fn ends_with(s: &[char], p: &[char]) -> (r: bool)
    ensures
        r == has_suffix(s@, p@),
{
    if p.len() > s.len() {
        return false;
    }
    let r = starts_with_at(s, s.len() - p.len(), p);
    proof {
        if r {
            assert(s@.skip(s.len() - p.len()).take(p.len() as int) == s@.skip(s.len() - p.len()));
        } else {
            assert(s@.skip(s.len() - p.len()).take(p.len() as int) == s@.skip(s.len() - p.len()));
        }
    }
    r
}

/// `true` when `c` occurs in `s`.
pub fn contains_char(s: &[char], c: char) -> (r: bool)
    ensures
        r == has_char(s@, c),
{
    let mut i: usize = 0;
    while i < s.len()
        invariant
            i <= s.len(),
            forall|j: int| 0 <= j < i ==> s@[j] != c,
        decreases s.len() - i,
    {
        if s[i] == c {
            return true;
        }
        i += 1;
    }
    false
}

/// Index of the first `c` in `s`, or the length of `s` when it has none.
pub open spec fn char_index(s: Seq<char>, c: char) -> int
    decreases s.len(),
{
    if s.len() == 0 || s[0] == c {
        0
    } else {
        1 + char_index(s.drop_first(), c)
    }
}

/// The first position holding `c` is `char_index`.
pub proof fn lemma_char_index(s: Seq<char>, c: char, i: int)
    requires
        0 <= i < s.len(),
        s[i] == c,
        forall|j: int| 0 <= j < i ==> s[j] != c,
    ensures
        char_index(s, c) == i,
    decreases i,
{
    if i > 0 {
        let t = s.drop_first();
        assert(t[i - 1] == s[i]);
        assert forall|j: int| 0 <= j < i - 1 implies t[j] != c by {
            assert(t[j] == s[j + 1]);
        }
        lemma_char_index(t, c, i - 1);
    }
}

/// Index of the first occurrence of `c` in `s`, if any.
pub fn find_char(s: &[char], c: char) -> (r: Option<usize>)
    ensures
        match r {
            Some(i) => i < s.len() && s@[i as int] == c && (forall|j: int|
                0 <= j < i ==> s@[j] != c) && i == char_index(s@, c),
            None => !has_char(s@, c),
        },
{
    let mut i: usize = 0;
    while i < s.len()
        invariant
            i <= s.len(),
            forall|j: int| 0 <= j < i ==> s@[j] != c,
        decreases s.len() - i,
    {
        if s[i] == c {
            proof {
                lemma_char_index(s@, c, i as int);
            }
            return Some(i);
        }
        i += 1;
    }
    None
}

/// The characters `s[from..to]`.
pub fn slice_of(s: &[char], from: usize, to: usize) -> (r: Vec<char>)
    requires
        from <= to <= s.len(),
    ensures
        r@ == s@.subrange(from as int, to as int),
{
    let mut r: Vec<char> = Vec::new();
    let mut i: usize = from;
    while i < to
        invariant
            from <= i <= to,
            to <= s.len(),
            r@ == s@.subrange(from as int, i as int),
        decreases to - i,
    {
        r.push(s[i]);
        assert(s@.subrange(from as int, i + 1) == s@.subrange(from as int, i as int).push(
            s@[i as int],
        ));
        i += 1;
    }
    r
}

/// `a` followed by `b`.
pub fn concat(a: &[char], b: &[char]) -> (r: Vec<char>)
    ensures
        r@ == a@ + b@,
{
    let mut r = slice_of(a, 0, a.len());
    let mut i: usize = 0;
    assert(a@.subrange(0, a.len() as int) == a@);
    while i < b.len()
        invariant
            i <= b.len(),
            r@ == a@ + b@.take(i as int),
        decreases b.len() - i,
    {
        r.push(b[i]);
        assert(b@.take(i + 1) == b@.take(i as int).push(b@[i as int]));
        i += 1;
    }
    assert(b@.take(b.len() as int) == b@);
    r
}

/// Appends `b` to the end of `a`.
pub fn extend(a: &mut Vec<char>, b: &[char])
    ensures
        final(a)@ == old(a)@ + b@,
{
    let mut i: usize = 0;
    while i < b.len()
        invariant
            i <= b.len(),
            a@ == old(a)@ + b@.take(i as int),
        decreases b.len() - i,
    {
        a.push(b[i]);
        assert(b@.take(i + 1) == b@.take(i as int).push(b@[i as int]));
        i += 1;
    }
    assert(b@.take(b.len() as int) == b@);
}

/// Appends a string slice to a string (`String::push_str`).
pub fn push_str(s: &mut String, t: &str)
    ensures
        final(s)@ == old(s)@ + t@,
{
    s.append(t);
}

/// Splits `s` at every occurrence of `sep`.
pub fn split_chars(s: &[char], sep: char) -> (r: Vec<Vec<char>>)
    ensures
        vec_views(r@) == split(s@, sep),
{
    let mut pieces: Vec<Vec<char>> = Vec::new();
    let mut cur: Vec<char> = Vec::new();
    let mut i: usize = 0;
    assert(s@.take(0) == Seq::<char>::empty());
    assert(vec_views(pieces@).push(cur@) == split(s@.take(0), sep));
    while i < s.len()
        invariant
            i <= s.len(),
            vec_views(pieces@).push(cur@) == split(s@.take(i as int), sep),
        decreases s.len() - i,
    {
        let ghost before = vec_views(pieces@).push(cur@);
        let c = s[i];
        assert(s@.take(i + 1).drop_last() == s@.take(i as int));
        assert(s@.take(i + 1).last() == c);
        if c == sep {
            let done = cur;
            pieces.push(done);
            cur = Vec::new();
            assert(vec_views(pieces@) == before);
            assert(vec_views(pieces@).push(cur@) == before.push(Seq::<char>::empty()));
        } else {
            cur.push(c);
            assert(vec_views(pieces@).push(cur@) == before.update(
                before.len() - 1,
                before.last().push(c),
            ));
        }
        i += 1;
    }
    assert(s@.take(s.len() as int) == s@);
    pieces.push(cur);
    assert(vec_views(pieces@) == split(s@, sep));
    pieces
}

/// Leftmost, non-overlapping replacement of `pat` by `to` in `s`.
pub fn replace_chars(s: &[char], pat: &[char], to: &[char]) -> (r: Vec<char>)
    requires
        pat.len() > 0,
    ensures
        r@ == replace(s@, pat@, to@),
{
    let mut out: Vec<char> = Vec::new();
    let mut i: usize = 0;
    assert(s@.skip(0) == s@);
    while i < s.len() && pat.len() <= s.len() - i
        invariant
            pat.len() > 0,
            i <= s.len(),
            out@ + replace(s@.skip(i as int), pat@, to@) == replace(s@, pat@, to@),
        decreases s.len() - i,
    {
        let ghost t = s@.skip(i as int);
        if starts_with_at(s, i, pat) {
            extend(&mut out, to);
            assert(t.take(pat@.len() as int) == pat@);
            assert(t.skip(pat@.len() as int) == s@.skip(i + pat.len()));
            assert(out@ + replace(s@.skip(i + pat.len()), pat@, to@) == replace(s@, pat@, to@));
            i = i + pat.len();
        } else {
            out.push(s[i]);
            assert(t.drop_first() == s@.skip(i + 1));
            assert(seq![t[0]] + replace(t.drop_first(), pat@, to@) == replace(t, pat@, to@));
            assert(out@ + replace(s@.skip(i + 1), pat@, to@) == replace(s@, pat@, to@));
            i = i + 1;
        }
    }
    let tail = slice_of(s, i, s.len());
    assert(tail@ == s@.skip(i as int));
    extend(&mut out, &tail);
    out
}

/// ASCII upper-casing of one character.
pub fn to_upper(c: char) -> (r: char)
    ensures
        r == upper(c),
{
    if 'a' <= c && c <= 'z' {
        let b: u8 = c as u8;
        (b - 32) as char
    } else {
        c
    }
}

/// ASCII lower-casing of one character.
pub fn to_lower(c: char) -> (r: char)
    ensures
        r == lower(c),
{
    if 'A' <= c && c <= 'Z' {
        let b: u8 = c as u8;
        (b + 32) as char
    } else {
        c
    }
}

/// ASCII upper-casing of every character.
pub fn upper_chars(s: &[char]) -> (r: Vec<char>)
    ensures
        r@ == upper_seq(s@),
{
    let mut r: Vec<char> = Vec::new();
    let mut i: usize = 0;
    while i < s.len()
        invariant
            i <= s.len(),
            r@ == upper_seq(s@.take(i as int)),
        decreases s.len() - i,
    {
        r.push(to_upper(s[i]));
        assert(upper_seq(s@.take(i + 1)) == upper_seq(s@.take(i as int)).push(upper(s@[i as int])));
        i += 1;
    }
    assert(s@.take(s.len() as int) == s@);
    r
}

/// ASCII lower-casing of every character.
pub fn lower_chars(s: &[char]) -> (r: Vec<char>)
    ensures
        r@ == lower_seq(s@),
{
    let mut r: Vec<char> = Vec::new();
    let mut i: usize = 0;
    while i < s.len()
        invariant
            i <= s.len(),
            r@ == lower_seq(s@.take(i as int)),
        decreases s.len() - i,
    {
        r.push(to_lower(s[i]));
        assert(lower_seq(s@.take(i + 1)) == lower_seq(s@.take(i as int)).push(lower(s@[i as int])));
        i += 1;
    }
    assert(s@.take(s.len() as int) == s@);
    r
}

/// Decimal rendering of a count.
pub fn decimal_chars(n: usize) -> (r: Vec<char>)
    ensures
        r@ == decimal(n as nat),
    decreases n,
{
    if n < 10 {
        let d: u8 = n as u8;
        let c = (d + 48) as char;
        let mut r: Vec<char> = Vec::new();
        r.push(c);
        r
    } else {
        let mut r = decimal_chars(n / 10);
        let d: u8 = (n % 10) as u8;
        r.push((d + 48) as char);
        r
    }
}

/// Decimal rendering of a 128-bit count.
pub fn decimal_u128(n: u128) -> (r: Vec<char>)
    ensures
        r@ == decimal(n as nat),
    decreases n,
{
    if n < 10 {
        let d: u8 = n as u8;
        let c = (d + 48) as char;
        let mut r: Vec<char> = Vec::new();
        r.push(c);
        r
    } else {
        let mut r = decimal_u128(n / 10);
        let d: u8 = (n % 10) as u8;
        r.push((d + 48) as char);
        r
    }
}

/// The strings joined with `sep` between neighbours.
pub fn join_with(parts: &[String], sep: char) -> (r: String)
    ensures
        r@ == join(views(parts@), sep),
{
    let ghost pv = views(parts@);
    let mut r = String::new();
    let mut i: usize = 0;
    assert(r@ =~= join(pv.take(0), sep));
    while i < parts.len()
        invariant
            i <= parts.len(),
            pv == views(parts@),
            r@ == join(pv.take(i as int), sep),
        decreases parts.len() - i,
    {
        assert(pv.take(i + 1).drop_last() == pv.take(i as int));
        assert(pv.take(i + 1).last() == parts@[i as int]@);
        if i > 0 {
            push_char(&mut r, sep);
        }
        push_str(&mut r, parts[i].as_str());
        proof {
            if i == 0 {
                assert(r@ =~= pv.take(1)[0]);
            }
        }
        i += 1;
    }
    assert(pv.take(parts.len() as int) == pv);
    r
}

/// Views of a vector of character vectors, as strings.
pub fn strings_of(v: &Vec<Vec<char>>) -> (r: Vec<String>)
    ensures
        views(r@) == vec_views(v@),
{
    let mut r: Vec<String> = Vec::new();
    let mut i: usize = 0;
    while i < v.len()
        invariant
            i <= v.len(),
            views(r@) == vec_views(v@.take(i as int)),
        decreases v.len() - i,
    {
        r.push(string_of(&v[i]));
        assert(vec_views(v@.take(i + 1)) == vec_views(v@.take(i as int)).push(v@[i as int]@));
        i += 1;
    }
    assert(v@.take(v.len() as int) == v@);
    r
}

} // verus!
