//! Grammar of env labels, capture references and remote slugs, and the key
//! provider setting.
use vstd::prelude::*;

use crate::error::HimitsuError;
use crate::text::{
    chars_of, digits_value, join, ends_with, has_char, has_suffix, is_ascii_alnum, is_ascii_digit,
    push_str, split, split_chars, string_of, strings_of, vec_views, views,
};

verus! {

// ── Env labels ───────────────────────────────────────────────────────────

/// Characters legal within one env-label segment: `[A-Za-z0-9_-]`.
pub open spec fn is_env_segment_char(c: char) -> bool {
    is_ascii_alnum(c) || c == '-' || c == '_'
}

/// One segment of a label at position `i` of `n` segments is acceptable.
pub open spec fn valid_label_segment(seg: Seq<char>, i: int, n: int) -> bool {
    &&& seg.len() > 0
    &&& seg == seq!['*'] ==> (i == n - 1 && i != 0)
    &&& seg != seq!['*'] ==> forall|j: int| 0 <= j < seg.len() ==> is_env_segment_char(#[trigger] seg[j])
}

/// A concrete (`foo/bar`) or trailing-wildcard (`foo/*`) env label.
pub open spec fn valid_env_label(label: Seq<char>) -> bool {
    label.len() > 0 && forall|i: int|
        0 <= i < split(label, '/').len() ==> valid_label_segment(
            #[trigger] split(label, '/')[i],
            i,
            split(label, '/').len() as int,
        )
}

fn segment_chars_ok(seg: &[char]) -> (r: bool)
    ensures
        r == forall|j: int| 0 <= j < seg@.len() ==> is_env_segment_char(#[trigger] seg@[j]),
{
    let mut j: usize = 0;
    while j < seg.len()
        invariant
            j <= seg.len(),
            forall|k: int| 0 <= k < j ==> is_env_segment_char(#[trigger] seg@[k]),
        decreases seg.len() - j,
    {
        let c = seg[j];
        let ok = ('a' <= c && c <= 'z') || ('A' <= c && c <= 'Z') || ('0' <= c && c <= '9') || c
            == '-' || c == '_';
        if !ok {
            assert(!is_env_segment_char(seg@[j as int]));
            return false;
        }
        j += 1;
    }
    true
}

fn is_star(seg: &[char]) -> (r: bool)
    ensures
        r == (seg@ == seq!['*']),
{
    let r = seg.len() == 1 && seg[0] == '*';
    proof {
        if r {
            assert(seg@ =~= seq!['*']);
        }
        if seg@ == seq!['*'] {
            assert(seg@[0] == '*');
        }
    }
    r
}

/// Validates an env label against the preset-env grammar.
pub fn validate_env_label(label: &str) -> (r: Result<(), HimitsuError>)
    ensures
        r is Ok <==> valid_env_label(label@),
        r matches Err(e) ==> e is InvalidConfig,
{
    let cs = chars_of(label);
    if cs.len() == 0 {
        return Err(HimitsuError::InvalidConfig(String::from_str("env label must not be empty")));
    }
    let segs = split_chars(&cs, '/');
    let ghost parts = split(label@, '/');
    let n = segs.len();
    let mut i: usize = 0;
    while i < n
        invariant
            n == segs.len(),
            parts == vec_views(segs@),
            parts == split(label@, '/'),
            i <= n,
            forall|k: int| 0 <= k < i ==> valid_label_segment(#[trigger] parts[k], k, n as int),
        decreases n - i,
    {
        let seg = &segs[i];
        assert(parts[i as int] == seg@);
        if seg.len() == 0 {
            let mut msg = String::from_str("env label '");
            push_str(&mut msg, label);
            push_str(&mut msg, "' has an empty segment (leading/trailing slash or `//`)");
            return Err(HimitsuError::InvalidConfig(msg));
        }
        if is_star(seg) {
            if i != n - 1 {
                let mut msg = String::from_str("env label '");
                push_str(&mut msg, label);
                push_str(&mut msg, "' has a mid-path wildcard: `*` is only allowed as the final segment");
                return Err(HimitsuError::InvalidConfig(msg));
            }
            if i == 0 {
                let mut msg = String::from_str("env label '");
                push_str(&mut msg, label);
                push_str(&mut msg, "' is a bare wildcard: at least one concrete segment is required before `*`");
                return Err(HimitsuError::InvalidConfig(msg));
            }
        } else if !segment_chars_ok(seg) {
            let mut msg = String::from_str("env label '");
            push_str(&mut msg, label);
            push_str(&mut msg, "' segment '");
            push_str(&mut msg, string_of(seg).as_str());
            push_str(&mut msg, "' contains invalid characters (allowed: [A-Za-z0-9_-])");
            return Err(HimitsuError::InvalidConfig(msg));
        }
        i += 1;
    }
    Ok(())
}

/// `true` when the label ends in `/*`.
pub fn is_wildcard_label(label: &str) -> (r: bool)
    ensures
        r == has_suffix(label@, seq!['/', '*']),
{
    let cs = chars_of(label);
    let suffix = ['/', '*'];
    assert(suffix@ == seq!['/', '*']);
    ends_with(&cs, &suffix)
}

/// The concrete prefix segments of a label: all its segments, without a
/// final `*`.
pub open spec fn prefix_segments(label: Seq<char>) -> Seq<Seq<char>> {
    let segs = split(label, '/');
    if segs.last() == seq!['*'] {
        segs.drop_last()
    } else {
        segs
    }
}

/// A label ending in `/*` has `*` as its last segment.
proof fn lemma_wildcard_last_segment(label: Seq<char>)
    requires
        has_suffix(label, seq!['/', '*']),
    ensures
        split(label, '/').last() == seq!['*'],
{
    let d = label.drop_last();
    assert(d.last() == '/') by {
        assert(label.skip(label.len() - 2) =~= seq!['/', '*']);
        assert(label[label.len() - 2] == '/');
    }
    assert(label.last() == '*') by {
        assert(label.skip(label.len() - 2) =~= seq!['/', '*']);
    }
    crate::text::lemma_split_nonempty(d.drop_last(), '/');
    assert(split(d, '/').last() =~= Seq::<char>::empty());
    crate::text::lemma_split_nonempty(d, '/');
    assert(split(label, '/').last() =~= Seq::<char>::empty().push('*'));
}

/// The prefix segments of a valid label are not empty, none of them is
/// `*`, and joined by `/` (with `/*` added back for a wildcard label) they
/// give the label.
pub proof fn lemma_prefix_segments_rejoin(label: Seq<char>)
    requires
        valid_env_label(label),
    ensures
        prefix_segments(label).len() > 0,
        !prefix_segments(label).contains(seq!['*']),
        join(prefix_segments(label), '/') + (if has_suffix(label, seq!['/', '*']) {
            seq!['/', '*']
        } else {
            Seq::<char>::empty()
        }) == label,
{
    let segs = split(label, '/');
    let n = segs.len();
    crate::text::lemma_split_nonempty(label, '/');
    crate::text::lemma_join_split(label, '/');
    assert(valid_label_segment(segs[n - 1], n - 1, n as int));
    let p = prefix_segments(label);
    if segs.last() == seq!['*'] {
        assert(n >= 2);
        assert(p == segs.drop_last());
        assert(join(segs, '/') == join(segs.drop_last(), '/').push('/') + segs.last());
        assert(join(p, '/').push('/') + seq!['*'] =~= join(p, '/') + seq!['/', '*']);
        assert(has_suffix(label, seq!['/', '*'])) by {
            assert(label.skip(label.len() - 2) =~= seq!['/', '*']);
        }
        assert forall|i: int| 0 <= i < p.len() implies p[i] != seq!['*'] by {
            assert(valid_label_segment(segs[i], i, n as int));
        }
        assert(p.len() > 0);
    } else {
        assert(p == segs);
        if has_suffix(label, seq!['/', '*']) {
            lemma_wildcard_last_segment(label);
        }
        assert(join(p, '/') + Seq::<char>::empty() =~= join(p, '/'));
        assert forall|i: int| 0 <= i < p.len() implies p[i] != seq!['*'] by {
            assert(valid_label_segment(segs[i], i, n as int));
        }
    }
}

/// Segments of a label with a trailing `*` removed (`foo/bar/*` → `[foo, bar]`).
/// For a valid label they are not empty, none is `*`, and joined by `/`
/// (with `/*` added back for a wildcard label) they give the label.
pub fn label_prefix_segments(label: &str) -> (r: Vec<String>)
    ensures
        views(r@) == prefix_segments(label@),
        valid_env_label(label@) ==> views(r@).len() > 0 && !views(r@).contains(seq!['*'])
            && join(views(r@), '/') + (if has_suffix(label@, seq!['/', '*']) {
            seq!['/', '*']
        } else {
            Seq::<char>::empty()
        }) == label@,
{
    proof {
        if valid_env_label(label@) {
            lemma_prefix_segments_rejoin(label@);
        }
    }
    let cs = chars_of(label);
    let mut segs = split_chars(&cs, '/');
    proof {
        crate::text::lemma_split_nonempty(label@, '/');
    }
    let last = segs.len() - 1;
    if is_star(&segs[last]) {
        let ghost before = vec_views(segs@);
        segs.pop();
        assert(vec_views(segs@) == before.drop_last());
    }
    strings_of(&segs)
}

// ── Capture references ───────────────────────────────────────────────────

/// Length of the run of ASCII digits at the start of `s`.
pub open spec fn digit_run(s: Seq<char>) -> nat
    decreases s.len(),
{
    if s.len() > 0 && is_ascii_digit(s[0]) {
        1 + digit_run(s.drop_first())
    } else {
        0
    }
}

/// The capture numbers referenced by `$N` in `s`, in order; numbers that do
/// not fit in 32 bits are skipped.
pub open spec fn captures(s: Seq<char>) -> Seq<u32>
    decreases s.len(),
{
    if s.len() == 0 {
        Seq::empty()
    } else if s[0] == '$' && s.len() > 1 && is_ascii_digit(s[1]) {
        let n = digit_run(s.drop_first()) as int;
        proof {
            lemma_digit_run_bound(s.drop_first());
        }
        let v = digits_value(s.subrange(1, 1 + n));
        let rest = captures(s.skip(1 + n));
        if v <= u32::MAX {
            seq![v as u32] + rest
        } else {
            rest
        }
    } else {
        captures(s.drop_first())
    }
}

pub proof fn lemma_digit_run_bound(s: Seq<char>)
    ensures
        digit_run(s) <= s.len(),
        forall|k: int| 0 <= k < digit_run(s) ==> is_ascii_digit(#[trigger] s[k]),
        digit_run(s) < s.len() ==> !is_ascii_digit(s[digit_run(s) as int]),
    decreases s.len(),
{
    if s.len() > 0 && is_ascii_digit(s[0]) {
        lemma_digit_run_bound(s.drop_first());
        assert forall|k: int| 0 <= k < digit_run(s) implies is_ascii_digit(#[trigger] s[k]) by {
            if k > 0 {
                assert(s[k] == s.drop_first()[k - 1]);
            }
        }
    }
}

pub proof fn lemma_digit_run_of(s: Seq<char>, n: nat)
    requires
        n <= s.len(),
        forall|k: int| 0 <= k < n ==> is_ascii_digit(#[trigger] s[k]),
        n == s.len() || !is_ascii_digit(s[n as int]),
    ensures
        digit_run(s) == n,
    decreases n,
{
    if n > 0 {
        assert(is_ascii_digit(s[0]));
        assert forall|k: int| 0 <= k < (n - 1) as nat implies is_ascii_digit(
            #[trigger] s.drop_first()[k],
        ) by {
            assert(s.drop_first()[k] == s[k + 1]);
        }
        if n < s.len() {
            assert(s.drop_first()[n - 1] == s[n as int]);
        }
        lemma_digit_run_of(s.drop_first(), (n - 1) as nat);
    } else {
        if s.len() > 0 {
            assert(!is_ascii_digit(s[0]));
        }
    }
}

/// Extracts the capture numbers referenced in a string (`$1`, `$2`, …) in
/// order of appearance.
pub fn parse_captures(s: &str) -> (r: Vec<u32>)
    ensures
        r@ == captures(s@),
{
    let cs = chars_of(s);
    let mut out: Vec<u32> = Vec::new();
    let mut i: usize = 0;
    assert(cs@.skip(0) == cs@);
    while i < cs.len()
        invariant
            i <= cs.len(),
            out@ + captures(cs@.skip(i as int)) == captures(cs@),
        decreases cs.len() - i,
    {
        let ghost t = cs@.skip(i as int);
        if cs[i] == '$' && i + 1 < cs.len() && '0' <= cs[i + 1] && cs[i + 1] <= '9' {
            let start = i + 1;
            let mut j = start;
            let mut val: u64 = 0;
            let mut big = false;
            while j < cs.len() && '0' <= cs[j] && cs[j] <= '9'
                invariant
                    start <= j <= cs.len(),
                    forall|k: int| start <= k < j ==> is_ascii_digit(#[trigger] cs@[k]),
                    !big ==> val == digits_value(cs@.subrange(start as int, j as int)),
                    !big ==> val <= u32::MAX,
                    big ==> digits_value(cs@.subrange(start as int, j as int)) > u32::MAX,
                decreases cs.len() - j,
            {
                let d = (cs[j] as u32 - 48) as u64;
                let ghost prev = cs@.subrange(start as int, j as int);
                assert(cs@.subrange(start as int, j + 1).drop_last() == prev);
                if !big {
                    if val * 10 + d > 0xffff_ffff {
                        big = true;
                    } else {
                        val = val * 10 + d;
                    }
                } else {
                    assert(digits_value(prev) * 10 + d >= digits_value(prev)) by (nonlinear_arith);
                }
                j += 1;
            }
            proof {
                assert(t.drop_first() == cs@.skip(start as int));
                assert forall|k: int| 0 <= k < (j - start) as nat implies is_ascii_digit(
                    #[trigger] cs@.skip(start as int)[k],
                ) by {
                    assert(cs@.skip(start as int)[k] == cs@[start + k]);
                }
                if j < cs.len() {
                    assert(cs@.skip(start as int)[j - start] == cs@[j as int]);
                }
                lemma_digit_run_of(cs@.skip(start as int), (j - start) as nat);
                assert(t.subrange(1, 1 + (j - start)) == cs@.subrange(start as int, j as int));
                assert(t.skip(1 + (j - start)) == cs@.skip(j as int));
            }
            if !big {
                out.push(val as u32);
            }
            i = j;
        } else {
            proof {
                assert(t.drop_first() == cs@.skip(i + 1));
                if t.len() > 1 {
                    assert(t[1] == cs@[i + 1]);
                }
            }
            i += 1;
        }
    }
    assert(cs@.skip(cs.len() as int) == Seq::<char>::empty());
    out
}

// ── Remote slugs ─────────────────────────────────────────────────────────

/// A slug segment that is acceptable: non-empty, not `.` or `..`, and free of
/// the URL characters `:` `@` `\`.
pub open spec fn valid_slug_part(p: Seq<char>) -> bool {
    &&& p.len() > 0
    &&& p != seq!['.']
    &&& p != seq!['.', '.']
    &&& !has_char(p, ':')
    &&& !has_char(p, '@')
    &&& !has_char(p, '\\')
}

/// An `org/repo` slug.
pub open spec fn valid_slug(slug: Seq<char>) -> bool {
    split(slug, '/').len() == 2 && valid_slug_part(split(slug, '/')[0]) && valid_slug_part(
        split(slug, '/')[1],
    )
}

fn slug_part_ok(p: &[char]) -> (r: bool)
    ensures
        r == valid_slug_part(p@),
{
    if p.len() == 0 {
        return false;
    }
    let dot = p.len() == 1 && p[0] == '.';
    let dotdot = p.len() == 2 && p[0] == '.' && p[1] == '.';
    proof {
        if dot {
            assert(p@ =~= seq!['.']);
        }
        if dotdot {
            assert(p@ =~= seq!['.', '.']);
        }
        if p@ == seq!['.'] {
            assert(p@[0] == '.');
        }
        if p@ == seq!['.', '.'] {
            assert(p@[0] == '.' && p@[1] == '.');
        }
    }
    if dot || dotdot {
        return false;
    }
    !crate::text::contains_char(p, ':') && !crate::text::contains_char(p, '@')
        && !crate::text::contains_char(p, '\\')
}

/// Validates an `org/repo` slug and returns its two parts.
pub fn validate_remote_slug(slug: &str) -> (r: Result<(String, String), HimitsuError>)
    ensures
        r is Ok <==> valid_slug(slug@),
        r matches Ok((org, repo)) ==> org@ == split(slug@, '/')[0] && repo@ == split(slug@, '/')[1],
        r matches Err(e) ==> e is InvalidConfig,
{
    let cs = chars_of(slug);
    let parts = split_chars(&cs, '/');
    if parts.len() != 2 || !slug_part_ok(&parts[0]) || !slug_part_ok(&parts[1]) {
        let mut msg = String::from_str("invalid remote slug '");
        push_str(&mut msg, slug);
        push_str(&mut msg, "': expected 'org/repo'");
        return Err(HimitsuError::InvalidConfig(msg));
    }
    assert(vec_views(parts@)[0] == parts@[0]@);
    assert(vec_views(parts@)[1] == parts@[1]@);
    Ok((string_of(&parts[0]), string_of(&parts[1])))
}

// ── Key provider ─────────────────────────────────────────────────────────

/// How age private keys are stored and retrieved.
#[derive(Debug, Clone, Copy, PartialEq, Eq, Default)]
pub enum KeyProvider {
    /// Keys live on disk in the data directory.
    #[default]
    Disk,
    /// Keys are kept in the macOS Keychain.
    MacosKeychain,
}

impl KeyProvider {
    /// The name a provider is written as in config files.
    pub open spec fn name(self) -> Seq<char> {
        match self {
            KeyProvider::Disk => "disk"@,
            KeyProvider::MacosKeychain => "macos-keychain"@,
        }
    }

    /// The provider's name.
    pub fn as_str(&self) -> (r: &'static str)
        ensures
            r@ == self.name(),
    {
        match self {
            KeyProvider::Disk => "disk",
            KeyProvider::MacosKeychain => "macos-keychain",
        }
    }

    /// Parses a provider name; anything but the two names is refused.
    pub fn from_str(s: &str) -> (r: Result<KeyProvider, HimitsuError>)
        ensures
            r matches Ok(k) ==> k.name() == s@,
            r is Err <==> (s@ != "disk"@ && s@ != "macos-keychain"@),
            r matches Err(e) ==> e is InvalidConfig,
    {
        proof {
            reveal_strlit("disk");
            reveal_strlit("macos-keychain");
        }
        if crate::text::str_eq(s, "disk") {
            Ok(KeyProvider::Disk)
        } else if crate::text::str_eq(s, "macos-keychain") {
            Ok(KeyProvider::MacosKeychain)
        } else {
            let mut msg = String::from_str("unknown key provider '");
            push_str(&mut msg, s);
            push_str(&mut msg, "': expected 'disk' or 'macos-keychain'");
            Err(HimitsuError::InvalidConfig(msg))
        }
    }
}

} // verus!
