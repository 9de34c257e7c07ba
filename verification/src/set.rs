//! `set`: what is checked before a secret is written — the TOTP input, the
//! env-var name override and the tags — and the value written for plain
//! text.
use vstd::prelude::*;

use crate::env_dsl::{is_white, trim, trim_chars};
use crate::error::HimitsuError;
use crate::secret::Decoded;
use crate::tags::{tag_problem, valid_tag, validate_tag};
use crate::text::{
    chars_of, debug_quoted, decimal, decimal_chars, has_prefix, is_ascii_alnum, is_ascii_alpha,
    push_str, quoted, starts_with, string_of, views,
};

verus! {

// ── TOTP ─────────────────────────────────────────────────────────────────

/// The characters kept when cleaning a base32 secret: all but white space
/// and dashes.
pub open spec fn totp_cleaned(s: Seq<char>) -> Seq<char>
    decreases s.len(),
{
    if s.len() == 0 {
        s
    } else {
        let rest = totp_cleaned(s.drop_last());
        if is_white(s.last()) || s.last() == '-' {
            rest
        } else {
            rest.push(s.last())
        }
    }
}

/// `s` without trailing `=` padding.
pub open spec fn strip_padding(s: Seq<char>) -> Seq<char>
    decreases s.len(),
{
    if s.len() > 0 && s.last() == '=' {
        strip_padding(s.drop_last())
    } else {
        s
    }
}

/// The number of bytes a character takes in UTF-8.
pub open spec fn utf8_width(c: char) -> nat {
    if (c as u32) < 0x80 {
        1
    } else if (c as u32) < 0x800 {
        2
    } else if (c as u32) < 0x10000 {
        3
    } else {
        4
    }
}

/// The UTF-8 length of a string.
pub open spec fn byte_len(s: Seq<char>) -> nat
    decreases s.len(),
{
    if s.len() == 0 {
        0
    } else {
        byte_len(s.drop_last()) + utf8_width(s.last())
    }
}

/// A character of the RFC 4648 base32 alphabet, either case.
pub open spec fn is_base32(c: char) -> bool {
    is_ascii_alpha(c) || ('2' <= c && c <= '7')
}

/// What is wrong with a TOTP input, if anything. An `otpauth://` URI is
/// accepted as it is; otherwise the input must be a base32 secret of at
/// least 16 characters once white space, dashes and `=` padding are set
/// aside (counted in UTF-8 bytes).
pub open spec fn totp_problem(input: Seq<char>) -> Option<Seq<char>> {
    let t = trim(input);
    let body = strip_padding(totp_cleaned(t));
    if t.len() == 0 {
        Some("totp value is empty"@)
    } else if has_prefix(t, "otpauth://"@) {
        None
    } else if byte_len(body) < 16 {
        Some(
            "totp secret too short (got "@ + decimal(byte_len(body))
                + " base32 chars, need >= 16) — pass an otpauth:// URI or a longer base32 string"@,
        )
    } else if !(forall|i: int| 0 <= i < body.len() ==> is_base32(#[trigger] body[i])) {
        Some("totp secret must be base32 (A–Z, 2–7) or an otpauth:// URI"@)
    } else {
        None
    }
}

fn width_of(c: char) -> (r: usize)
    ensures
        r == utf8_width(c),
{
    let v = c as u32;
    if v < 0x80 {
        1
    } else if v < 0x800 {
        2
    } else if v < 0x10000 {
        3
    } else {
        4
    }
}

proof fn lemma_byte_len_prefix(s: Seq<char>, j: int)
    requires
        0 <= j <= s.len(),
    ensures
        byte_len(s.take(j)) <= byte_len(s),
    decreases s.len() - j,
{
    if j < s.len() {
        lemma_byte_len_prefix(s, j + 1);
        assert(s.take(j + 1).drop_last() == s.take(j));
    } else {
        assert(s.take(j) == s);
    }
}

/// Checks a TOTP input: an `otpauth://` URI or a raw base32 secret.
pub fn validate_totp(input: &str) -> (r: Result<(), HimitsuError>)
    ensures
        match totp_problem(input@) {
            None => r is Ok,
            Some(m) => r matches Err(e) && e is InvalidReference && e.detail() == m,
        },
{
    let t = trim_chars(&chars_of(input));
    if t.len() == 0 {
        return Err(HimitsuError::InvalidReference(String::from_str("totp value is empty")));
    }
    let scheme = chars_of("otpauth://");
    if starts_with(&t, &scheme) {
        return Ok(());
    }
    let mut cleaned: Vec<char> = Vec::new();
    let mut i: usize = 0;
    while i < t.len()
        invariant
            i <= t@.len(),
            cleaned@ == totp_cleaned(t@.take(i as int)),
        decreases t.len() - i,
    {
        assert(t@.take(i + 1).drop_last() == t@.take(i as int));
        let c = t[i];
        if !(crate::env_dsl::is_white_char(c) || c == '-') {
            cleaned.push(c);
        }
        i += 1;
    }
    assert(t@.take(t@.len() as int) == t@);
    let mut end: usize = cleaned.len();
    assert(cleaned@.take(end as int) == cleaned@);
    while end > 0 && cleaned[end - 1] == '='
        invariant
            end <= cleaned@.len(),
            strip_padding(cleaned@) == strip_padding(cleaned@.take(end as int)),
        decreases end,
    {
        assert(cleaned@.take(end as int).drop_last() == cleaned@.take(end - 1));
        end -= 1;
    }
    let ghost body = cleaned@.take(end as int);
    assert(strip_padding(body) == body);
    let mut bytes: usize = 0;
    let mut j: usize = 0;
    while j < end && bytes < 16
        invariant
            j <= end <= cleaned@.len(),
            body == cleaned@.take(end as int),
            bytes == byte_len(body.take(j as int)),
            bytes < 20,
        decreases end - j,
    {
        assert(body.take(j + 1).drop_last() == body.take(j as int));
        assert(body.take(j + 1).last() == cleaned@[j as int]);
        bytes = bytes + width_of(cleaned[j]);
        j += 1;
    }
    proof {
        lemma_byte_len_prefix(body, j as int);
    }
    if bytes < 16 {
        assert(body.take(end as int) == body);
        let mut m = String::from_str("totp secret too short (got ");
        let n = string_of(&decimal_chars(bytes));
        push_str(&mut m, n.as_str());
        push_str(
            &mut m,
            " base32 chars, need >= 16) — pass an otpauth:// URI or a longer base32 string",
        );
        return Err(HimitsuError::InvalidReference(m));
    }
    let mut k: usize = 0;
    while k < end
        invariant
            k <= end <= cleaned@.len(),
            body == cleaned@.take(end as int),
            forall|x: int| 0 <= x < k ==> is_base32(#[trigger] body[x]),
            t@ == trim(input@),
            t@.len() > 0,
            !has_prefix(t@, "otpauth://"@),
            cleaned@ == totp_cleaned(t@),
            strip_padding(cleaned@) == body,
            byte_len(body) >= 16,
        decreases end - k,
    {
        let c = cleaned[k];
        if !(('a' <= c && c <= 'z') || ('A' <= c && c <= 'Z') || ('2' <= c && c <= '7')) {
            assert(!is_base32(body[k as int]));
            return Err(
                HimitsuError::InvalidReference(
                    String::from_str("totp secret must be base32 (A–Z, 2–7) or an otpauth:// URI"),
                ),
            );
        }
        k += 1;
    }
    Ok(())
}

// ── Env-var names ────────────────────────────────────────────────────────

/// A POSIX environment variable name: a letter or underscore, then
/// letters, digits or underscores.
pub open spec fn valid_env_key(k: Seq<char>) -> bool {
    &&& k.len() > 0
    &&& (is_ascii_alpha(k[0]) || k[0] == '_')
    &&& forall|i: int| 1 <= i < k.len() ==> (is_ascii_alnum(#[trigger] k[i]) || k[i] == '_')
}

/// What is wrong with an env-var name.
pub open spec fn env_key_problem(k: Seq<char>) -> Seq<char> {
    if k.len() == 0 {
        "env-key is empty"@
    } else if !(is_ascii_alpha(k[0]) || k[0] == '_') {
        "env-key must start with a letter or underscore (got "@ + debug_quoted(k) + ")"@
    } else {
        "env-key may only contain letters, digits, or underscores (got "@ + debug_quoted(k)
            + ")"@
    }
}

/// Checks a `--env-key` override against the POSIX name grammar.
pub fn validate_env_key(input: &str) -> (r: Result<(), HimitsuError>)
    ensures
        r is Ok <==> valid_env_key(input@),
        r matches Err(e) ==> e is InvalidReference && e.detail() == env_key_problem(input@),
{
    let cs = chars_of(input);
    if cs.len() == 0 {
        return Err(HimitsuError::InvalidReference(String::from_str("env-key is empty")));
    }
    let first = cs[0];
    if !(('a' <= first && first <= 'z') || ('A' <= first && first <= 'Z') || first == '_') {
        let mut m = String::from_str("env-key must start with a letter or underscore (got ");
        let q = quoted(input);
        push_str(&mut m, q.as_str());
        push_str(&mut m, ")");
        return Err(HimitsuError::InvalidReference(m));
    }
    let mut i: usize = 1;
    while i < cs.len()
        invariant
            1 <= i <= cs@.len(),
            cs@ == input@,
            is_ascii_alpha(cs@[0]) || cs@[0] == '_',
            forall|j: int| 1 <= j < i ==> (is_ascii_alnum(#[trigger] cs@[j]) || cs@[j] == '_'),
        decreases cs.len() - i,
    {
        let c = cs[i];
        if !(('a' <= c && c <= 'z') || ('A' <= c && c <= 'Z') || ('0' <= c && c <= '9') || c
            == '_') {
            assert(!(is_ascii_alnum(cs@[i as int]) || cs@[i as int] == '_'));
            let mut m = String::from_str(
                "env-key may only contain letters, digits, or underscores (got ",
            );
            let q = quoted(input);
            push_str(&mut m, q.as_str());
            push_str(&mut m, ")");
            return Err(HimitsuError::InvalidReference(m));
        }
        i += 1;
    }
    Ok(())
}

// ── Tags ─────────────────────────────────────────────────────────────────

/// The first tag of the list that breaks the grammar, if any.
pub open spec fn first_bad_tag(tags: Seq<Seq<char>>) -> Option<Seq<char>>
    decreases tags.len(),
{
    if tags.len() == 0 {
        None
    } else if !valid_tag(tags[0]) {
        Some(tags[0])
    } else {
        first_bad_tag(tags.drop_first())
    }
}

pub open spec fn invalid_tag_msg(t: Seq<char>) -> Seq<char> {
    "invalid tag "@ + debug_quoted(t) + ": "@ + tag_problem(t)
}

/// Checks every tag before anything is written, and returns them.
pub fn validate_tags(raw: &[String]) -> (r: Result<Vec<String>, HimitsuError>)
    ensures
        match first_bad_tag(views(raw@)) {
            None => r matches Ok(v) && views(v@) == views(raw@),
            Some(t) => r matches Err(e) && e is InvalidReference && e.detail()
                == invalid_tag_msg(t),
        },
{
    let ghost rv = views(raw@);
    let mut out: Vec<String> = Vec::new();
    let mut i: usize = 0;
    assert(rv.skip(0) == rv);
    while i < raw.len()
        invariant
            i <= raw@.len(),
            rv == views(raw@),
            views(out@) == rv.take(i as int),
            first_bad_tag(rv) == first_bad_tag(rv.skip(i as int)),
        decreases raw.len() - i,
    {
        assert(rv.skip(i as int)[0] == raw@[i as int]@);
        assert(rv.skip(i as int).drop_first() == rv.skip(i + 1));
        match validate_tag(raw[i].as_str()) {
            Err(reason) => {
                let mut m = String::from_str("invalid tag ");
                let q = quoted(raw[i].as_str());
                push_str(&mut m, q.as_str());
                push_str(&mut m, ": ");
                push_str(&mut m, reason.as_str());
                return Err(HimitsuError::InvalidReference(m));
            },
            Ok(_) => {},
        }
        let ghost before = views(out@);
        out.push(string_of(&chars_of(raw[i].as_str())));
        assert(views(out@) =~= before.push(rv[i as int]));
        assert(rv.take(i + 1) == rv.take(i as int).push(rv[i as int]));
        i += 1;
    }
    assert(rv.take(raw@.len() as int) == rv);
    Ok(out)
}

/// The value stored for plain text: the bytes and the tags, no other
/// metadata. Tags are taken as they are; callers check them first.
pub fn set_plaintext(plaintext: &[u8], tags: Vec<String>) -> (r: Decoded)
    ensures
        r.data@ == plaintext@,
        r.tags@ == tags@,
        r.env_key@.len() == 0,
        r.description@.len() == 0,
        r.url@.len() == 0,
        r.totp@.len() == 0,
        r.expires_at is None,
        r.annotations.entries_view().len() == 0,
{
    let mut data: Vec<u8> = Vec::new();
    let mut i: usize = 0;
    while i < plaintext.len()
        invariant
            i <= plaintext@.len(),
            data@ == plaintext@.take(i as int),
        decreases plaintext.len() - i,
    {
        data.push(plaintext[i]);
        assert(plaintext@.take(i + 1) == plaintext@.take(i as int).push(plaintext@[i as int]));
        i += 1;
    }
    assert(plaintext@.take(plaintext@.len() as int) == plaintext@);
    let mut d = Decoded::plain(data);
    d.tags = tags;
    d
}

} // verus!
