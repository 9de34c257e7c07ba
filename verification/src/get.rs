//! `get`: the metadata printed after a secret's value, the expiry warning,
//! and the short form of recipient keys.
use vstd::prelude::*;

use crate::duration::{describe_remaining, is_unset, nanos_between, remaining_spec, ExpirySeverity};
use crate::env_dsl::{trim, trim_chars};
use crate::env_resolver::{join_strings, joined};
use crate::recipient::bytes_of;
use crate::secret::{Decoded, Timestamp};
use crate::strmap::StrMap;
use crate::text::{chars_of, copy_string, push_str, string_of, views};

verus! {

// ── Timestamps as text ───────────────────────────────────────────────────

/// What chrono makes of the instant `(secs, nanos)`: its RFC 3339 text
/// (`DateTime::from_timestamp`, then `to_rfc3339`), or `None` when it is
/// not a valid instant.
pub uninterp spec fn rfc3339_text(secs: int, nanos: int) -> Option<Seq<char>>;

/// Renders an instant as RFC 3339 with chrono.
#[verifier::external_body]
fn rfc3339_of(ts: Timestamp) -> (r: Option<String>)
    ensures
        match r {
            Some(s) => rfc3339_text(ts.seconds as int, ts.nanos as int) == Some(s@),
            None => rfc3339_text(ts.seconds as int, ts.nanos as int) is None,
        },
{
    match chrono::DateTime::from_timestamp(ts.seconds, ts.nanos as u32) {
        Some(dt) => Some(dt.to_rfc3339()),
        None => None,
    }
}

/// `a` is not later than `b`.
pub open spec fn not_after(a: Timestamp, b: Timestamp) -> bool {
    a.seconds < b.seconds || (a.seconds == b.seconds && a.nanos <= b.nanos)
}

/// The warning for an expired secret: none without an expiry, for an unset
/// or invalid one, or before it is reached.
pub open spec fn expiry_message_spec(path: Seq<char>, expires_at: Option<Timestamp>, now: Timestamp) -> Option<Seq<char>> {
    match expires_at {
        None => None,
        Some(ts) => if ts.seconds == 0 && ts.nanos == 0 {
            None
        } else {
            match rfc3339_text(ts.seconds as int, ts.nanos as int) {
                None => None,
                Some(text) => if not_after(ts, now) {
                    Some("warning: secret '"@ + path + "' expired at "@ + text)
                } else {
                    None
                },
            }
        },
    }
}

/// The canonical expired-secret warning of `path` at `now`.
pub fn expiry_message(path: &str, expires_at: Option<Timestamp>, now: Timestamp) -> (r: Option<String>)
    ensures
        match expiry_message_spec(path@, expires_at, now) {
            Some(m) => r matches Some(s) && s@ == m,
            None => r is None,
        },
{
    let ts = match expires_at {
        Some(t) => t,
        None => {
            return None;
        },
    };
    if is_unset(&ts) {
        return None;
    }
    let text = match rfc3339_of(ts) {
        Some(t) => t,
        None => {
            return None;
        },
    };
    if ts.seconds < now.seconds || (ts.seconds == now.seconds && ts.nanos <= now.nanos) {
        let mut m = String::from_str("warning: secret '");
        push_str(&mut m, path);
        push_str(&mut m, "' expired at ");
        push_str(&mut m, text.as_str());
        Some(m)
    } else {
        None
    }
}

// ── The metadata block ───────────────────────────────────────────────────

/// A line in a colour for the expiry's severity, when writing to a
/// terminal: dim when distant, yellow when soon, red when expired.
pub open spec fn colorize_spec(s: Seq<char>, sev: ExpirySeverity, is_tty: bool) -> Seq<char> {
    if !is_tty {
        s
    } else {
        match sev {
            ExpirySeverity::Distant => "\x1b[2m"@ + s + "\x1b[0m"@,
            ExpirySeverity::Soon => "\x1b[33m"@ + s + "\x1b[0m"@,
            ExpirySeverity::Expired => "\x1b[31m"@ + s + "\x1b[0m"@,
        }
    }
}

/// Colours a line by severity when writing to a terminal.
pub fn colorize(s: &str, sev: ExpirySeverity, is_tty: bool) -> (r: String)
    ensures
        r@ == colorize_spec(s@, sev, is_tty),
{
    if !is_tty {
        return String::from_str(s);
    }
    let mut out = String::from_str(match sev {
        ExpirySeverity::Distant => "\x1b[2m",
        ExpirySeverity::Soon => "\x1b[33m",
        ExpirySeverity::Expired => "\x1b[31m",
    });
    push_str(&mut out, s);
    push_str(&mut out, "\x1b[0m");
    out
}

/// `label` and `value` as a line, when `value` is not empty.
pub open spec fn field_line(label: Seq<char>, value: Seq<char>) -> Seq<char> {
    if value.len() == 0 {
        Seq::empty()
    } else {
        label + value + "\n"@
    }
}

/// The expiry line: the instant and the time left, coloured.
pub open spec fn expires_line(ts: Option<Timestamp>, now: Timestamp, is_tty: bool) -> Seq<char> {
    match ts {
        None => Seq::empty(),
        Some(t) => if t.seconds == 0 && t.nanos == 0 {
            Seq::empty()
        } else {
            match rfc3339_text(t.seconds as int, t.nanos as int) {
                None => Seq::empty(),
                Some(text) => {
                    let (msg, sev) = remaining_spec(nanos_between(now, t));
                    colorize_spec("expires:     "@ + text + "  ("@ + msg + ")"@, sev, is_tty)
                        + "\n"@
                },
            }
        },
    }
}

/// What `get` writes to standard error after the value: the URL, TOTP,
/// description, env-var name and tags that are set, then the expiry.
pub open spec fn metadata_spec(d: Decoded, now: Timestamp, is_tty: bool) -> Seq<char> {
    field_line("url:         "@, d.url@) + field_line("totp:        "@, d.totp@) + field_line(
        "description: "@,
        d.description@,
    ) + field_line("env_key:     "@, d.env_key@) + (if d.tags@.len() == 0 {
        Seq::empty()
    } else {
        "tags:        "@ + joined(views(d.tags@), ", "@) + "\n"@
    }) + expires_line(d.expires_at, now, is_tty)
}

/// Appends a field line.
fn push_field(out: &mut String, label: &str, value: &str)
    ensures
        final(out)@ == old(out)@ + field_line(label@, value@),
{
    if chars_of(value).len() > 0 {
        push_str(out, label);
        push_str(out, value);
        push_str(out, "\n");
    } else {
        assert(old(out)@ + field_line(label@, value@) =~= old(out)@);
    }
}

/// Renders the metadata block of a secret at `now`.
pub fn metadata_block(d: &Decoded, now: Timestamp, is_tty: bool) -> (r: String)
    ensures
        r@ == metadata_spec(*d, now, is_tty),
{
    let mut out = String::new();
    push_field(&mut out, "url:         ", d.url.as_str());
    push_field(&mut out, "totp:        ", d.totp.as_str());
    push_field(&mut out, "description: ", d.description.as_str());
    push_field(&mut out, "env_key:     ", d.env_key.as_str());
    let ghost before_tags = out@;
    if d.tags.len() > 0 {
        push_str(&mut out, "tags:        ");
        push_str(&mut out, join_strings(d.tags.as_slice(), ", ").as_str());
        push_str(&mut out, "\n");
    }
    let ghost before_exp = out@;
    assert(before_exp =~= before_tags + (if d.tags@.len() == 0 {
        Seq::<char>::empty()
    } else {
        "tags:        "@ + joined(views(d.tags@), ", "@) + "\n"@
    }));
    match d.expires_at {
        Some(ts) => {
            if !is_unset(&ts) {
                match rfc3339_of(ts) {
                    Some(text) => {
                        let (msg, sev) = describe_remaining(ts, now);
                        let mut line = String::from_str("expires:     ");
                        push_str(&mut line, text.as_str());
                        push_str(&mut line, "  (");
                        push_str(&mut line, msg.as_str());
                        push_str(&mut line, ")");
                        push_str(&mut out, colorize(line.as_str(), sev, is_tty).as_str());
                        push_str(&mut out, "\n");
                    },
                    None => {},
                }
            }
        },
        None => {},
    }
    assert(out@ =~= before_exp + expires_line(d.expires_at, now, is_tty));
    out
}

// ── Recipient keys ───────────────────────────────────────────────────────

/// The short form of a key: trimmed, and cut to its first 12 bytes and
/// `...` when longer.
pub open spec fn short_key_spec(pk: Seq<char>) -> Seq<char> {
    let t = trim(pk);
    let b = bytes_of(t);
    if (b.len() as usize) <= 12 {
        t
    } else {
        vstd::utf8::decode_utf8(b.subrange(0, 12)) + "..."@
    }
}

/// Whether the first 12 bytes of a longer key end on a character
/// boundary, as cutting them requires.
pub open spec fn short_key_ok(pk: Seq<char>) -> bool {
    let b = bytes_of(trim(pk));
    (b.len() as usize) <= 12 || vstd::utf8::is_char_boundary(b, 12)
}

/// Shortens a recipient key for display.
pub fn short_key(pk: &str) -> (r: String)
    requires
        short_key_ok(pk@),
    ensures
        r@ == short_key_spec(pk@),
{
    let t = string_of(&trim_chars(&chars_of(pk)));
    let ts = t.as_str();
    if ts.len() <= 12 {
        return t;
    }
    let (head, _) = ts.split_at(12);
    let mut out = String::from_str(head);
    push_str(&mut out, "...");
    proof {
        vstd::utf8::encode_utf8_decode_utf8(head@);
    }
    out
}

/// Whether a key can be shortened.
pub fn short_key_possible(pk: &str) -> (r: bool)
    ensures
        r == short_key_ok(pk@),
{
    let t = string_of(&trim_chars(&chars_of(pk)));
    let ts = t.as_str();
    ts.len() <= 12 || ts.is_char_boundary(12)
}

/// The name shown for a key a secret is encrypted to: the recipient's name
/// with the short key, or `(unknown)` and the short key.
pub open spec fn named_spec(known: Seq<(Seq<char>, String)>, pk: Seq<char>) -> Seq<char> {
    match crate::strmap::lookup(known, trim(pk)) {
        Some(name) => name@ + " ("@ + short_key_spec(pk) + ")"@,
        None => "(unknown) "@ + short_key_spec(pk),
    }
}

/// Names the keys a secret is encrypted to, from the recipients known by
/// key (trimmed key -> recipient name).
pub fn named_recipients(known: &StrMap<String>, file_pubkeys: &[String]) -> (r: Vec<String>)
    requires
        forall|i: int| 0 <= i < file_pubkeys@.len() ==> short_key_ok(#[trigger] file_pubkeys@[i]@),
    ensures
        r@.len() == file_pubkeys@.len(),
        forall|i: int|
            0 <= i < r@.len() ==> #[trigger] r@[i]@ == named_spec(
                known.entries_view(),
                file_pubkeys@[i]@,
            ),
{
    let mut out: Vec<String> = Vec::new();
    let mut i: usize = 0;
    while i < file_pubkeys.len()
        invariant
            i <= file_pubkeys@.len(),
            out@.len() == i,
            forall|j: int| 0 <= j < file_pubkeys@.len() ==> short_key_ok(#[trigger] file_pubkeys@[j]@),
            forall|j: int|
                0 <= j < i ==> #[trigger] out@[j]@ == named_spec(
                    known.entries_view(),
                    file_pubkeys@[j]@,
                ),
        decreases file_pubkeys.len() - i,
    {
        let pk = file_pubkeys[i].as_str();
        assert(short_key_ok(file_pubkeys@[i as int]@));
        let short = short_key(pk);
        let t = string_of(&trim_chars(&chars_of(pk)));
        let line = match known.get(t.as_str()) {
            Some(name) => {
                let mut m = copy_string(name);
                push_str(&mut m, " (");
                push_str(&mut m, short.as_str());
                push_str(&mut m, ")");
                m
            },
            None => {
                let mut m = String::from_str("(unknown) ");
                push_str(&mut m, short.as_str());
                m
            },
        };
        out.push(line);
        i += 1;
    }
    out
}

} // verus!
