//! `doctor`: the report on which recipients one holds a key for, which
//! secrets are stale or carry orphan recipients, and the key provider.
use vstd::prelude::*;

use owo_colors::OwoColorize;

use crate::env_dsl::{trim, trim_chars};
use crate::env_resolver::{join_strings, joined};
use crate::labels::KeyProvider;
use crate::ls::{pad_spec, push_padded};
use crate::recipient::bytes_of;
use crate::strmap::{insert_all, insert_sorted, keys_of, StrMap};
use crate::text::{chars_of, copy_string, decimal, decimal_chars, push_str, slice_eq, string_of, views};

verus! {

// ── Keys ─────────────────────────────────────────────────────────────────

/// A key as shown: trimmed, and when longer than 16 bytes its first 12
/// bytes and an ellipsis.
pub open spec fn short_spec(pk: Seq<char>) -> Seq<char> {
    let t = trim(pk);
    let b = bytes_of(t);
    if (b.len() as usize) <= 16 {
        t
    } else {
        vstd::utf8::decode_utf8(b.subrange(0, 12)) + "…"@
    }
}

/// Whether a key longer than 16 bytes can be cut after its 12th byte (a
/// character boundary), as shortening it requires.
pub open spec fn short_ok(pk: Seq<char>) -> bool {
    let b = bytes_of(trim(pk));
    (b.len() as usize) <= 16 || vstd::utf8::is_char_boundary(b, 12)
}

/// Shortens a key for display.
pub fn short_key(pk: &str) -> (r: String)
    requires
        short_ok(pk@),
    ensures
        r@ == short_spec(pk@),
{
    let t = string_of(&trim_chars(&chars_of(pk)));
    let ts = t.as_str();
    if ts.len() <= 16 {
        return t;
    }
    let (head, _) = ts.split_at(12);
    let mut out = String::from_str(head);
    push_str(&mut out, "…");
    proof {
        vstd::utf8::encode_utf8_decode_utf8(head@);
    }
    out
}

// ── Colours ──────────────────────────────────────────────────────────────

/// The colours report lines are painted in.
#[derive(Debug, Clone, Copy, PartialEq, Eq, Structural)]
pub enum Tone {
    Green,
    Red,
    Yellow,
}

/// A line painted in a tone, as owo-colors writes it: the colour code, the
/// text and the default-colour code.
pub open spec fn painted(t: Tone, line: Seq<char>) -> Seq<char> {
    match t {
        Tone::Green => "\x1b[32m"@ + line + "\x1b[39m"@,
        Tone::Red => "\x1b[31m"@ + line + "\x1b[39m"@,
        Tone::Yellow => "\x1b[33m"@ + line + "\x1b[39m"@,
    }
}

/// Paints a line green with owo-colors (`green`, then `to_string`): the
/// code `ESC[32m`, the text and the default-colour code `ESC[39m`.
#[verifier::external_body]
fn paint_green(line: &str) -> (r: String)
    ensures
        r@ == painted(Tone::Green, line@),
{
    line.green().to_string()
}

/// Paints a line red with owo-colors (`red`, then `to_string`): the code
/// `ESC[31m`, the text and the default-colour code `ESC[39m`.
#[verifier::external_body]
fn paint_red(line: &str) -> (r: String)
    ensures
        r@ == painted(Tone::Red, line@),
{
    line.red().to_string()
}

/// Paints a line yellow with owo-colors (`yellow`, then `to_string`): the
/// code `ESC[33m`, the text and the default-colour code `ESC[39m`.
#[verifier::external_body]
fn paint_yellow(line: &str) -> (r: String)
    ensures
        r@ == painted(Tone::Yellow, line@),
{
    line.yellow().to_string()
}

/// A line as printed: painted when colour is on.
pub open spec fn shown(use_color: bool, t: Tone, line: Seq<char>) -> Seq<char> {
    if use_color {
        painted(t, line)
    } else {
        line
    }
}

fn show(use_color: bool, t: Tone, line: String) -> (r: String)
    ensures
        r@ == shown(use_color, t, line@),
{
    if use_color {
        match t {
            Tone::Green => paint_green(line.as_str()),
            Tone::Red => paint_red(line.as_str()),
            Tone::Yellow => paint_yellow(line.as_str()),
        }
    } else {
        line
    }
}

// ── Identities ───────────────────────────────────────────────────────────

/// Where a key one holds comes from, as the provider is configured.
pub open spec fn source_spec(p: KeyProvider) -> Seq<char> {
    match p {
        KeyProvider::MacosKeychain => "[keychain]"@,
        KeyProvider::Disk => "[disk]"@,
    }
}

/// The line of a recipient, and whether it is a warning: a check mark when
/// one of the loaded identities has its (trimmed) key, else a cross.
pub open spec fn identity_spec(
    name: Seq<char>,
    pubkey: Seq<char>,
    loaded: Seq<Seq<char>>,
    provider: KeyProvider,
) -> (Seq<char>, Tone, bool) {
    if loaded.contains(trim(pubkey)) {
        ("  ✓ "@ + pad_spec(name, 20) + " "@ + short_spec(pubkey) + "  "@ + source_spec(provider), Tone::Green, false)
    } else {
        ("  ✗ "@ + pad_spec(name, 20) + " "@ + short_spec(pubkey) + "  [no key found]"@, Tone::Red, true)
    }
}

/// Whether `list` holds `x`.
fn holds_chars(list: &[String], x: &[char]) -> (r: bool)
    ensures
        r == views(list@).contains(x@),
{
    let ghost lv = views(list@);
    let mut i: usize = 0;
    while i < list.len()
        invariant
            i <= list@.len(),
            lv == views(list@),
            forall|k: int| 0 <= k < i ==> lv[k] != x@,
        decreases list.len() - i,
    {
        assert(lv[i as int] == list@[i as int]@);
        if slice_eq(&chars_of(list[i].as_str()), x) {
            return true;
        }
        i += 1;
    }
    false
}

/// The line of a recipient (see `identity_spec`), and whether it warns.
pub fn identity_line(name: &str, pubkey: &str, loaded: &[String], provider: KeyProvider) -> (r: (
    String,
    Tone,
    bool,
))
    requires
        short_ok(pubkey@),
    ensures
        (r.0@, r.1, r.2) == identity_spec(name@, pubkey@, views(loaded@), provider),
{
    let short = short_key(pubkey);
    if holds_chars(loaded, &trim_chars(&chars_of(pubkey))) {
        let mut line = String::from_str("  ✓ ");
        push_padded(&mut line, name, 20);
        push_str(&mut line, " ");
        push_str(&mut line, short.as_str());
        push_str(&mut line, "  ");
        push_str(
            &mut line,
            match provider {
                KeyProvider::MacosKeychain => "[keychain]",
                KeyProvider::Disk => "[disk]",
            },
        );
        (line, Tone::Green, false)
    } else {
        let mut line = String::from_str("  ✗ ");
        push_padded(&mut line, name, 20);
        push_str(&mut line, " ");
        push_str(&mut line, short.as_str());
        push_str(&mut line, "  [no key found]");
        (line, Tone::Red, true)
    }
}

// ── Secrets ──────────────────────────────────────────────────────────────

/// The name of the last recipient whose trimmed key is `k`.
pub open spec fn key_name(recips: Seq<(Seq<char>, Seq<char>)>, k: Seq<char>) -> Option<Seq<char>>
    decreases recips.len(),
{
    if recips.len() == 0 {
        None
    } else if trim(recips.last().1) == k {
        Some(recips.last().0)
    } else {
        key_name(recips.drop_last(), k)
    }
}

/// How a key a secret is encrypted to is named: its recipient's name, else
/// the short key.
pub open spec fn shown_name(recips: Seq<(Seq<char>, Seq<char>)>, pk: Seq<char>) -> Seq<char> {
    match key_name(recips, trim(pk)) {
        Some(n) => n,
        None => short_spec(pk),
    }
}

/// The short keys that belong to no recipient, in order.
pub open spec fn orphans(recips: Seq<(Seq<char>, Seq<char>)>, keys: Seq<Seq<char>>) -> Seq<Seq<char>>
    decreases keys.len(),
{
    if keys.len() == 0 {
        Seq::empty()
    } else {
        orphans(recips, keys.drop_last()) + if key_name(recips, trim(keys.last())) is None {
            seq![short_spec(keys.last())]
        } else {
            Seq::empty()
        }
    }
}

/// Whether one's own key is among a secret's keys (trimmed); without a
/// key of one's own this is not checked.
pub open spec fn self_included(own: Option<Seq<char>>, keys: Seq<Seq<char>>) -> bool {
    match own {
        Some(o) => exists|i: int| 0 <= i < keys.len() && trim(#[trigger] keys[i]) == trim(o),
        None => true,
    }
}

/// The lines of a secret and whether it warns: stale (one's key is not a
/// recipient) and orphan recipients are warned of; otherwise the names it
/// is encrypted for.
pub open spec fn secret_spec(
    rel: Seq<char>,
    keys: Seq<Seq<char>>,
    own: Option<Seq<char>>,
    recips: Seq<(Seq<char>, Seq<char>)>,
) -> (Seq<Seq<char>>, bool) {
    let named = joined(keys.map_values(|pk: Seq<char>| shown_name(recips, pk)), ", "@);
    let orph = orphans(recips, keys);
    let stale = !self_included(own, keys);
    if stale || orph.len() > 0 {
        (
            (if stale {
                seq![
                    "  ⚠ "@ + pad_spec(rel, 30)
                        + "  stale — your identity is not a recipient (recipients: "@ + named
                        + ")"@,
                ]
            } else {
                Seq::empty()
            }) + (if orph.len() > 0 {
                seq!["  ⚠ "@ + pad_spec(rel, 30) + "  orphan recipients: "@ + joined(orph, ", "@)]
            } else {
                Seq::empty()
            }),
            true,
        )
    } else {
        (seq!["  ✓ "@ + pad_spec(rel, 30) + "  encrypted for: "@ + named], false)
    }
}

/// The views of `(name, key)` pairs.
pub open spec fn pair_views(v: Seq<(String, String)>) -> Seq<(Seq<char>, Seq<char>)> {
    v.map_values(|p: (String, String)| (p.0@, p.1@))
}

/// Every key can be shortened.
pub open spec fn all_short_ok(keys: Seq<Seq<char>>) -> bool {
    forall|i: int| 0 <= i < keys.len() ==> short_ok(#[trigger] keys[i])
}

/// The name of the last recipient whose trimmed key is `k`.
fn name_for(recips: &[(String, String)], k: &[char]) -> (r: Option<String>)
    ensures
        r matches Some(n) ==> key_name(pair_views(recips@), k@) == Some(n@),
        r is None ==> key_name(pair_views(recips@), k@) is None,
{
    let ghost pv = pair_views(recips@);
    let mut i: usize = recips.len();
    assert(pv.take(i as int) == pv);
    while i > 0
        invariant
            i <= recips@.len(),
            pv == pair_views(recips@),
            key_name(pv, k@) == key_name(pv.take(i as int), k@),
        decreases i,
    {
        assert(pv.take(i as int).last() == pv[i - 1]);
        assert(pv.take(i as int).drop_last() == pv.take(i - 1));
        assert(pv[i - 1] == (recips@[i - 1].0@, recips@[i - 1].1@));
        if slice_eq(&trim_chars(&chars_of(recips[i - 1].1.as_str())), k) {
            return Some(copy_string(&recips[i - 1].0));
        }
        i -= 1;
    }
    None
}

/// The lines of a secret (see `secret_spec`), and whether it warns.
pub fn secret_lines(
    rel: &str,
    keys: &[String],
    own: Option<String>,
    recips: &[(String, String)],
) -> (r: (Vec<String>, bool))
    requires
        all_short_ok(views(keys@)),
    ensures
        (views(r.0@), r.1) == secret_spec(
            rel@,
            views(keys@),
            crate::search::opt_view(own),
            pair_views(recips@),
        ),
{
    let ghost kv = views(keys@);
    let ghost rv = pair_views(recips@);
    let mut named: Vec<String> = Vec::new();
    let mut orph: Vec<String> = Vec::new();
    let mut included = match &own {
        Some(_) => false,
        None => true,
    };
    let own_t = match &own {
        Some(o) => trim_chars(&chars_of(o.as_str())),
        None => Vec::new(),
    };
    let mut i: usize = 0;
    while i < keys.len()
        invariant
            i <= keys@.len(),
            kv == views(keys@),
            rv == pair_views(recips@),
            all_short_ok(kv),
            views(named@) == kv.take(i as int).map_values(|pk: Seq<char>| shown_name(rv, pk)),
            views(orph@) == orphans(rv, kv.take(i as int)),
            own is Some ==> own_t@ == trim(crate::search::opt_view(own)->0),
            included == self_included(crate::search::opt_view(own), kv.take(i as int)),
        decreases keys.len() - i,
    {
        assert(kv[i as int] == keys@[i as int]@);
        assert(short_ok(kv[i as int]));
        assert(kv.take(i + 1).drop_last() == kv.take(i as int));
        assert(kv.take(i + 1).last() == kv[i as int]);
        let t = trim_chars(&chars_of(keys[i].as_str()));
        let ghost bn = named@;
        let ghost bo = orph@;
        match name_for(recips, &t) {
            Some(n) => {
                named.push(n);
            },
            None => {
                named.push(short_key(keys[i].as_str()));
                orph.push(short_key(keys[i].as_str()));
            },
        }
        assert(views(named@) =~= views(bn).push(shown_name(rv, kv[i as int])));
        assert(kv.take(i + 1).map_values(|pk: Seq<char>| shown_name(rv, pk)) =~= kv.take(
            i as int,
        ).map_values(|pk: Seq<char>| shown_name(rv, pk)).push(shown_name(rv, kv[i as int])));
        assert(views(orph@) =~= orphans(rv, kv.take(i + 1)));
        if own.is_some() && slice_eq(&t, &own_t) {
            proof {
                assert(trim(kv.take(i + 1)[i as int]) == trim(crate::search::opt_view(own)->0));
            }
            included = true;
        }
        proof {
            if own is Some {
                if self_included(crate::search::opt_view(own), kv.take(i + 1)) && !included {
                    let j = choose|j: int|
                        0 <= j < kv.take(i + 1).len() && trim(#[trigger] kv.take(i + 1)[j]) == trim(
                            crate::search::opt_view(own)->0,
                        );
                    if j < i {
                        assert(kv.take(i as int)[j] == kv.take(i + 1)[j]);
                    }
                }
                if included && i > 0 && self_included(crate::search::opt_view(own), kv.take(i as int)) {
                    let j = choose|j: int|
                        0 <= j < kv.take(i as int).len() && trim(#[trigger] kv.take(i as int)[j]) == trim(
                            crate::search::opt_view(own)->0,
                        );
                    assert(kv.take(i + 1)[j] == kv.take(i as int)[j]);
                }
            }
        }
        i += 1;
    }
    assert(kv.take(keys@.len() as int) == kv);
    let names = join_strings(named.as_slice(), ", ");
    if !included || orph.len() > 0 {
        let mut lines: Vec<String> = Vec::new();
        if !included {
            let mut l = String::from_str("  ⚠ ");
            push_padded(&mut l, rel, 30);
            push_str(&mut l, "  stale — your identity is not a recipient (recipients: ");
            push_str(&mut l, names.as_str());
            push_str(&mut l, ")");
            lines.push(l);
        }
        let ghost after_stale = views(lines@);
        if orph.len() > 0 {
            let mut l = String::from_str("  ⚠ ");
            push_padded(&mut l, rel, 30);
            push_str(&mut l, "  orphan recipients: ");
            push_str(&mut l, join_strings(orph.as_slice(), ", ").as_str());
            lines.push(l);
        }
        assert(views(lines@) =~= secret_spec(
            rel@,
            kv,
            crate::search::opt_view(own),
            rv,
        ).0);
        (lines, true)
    } else {
        let mut l = String::from_str("  ✓ ");
        push_padded(&mut l, rel, 30);
        push_str(&mut l, "  encrypted for: ");
        push_str(&mut l, names.as_str());
        let mut lines: Vec<String> = Vec::new();
        lines.push(l);
        assert(views(lines@) =~= secret_spec(
            rel@,
            kv,
            crate::search::opt_view(own),
            rv,
        ).0);
        (lines, false)
    }
}

// ── The provider and the summary ─────────────────────────────────────────

/// The provider lines and whether they warn: the provider's name, and with
/// the keychain a warning when the disk key file (at `disk_key`) is still
/// there.
pub open spec fn provider_spec(provider: KeyProvider, disk_key: Option<Seq<char>>) -> (
    Seq<Seq<char>>,
    bool,
) {
    let head = seq!["  ✓ provider: "@ + provider.name()];
    match (provider, disk_key) {
        (KeyProvider::MacosKeychain, Some(p)) => (
            head.push(
                "  ⚠ disk key file still present at "@ + p
                    + " — consider removing after confirming keychain entry works"@,
            ),
            true,
        ),
        _ => (head, false),
    }
}

/// The provider lines (see `provider_spec`): `disk_key` is the disk key
/// file's path when it exists.
pub fn provider_lines(provider: KeyProvider, disk_key: Option<String>) -> (r: (Vec<String>, bool))
    ensures
        (views(r.0@), r.1) == provider_spec(provider, crate::search::opt_view(disk_key)),
{
    let mut lines: Vec<String> = Vec::new();
    let mut l = String::from_str("  ✓ provider: ");
    push_str(&mut l, provider.as_str());
    lines.push(l);
    match (provider, disk_key) {
        (KeyProvider::MacosKeychain, Some(p)) => {
            let mut w = String::from_str("  ⚠ disk key file still present at ");
            push_str(&mut w, p.as_str());
            push_str(&mut w, " — consider removing after confirming keychain entry works");
            lines.push(w);
            assert(views(lines@) =~= provider_spec(provider, Some(p@)).0);
            (lines, true)
        },
        (pr, dk) => {
            assert(views(lines@) =~= provider_spec(pr, crate::search::opt_view(dk)).0);
            (lines, false)
        },
    }
}

/// The last line: no issues, or how many warnings.
pub open spec fn summary_spec(warnings: nat) -> Seq<char> {
    if warnings == 0 {
        "No issues found."@
    } else {
        decimal(warnings) + " warning(s)"@
    }
}

/// The last line of the report.
pub fn summary_line(warnings: u128) -> (r: String)
    ensures
        r@ == summary_spec(warnings as nat),
{
    if warnings == 0 {
        String::from_str("No issues found.")
    } else {
        let mut m = string_of(&crate::text::decimal_u128(warnings));
        push_str(&mut m, " warning(s)");
        m
    }
}

// ── The report ───────────────────────────────────────────────────────────

/// The rule above and below the report.
pub open spec fn rule() -> Seq<char> {
    Seq::new(50, |i: int| '─')
}

/// The identity lines and the warnings they count.
pub open spec fn identities_spec(
    recips: Seq<(Seq<char>, Seq<char>)>,
    loaded: Seq<Seq<char>>,
    provider: KeyProvider,
    use_color: bool,
) -> (Seq<Seq<char>>, nat)
    decreases recips.len(),
{
    if recips.len() == 0 {
        (Seq::empty(), 0)
    } else {
        let prev = identities_spec(recips.drop_last(), loaded, provider, use_color);
        let l = identity_spec(recips.last().0, recips.last().1, loaded, provider);
        (prev.0.push(shown(use_color, l.1, l.0)), prev.1 + if l.2 {
            1nat
        } else {
            0nat
        })
    }
}

/// The secret lines, for secrets by path, and the warnings they count.
pub open spec fn secrets_spec(
    secrets: Seq<(Seq<char>, Seq<Seq<char>>)>,
    own: Option<Seq<char>>,
    recips: Seq<(Seq<char>, Seq<char>)>,
    use_color: bool,
) -> (Seq<Seq<char>>, nat)
    decreases secrets.len(),
{
    if secrets.len() == 0 {
        (Seq::empty(), 0)
    } else {
        let prev = secrets_spec(secrets.drop_last(), own, recips, use_color);
        let s = secret_spec(secrets.last().0, secrets.last().1, own, recips);
        let tone = if s.1 {
            Tone::Yellow
        } else {
            Tone::Green
        };
        (prev.0 + s.0.map_values(|l: Seq<char>| shown(use_color, tone, l)), prev.1 + if s.1 {
            1nat
        } else {
            0nat
        })
    }
}

/// The secrets by path (the last of equal paths kept), with their keys
/// where the file could be read.
pub open spec fn secrets_by_path(secrets: Seq<(Seq<char>, Option<Seq<Seq<char>>>)>) -> Seq<
    (Seq<char>, Option<Seq<Seq<char>>>),
> {
    let order = insert_all(
        Seq::<(Seq<char>, int)>::empty(),
        Seq::new(secrets.len(), |i: int| (secrets[i].0, i)),
    );
    order.map_values(|e: (Seq<char>, int)| secrets[e.1])
}

/// The readable secrets of a list, in order.
pub open spec fn readable(s: Seq<(Seq<char>, Option<Seq<Seq<char>>>)>) -> Seq<(Seq<char>, Seq<Seq<char>>)>
    decreases s.len(),
{
    if s.len() == 0 {
        Seq::empty()
    } else {
        readable(s.drop_last()) + match s.last().1 {
            Some(k) => seq![(s.last().0, k)],
            None => Seq::empty(),
        }
    }
}

/// The secrets section and the warnings it counts.
pub open spec fn secrets_part(
    secrets: Option<Seq<(Seq<char>, Option<Seq<Seq<char>>>)>>,
    own: Option<Seq<char>>,
    recips: Seq<(Seq<char>, Seq<char>)>,
    use_color: bool,
) -> (Seq<Seq<char>>, nat) {
    match secrets {
        Some(s) => if s.len() > 0 {
            secrets_spec(readable(secrets_by_path(s)), own, recips, use_color)
        } else {
            (seq!["  (no secrets)"@], 0nat)
        },
        None => (seq!["  (no secrets)"@], 0nat),
    }
}

/// The whole report: the identities (each recipient's line, or a note that
/// there are none), the secrets (found under the secrets directory and
/// sorted by path; those that could not be read are left out), the key
/// provider, and the count of warnings, between two rules.
pub open spec fn report_spec(
    recips: Seq<(Seq<char>, Seq<char>)>,
    loaded: Seq<Seq<char>>,
    provider: KeyProvider,
    own: Option<Seq<char>>,
    secrets: Option<Seq<(Seq<char>, Option<Seq<Seq<char>>>)>>,
    disk_key: Option<Seq<char>>,
    use_color: bool,
) -> Seq<Seq<char>> {
    let ids = identities_spec(recips, loaded, provider, use_color);
    let secs = secrets_part(secrets, own, recips, use_color);
    let prov = provider_spec(provider, disk_key);
    seq![rule(), "IDENTITIES"@] + (if recips.len() == 0 {
        seq!["  (no recipients found)"@]
    } else {
        ids.0
    }) + seq!["\nSECRETS"@] + secs.0 + seq!["\nKEY PROVIDER"@] + prov.0 + seq![
        rule(),
        summary_spec(ids.1 + secs.1 + if prov.1 {
            1nat
        } else {
            0nat
        }),
    ]
}

/// Appends copies of `items`.
fn append_all(out: &mut Vec<String>, items: &Vec<String>)
    ensures
        views(final(out)@) == views(old(out)@) + views(items@),
{
    let ghost start = views(out@);
    let mut q: usize = 0;
    while q < items.len()
        invariant
            q <= items@.len(),
            views(out@) == start + views(items@).take(q as int),
        decreases items.len() - q,
    {
        let ghost before = views(out@);
        out.push(copy_string(&items[q]));
        assert(views(out@) =~= before.push(items@[q as int]@));
        assert(views(items@).take(q + 1) =~= views(items@).take(q as int).push(items@[q as int]@));
        q += 1;
    }
    assert(views(items@).take(items@.len() as int) == views(items@));
}

/// The views of the secrets found.
pub open spec fn found_views(v: Seq<(String, Option<Vec<String>>)>) -> Seq<
    (Seq<char>, Option<Seq<Seq<char>>>),
> {
    v.map_values(
        |e: (String, Option<Vec<String>>)|
            (
                e.0@,
                match e.1 {
                    Some(k) => Some(views(k@)),
                    None => None,
                },
            ),
    )
}

/// Every key a secret is encrypted to can be shortened.
pub open spec fn found_keys_ok(v: Seq<(Seq<char>, Option<Seq<Seq<char>>>)>) -> bool {
    forall|i: int| 0 <= i < v.len() ==> (#[trigger] v[i]).1 is Some ==> all_short_ok(v[i].1->0)
}

/// The doctor's report, line by line. `recips` are the store's recipients
/// as `(name, key)`, `loaded` the public keys of the identities one holds,
/// `own` one's own public key when it can be read, `secrets` the secrets
/// found under the secrets directory (`None` when there is none) as
/// `(path, keys)` with `None` for a file that could not be read, and
/// `disk_key` the disk key file's path when it exists.
pub fn doctor_report(
    recips: &[(String, String)],
    loaded: &[String],
    provider: KeyProvider,
    own: Option<String>,
    secrets: Option<Vec<(String, Option<Vec<String>>)>>,
    disk_key: Option<String>,
    use_color: bool,
) -> (r: Vec<String>)
    requires
        forall|i: int| 0 <= i < recips@.len() ==> short_ok(#[trigger] recips@[i].1@),
        secrets matches Some(s) ==> found_keys_ok(found_views(s@)),
    ensures
        views(r@) == report_spec(
            pair_views(recips@),
            views(loaded@),
            provider,
            crate::search::opt_view(own),
            match secrets {
                Some(s) => Some(found_views(s@)),
                None => None,
            },
            crate::search::opt_view(disk_key),
            use_color,
        ),
{
    let ghost rv = pair_views(recips@);
    let ghost lv = views(loaded@);
    let ghost ov = crate::search::opt_view(own);
    let mut out: Vec<String> = Vec::new();
    // ── identities
    let mut ids: Vec<String> = Vec::new();
    let mut warnings: usize = 0;
    let mut i: usize = 0;
    while i < recips.len()
        invariant
            i <= recips@.len(),
            rv == pair_views(recips@),
            lv == views(loaded@),
            forall|k: int| 0 <= k < recips@.len() ==> short_ok(#[trigger] recips@[k].1@),
            views(ids@) == identities_spec(rv.take(i as int), lv, provider, use_color).0,
            warnings == identities_spec(rv.take(i as int), lv, provider, use_color).1,
            warnings <= i,
        decreases recips.len() - i,
    {
        assert(rv[i as int] == (recips@[i as int].0@, recips@[i as int].1@));
        assert(rv.take(i + 1).drop_last() == rv.take(i as int));
        assert(rv.take(i + 1).last() == rv[i as int]);
        let (line, tone, warn) = identity_line(recips[i].0.as_str(), recips[i].1.as_str(), loaded, provider);
        let ghost before = ids@;
        ids.push(show(use_color, tone, line));
        assert(views(ids@) =~= views(before).push(views(ids@).last()));
        if warn {
            warnings += 1;
        }
        i += 1;
    }
    assert(rv.take(recips@.len() as int) == rv);
    let ghost idw = warnings as nat;
    // ── secrets
    let mut secs: Vec<String> = Vec::new();
    let mut sw: usize = 0;
    let ghost sv = match &secrets {
        Some(s) => Some(found_views(s@)),
        None => None,
    };
    match secrets {
        Some(found) => {
            if found.len() == 0 {
                secs.push(String::from_str("  (no secrets)"));
                assert(views(secs@) =~= seq!["  (no secrets)"@]);
                assert((views(secs@), sw as nat) == secrets_part(sv, ov, rv, use_color));
            } else {
                let ghost fv = found_views(found@);
                let mut order: StrMap<usize> = StrMap::new();
                let mut j: usize = 0;
                let ghost idx = Seq::new(fv.len(), |k: int| (fv[k].0, k));
                assert(idx.take(0) =~= Seq::<(Seq<char>, int)>::empty());
                while j < found.len()
                    invariant
                        j <= found@.len(),
                        fv == found_views(found@),
                        idx == Seq::new(fv.len(), |k: int| (fv[k].0, k)),
                        order.entries_view().map_values(|e: (Seq<char>, usize)| (e.0, e.1 as int))
                            == insert_all(Seq::<(Seq<char>, int)>::empty(), idx.take(j as int)),
                        forall|k: int| 0 <= k < order.entries_view().len() ==> (#[trigger] order.entries_view()[k]).1 < j,
                    decreases found.len() - j,
                {
                    assert(fv[j as int].0 == found@[j as int].0@);
                    assert(idx.take(j + 1).drop_last() == idx.take(j as int));
                    assert(idx.take(j + 1).last() == (fv[j as int].0, j as int));
                    let ghost before = order.entries_view();
                    order.insert(copy_string(&found[j].0), j);
                    proof {
                        crate::strmap::lemma_map_vals_insert(
                            before,
                            fv[j as int].0,
                            j,
                            |x: usize| x as int,
                        );
                        let bound = j + 1;
                        assert forall|q: int| 0 <= q < before.len() implies (|x: usize| x < bound)(
                            #[trigger] before[q].1,
                        ) by {
                            assert(before[q].1 < j);
                        }
                        crate::strmap::lemma_insert_values(before, fv[j as int].0, j, |x: usize| x < bound);
                    }
                    assert(order.entries_view().map_values(|e: (Seq<char>, usize)| (e.0, e.1 as int)) =~= crate::strmap::map_vals(order.entries_view(), |x: usize| x as int));
                    assert(before.map_values(|e: (Seq<char>, usize)| (e.0, e.1 as int)) =~= crate::strmap::map_vals(before, |x: usize| x as int));
                    assert((|x: usize| x as int)(j) == j as int);
                    j += 1;
                }
                assert(idx.take(found@.len() as int) == idx);
                let ghost ord = order.entries_view();
                let ghost sorted = ord.map_values(|e: (Seq<char>, usize)| fv[e.1 as int]);
                assert(sorted == secrets_by_path(fv)) by {
                    assert(ord.map_values(|e: (Seq<char>, usize)| (e.0, e.1 as int)) == insert_all(
                        Seq::<(Seq<char>, int)>::empty(),
                        idx,
                    ));
                    assert(sorted =~= insert_all(Seq::<(Seq<char>, int)>::empty(), idx).map_values(
                        |e: (Seq<char>, int)| fv[e.1],
                    ));
                }
                let mut k: usize = 0;
                while k < order.len()
                    invariant
                        k <= ord.len(),
                        ov == crate::search::opt_view(own),
                        rv == pair_views(recips@),
                        ord == order.entries_view(),
                        fv == found_views(found@),
                        forall|m: int| 0 <= m < ord.len() ==> (#[trigger] ord[m]).1 < found@.len(),
                        found_keys_ok(fv),
                        sorted == ord.map_values(|e: (Seq<char>, usize)| fv[e.1 as int]),
                        views(secs@) == secrets_spec(readable(sorted.take(k as int)), ov, rv, use_color).0,
                        sw == secrets_spec(readable(sorted.take(k as int)), ov, rv, use_color).1,
                        sw <= k,
                    decreases ord.len() - k,
                {
                    let at = *order.value_at(k);
                    assert(ord[k as int].1 == at);
                    assert(sorted.take(k + 1).drop_last() == sorted.take(k as int));
                    assert(sorted.take(k + 1).last() == fv[at as int]);
                    assert(fv[at as int] == (found@[at as int].0@, match found@[at as int].1 {
                        Some(kk) => Some(views(kk@)),
                        None => None,
                    }));
                    match &found[at].1 {
                        Some(keys) => {
                            assert(all_short_ok(views(keys@)));
                            let own_copy = match &own {
                                Some(o) => Some(copy_string(o)),
                                None => None,
                            };
                            assert(crate::search::opt_view(own_copy) == ov);
                            let (lines, warn) = secret_lines(found[at].0.as_str(), keys.as_slice(), own_copy, recips);
                            let tone = if warn {
                                Tone::Yellow
                            } else {
                                Tone::Green
                            };
                            let ghost before = secs@;
                            let ghost lvv = views(lines@);
                            let mut q: usize = 0;
                            while q < lines.len()
                                invariant
                                    q <= lines@.len(),
                                    lvv == views(lines@),
                                    views(secs@) == views(before) + lvv.take(q as int).map_values(
                                        |l: Seq<char>| shown(use_color, tone, l),
                                    ),
                                decreases lines.len() - q,
                            {
                                assert(lvv[q as int] == lines@[q as int]@);
                                let ghost b2 = views(secs@);
                                secs.push(show(use_color, tone, copy_string(&lines[q])));
                                assert(views(secs@) =~= b2.push(shown(use_color, tone, lvv[q as int])));
                                assert(lvv.take(q + 1).map_values(|l: Seq<char>| shown(use_color, tone, l))
                                    =~= lvv.take(q as int).map_values(|l: Seq<char>| shown(use_color, tone, l)).push(
                                    shown(use_color, tone, lvv[q as int]),
                                ));
                                q += 1;
                            }
                            assert(lvv.take(lines@.len() as int) == lvv);
                            assert(readable(sorted.take(k + 1)) =~= readable(sorted.take(k as int)).push(
                                (fv[at as int].0, views(keys@)),
                            ));
                            assert(readable(sorted.take(k as int)).push((fv[at as int].0, views(keys@))).drop_last()
                                =~= readable(sorted.take(k as int)));
                            if warn {
                                sw += 1;
                            }
                        },
                        None => {
                            assert(readable(sorted.take(k + 1)) =~= readable(sorted.take(k as int)));
                        },
                    }
                    k += 1;
                }
                assert(sorted.take(ord.len() as int) == sorted);
                assert((views(secs@), sw as nat) == secrets_part(sv, ov, rv, use_color));
            }
        },
        None => {
            secs.push(String::from_str("  (no secrets)"));
            assert(views(secs@) =~= seq!["  (no secrets)"@]);
            assert((views(secs@), sw as nat) == secrets_part(sv, ov, rv, use_color));
        },
    }
    let (prov, pw) = provider_lines(provider, disk_key);
    let total: u128 = warnings as u128 + sw as u128 + if pw {
        1
    } else {
        0
    };
    let mut rule_s = String::new();
    let mut n: usize = 0;
    while n < 50
        invariant
            n <= 50,
            rule_s@ == Seq::new(n as nat, |i: int| '─'),
        decreases 50 - n,
    {
        crate::text::push_char(&mut rule_s, '─');
        assert(Seq::new((n + 1) as nat, |i: int| '─') =~= Seq::new(n as nat, |i: int| '─').push('─'));
        n += 1;
    }
    assert(rule_s@ =~= rule());
    out.push(copy_string(&rule_s));
    out.push(String::from_str("IDENTITIES"));
    assert(views(out@) =~= seq![rule(), "IDENTITIES"@]);
    let ghost id_part = if rv.len() == 0 {
        seq!["  (no recipients found)"@]
    } else {
        identities_spec(rv, lv, provider, use_color).0
    };
    if recips.len() == 0 {
        out.push(String::from_str("  (no recipients found)"));
    } else {
        append_all(&mut out, &ids);
    }
    assert(views(out@) =~= seq![rule(), "IDENTITIES"@] + id_part);
    let ghost g1 = views(out@);
    out.push(String::from_str("\nSECRETS"));
    append_all(&mut out, &secs);
    assert(views(out@) =~= g1 + seq!["\nSECRETS"@] + secrets_part(sv, ov, rv, use_color).0);
    let ghost g2 = views(out@);
    out.push(String::from_str("\nKEY PROVIDER"));
    append_all(&mut out, &prov);
    let ghost pp = provider_spec(provider, crate::search::opt_view(disk_key));
    assert(views(out@) =~= g2 + seq!["\nKEY PROVIDER"@] + pp.0);
    let ghost g3 = views(out@);
    out.push(rule_s);
    let sl = summary_line(total);
    assert(sl@ == summary_spec(
        identities_spec(rv, lv, provider, use_color).1 + secrets_part(sv, ov, rv, use_color).1 + if pp.1 {
            1nat
        } else {
            0nat
        },
    ));
    out.push(sl);
    assert(views(out@) =~= g3 + seq![rule(), sl@]);
    assert(views(out@) =~= report_spec(
        rv,
        lv,
        provider,
        ov,
        sv,
        crate::search::opt_view(disk_key),
        use_color,
    ));
    out
}

} // verus!
