//! `recipient`: the rules for recipient names, the short fingerprint shown
//! for a key, the table that lists recipients, and the decisions of
//! `recipient add`, `rm` and `show`.
use vstd::prelude::*;

use owo_colors::OwoColorize;

use crate::env_dsl::{trim, trim_chars};
use crate::error::HimitsuError;
use crate::init::{extract_public_key, recorded_key};
use crate::ls::{at_least, byte_width, pad_spec};
use crate::text::{
    chars_of, copy_string, has_char, has_prefix, has_suffix, push_char, push_str, split,
    split_chars, str_eq, string_of, vec_views,
};

verus! {

// ── Names ────────────────────────────────────────────────────────────────

/// `pat` occurs somewhere in `s`.
pub open spec fn occurs(s: Seq<char>, pat: Seq<char>) -> bool {
    exists|i: int| 0 <= i <= s.len() - pat.len() && #[trigger] s.subrange(i, i + pat.len()) == pat
}

/// A recipient name: non-empty, no `\`, no `..` or `//`, not starting with
/// `.` or `/`, not ending with `/`, and no segment empty or starting with
/// `.`. Names may hold `/` to form a hierarchy.
pub open spec fn valid_recipient_name(name: Seq<char>) -> bool {
    &&& name.len() > 0
    &&& !has_char(name, '\\')
    &&& !has_prefix(name, seq!['.'])
    &&& !has_prefix(name, seq!['/'])
    &&& !has_suffix(name, seq!['/'])
    &&& !occurs(name, seq!['.', '.'])
    &&& !occurs(name, seq!['/', '/'])
    &&& forall|i: int|
        0 <= i < split(name, '/').len() ==> #[trigger] split(name, '/')[i].len() > 0 && split(
            name,
            '/',
        )[i][0] != '.'
}

/// The error for an invalid name.
pub open spec fn invalid_name_msg(name: Seq<char>) -> Seq<char> {
    "invalid recipient name '"@ + name + "'"@
}

/// Whether the two characters `a`, `b` occur side by side in `s`.
fn has_pair(s: &[char], a: char, b: char) -> (r: bool)
    ensures
        r == occurs(s@, seq![a, b]),
{
    if s.len() < 2 {
        proof {
            if occurs(s@, seq![a, b]) {
                let i = choose|i: int|
                    0 <= i <= s@.len() - 2 && #[trigger] s@.subrange(i, i + 2) == seq![a, b];
                assert(s@.subrange(i, i + 2).len() == 2);
            }
        }
        return false;
    }
    let mut i: usize = 0;
    while i + 1 < s.len()
        invariant
            s.len() >= 2,
            i + 1 <= s.len(),
            forall|j: int| 0 <= j < i ==> #[trigger] s@.subrange(j, j + 2) != seq![a, b],
        decreases s.len() - i,
    {
        if s[i] == a && s[i + 1] == b {
            assert(s@.subrange(i as int, i + 2) =~= seq![a, b]);
            return true;
        }
        assert(s@.subrange(i as int, i + 2)[0] == s[i as int]);
        assert(s@.subrange(i as int, i + 2)[1] == s[i + 1]);
        assert(seq![a, b][0] == a && seq![a, b][1] == b);
        i += 1;
    }
    proof {
        if occurs(s@, seq![a, b]) {
            let k = choose|k: int|
                0 <= k <= s@.len() - 2 && #[trigger] s@.subrange(k, k + 2) == seq![a, b];
            assert(k < i);
        }
    }
    false
}

/// Checks a recipient name.
pub fn validate_name(name: &str) -> (r: Result<(), HimitsuError>)
    ensures
        valid_recipient_name(name@) ==> r is Ok,
        !valid_recipient_name(name@) ==> (r matches Err(e) && e is Recipient && e.detail()
            == invalid_name_msg(name@)),
{
    let cs = chars_of(name);
    let mut bad = cs.len() == 0;
    if !bad {
        bad = crate::text::contains_char(&cs, '\\') || cs[0] == '.' || cs[0] == '/' || cs[cs.len()
            - 1] == '/' || has_pair(&cs, '.', '.') || has_pair(&cs, '/', '/');
        proof {
            assert(has_prefix(cs@, seq!['.']) == (cs@[0] == '.')) by {
                if cs@[0] == '.' {
                    assert(cs@.take(1) =~= seq!['.']);
                }
                if has_prefix(cs@, seq!['.']) {
                    assert(cs@.take(1)[0] == cs@[0]);
                }
            }
            assert(has_prefix(cs@, seq!['/']) == (cs@[0] == '/')) by {
                if cs@[0] == '/' {
                    assert(cs@.take(1) =~= seq!['/']);
                }
                if has_prefix(cs@, seq!['/']) {
                    assert(cs@.take(1)[0] == cs@[0]);
                }
            }
            assert(has_suffix(cs@, seq!['/']) == (cs@.last() == '/')) by {
                if cs@.last() == '/' {
                    assert(cs@.skip(cs@.len() - 1) =~= seq!['/']);
                }
                if has_suffix(cs@, seq!['/']) {
                    assert(cs@.skip(cs@.len() - 1)[0] == cs@.last());
                }
            }
        }
    }
    if !bad {
        let segs = split_chars(&cs, '/');
        let ghost sv = vec_views(segs@);
        let mut i: usize = 0;
        while i < segs.len()
            invariant
                i <= segs@.len(),
                sv == vec_views(segs@),
                sv == split(name@, '/'),
                !bad ==> forall|k: int| 0 <= k < i ==> #[trigger] sv[k].len() > 0 && sv[k][0] != '.',
                bad ==> exists|k: int| 0 <= k < sv.len() && !(#[trigger] sv[k].len() > 0 && sv[k][0] != '.'),
            decreases segs.len() - i,
        {
            assert(sv[i as int] == segs@[i as int]@);
            if segs[i].len() == 0 || segs[i][0] == '.' {
                bad = true;
            }
            i += 1;
        }
    }
    if bad {
        let mut m = String::from_str("invalid recipient name '");
        push_str(&mut m, name);
        push_str(&mut m, "'");
        return Err(HimitsuError::Recipient(m));
    }
    Ok(())
}

// ── Fingerprints ─────────────────────────────────────────────────────────

/// The bytes of a string.
pub open spec fn bytes_of(s: Seq<char>) -> Seq<u8> {
    vstd::utf8::encode_utf8(s)
}

/// The short fingerprint of a key: the trimmed key when it is at most 14
/// bytes long, else `…` and its last 10 bytes.
pub open spec fn fingerprint_spec(key: Seq<char>) -> Seq<char> {
    let t = trim(key);
    let b = bytes_of(t);
    let n = (b.len() as usize) as int;
    if n <= 14 {
        t
    } else {
        "…"@ + vstd::utf8::decode_utf8(b.subrange(n - 10, b.len() as int))
    }
}

/// Whether the last 10 bytes of a key start on a character boundary, as
/// cutting them out requires of a key longer than 14 bytes.
pub open spec fn fingerprint_cut_ok(key: Seq<char>) -> bool {
    let b = bytes_of(trim(key));
    let n = (b.len() as usize) as int;
    n <= 14 || vstd::utf8::is_char_boundary(b, n - 10)
}

/// The trailing 10 bytes of the trimmed key as a cheap fingerprint.
pub fn short_fingerprint(key: &str) -> (r: String)
    requires
        fingerprint_cut_ok(key@),
    ensures
        r@ == fingerprint_spec(key@),
{
    let t = string_of(&trim_chars(&chars_of(key)));
    let ts = t.as_str();
    let n = ts.len();
    if n <= 14 {
        return t;
    }
    let (_, tail) = ts.split_at(n - 10);
    let mut out = String::from_str("…");
    push_str(&mut out, tail);
    proof {
        vstd::utf8::encode_utf8_decode_utf8(tail@);
    }
    out
}

// ── The table ────────────────────────────────────────────────────────────

/// One recipient as listed.
#[derive(Debug, Clone)]
pub struct RecipientRow {
    pub name: String,
    pub description: String,
    pub key: String,
    pub short_key: String,
}

/// Text in bold green, as owo-colors writes `text.green().bold()`.
pub open spec fn green_bold(text: Seq<char>) -> Seq<char> {
    "\x1b[1m\x1b[32m"@ + text + "\x1b[39m\x1b[0m"@
}

/// Paints text bold green with owo-colors (`OwoColorize::green`, then
/// `bold`): the bold code, the green code, the text, the default-colour
/// code and the reset code, as owo-colors' `Display` impls write them.
#[verifier::external_body]
fn paint_green_bold(text: &str) -> (r: String)
    ensures
        r@ == green_bold(text@),
{
    format!("{}", text.green().bold())
}

/// The widest name of the rows, in bytes (0 for none).
pub open spec fn widest_name(rows: Seq<RecipientRow>) -> nat
    decreases rows.len(),
{
    if rows.len() == 0 {
        0
    } else {
        at_least(widest_name(rows.drop_last()), byte_width(rows.last().name@))
    }
}

/// The widest description of the rows, in bytes (0 for none).
pub open spec fn widest_description(rows: Seq<RecipientRow>) -> nat
    decreases rows.len(),
{
    if rows.len() == 0 {
        0
    } else {
        at_least(widest_description(rows.drop_last()), byte_width(rows.last().description@))
    }
}

/// One table line: padded name, padded description and short key, all in
/// bold green when colour is on and the row is the own key.
pub open spec fn row_line(row: RecipientRow, w0: nat, w1: nat, self_key: Option<Seq<char>>, color: bool) -> Seq<char> {
    let name = pad_spec(row.name@, w0);
    let description = pad_spec(row.description@, w1);
    if color && self_key == Some(row.key@) {
        green_bold(name) + "  "@ + green_bold(description) + "  "@ + green_bold(row.short_key@)
            + "\n"@
    } else {
        name + "  "@ + description + "  "@ + row.short_key@ + "\n"@
    }
}

/// The lines of all rows.
pub open spec fn row_lines(rows: Seq<RecipientRow>, w0: nat, w1: nat, self_key: Option<Seq<char>>, color: bool) -> Seq<char>
    decreases rows.len(),
{
    if rows.len() == 0 {
        Seq::empty()
    } else {
        row_lines(rows.drop_last(), w0, w1, self_key, color) + row_line(
            rows.last(),
            w0,
            w1,
            self_key,
            color,
        )
    }
}

/// The recipient table: a `NAME  DESCRIPTION  KEY` heading, then a line per
/// row; the name and description columns are as wide as their widest entry
/// in bytes, and at least their heading.
pub open spec fn table_spec(rows: Seq<RecipientRow>, self_key: Option<Seq<char>>, color: bool) -> Seq<char> {
    let w0 = at_least(widest_name(rows), 4);
    let w1 = at_least(widest_description(rows), 11);
    pad_spec("NAME"@, w0) + "  "@ + pad_spec("DESCRIPTION"@, w1) + "  "@ + "KEY"@ + "\n"@
        + row_lines(rows, w0, w1, self_key, color)
}

/// Appends `s` padded with spaces to `w` characters.
fn padded(s: &str, w: usize) -> (r: String)
    ensures
        r@ == pad_spec(s@, w as nat),
{
    let mut out = String::new();
    push_str(&mut out, s);
    let n = chars_of(s).len();
    let mut k: usize = n;
    while k < w
        invariant
            n == s@.len(),
            n <= k,
            k <= w || n >= w,
            n >= w ==> k == n,
            out@ == s@ + Seq::new((k - n) as nat, |i: int| ' '),
        decreases w - k,
    {
        push_char(&mut out, ' ');
        assert(Seq::new((k + 1 - n) as nat, |i: int| ' ') =~= Seq::new((k - n) as nat, |i: int| ' ').push(' '));
        k += 1;
    }
    if n >= w {
        assert(Seq::new(0nat, |i: int| ' ') =~= Seq::<char>::empty());
        assert(out@ =~= pad_spec(s@, w as nat));
    } else {
        assert(out@ =~= pad_spec(s@, w as nat));
    }
    out
}

/// The view of an optional string slice.
pub open spec fn opt_view(o: Option<&str>) -> Option<Seq<char>> {
    match o {
        Some(s) => Some(s@),
        None => None,
    }
}

/// Appends the line of one row.
fn push_row(out: &mut String, row: &RecipientRow, w0: usize, w1: usize, self_key: Option<&str>, use_color: bool)
    ensures
        final(out)@ == old(out)@ + row_line(*row, w0 as nat, w1 as nat, opt_view(self_key), use_color),
{
    let name = padded(row.name.as_str(), w0);
    let description = padded(row.description.as_str(), w1);
    let is_self = match self_key {
        Some(k) => str_eq(k, row.key.as_str()),
        None => false,
    };
    if use_color && is_self {
        push_str(out, paint_green_bold(name.as_str()).as_str());
        push_str(out, "  ");
        push_str(out, paint_green_bold(description.as_str()).as_str());
        push_str(out, "  ");
        push_str(out, paint_green_bold(row.short_key.as_str()).as_str());
        push_str(out, "\n");
    } else {
        push_str(out, name.as_str());
        push_str(out, "  ");
        push_str(out, description.as_str());
        push_str(out, "  ");
        push_str(out, row.short_key.as_str());
        push_str(out, "\n");
    }
    assert(out@ =~= old(out)@ + row_line(*row, w0 as nat, w1 as nat, opt_view(self_key), use_color));
}

/// Renders the recipient table; with colour on, the row of the own key is
/// highlighted.
pub fn render_recipient_table(rows: &[RecipientRow], self_key: Option<&str>, use_color: bool) -> (r: String)
    ensures
        r@ == table_spec(rows@, opt_view(self_key), use_color),
{
    let mut w0: usize = 4;
    let mut w1: usize = 11;
    let mut i: usize = 0;
    while i < rows.len()
        invariant
            i <= rows@.len(),
            w0 == at_least(widest_name(rows@.take(i as int)), 4),
            w1 == at_least(widest_description(rows@.take(i as int)), 11),
        decreases rows.len() - i,
    {
        assert(rows@.take(i + 1).drop_last() == rows@.take(i as int));
        assert(rows@.take(i + 1).last() == rows@[i as int]);
        let a = rows[i].name.as_str().len();
        let b = rows[i].description.as_str().len();
        if a > w0 {
            w0 = a;
        }
        if b > w1 {
            w1 = b;
        }
        i += 1;
    }
    assert(rows@.take(rows@.len() as int) == rows@);
    let mut out = padded("NAME", w0);
    push_str(&mut out, "  ");
    push_str(&mut out, padded("DESCRIPTION", w1).as_str());
    push_str(&mut out, "  ");
    push_str(&mut out, "KEY");
    push_str(&mut out, "\n");
    let ghost head = out@;
    let mut j: usize = 0;
    assert(head + row_lines(rows@.take(0), w0 as nat, w1 as nat, opt_view(self_key), use_color) =~= head);
    while j < rows.len()
        invariant
            j <= rows@.len(),
            out@ == head + row_lines(rows@.take(j as int), w0 as nat, w1 as nat, opt_view(self_key), use_color),
        decreases rows.len() - j,
    {
        let row = &rows[j];
        assert(rows@.take(j + 1).drop_last() == rows@.take(j as int));
        assert(rows@.take(j + 1).last() == *row);
        push_row(&mut out, row, w0, w1, self_key, use_color);
        j += 1;
    }
    assert(rows@.take(rows@.len() as int) == rows@);
    out
}


/// Whether `short_fingerprint` can cut the key: at most 14 bytes, or its
/// last 10 bytes start on a character boundary.
pub fn fingerprint_cut_possible(key: &str) -> (r: bool)
    ensures
        r == fingerprint_cut_ok(key@),
{
    let t = string_of(&trim_chars(&chars_of(key)));
    let ts = t.as_str();
    let n = ts.len();
    if n <= 14 {
        true
    } else {
        ts.is_char_boundary(n - 10)
    }
}

// ── Add, remove, show ────────────────────────────────────────────────────

/// Where the key of a new recipient comes from.
#[derive(Debug, PartialEq, Eq)]
pub enum KeySource {
    /// The public key recorded in the own key file (`--self`).
    OwnKeyFile,
    /// The key given with `--age-key`, still to be parsed as an age
    /// recipient.
    Given(String),
}

/// The message when neither `--self` nor `--age-key` is given.
pub open spec fn no_key_msg() -> Seq<char> {
    "either --self or --age-key must be provided"@
}

/// Decides where the key of `recipient add` comes from, after checking the
/// name: `--self` wins over `--age-key`; one of them is required.
pub fn key_source(name: &str, self_: bool, age_key: Option<&str>) -> (r: Result<KeySource, HimitsuError>)
    ensures
        !valid_recipient_name(name@) ==> (r matches Err(e) && e is Recipient && e.detail()
            == invalid_name_msg(name@)),
        valid_recipient_name(name@) ==> (if self_ {
            r == Ok::<KeySource, HimitsuError>(KeySource::OwnKeyFile)
        } else {
            match age_key {
                Some(k) => r matches Ok(KeySource::Given(g)) && g@ == k@,
                None => r matches Err(e) && e is Recipient && e.detail() == no_key_msg(),
            }
        }),
{
    validate_name(name)?;
    if self_ {
        Ok(KeySource::OwnKeyFile)
    } else {
        match age_key {
            Some(k) => Ok(KeySource::Given(String::from_str(k))),
            None => Err(
                HimitsuError::Recipient(String::from_str("either --self or --age-key must be provided")),
            ),
        }
    }
}

/// The public key recorded in the own key file.
pub fn own_public_key(contents: &str) -> (r: Result<String, HimitsuError>)
    ensures
        match recorded_key(split(contents@, '\n')) {
            Some(k) => r matches Ok(s) && s@ == k,
            None => r matches Err(e) && e is Recipient && e.detail()
                == "cannot extract public key from key file"@,
        },
{
    match extract_public_key(contents) {
        Some(k) => Ok(k),
        None => Err(
            HimitsuError::Recipient(String::from_str("cannot extract public key from key file")),
        ),
    }
}

/// What a recipient's `.pub` file holds: the key and a newline.
pub fn pub_file_contents(key: &str) -> (r: String)
    ensures
        r@ == key@ + "\n"@,
{
    let mut r = String::from_str(key);
    push_str(&mut r, "\n");
    r
}

/// The description kept for a new recipient: trimmed, and none when empty.
pub fn clean_description(description: &str) -> (r: Option<String>)
    ensures
        trim(description@).len() == 0 ==> r is None,
        trim(description@).len() > 0 ==> (r matches Some(d) && d@ == trim(description@)),
{
    let t = trim_chars(&chars_of(description));
    if t.len() == 0 {
        None
    } else {
        Some(string_of(&t))
    }
}

/// The error when the recipient to add already exists at `path`.
pub fn already_exists(name: &str, path: &str) -> (r: HimitsuError)
    ensures
        r is Recipient && r.detail() == "recipient '"@ + name@ + "' already exists at "@ + path@,
{
    let mut m = String::from_str("recipient '");
    push_str(&mut m, name);
    push_str(&mut m, "' already exists at ");
    push_str(&mut m, path);
    HimitsuError::Recipient(m)
}

/// The error when the recipient to remove or show does not exist.
pub fn not_found(name: &str) -> (r: HimitsuError)
    ensures
        r is Recipient && r.detail() == "recipient '"@ + name@ + "' not found"@,
{
    let mut m = String::from_str("recipient '");
    push_str(&mut m, name);
    push_str(&mut m, "' not found");
    HimitsuError::Recipient(m)
}

/// A text that is present and not empty.
pub open spec fn shown(o: Option<Seq<char>>) -> bool {
    o matches Some(t) && t.len() > 0
}

/// What `recipient show` prints: name and trimmed key, then the
/// description and the date added when present and not empty.
pub open spec fn show_spec(
    name: Seq<char>,
    key_file: Seq<char>,
    description: Option<Seq<char>>,
    added_at: Option<Seq<char>>,
) -> Seq<char> {
    "Name:         "@ + name + "\n"@ + "Public key:   "@ + trim(key_file) + "\n"@ + (if shown(
        description,
    ) {
        "Description:  "@ + description.unwrap() + "\n"@
    } else {
        Seq::empty()
    }) + (if shown(added_at) {
        "Added at:     "@ + added_at.unwrap() + "\n"@
    } else {
        Seq::empty()
    })
}

/// Renders `recipient show`.
pub fn render_show(name: &str, key_file: &str, description: Option<&str>, added_at: Option<&str>) -> (r:
    String)
    ensures
        r@ == show_spec(name@, key_file@, opt_view(description), opt_view(added_at)),
{
    let mut out = String::from_str("Name:         ");
    push_str(&mut out, name);
    push_str(&mut out, "\n");
    push_str(&mut out, "Public key:   ");
    let key = string_of(&trim_chars(&chars_of(key_file)));
    push_str(&mut out, key.as_str());
    push_str(&mut out, "\n");
    let ghost head = out@;
    match description {
        Some(d) => {
            if chars_of(d).len() > 0 {
                push_str(&mut out, "Description:  ");
                push_str(&mut out, d);
                push_str(&mut out, "\n");
            }
        },
        None => {},
    }
    let ghost mid = out@;
    assert(mid =~= head + (if shown(opt_view(description)) {
        "Description:  "@ + opt_view(description).unwrap() + "\n"@
    } else {
        Seq::<char>::empty()
    }));
    match added_at {
        Some(a) => {
            if chars_of(a).len() > 0 {
                push_str(&mut out, "Added at:     ");
                push_str(&mut out, a);
                push_str(&mut out, "\n");
            }
        },
        None => {},
    }
    assert(out@ =~= mid + (if shown(opt_view(added_at)) {
        "Added at:     "@ + opt_view(added_at).unwrap() + "\n"@
    } else {
        Seq::<char>::empty()
    }));
    out
}

/// The name of a recipient from its `.pub` file's path below the
/// recipients directory: the path without the `.pub` extension.
pub open spec fn name_of_pub(rel: Seq<char>) -> Seq<char> {
    if has_suffix(rel, ".pub"@) {
        rel.take(rel.len() - 4)
    } else {
        rel
    }
}

/// The name of a recipient from its `.pub` file's relative path.
pub fn recipient_name(rel: &str) -> (r: String)
    ensures
        r@ == name_of_pub(rel@),
{
    let cs = chars_of(rel);
    let ext = chars_of(".pub");
    proof {
        reveal_strlit(".pub");
    }
    assert(ext@.len() == 4);
    if crate::text::ends_with(&cs, &ext) {
        let head = crate::text::slice_of(&cs, 0, cs.len() - 4);
        assert(head@ == cs@.take(cs@.len() - 4));
        string_of(&head)
    } else {
        string_of(&cs)
    }
}

/// A listed recipient: its name, the description (empty when none), the
/// trimmed key and its fingerprint.
pub fn make_row(name: &str, key_file: &str, description: Option<&str>) -> (r: RecipientRow)
    requires
        fingerprint_cut_ok(key_file@),
    ensures
        r.name@ == name@,
        r.description@ == (match description {
            Some(d) => d@,
            None => Seq::<char>::empty(),
        }),
        r.key@ == trim(key_file@),
        r.short_key@ == fingerprint_spec(key_file@),
{
    let key = string_of(&trim_chars(&chars_of(key_file)));
    let short_key = short_fingerprint(key_file);
    RecipientRow {
        name: String::from_str(name),
        description: match description {
            Some(d) => String::from_str(d),
            None => String::new(),
        },
        key,
        short_key,
    }
}

// ── Sidecars ─────────────────────────────────────────────────────────────

/// Sidecar metadata stored beside a recipient's `<name>.pub`.
#[derive(Debug, Clone, PartialEq, Eq)]
pub struct RecipientMeta {
    pub description: Option<String>,
    pub added_at: Option<String>,
}

impl RecipientMeta {
    /// The metadata of a recipient without a sidecar: nothing recorded.
    pub fn none() -> (r: RecipientMeta)
        ensures
            r.description is None,
            r.added_at is None,
    {
        RecipientMeta { description: None, added_at: None }
    }
}

/// The sidecar of a recipient: `<name>.yaml` in the recipients directory.
pub fn sidecar_path(recipients_dir: &str, name: &str) -> (r: String)
    ensures
        r@ == crate::paths::path_join(recipients_dir@, name@ + ".yaml"@),
{
    let mut f = String::from_str(name);
    push_str(&mut f, ".yaml");
    crate::paths::join_path(recipients_dir, f.as_str())
}

/// The sidecar written when a recipient is added: only with a description,
/// stamped with the time it was added.
pub fn new_sidecar(description: Option<String>, added_at: &str) -> (r: Option<RecipientMeta>)
    ensures
        match description {
            None => r is None,
            Some(d) => r matches Some(m) && m.description == Some(d) && (m.added_at matches Some(a)
                && a@ == added_at@),
        },
{
    match description {
        None => None,
        Some(d) => Some(RecipientMeta { description: Some(d), added_at: Some(String::from_str(added_at)) }),
    }
}

// ── Timestamps of sidecars ───────────────────────────────────────────────

/// The days-to-civil-date computation for a day count since 1970-01-01
/// (proleptic Gregorian, eras of 400 years from 0000-03-01): year, month,
/// day, and the day of the year counted from March (`doy`), as the
/// intermediate values of that computation.
pub open spec fn civil_parts(days: int) -> (int, int, int, int, int) {
    let z = days + 719468;
    let era = z / 146097;
    let doe = z - era * 146097;
    let yoe = (doe - doe / 1460 + doe / 36524 - doe / 146096) / 365;
    let doy = doe - (365 * yoe + yoe / 4 - yoe / 100);
    let mp = (5 * doy + 2) / 153;
    let d = doy - (153 * mp + 2) / 5 + 1;
    let m = if mp < 10 {
        mp + 3
    } else {
        mp - 9
    };
    let y = yoe + era * 400 + if m <= 2 {
        1int
    } else {
        0int
    };
    (y, m, d, doe, doy)
}

/// The day of the year the computation finds is not negative, so its own
/// subtraction does not underflow (see `lemma_civil_ok`).
pub open spec fn civil_ok(days: int) -> bool {
    civil_parts(days).4 >= 0
}

/// `n` in decimal, zero-padded to `w` digits.
pub open spec fn zero_pad(n: nat, w: nat) -> Seq<char> {
    let d = crate::text::decimal(n);
    if d.len() >= w {
        d
    } else {
        Seq::new((w - d.len()) as nat, |i: int| '0') + d
    }
}

/// The UTC timestamp `YYYY-MM-DDTHH:MM:SSZ` of `secs` seconds since the
/// Unix epoch.
pub open spec fn iso8601_spec(secs: nat) -> Seq<char> {
    let p = civil_parts((secs / 86400) as int);
    let hms = secs % 86400;
    zero_pad(p.0 as nat, 4) + "-"@ + zero_pad(p.1 as nat, 2) + "-"@ + zero_pad(p.2 as nat, 2) + "T"@
        + zero_pad(hms / 3600, 2) + ":"@ + zero_pad((hms % 3600) / 60, 2) + ":"@ + zero_pad(
        hms % 60,
        2,
    ) + "Z"@
}

fn push_padded_number(out: &mut String, n: u64, w: usize)
    ensures
        final(out)@ == old(out)@ + zero_pad(n as nat, w as nat),
{
    let d = crate::text::decimal_u128(n as u128);
    let mut k = d.len();
    let ghost start = out@;
    while k < w
        invariant
            d@ == crate::text::decimal(n as nat),
            d@.len() <= k,
            k <= w || d@.len() >= w,
            d@.len() >= w ==> k == d@.len(),
            out@ == start + Seq::new((k - d@.len()) as nat, |i: int| '0'),
        decreases w - k,
    {
        push_char(out, '0');
        assert(Seq::new((k + 1 - d@.len()) as nat, |i: int| '0') =~= Seq::new((k - d@.len()) as nat, |i: int| '0').push('0'));
        k += 1;
    }
    let ghost mid = out@;
    push_str(out, crate::text::string_of(&d).as_str());
    if d.len() >= w {
        assert(Seq::new(0nat, |i: int| '0') =~= Seq::<char>::empty());
    }
    assert(out@ =~= start + zero_pad(n as nat, w as nat));
}

/// The UTC timestamp of a moment, `YYYY-MM-DDTHH:MM:SSZ`, computed with the
/// days-to-civil algorithm. The day count must fit an `i32` with room for
/// the era shift, as the computation's integer types require.
pub fn iso8601_utc(secs: u64) -> (r: String)
    requires
        secs / 86400 + 719468 <= i32::MAX,
    ensures
        r@ == iso8601_spec(secs as nat),
{
    let days: u64 = secs / 86400;
    proof {
        lemma_civil_ok(days as int);
    }
    let z: u64 = days + 719468;
    let era: u64 = z / 146097;
    let doe: u64 = z - era * 146097;
    assert(doe < 146097);
    let yoe: u64 = (doe - doe / 1460 + doe / 36524 - doe / 146096) / 365;
    assert(yoe <= 400);
    let ghost p = civil_parts(days as int);
    assert(p.3 == doe);
    let doy: u64 = doe - (365 * yoe + yoe / 4 - yoe / 100);
    let mp: u64 = (5 * doy + 2) / 153;
    assert(153 * mp <= 5 * doy + 2);
    let d: u64 = doy - (153 * mp + 2) / 5 + 1;
    let m: u64 = if mp < 10 {
        mp + 3
    } else {
        mp - 9
    };
    let y: u64 = yoe + era * 400 + if m <= 2 {
        1
    } else {
        0
    };
    assert(p.0 == y && p.1 == m && p.2 == d);
    let hms = secs % 86400;
    let mut out = String::new();
    push_padded_number(&mut out, y, 4);
    push_str(&mut out, "-");
    push_padded_number(&mut out, m, 2);
    push_str(&mut out, "-");
    push_padded_number(&mut out, d, 2);
    push_str(&mut out, "T");
    push_padded_number(&mut out, hms / 3600, 2);
    push_str(&mut out, ":");
    push_padded_number(&mut out, (hms % 3600) / 60, 2);
    push_str(&mut out, ":");
    push_padded_number(&mut out, hms % 60, 2);
    push_str(&mut out, "Z");
    out
}

/// The day of the year the computation finds is never negative.
pub proof fn lemma_civil_ok(days: int)
    requires
        days >= 0,
    ensures
        civil_ok(days),
{
    let z = days + 719468;
    let era = z / 146097;
    let doe = z - era * 146097;
    assert(0 <= doe < 146097);
    let a = doe - doe / 1460 + doe / 36524 - doe / 146096;
    let yoe = a / 365;
    assert(365 * yoe + yoe / 4 - yoe / 100 <= doe) by (nonlinear_arith)
        requires
            0 <= doe < 146097,
            a == doe - doe / 1460 + doe / 36524 - doe / 146096,
            yoe == a / 365,
    ;
}

/// The date the computation finds is a calendar date: month 1 to 12, day
/// 1 to 31.
pub proof fn lemma_civil_ranges(days: int)
    requires
        days >= 0,
    ensures
        1 <= civil_parts(days).1 <= 12,
        1 <= civil_parts(days).2 <= 31,
{
    let z = days + 719468;
    let era = z / 146097;
    let doe = z - era * 146097;
    assert(0 <= doe < 146097);
    let a = doe - doe / 1460 + doe / 36524 - doe / 146096;
    let yoe = a / 365;
    let doy = doe - (365 * yoe + yoe / 4 - yoe / 100);
    assert(0 <= doy <= 365) by (nonlinear_arith)
        requires
            0 <= doe < 146097,
            a == doe - doe / 1460 + doe / 36524 - doe / 146096,
            yoe == a / 365,
            doy == doe - (365 * yoe + yoe / 4 - yoe / 100),
    ;
    let mp = (5 * doy + 2) / 153;
    assert(0 <= mp <= 11);
    let d = doy - (153 * mp + 2) / 5 + 1;
    assert(1 <= d <= 31) by (nonlinear_arith)
        requires
            0 <= doy <= 365,
            mp == (5 * doy + 2) / 153,
            d == doy - (153 * mp + 2) / 5 + 1,
    ;
}

} // verus!
