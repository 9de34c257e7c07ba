//! `schema`: the JSON schemas the project publishes, with their names,
//! file names and descriptions, and the listing of them.
use vstd::prelude::*;

use crate::args::SchemaName;
use crate::ls::pad_spec;
use crate::text::{chars_of, decimal, decimal_chars, push_char, push_str, string_of};

verus! {

/// Every schema, in definition order.
pub open spec fn all_spec() -> Seq<SchemaName> {
    seq![SchemaName::Config, SchemaName::SecretEnvelope, SchemaName::ShareEnvelope]
}

/// The canonical name of a schema.
pub open spec fn name_spec(n: SchemaName) -> Seq<char> {
    match n {
        SchemaName::Config => "config"@,
        SchemaName::SecretEnvelope => "secret-envelope"@,
        SchemaName::ShareEnvelope => "share-envelope"@,
    }
}

/// The file a schema is written to.
pub open spec fn file_spec(n: SchemaName) -> Seq<char> {
    match n {
        SchemaName::Config => "config.schema.json"@,
        SchemaName::SecretEnvelope => "secret-envelope.schema.json"@,
        SchemaName::ShareEnvelope => "share-envelope.schema.json"@,
    }
}

/// What `schema list` says a schema is.
pub open spec fn description_spec(n: SchemaName) -> Seq<char> {
    match n {
        SchemaName::Config => "Unified config (.himitsu.yaml)"@,
        SchemaName::SecretEnvelope => "Encrypted secret envelope (on-disk wrapper)"@,
        SchemaName::ShareEnvelope => "Share envelope (transport-agnostic sharing payload)"@,
    }
}

impl SchemaName {
    /// All available schemas, in definition order.
    pub fn all() -> (r: Vec<SchemaName>)
        ensures
            r@ == all_spec(),
    {
        let r = vec![SchemaName::Config, SchemaName::SecretEnvelope, SchemaName::ShareEnvelope];
        assert(r@ =~= all_spec());
        r
    }

    /// The canonical name of the schema.
    pub fn to_string(&self) -> (r: String)
        ensures
            r@ == name_spec(*self),
    {
        String::from_str(
            match self {
                SchemaName::Config => "config",
                SchemaName::SecretEnvelope => "secret-envelope",
                SchemaName::ShareEnvelope => "share-envelope",
            },
        )
    }

    /// The canonical file name of the schema (without directory).
    pub fn file_name(&self) -> (r: &'static str)
        ensures
            r@ == file_spec(*self),
    {
        match self {
            SchemaName::Config => "config.schema.json",
            SchemaName::SecretEnvelope => "secret-envelope.schema.json",
            SchemaName::ShareEnvelope => "share-envelope.schema.json",
        }
    }

    /// The description shown by `schema list`.
    pub fn description(&self) -> (r: &'static str)
        ensures
            r@ == description_spec(*self),
    {
        match self {
            SchemaName::Config => "Unified config (.himitsu.yaml)",
            SchemaName::SecretEnvelope => "Encrypted secret envelope (on-disk wrapper)",
            SchemaName::ShareEnvelope => "Share envelope (transport-agnostic sharing payload)",
        }
    }
}

/// No two schemas share a name, and no two share a file.
pub proof fn lemma_schema_names_distinct(i: int, j: int)
    requires
        0 <= i < j < all_spec().len(),
    ensures
        name_spec(all_spec()[i]) != name_spec(all_spec()[j]),
        file_spec(all_spec()[i]) != file_spec(all_spec()[j]),
{
    reveal_strlit("config");
    reveal_strlit("secret-envelope");
    reveal_strlit("share-envelope");
    reveal_strlit("config.schema.json");
    reveal_strlit("secret-envelope.schema.json");
    reveal_strlit("share-envelope.schema.json");
    assert("config"@.len() != "secret-envelope"@.len());
    assert("config"@.len() != "share-envelope"@.len());
    assert("secret-envelope"@[1] != "share-envelope"@[1]);
    assert("config.schema.json"@.len() != "secret-envelope.schema.json"@.len());
    assert("config.schema.json"@.len() != "share-envelope.schema.json"@.len());
    assert("secret-envelope.schema.json"@[1] != "share-envelope.schema.json"@[1]);
}

/// The lines `schema list` prints for one schema: its name padded to 20
/// columns and its description, then the file, then a blank line.
pub open spec fn list_entry(n: SchemaName) -> Seq<char> {
    "  "@ + pad_spec(name_spec(n), 20) + " "@ + description_spec(n) + "\n"@ + "  "@ + pad_spec(
        ""@,
        20,
    ) + " file: "@ + file_spec(n) + "\n"@ + "\n"@
}

/// What `schema list` prints.
pub open spec fn list_spec() -> Seq<char> {
    "Available schemas:\n\n"@ + list_entry(SchemaName::Config) + list_entry(
        SchemaName::SecretEnvelope,
    ) + list_entry(SchemaName::ShareEnvelope)
}

/// Appends `s` padded with spaces to `w` characters.
fn push_padded(out: &mut String, s: &str, w: usize)
    ensures
        final(out)@ == old(out)@ + pad_spec(s@, w as nat),
{
    push_str(out, s);
    let n = chars_of(s).len();
    let mut k: usize = n;
    while k < w
        invariant
            n == s@.len(),
            n <= k,
            k <= w || n >= w,
            n >= w ==> k == n,
            out@ == old(out)@ + s@ + Seq::new((k - n) as nat, |i: int| ' '),
        decreases w - k,
    {
        push_char(out, ' ');
        assert(Seq::new((k + 1 - n) as nat, |i: int| ' ') =~= Seq::new((k - n) as nat, |i: int| ' ').push(' '));
        k += 1;
    }
    if n >= w {
        assert(Seq::new(0nat, |i: int| ' ') =~= Seq::<char>::empty());
        assert(out@ =~= old(out)@ + pad_spec(s@, w as nat));
    } else {
        assert(out@ =~= old(out)@ + pad_spec(s@, w as nat));
    }
}

/// Appends the listing of one schema.
fn push_entry(out: &mut String, n: SchemaName)
    ensures
        final(out)@ == old(out)@ + list_entry(n),
{
    push_str(out, "  ");
    push_padded(out, n.to_string().as_str(), 20);
    push_str(out, " ");
    push_str(out, n.description());
    push_str(out, "\n");
    push_str(out, "  ");
    push_padded(out, "", 20);
    push_str(out, " file: ");
    push_str(out, n.file_name());
    push_str(out, "\n");
    push_str(out, "\n");
    assert(out@ =~= old(out)@ + list_entry(n));
}

/// The listing printed by `schema list`.
pub fn list_text() -> (r: String)
    ensures
        r@ == list_spec(),
{
    let mut out = String::from_str("Available schemas:\n\n");
    push_entry(&mut out, SchemaName::Config);
    push_entry(&mut out, SchemaName::SecretEnvelope);
    push_entry(&mut out, SchemaName::ShareEnvelope);
    out
}

/// The summary line of `schema refresh`.
pub fn refreshed_line(dir: &str) -> (r: String)
    ensures
        r@ == "refreshed "@ + decimal(all_spec().len()) + " schemas in "@ + dir@,
{
    let mut m = String::from_str("refreshed ");
    let all = SchemaName::all();
    push_str(&mut m, string_of(&decimal_chars(all.len())).as_str());
    push_str(&mut m, " schemas in ");
    push_str(&mut m, dir);
    m
}

} // verus!
