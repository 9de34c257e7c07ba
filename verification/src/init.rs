//! `init`: the decisions and texts around creating keys, configuration and
//! stores — the key file's layout, git remote URLs and slugs, the suggested
//! primary store, and the summary printed at the end.
use vstd::prelude::*;

use crate::error::HimitsuError;
use crate::labels::{valid_slug, validate_remote_slug};
use crate::text::{
    chars_of, has_prefix, has_suffix, push_str, slice_eq, split, split_chars, starts_with,
    string_of, views,
};
use crate::env_dsl::{trim, trim_chars};
use crate::json::{json_object_pretty, members_of, pretty_json_object, JsonScalar, JsonScalarView};

verus! {

// ── Remote URLs ──────────────────────────────────────────────────────────

pub open spec fn strip_git_suffix(s: Seq<char>) -> Seq<char> {
    if has_suffix(s, ".git"@) {
        s.take(s.len() - 4)
    } else {
        s
    }
}

/// The `org/repo` slug of a GitHub remote URL (SSH or HTTP(S)), without a
/// trailing `.git`; `None` for any other URL.
pub open spec fn remote_slug_spec(url: Seq<char>) -> Option<Seq<char>> {
    if has_prefix(url, "git@github.com:"@) {
        Some(strip_git_suffix(url.skip(15)))
    } else if has_prefix(url, "https://github.com/"@) {
        Some(strip_git_suffix(url.skip(19)))
    } else if has_prefix(url, "http://github.com/"@) {
        Some(strip_git_suffix(url.skip(18)))
    } else {
        None
    }
}

fn strip_git_suffix_chars(s: &[char]) -> (r: String)
    ensures
        r@ == strip_git_suffix(s@),
{
    let suffix = ['.', 'g', 'i', 't'];
    proof {
        reveal_strlit(".git");
        assert(suffix@ == ".git"@);
    }
    if crate::text::ends_with(s, &suffix) {
        string_of(&crate::text::slice_of(s, 0, s.len() - 4))
    } else {
        string_of(s)
    }
}

/// The `org/repo` slug of a GitHub remote URL.
pub fn parse_remote_slug(url: &str) -> (r: Option<String>)
    ensures
        match r {
            Some(s) => remote_slug_spec(url@) == Some(s@),
            None => remote_slug_spec(url@) is None,
        },
{
    let u = chars_of(url);
    let ssh = chars_of("git@github.com:");
    let https = chars_of("https://github.com/");
    let http = chars_of("http://github.com/");
    proof {
        reveal_strlit("git@github.com:");
        reveal_strlit("https://github.com/");
        reveal_strlit("http://github.com/");
    }
    if starts_with(&u, &ssh) {
        Some(strip_git_suffix_chars(&crate::text::slice_of(&u, 15, u.len())))
    } else if starts_with(&u, &https) {
        Some(strip_git_suffix_chars(&crate::text::slice_of(&u, 19, u.len())))
    } else if starts_with(&u, &http) {
        Some(strip_git_suffix_chars(&crate::text::slice_of(&u, 18, u.len())))
    } else {
        None
    }
}

/// The GitHub SSH URL a slug-managed store is cloned from by default.
pub open spec fn github_url(org: Seq<char>, repo: Seq<char>) -> Seq<char> {
    "git@github.com:"@ + org + "/"@ + repo + ".git"@
}

/// The default GitHub SSH URL of `org/repo`.
pub fn default_clone_url(org: &str, repo: &str) -> (r: String)
    ensures
        r@ == github_url(org@, repo@),
{
    let mut r = String::from_str("git@github.com:");
    push_str(&mut r, org);
    push_str(&mut r, "/");
    push_str(&mut r, repo);
    push_str(&mut r, ".git");
    r
}

/// The URL a named store is restored from: the given one, else GitHub's.
pub fn clone_url_for(slug: &str, url: Option<&str>) -> (r: Result<String, HimitsuError>)
    ensures
        r is Ok <==> valid_slug(slug@),
        r matches Ok(u) ==> u@ == match url {
            Some(x) => x@,
            None => github_url(split(slug@, '/')[0], split(slug@, '/')[1]),
        },
        r matches Err(e) ==> e is InvalidConfig,
{
    let (org, repo) = validate_remote_slug(slug)?;
    match url {
        Some(x) => Ok(String::from_str(x)),
        None => Ok(default_clone_url(org.as_str(), repo.as_str())),
    }
}

/// The default `origin` of a store checkout, given its path components
/// below the stores directory: only an `org/repo` pair that is a valid slug
/// names a GitHub repository.
pub open spec fn default_origin_spec(parts: Seq<Seq<char>>) -> Option<Seq<char>> {
    if parts.len() == 2 && valid_slug(parts[0] + "/"@ + parts[1]) {
        Some(github_url(parts[0], parts[1]))
    } else {
        None
    }
}

/// The default `origin` of a store checkout from its components below the
/// stores directory.
pub fn default_origin_url(parts: &[String]) -> (r: Option<String>)
    ensures
        match r {
            Some(u) => default_origin_spec(views(parts@)) == Some(u@),
            None => default_origin_spec(views(parts@)) is None,
        },
{
    if parts.len() != 2 {
        return None;
    }
    let mut slug = String::from_str(parts[0].as_str());
    push_str(&mut slug, "/");
    push_str(&mut slug, parts[1].as_str());
    proof {
        reveal_strlit("/");
        assert(views(parts@)[0] == parts@[0]@ && views(parts@)[1] == parts@[1]@);
    }
    match validate_remote_slug(slug.as_str()) {
        Err(_) => None,
        Ok(_) => Some(default_clone_url(parts[0].as_str(), parts[1].as_str())),
    }
}

// ── Key file ─────────────────────────────────────────────────────────────

/// The private key file: creation time, public key, then the secret key.
pub open spec fn key_file_spec(created: Seq<char>, public: Seq<char>, secret: Seq<char>) -> Seq<char> {
    "# created: "@ + created + "\n# public key: "@ + public + "\n"@ + secret + "\n"@
}

/// The private key file's contents.
pub fn key_file_contents(created: &str, public: &str, secret: &str) -> (r: String)
    ensures
        r@ == key_file_spec(created@, public@, secret@),
{
    let mut r = String::from_str("# created: ");
    push_str(&mut r, created);
    push_str(&mut r, "\n# public key: ");
    push_str(&mut r, public);
    push_str(&mut r, "\n");
    push_str(&mut r, secret);
    push_str(&mut r, "\n");
    r
}

/// The public key recorded on the first `# public key: ` line, trimmed.
pub open spec fn recorded_key(lines: Seq<Seq<char>>) -> Option<Seq<char>>
    decreases lines.len(),
{
    if lines.len() == 0 {
        None
    } else if has_prefix(lines[0], "# public key: "@) {
        Some(trim(lines[0].skip(14)))
    } else {
        recorded_key(lines.drop_first())
    }
}

/// The public key recorded in a private key file. Lines are split at `\n`
/// (a `\r` before it is trimmed away with the key).
pub fn extract_public_key(contents: &str) -> (r: Option<String>)
    ensures
        match r {
            Some(k) => recorded_key(split(contents@, '\n')) == Some(k@),
            None => recorded_key(split(contents@, '\n')) is None,
        },
{
    let cs = chars_of(contents);
    let lines = split_chars(&cs, '\n');
    let ghost lv = crate::text::vec_views(lines@);
    let marker = chars_of("# public key: ");
    proof {
        reveal_strlit("# public key: ");
    }
    let mut i: usize = 0;
    assert(lv.skip(0) == lv);
    while i < lines.len()
        invariant
            i <= lines.len(),
            lv == crate::text::vec_views(lines@),
            lv == split(contents@, '\n'),
            marker@ == "# public key: "@,
            marker@.len() == 14,
            recorded_key(lv) == recorded_key(lv.skip(i as int)),
        decreases lines.len() - i,
    {
        assert(lv.skip(i as int)[0] == lines@[i as int]@);
        assert(lv.skip(i as int).drop_first() == lv.skip(i + 1));
        if starts_with(&lines[i], &marker) {
            let rest = crate::text::slice_of(&lines[i], 14, lines[i].len());
            return Some(string_of(&trim_chars(&rest)));
        }
        i += 1;
    }
    None
}

// ── Suggestions ──────────────────────────────────────────────────────────

/// The primary store suggested to a new user: `<name>/secrets` for the
/// first of a personal GitHub user name, the current repository's GitHub
/// org, or a non-empty login name; empty when none is known.
pub open spec fn suggestion_spec(
    personal: Option<Seq<char>>,
    origin_org: Option<Seq<char>>,
    user: Option<Seq<char>>,
) -> Seq<char> {
    match personal {
        Some(p) => p + "/secrets"@,
        None => match origin_org {
            Some(o) => o + "/secrets"@,
            None => match user {
                Some(u) => if u.len() > 0 {
                    u + "/secrets"@
                } else {
                    Seq::empty()
                },
                None => Seq::empty(),
            },
        },
    }
}

pub open spec fn opt_v(o: Option<String>) -> Option<Seq<char>> {
    match o {
        Some(s) => Some(s@),
        None => None,
    }
}

/// The suggested primary store slug.
pub fn suggested_remote_slug(
    personal: Option<String>,
    origin_org: Option<String>,
    user: Option<String>,
) -> (r: String)
    ensures
        r@ == suggestion_spec(opt_v(personal), opt_v(origin_org), opt_v(user)),
{
    let name = match personal {
        Some(p) => Some(p),
        None => match origin_org {
            Some(o) => Some(o),
            None => match user {
                Some(u) => if u.unicode_len() > 0 {
                    Some(u)
                } else {
                    None
                },
                None => None,
            },
        },
    };
    match name {
        Some(n) => {
            let mut r = n;
            push_str(&mut r, "/secrets");
            r
        },
        None => String::new(),
    }
}

/// The org of an `org/...` slug: the text before the first `/`.
pub open spec fn slug_org_spec(slug: Seq<char>) -> Option<Seq<char>> {
    if crate::text::has_char(slug, '/') {
        Some(split(slug, '/')[0])
    } else {
        None
    }
}

/// The org of the current repository's GitHub origin slug.
pub fn origin_org(slug: &str) -> (r: Option<String>)
    ensures
        match r {
            Some(o) => slug_org_spec(slug@) == Some(o@),
            None => slug_org_spec(slug@) is None,
        },
{
    let cs = chars_of(slug);
    if !crate::text::contains_char(&cs, '/') {
        return None;
    }
    let parts = split_chars(&cs, '/');
    proof {
        crate::text::lemma_split_nonempty(slug@, '/');
    }
    Some(string_of(&parts[0]))
}

// ── Summary ──────────────────────────────────────────────────────────────

/// What `init` found and did, for its closing summary.
#[derive(Debug)]
pub struct InitReport {
    pub pubkey: String,
    pub key_provider: String,
    pub key_existed: bool,
    /// The store path asked for; empty when none was.
    pub store: String,
    pub store_existed: bool,
    /// Slug registered with `--name`.
    pub name: Option<String>,
    pub name_restored: bool,
    /// Slug registered with `--project`, and the project file written.
    pub project: Option<String>,
    pub project_restored: bool,
    pub project_config_path: Option<String>,
    pub key_provider_given: bool,
    /// `org/repo` of the current repository's GitHub origin.
    pub suggested_remote: Option<String>,
    /// Suggested primary store slug (possibly empty).
    pub suggested_primary: String,
    /// Registered remote stores.
    pub remotes: Vec<String>,
    pub default_store: Option<String>,
}

pub open spec fn anything_created(r: InitReport) -> bool {
    !r.key_existed || (!r.store_existed && r.store@.len() > 0) || r.name is Some
        || r.project is Some
}

pub open spec fn store_lines(remotes: Seq<Seq<char>>, default: Seq<char>) -> Seq<Seq<char>>
    decreases remotes.len(),
{
    if remotes.len() == 0 {
        Seq::empty()
    } else {
        store_lines(remotes.drop_last(), default).push(
            if remotes.last() == default {
                "  Stores: "@ + remotes.last() + " (default)"@
            } else {
                "  Stores: "@ + remotes.last()
            },
        )
    }
}

pub open spec fn opt_or_empty(o: Option<String>) -> Seq<char> {
    match o {
        Some(s) => s@,
        None => Seq::empty(),
    }
}

pub open spec fn when(c: bool, lines: Seq<Seq<char>>) -> Seq<Seq<char>> {
    if c {
        lines
    } else {
        Seq::empty()
    }
}

/// What was set up: the key pair and the store.
pub open spec fn setup_lines(r: InitReport) -> Seq<Seq<char>> {
    when(!r.key_existed, seq!["✓ Created age keypair"@, "  Public key: "@ + r.pubkey@]) + when(
        !r.store_existed && r.store@.len() > 0,
        seq!["✓ Initialized store at "@ + r.store@] + match r.suggested_remote {
            Some(s) => seq!["  Detected git origin: "@ + s@],
            None => Seq::empty(),
        },
    )
}

/// The stores registered with `--name` and `--project`.
pub open spec fn registration_lines(r: InitReport) -> Seq<Seq<char>> {
    let named = match r.name {
        Some(slug) => seq![
            if r.name_restored {
                "✓ Restored store "@ + slug@ + " (default)"@
            } else {
                "✓ Registered store "@ + slug@ + " (default)"@
            },
        ],
        None => Seq::empty(),
    };
    let project = match r.project {
        Some(slug) => seq![
            (if r.project_restored {
                "✓ Restored project store "@ + slug@
            } else {
                "✓ Registered project store "@ + slug@
            }) + " → "@ + opt_or_empty(r.project_config_path),
        ],
        None => Seq::empty(),
    };
    named + project
}

/// The key provider, the state directory, and the hint to create a primary
/// store when none was set up.
pub open spec fn closing_lines(r: InitReport) -> Seq<Seq<char>> {
    when(r.key_provider_given, seq!["✓ Key provider: "@ + r.key_provider@]) + seq![
        "✓ Created state directory"@,
    ] + when(
        r.store@.len() == 0 && r.name is None,
        seq![
            Seq::empty(),
            if r.suggested_primary@.len() == 0 {
                "Run `himitsu init --name <your-github-username>/secrets` to create your primary personal GitHub store."@
            } else {
                "Run `himitsu init --name "@ + r.suggested_primary@
                    + "` to create your primary personal GitHub store."@
            },
        ],
    )
}

/// The lines printed after setting things up.
pub open spec fn created_lines(r: InitReport) -> Seq<Seq<char>> {
    setup_lines(r) + registration_lines(r) + closing_lines(r)
}

/// The lines `init` prints: a reminder of the key and stores when nothing
/// was created, else what was created.
pub open spec fn summary_spec(r: InitReport) -> Seq<Seq<char>> {
    if !anything_created(r) {
        seq![
            "Already initialized."@,
            "  Public key: "@ + r.pubkey@,
            "  Key provider: "@ + r.key_provider@,
        ] + store_lines(views(r.remotes@), opt_or_empty(r.default_store))
    } else {
        created_lines(r)
    }
}

fn line2(a: &str, b: &str) -> (r: String)
    ensures
        r@ == a@ + b@,
{
    let mut s = String::from_str(a);
    push_str(&mut s, b);
    s
}

fn line3(a: &str, b: &str, c: &str) -> (r: String)
    ensures
        r@ == a@ + b@ + c@,
{
    let mut s = String::from_str(a);
    push_str(&mut s, b);
    push_str(&mut s, c);
    s
}

fn push_line(out: &mut Vec<String>, line: String)
    ensures
        views(final(out)@) == views(old(out)@).push(line@),
{
    let ghost before = views(out@);
    out.push(line);
    assert(views(out@) =~= before.push(line@));
}

fn existing_summary(r: &InitReport) -> (out: Vec<String>)
    ensures
        views(out@) == seq![
            "Already initialized."@,
            "  Public key: "@ + r.pubkey@,
            "  Key provider: "@ + r.key_provider@,
        ] + store_lines(views(r.remotes@), opt_or_empty(r.default_store)),
{
    let mut out: Vec<String> = Vec::new();
    push_line(&mut out, String::from_str("Already initialized."));
    push_line(&mut out, line2("  Public key: ", r.pubkey.as_str()));
    push_line(&mut out, line2("  Key provider: ", r.key_provider.as_str()));
    let default: &str = match &r.default_store {
        Some(d) => d.as_str(),
        None => "",
    };
    let ghost dv = opt_or_empty(r.default_store);
    proof {
        reveal_strlit("");
        assert(default@ == dv);
    }
    let ghost head = views(out@);
    let ghost rv = views(r.remotes@);
    let mut i: usize = 0;
    assert(head + store_lines(rv.take(0), dv) =~= head);
    while i < r.remotes.len()
        invariant
            i <= r.remotes@.len(),
            rv == views(r.remotes@),
            default@ == dv,
            views(out@) == head + store_lines(rv.take(i as int), dv),
        decreases r.remotes.len() - i,
    {
        assert(rv.take(i + 1).drop_last() == rv.take(i as int));
        assert(rv.take(i + 1).last() == r.remotes@[i as int]@);
        let line = if crate::text::str_eq(r.remotes[i].as_str(), default) {
            line3("  Stores: ", r.remotes[i].as_str(), " (default)")
        } else {
            line2("  Stores: ", r.remotes[i].as_str())
        };
        push_line(&mut out, line);
        assert(head + store_lines(rv.take(i + 1), dv) =~= (head + store_lines(rv.take(i as int), dv)).push(line@));
        i += 1;
    }
    assert(rv.take(r.remotes.len() as int) == rv);
    out
}

fn setup_summary(r: &InitReport) -> (out: Vec<String>)
    ensures
        views(out@) == setup_lines(*r),
{
    let mut out: Vec<String> = Vec::new();
    if !r.key_existed {
        push_line(&mut out, String::from_str("✓ Created age keypair"));
        push_line(&mut out, line2("  Public key: ", r.pubkey.as_str()));
    }
    let ghost a = views(out@);
    if !r.store_existed && r.store.unicode_len() > 0 {
        push_line(&mut out, line2("✓ Initialized store at ", r.store.as_str()));
        if let Some(s) = &r.suggested_remote {
            push_line(&mut out, line2("  Detected git origin: ", s.as_str()));
        }
    }
    proof {
        let r0 = *r;
        assert(a =~= when(!r0.key_existed, seq!["✓ Created age keypair"@, "  Public key: "@ + r0.pubkey@]));
        assert(views(out@) =~= setup_lines(r0));
    }
    out
}

fn registration_summary(r: &InitReport) -> (out: Vec<String>)
    ensures
        views(out@) == registration_lines(*r),
{
    let mut out: Vec<String> = Vec::new();
    if let Some(slug) = &r.name {
        if r.name_restored {
            push_line(&mut out, line3("✓ Restored store ", slug.as_str(), " (default)"));
        } else {
            push_line(&mut out, line3("✓ Registered store ", slug.as_str(), " (default)"));
        }
    }
    let ghost a = views(out@);
    if let Some(slug) = &r.project {
        let path: &str = match &r.project_config_path {
            Some(p) => p.as_str(),
            None => "",
        };
        proof {
            reveal_strlit("");
            assert(path@ == opt_or_empty(r.project_config_path));
        }
        let head = if r.project_restored {
            line2("✓ Restored project store ", slug.as_str())
        } else {
            line2("✓ Registered project store ", slug.as_str())
        };
        push_line(&mut out, line3(head.as_str(), " → ", path));
    }
    assert(views(out@) =~= registration_lines(*r));
    out
}

fn closing_summary(r: &InitReport) -> (out: Vec<String>)
    ensures
        views(out@) == closing_lines(*r),
{
    let mut out: Vec<String> = Vec::new();
    if r.key_provider_given {
        push_line(&mut out, line2("✓ Key provider: ", r.key_provider.as_str()));
    }
    push_line(&mut out, String::from_str("✓ Created state directory"));
    let ghost a = views(out@);
    if r.store.unicode_len() == 0 && r.name.is_none() {
        push_line(&mut out, String::new());
        if r.suggested_primary.unicode_len() == 0 {
            push_line(
                &mut out,
                String::from_str(
                    "Run `himitsu init --name <your-github-username>/secrets` to create your primary personal GitHub store.",
                ),
            );
        } else {
            push_line(
                &mut out,
                line3(
                    "Run `himitsu init --name ",
                    r.suggested_primary.as_str(),
                    "` to create your primary personal GitHub store.",
                ),
            );
        }
    }
    assert(views(out@) =~= closing_lines(*r));
    out
}

/// The lines printed at the end of `init`.
pub fn init_summary(r: &InitReport) -> (out: Vec<String>)
    ensures
        views(out@) == summary_spec(*r),
{
    let created = !r.key_existed || (!r.store_existed && r.store.unicode_len() > 0)
        || r.name.is_some() || r.project.is_some();
    if !created {
        return existing_summary(r);
    }
    let mut out = setup_summary(r);
    let mut b = registration_summary(r);
    let mut c = closing_summary(r);
    let ghost (av, bv, cv) = (views(out@), views(b@), views(c@));
    out.append(&mut b);
    assert(views(out@) =~= av + bv);
    let ghost ab = views(out@);
    out.append(&mut c);
    assert(views(out@) =~= ab + cv);
    out
}

// ── The JSON report ──────────────────────────────────────────────────────

/// The members of `init --json`: the data and state directories, the store
/// path, the public key, whether the key and store already existed, whether
/// the working directory is in a git repository, the suggested remote (null
/// when there is none) and the key provider.
pub open spec fn init_json_members(
    r: InitReport,
    data_dir: Seq<char>,
    state_dir: Seq<char>,
    in_git_repo: bool,
) -> Seq<(Seq<char>, JsonScalarView)> {
    seq![
        ("data_dir"@, JsonScalarView::Str(data_dir)),
        ("state_dir"@, JsonScalarView::Str(state_dir)),
        ("store"@, JsonScalarView::Str(r.store@)),
        ("pubkey"@, JsonScalarView::Str(r.pubkey@)),
        ("key_existed"@, JsonScalarView::Bool(r.key_existed)),
        ("store_existed"@, JsonScalarView::Bool(r.store_existed)),
        ("in_git_repo"@, JsonScalarView::Bool(in_git_repo)),
        (
            "suggested_remote"@,
            match r.suggested_remote {
                Some(s) => JsonScalarView::Str(s@),
                None => JsonScalarView::Null,
            },
        ),
        ("key_provider"@, JsonScalarView::Str(r.key_provider@)),
    ]
}

fn json_member(k: &str, v: JsonScalar) -> (r: (String, JsonScalar))
    ensures
        r.0@ == k@,
        r.1 == v,
{
    (String::from_str(k), v)
}

/// What `init --json` prints: the report as a pretty-printed JSON object.
pub fn init_report_json(r: &InitReport, data_dir: &str, state_dir: &str, in_git_repo: bool) -> (s:
    String)
    ensures
        s@ == pretty_json_object(init_json_members(*r, data_dir@, state_dir@, in_git_repo)),
{
    let remote = match &r.suggested_remote {
        Some(x) => JsonScalar::Str(string_of(&chars_of(x.as_str()))),
        None => JsonScalar::Null,
    };
    let members = vec![
        json_member("data_dir", JsonScalar::Str(String::from_str(data_dir))),
        json_member("state_dir", JsonScalar::Str(String::from_str(state_dir))),
        json_member("store", JsonScalar::Str(string_of(&chars_of(r.store.as_str())))),
        json_member("pubkey", JsonScalar::Str(string_of(&chars_of(r.pubkey.as_str())))),
        json_member("key_existed", JsonScalar::Bool(r.key_existed)),
        json_member("store_existed", JsonScalar::Bool(r.store_existed)),
        json_member("in_git_repo", JsonScalar::Bool(in_git_repo)),
        json_member("suggested_remote", remote),
        json_member("key_provider", JsonScalar::Str(string_of(&chars_of(r.key_provider.as_str())))),
    ];
    proof {
        reveal_strlit("data_dir");
        reveal_strlit("state_dir");
        reveal_strlit("store");
        reveal_strlit("pubkey");
        reveal_strlit("key_existed");
        reveal_strlit("store_existed");
        reveal_strlit("in_git_repo");
        reveal_strlit("suggested_remote");
        reveal_strlit("key_provider");
    }
    assert(members_of(members@) =~= init_json_members(*r, data_dir@, state_dir@, in_git_repo));
    match json_object_pretty(&members) {
        Ok(s) => s,
        Err(_) => String::new(),
    }
}

} // verus!
