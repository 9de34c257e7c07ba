//! `remote`: adding a store checkout (clone or update), choosing the
//! default store, listing and removing checkouts.
use vstd::prelude::*;

use crate::error::HimitsuError;
use crate::init::{clone_url_for, github_url, parse_remote_slug, remote_slug_spec};
use crate::labels::{valid_slug, validate_remote_slug};
use crate::paths::{join_path, path_join};
use crate::text::{chars_of, copy_string, push_str, slice_eq, split};

verus! {

/// What `remote add` clones, and from where: a GitHub URL given as the slug
/// names its `org/repo` and is cloned from (unless `url` is given); a plain
/// slug is cloned from `url`, else from GitHub. The slug must be valid.
pub open spec fn add_target_spec(slug: Seq<char>, url: Option<Seq<char>>) -> Result<
    (Seq<char>, Seq<char>),
    (),
> {
    let (s, u) = match remote_slug_spec(slug) {
        Some(p) => (
            p,
            match url {
                Some(x) => x,
                None => slug,
            },
        ),
        None => (
            slug,
            match url {
                Some(x) => x,
                None => github_url(split(slug, '/')[0], split(slug, '/')[1]),
            },
        ),
    };
    if valid_slug(s) {
        Ok((s, u))
    } else {
        Err(())
    }
}

/// The store slug and clone URL of `remote add` (see `add_target_spec`); an
/// invalid slug is a config error.
pub fn add_target(slug: &str, url: Option<String>) -> (r: Result<(String, String), HimitsuError>)
    ensures
        match add_target_spec(slug@, crate::search::opt_view(url)) {
            Ok((s, u)) => r matches Ok((rs, ru)) && rs@ == s && ru@ == u,
            Err(_) => r matches Err(e) && e is InvalidConfig,
        },
{
    let (resolved, clone_url) = match parse_remote_slug(slug) {
        Some(p) => {
            let u = match url {
                Some(x) => x,
                None => String::from_str(slug),
            };
            (p, u)
        },
        None => {
            let u = match url {
                Some(x) => clone_url_for(slug, Some(x.as_str()))?,
                None => clone_url_for(slug, None)?,
            };
            (String::from_str(slug), u)
        },
    };
    match validate_remote_slug(resolved.as_str()) {
        Ok(_) => Ok((resolved, clone_url)),
        Err(e) => Err(e),
    }
}

/// The checkout of a slug: `stores_dir/org/repo`.
pub fn checkout_dir(stores_dir: &str, slug: &str) -> (r: Result<String, HimitsuError>)
    ensures
        valid_slug(slug@) ==> (r matches Ok(p) && p@ == path_join(
            path_join(stores_dir@, split(slug@, '/')[0]),
            split(slug@, '/')[1],
        )),
        !valid_slug(slug@) ==> (r matches Err(e) && e is InvalidConfig),
{
    let (org, repo) = validate_remote_slug(slug)?;
    let o = join_path(stores_dir, org.as_str());
    Ok(join_path(o.as_str(), repo.as_str()))
}

/// What `remote add` does with the checkout.
#[derive(Debug, Clone, Copy, PartialEq, Eq, Structural)]
pub enum AddStep {
    /// Clone into the (missing) checkout.
    Clone,
    /// Pull the existing checkout, first adding `origin` when it has no
    /// remote at all.
    Update { add_origin: bool },
}

/// The error when the checkout exists but is no git repository.
pub open spec fn not_a_checkout_msg(slug: Seq<char>, dest: Seq<char>) -> Seq<char> {
    "remote '"@ + slug + "' already exists at "@ + dest + " but is not a git checkout"@
}

/// What `remote add` does, given whether the checkout exists, whether it
/// has a `.git` directory and whether it has any remote.
pub fn add_step(slug: &str, dest: &str, exists: bool, is_git: bool, has_remote: bool) -> (r: Result<
    AddStep,
    HimitsuError,
>)
    ensures
        !exists ==> r == Ok::<AddStep, HimitsuError>(AddStep::Clone),
        exists && !is_git ==> (r matches Err(e) && e is Remote && e.detail() == not_a_checkout_msg(
            slug@,
            dest@,
        )),
        exists && is_git ==> r == Ok::<AddStep, HimitsuError>(AddStep::Update { add_origin: !has_remote }),
{
    if !exists {
        return Ok(AddStep::Clone);
    }
    if !is_git {
        let mut m = String::from_str("remote '");
        push_str(&mut m, slug);
        push_str(&mut m, "' already exists at ");
        push_str(&mut m, dest);
        push_str(&mut m, " but is not a git checkout");
        return Err(HimitsuError::Remote(m));
    }
    Ok(AddStep::Update { add_origin: !has_remote })
}

/// What is said before and after an add: `Cloning <url> → <dest>` and
/// `Added remote '<slug>'`, or `Updating <slug> from origin` and
/// `Updated remote '<slug>'`.
pub fn add_messages(step: AddStep, slug: &str, url: &str, dest: &str) -> (r: (String, String))
    ensures
        step is Clone ==> r.0@ == "Cloning "@ + url@ + " → "@ + dest@ && r.1@ == "Added remote '"@
            + slug@ + "'"@,
        step is Update ==> r.0@ == "Updating "@ + slug@ + " from origin"@ && r.1@
            == "Updated remote '"@ + slug@ + "'"@,
{
    match step {
        AddStep::Clone => {
            let mut a = String::from_str("Cloning ");
            push_str(&mut a, url);
            push_str(&mut a, " → ");
            push_str(&mut a, dest);
            let mut b = String::from_str("Added remote '");
            push_str(&mut b, slug);
            push_str(&mut b, "'");
            (a, b)
        },
        AddStep::Update { .. } => {
            let mut a = String::from_str("Updating ");
            push_str(&mut a, slug);
            push_str(&mut a, " from origin");
            let mut b = String::from_str("Updated remote '");
            push_str(&mut b, slug);
            push_str(&mut b, "'");
            (a, b)
        },
    }
}

/// The line `remote default` prints for the current default store.
pub fn default_line(default_store: Option<&str>) -> (r: String)
    ensures
        r@ == match default_store {
            Some(s) => s@,
            None => "none set"@,
        },
{
    match default_store {
        Some(s) => String::from_str(s),
        None => String::from_str("none set"),
    }
}

/// Sets the default store: the slug must be valid. Returns what is said.
pub fn set_default(default_store: &mut Option<String>, slug: &str) -> (r: Result<String, HimitsuError>)
    ensures
        valid_slug(slug@) ==> (r matches Ok(m) && m@ == "Default store set to '"@ + slug@ + "'"@
            && (*final(default_store) matches Some(d) && d@ == slug@)),
        !valid_slug(slug@) ==> (r matches Err(e) && e is InvalidConfig && *final(default_store)
            == *old(default_store)),
{
    validate_remote_slug(slug)?;
    *default_store = Some(String::from_str(slug));
    let mut m = String::from_str("Default store set to '");
    push_str(&mut m, slug);
    push_str(&mut m, "'");
    Ok(m)
}

/// The lines of `remote list`: each known store, or a note that there are
/// none.
pub fn list_lines(remotes: Vec<String>) -> (r: Vec<String>)
    ensures
        remotes@.len() == 0 ==> r@.len() == 1 && r@[0]@ == "no remotes found"@,
        remotes@.len() > 0 ==> r@ == remotes@,
{
    if remotes.len() == 0 {
        let mut v: Vec<String> = Vec::new();
        v.push(String::from_str("no remotes found"));
        v
    } else {
        remotes
    }
}

/// Whether removing `slug` clears the default store: it did name it.
pub fn clears_default(default_store: Option<&str>, slug: &str) -> (r: bool)
    ensures
        r == (default_store matches Some(d) && d@ == slug@),
{
    match default_store {
        Some(d) => slice_eq(&chars_of(d), &chars_of(slug)),
        None => false,
    }
}

/// The error when the checkout to remove is missing.
pub fn remove_missing(slug: &str) -> (r: HimitsuError)
    ensures
        r is RemoteNotFound && r.detail() == slug@,
{
    HimitsuError::RemoteNotFound(String::from_str(slug))
}

/// What is said after removing a store, and after clearing the default.
pub fn remove_messages(slug: &str) -> (r: (String, String))
    ensures
        r.0@ == "Removed remote '"@ + slug@ + "'"@,
        r.1@ == "Cleared default store (was '"@ + slug@ + "')"@,
{
    let mut a = String::from_str("Removed remote '");
    push_str(&mut a, slug);
    push_str(&mut a, "'");
    let mut b = String::from_str("Cleared default store (was '");
    push_str(&mut b, slug);
    push_str(&mut b, "')");
    (a, b)
}

} // verus!
