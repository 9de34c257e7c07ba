//! `tag`: adding and removing a secret's tags. Every input tag is checked
//! before anything is read; adding keeps the existing order and never
//! duplicates, removing drops every listed tag.
use vstd::prelude::*;

use crate::args::TagAction;
use crate::env_dsl::{in_items, in_items_exec};
use crate::error::HimitsuError;
use crate::set::{first_bad_tag, invalid_tag_msg, validate_tags};
use crate::text::{chars_of, string_of, views};

verus! {

/// A tag action whose tags passed the grammar.
#[derive(Debug, PartialEq, Eq)]
pub enum ValidatedAction {
    Add(Vec<String>),
    Rm(Vec<String>),
    List,
}

/// The tags of an action, `None` for listing.
pub open spec fn action_tags(a: TagAction) -> Option<Seq<Seq<char>>> {
    match a {
        TagAction::Add { tags } => Some(views(tags@)),
        TagAction::Rm { tags } => Some(views(tags@)),
        TagAction::List => None,
    }
}

/// Checks a list of tags against the grammar, returning them.
pub fn validate_tag_list(raw: &[String]) -> (r: Result<Vec<String>, HimitsuError>)
    ensures
        match first_bad_tag(views(raw@)) {
            None => r matches Ok(v) && views(v@) == views(raw@),
            Some(t) => r matches Err(e) && e is InvalidReference && e.detail()
                == invalid_tag_msg(t),
        },
{
    validate_tags(raw)
}

/// Checks an action's tags before anything else happens.
pub fn validate_action(action: &TagAction) -> (r: Result<ValidatedAction, HimitsuError>)
    ensures
        match action_tags(*action) {
            None => r == Ok::<ValidatedAction, HimitsuError>(ValidatedAction::List),
            Some(ts) => match first_bad_tag(ts) {
                None => match r {
                    Ok(ValidatedAction::Add(v)) => action is Add && views(v@) == ts,
                    Ok(ValidatedAction::Rm(v)) => action is Rm && views(v@) == ts,
                    _ => false,
                },
                Some(t) => r matches Err(e) && e is InvalidReference && e.detail()
                    == invalid_tag_msg(t),
            },
        },
{
    match action {
        TagAction::Add { tags } => Ok(ValidatedAction::Add(validate_tag_list(tags.as_slice())?)),
        TagAction::Rm { tags } => Ok(ValidatedAction::Rm(validate_tag_list(tags.as_slice())?)),
        TagAction::List => Ok(ValidatedAction::List),
    }
}

/// The tags after adding: each new tag appended once, in input order.
pub open spec fn add_spec(tags: Seq<Seq<char>>, adds: Seq<Seq<char>>) -> Seq<Seq<char>>
    decreases adds.len(),
{
    if adds.len() == 0 {
        tags
    } else {
        let t = add_spec(tags, adds.drop_last());
        if in_items(t, adds.last()) {
            t
        } else {
            t.push(adds.last())
        }
    }
}

/// The tags that are not to be removed, in order.
pub open spec fn rm_spec(tags: Seq<Seq<char>>, rms: Seq<Seq<char>>) -> Seq<Seq<char>>
    decreases tags.len(),
{
    if tags.len() == 0 {
        tags
    } else {
        let t = rm_spec(tags.drop_last(), rms);
        if in_items(rms, tags.last()) {
            t
        } else {
            t.push(tags.last())
        }
    }
}

/// Appends the tags not yet present, skipping repeats.
pub fn apply_add(tags: &mut Vec<String>, additions: &[String])
    ensures
        views(final(tags)@) == add_spec(views(old(tags)@), views(additions@)),
{
    let ghost start = views(tags@);
    let ghost av = views(additions@);
    let mut i: usize = 0;
    assert(av.take(0).len() == 0);
    while i < additions.len()
        invariant
            i <= additions@.len(),
            av == views(additions@),
            views(tags@) == add_spec(start, av.take(i as int)),
        decreases additions.len() - i,
    {
        assert(av.take(i + 1).drop_last() == av.take(i as int));
        assert(av.take(i + 1).last() == additions@[i as int]@);
        let t = chars_of(additions[i].as_str());
        if !in_items_exec(tags.as_slice(), &t) {
            let ghost before = views(tags@);
            tags.push(string_of(&t));
            assert(views(tags@) =~= before.push(t@));
        }
        i += 1;
    }
    assert(av.take(additions@.len() as int) == av);
}

/// Drops every tag listed in `removals`.
pub fn apply_rm(tags: &mut Vec<String>, removals: &[String])
    ensures
        views(final(tags)@) == rm_spec(views(old(tags)@), views(removals@)),
{
    let ghost tv = views(tags@);
    let ghost rv = views(removals@);
    let mut kept: Vec<String> = Vec::new();
    let mut i: usize = 0;
    assert(views(kept@) =~= rm_spec(tv.take(0), rv));
    while i < tags.len()
        invariant
            i <= tags@.len(),
            tv == views(tags@),
            rv == views(removals@),
            views(kept@) == rm_spec(tv.take(i as int), rv),
        decreases tags.len() - i,
    {
        assert(tv.take(i + 1).drop_last() == tv.take(i as int));
        assert(tv.take(i + 1).last() == tags@[i as int]@);
        let t = chars_of(tags[i].as_str());
        if !in_items_exec(removals, &t) {
            let ghost before = views(kept@);
            kept.push(string_of(&t));
            assert(views(kept@) =~= before.push(t@));
        }
        i += 1;
    }
    assert(tv.take(tags@.len() as int) == tv);
    *tags = kept;
}

// ── Laws ─────────────────────────────────────────────────────────────────

proof fn lemma_add_keeps(tags: Seq<Seq<char>>, adds: Seq<Seq<char>>, x: Seq<char>)
    requires
        in_items(tags, x),
    ensures
        in_items(add_spec(tags, adds), x),
    decreases adds.len(),
{
    if adds.len() > 0 {
        lemma_add_keeps(tags, adds.drop_last(), x);
        let t = add_spec(tags, adds.drop_last());
        let w = choose|w: int| 0 <= w < t.len() && t[w] == x;
        if !in_items(t, adds.last()) {
            assert(t.push(adds.last())[w] == x);
        }
    }
}

/// After adding, every added tag is present.
pub proof fn lemma_add_contains(tags: Seq<Seq<char>>, adds: Seq<Seq<char>>)
    ensures
        forall|i: int| 0 <= i < adds.len() ==> in_items(add_spec(tags, adds), #[trigger] adds[i]),
    decreases adds.len(),
{
    if adds.len() > 0 {
        let init = adds.drop_last();
        lemma_add_contains(tags, init);
        let t = add_spec(tags, init);
        assert forall|i: int| 0 <= i < adds.len() implies in_items(
            add_spec(tags, adds),
            #[trigger] adds[i],
        ) by {
            lemma_in_push(t, adds.last(), adds[i]);
            if i < adds.len() - 1 {
                assert(adds[i] == init[i]);
            }
        }
    }
}

/// Membership after a push.
proof fn lemma_in_push(s: Seq<Seq<char>>, a: Seq<char>, x: Seq<char>)
    ensures
        in_items(s.push(a), x) <==> (in_items(s, x) || a == x),
{
    let u = s.push(a);
    if in_items(s, x) {
        let w = choose|w: int| 0 <= w < s.len() && s[w] == x;
        assert(u[w] == x);
    }
    if a == x {
        assert(u[s.len() as int] == x);
    }
    if in_items(u, x) {
        let w = choose|w: int| 0 <= w < u.len() && u[w] == x;
        if w < s.len() {
            assert(s[w] == x);
        }
    }
}

/// Adding keeps the existing tags first, in their order.
pub proof fn lemma_add_keeps_order(tags: Seq<Seq<char>>, adds: Seq<Seq<char>>)
    ensures
        add_spec(tags, adds).len() >= tags.len(),
        add_spec(tags, adds).take(tags.len() as int) == tags,
    decreases adds.len(),
{
    if adds.len() > 0 {
        lemma_add_keeps_order(tags, adds.drop_last());
        let t = add_spec(tags, adds.drop_last());
        if !in_items(t, adds.last()) {
            assert(t.push(adds.last()).take(tags.len() as int) =~= t.take(tags.len() as int));
        }
    }
}

/// Adding the same tags twice is adding them once.
pub proof fn lemma_add_idempotent(tags: Seq<Seq<char>>, adds: Seq<Seq<char>>)
    ensures
        add_spec(add_spec(tags, adds), adds) == add_spec(tags, adds),
{
    lemma_add_contains(tags, adds);
    lemma_add_present(add_spec(tags, adds), adds);
}

/// Adding tags that are all present changes nothing.
proof fn lemma_add_present(tags: Seq<Seq<char>>, adds: Seq<Seq<char>>)
    requires
        forall|i: int| 0 <= i < adds.len() ==> in_items(tags, #[trigger] adds[i]),
    ensures
        add_spec(tags, adds) == tags,
    decreases adds.len(),
{
    if adds.len() > 0 {
        let init = adds.drop_last();
        assert forall|i: int| 0 <= i < init.len() implies in_items(tags, #[trigger] init[i]) by {
            assert(init[i] == adds[i]);
        }
        lemma_add_present(tags, init);
        assert(in_items(tags, adds[adds.len() - 1]));
    }
}

/// No removed tag remains.
pub proof fn lemma_rm_removes(tags: Seq<Seq<char>>, rms: Seq<Seq<char>>)
    ensures
        forall|i: int| 0 <= i < rms.len() ==> !in_items(rm_spec(tags, rms), #[trigger] rms[i]),
    decreases tags.len(),
{
    if tags.len() > 0 {
        lemma_rm_removes(tags.drop_last(), rms);
        let t = rm_spec(tags.drop_last(), rms);
        assert forall|i: int| 0 <= i < rms.len() implies !in_items(
            rm_spec(tags, rms),
            #[trigger] rms[i],
        ) by {
            assert(!in_items(t, rms[i]));
            if !in_items(rms, tags.last()) {
                let u = t.push(tags.last());
                if in_items(u, rms[i]) {
                    let w = choose|w: int| 0 <= w < u.len() && u[w] == rms[i];
                    if w < t.len() {
                        assert(u[w] == t[w]);
                    } else {
                        assert(in_items(rms, tags.last()));
                    }
                }
            }
        }
    }
}

/// Every kept tag was there before and is not to be removed.
pub proof fn lemma_rm_keeps(tags: Seq<Seq<char>>, rms: Seq<Seq<char>>, x: Seq<char>)
    ensures
        in_items(rm_spec(tags, rms), x) <==> (in_items(tags, x) && !in_items(rms, x)),
    decreases tags.len(),
{
    if tags.len() > 0 {
        let init = tags.drop_last();
        lemma_rm_keeps(init, rms, x);
        let t = rm_spec(init, rms);
        assert(init.push(tags.last()) =~= tags);
        lemma_in_push(init, tags.last(), x);
        if !in_items(rms, tags.last()) {
            lemma_in_push(t, tags.last(), x);
        }
    }
}

} // verus!
