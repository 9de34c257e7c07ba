//! `rekey`: which secrets are re-encrypted for the current recipients, and
//! what is reported.
use vstd::prelude::*;

use crate::error::HimitsuError;
use crate::text::{chars_of, copy_string, decimal, decimal_chars, has_prefix, push_str, slice_eq, starts_with, string_of, views};

verus! {

/// A path a rekey under `prefix` touches: the prefix itself or a path
/// below it.
pub open spec fn in_scope(p: Seq<char>, prefix: Seq<char>) -> bool {
    p == prefix || has_prefix(p, prefix + "/"@)
}

/// The secrets a rekey re-encrypts: all of them, or those in scope of the
/// prefix, in order.
pub open spec fn rekey_spec(all: Seq<Seq<char>>, prefix: Option<Seq<char>>) -> Seq<Seq<char>> {
    match prefix {
        None => all,
        Some(p) => all.filter(|q: Seq<char>| in_scope(q, p)),
    }
}

/// The secrets a rekey re-encrypts.
pub fn rekey_paths(all: Vec<String>, prefix: Option<&str>) -> (r: Vec<String>)
    ensures
        views(r@) == rekey_spec(views(all@), match prefix {
            Some(p) => Some(p@),
            None => None,
        }),
{
    let p = match prefix {
        None => {
            return all;
        },
        Some(p) => p,
    };
    let ghost av = views(all@);
    let ghost f = |q: Seq<char>| in_scope(q, p@);
    let pc = chars_of(p);
    let mut below = String::from_str(p);
    push_str(&mut below, "/");
    let below = chars_of(below.as_str());
    let mut out: Vec<String> = Vec::new();
    let mut i: usize = 0;
    assert(av.take(0).filter(f) =~= Seq::<Seq<char>>::empty());
    while i < all.len()
        invariant
            i <= all@.len(),
            av == views(all@),
            pc@ == p@,
            below@ == p@ + "/"@,
            f == (|q: Seq<char>| in_scope(q, p@)),
            views(out@) == av.take(i as int).filter(f),
        decreases all.len() - i,
    {
        assert(av[i as int] == all@[i as int]@);
        assert(av.take(i + 1).drop_last() =~= av.take(i as int));
        reveal(Seq::filter);
        let q = chars_of(all[i].as_str());
        if slice_eq(&q, &pc) || starts_with(&q, &below) {
            let ghost b = out@;
            out.push(copy_string(&all[i]));
            assert(views(out@) =~= views(b).push(av[i as int]));
        }
        i += 1;
    }
    assert(av.take(all@.len() as int) == av);
    out
}

/// A rekey needs recipients to encrypt to.
pub fn require_recipients(count: usize) -> (r: Result<(), HimitsuError>)
    ensures
        count == 0 ==> (r matches Err(e) && e is Recipient && e.detail() == "no recipients found"@),
        count > 0 ==> r is Ok,
{
    if count == 0 {
        Err(HimitsuError::Recipient(String::from_str("no recipients found")))
    } else {
        Ok(())
    }
}

/// What a rekey reports.
pub fn rekey_summary(secrets: usize, recipients: usize) -> (r: String)
    ensures
        r@ == "Re-encrypted "@ + decimal(secrets as nat) + " secret(s) for "@ + decimal(recipients as nat)
            + " recipient(s)"@,
{
    let mut m = String::from_str("Re-encrypted ");
    push_str(&mut m, string_of(&decimal_chars(secrets)).as_str());
    push_str(&mut m, " secret(s) for ");
    push_str(&mut m, string_of(&decimal_chars(recipients)).as_str());
    push_str(&mut m, " recipient(s)");
    m
}

} // verus!
