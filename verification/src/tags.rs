//! The tag grammar: `[A-Za-z0-9_.-]+`, between 1 and 64 characters,
//! case-sensitive.
use vstd::prelude::*;

use crate::text::{chars_of, is_ascii_alnum, push_char, push_str};

verus! {

/// The longest tag the grammar admits.
pub const MAX_TAG_LEN: usize = 64;

/// Characters a tag may hold.
pub open spec fn is_tag_char(c: char) -> bool {
    is_ascii_alnum(c) || c == '_' || c == '.' || c == '-'
}

/// A well-formed tag.
pub open spec fn valid_tag(s: Seq<char>) -> bool {
    1 <= s.len() <= MAX_TAG_LEN && forall|i: int| 0 <= i < s.len() ==> is_tag_char(#[trigger] s[i])
}

/// Whether one character may appear in a tag.
pub fn tag_char(c: char) -> (r: bool)
    ensures
        r == is_tag_char(c),
{
    ('a' <= c && c <= 'z') || ('A' <= c && c <= 'Z') || ('0' <= c && c <= '9') || c == '_' || c
        == '.' || c == '-'
}

/// Index of the first character a tag may not hold, or the length.
pub open spec fn first_bad(s: Seq<char>) -> int
    decreases s.len(),
{
    if s.len() == 0 {
        0
    } else if !is_tag_char(s[0]) {
        0
    } else {
        1 + first_bad(s.drop_first())
    }
}

/// Why a string is not a tag: it is empty, holds a character outside the
/// grammar (the first one is named), or is too long.
pub open spec fn tag_problem(s: Seq<char>) -> Seq<char> {
    if s.len() == 0 {
        "tag must not be empty"@
    } else if first_bad(s) < s.len() {
        "tag contains invalid character '"@ + seq![s[first_bad(s)]]
            + "' (allowed: A-Z a-z 0-9 _ . -)"@
    } else {
        "tag is longer than 64 characters"@
    }
}

proof fn lemma_first_bad(s: Seq<char>, i: int)
    requires
        0 <= i <= s.len(),
        forall|j: int| 0 <= j < i ==> is_tag_char(#[trigger] s[j]),
        i < s.len() ==> !is_tag_char(s[i]),
    ensures
        first_bad(s) == i,
    decreases i,
{
    if i > 0 {
        assert(is_tag_char(s[0]));
        let t = s.drop_first();
        assert forall|j: int| 0 <= j < i - 1 implies is_tag_char(#[trigger] t[j]) by {
            assert(t[j] == s[j + 1]);
        }
        if i < s.len() {
            assert(t[i - 1] == s[i]);
        }
        lemma_first_bad(t, i - 1);
    }
}

/// Checks a tag against the grammar; the error says what is wrong.
pub fn validate_tag(tag: &str) -> (r: Result<(), String>)
    ensures
        r is Ok <==> valid_tag(tag@),
        r matches Err(m) ==> m@ == tag_problem(tag@),
{
    let cs = chars_of(tag);
    validate_tag_chars(&cs)
}

/// Checks a tag, given as characters, against the grammar.
pub fn validate_tag_chars(cs: &[char]) -> (r: Result<(), String>)
    ensures
        r is Ok <==> valid_tag(cs@),
        r matches Err(m) ==> m@ == tag_problem(cs@),
{
    if cs.len() == 0 {
        return Err(String::from_str("tag must not be empty"));
    }
    let mut i: usize = 0;
    while i < cs.len()
        invariant
            i <= cs.len(),
            forall|j: int| 0 <= j < i ==> is_tag_char(#[trigger] cs@[j]),
        decreases cs.len() - i,
    {
        if !tag_char(cs[i]) {
            proof {
                lemma_first_bad(cs@, i as int);
            }
            let mut msg = String::from_str("tag contains invalid character '");
            push_char(&mut msg, cs[i]);
            push_str(&mut msg, "' (allowed: A-Z a-z 0-9 _ . -)");
            return Err(msg);
        }
        i += 1;
    }
    proof {
        lemma_first_bad(cs@, cs@.len() as int);
    }
    if cs.len() > MAX_TAG_LEN {
        return Err(String::from_str("tag is longer than 64 characters"));
    }
    Ok(())
}

} // verus!
