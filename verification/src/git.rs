//! `git`: answering the confirmation prompts it asks.
use vstd::prelude::*;

use crate::env_dsl::{trim, trim_chars};
use crate::text::{chars_of, lower_seq, lower_chars};

verus! {

/// An answer that confirms: `y` or `yes` in any case, around white space.
pub open spec fn confirms(input: Seq<char>) -> bool {
    lower_seq(trim(input)) == "y"@ || lower_seq(trim(input)) == "yes"@
}

/// Whether a prompt answer confirms.
pub fn is_confirmation(input: &str) -> (r: bool)
    ensures
        r == confirms(input@),
{
    let t = lower_chars(&trim_chars(&chars_of(input)));
    let y = chars_of("y");
    let yes = chars_of("yes");
    crate::text::slice_eq(&t, &y) || crate::text::slice_eq(&t, &yes)
}

} // verus!
