//! `share`: not implemented yet.
use vstd::prelude::*;

use crate::args::ShareArgs;
use crate::cli::Context;
use crate::error::HimitsuError;

verus! {

pub open spec fn share_refusal() -> Seq<char> {
    "share is not yet implemented (planned for Phase 4)"@
}

/// Always refuses: sharing is not implemented.
pub fn run(_args: ShareArgs, _ctx: &Context) -> (r: Result<(), HimitsuError>)
    ensures
        r matches Err(e) && e is NotSupported && e.detail() == share_refusal(),
{
    Err(HimitsuError::NotSupported(String::from_str("share is not yet implemented (planned for Phase 4)")))
}

} // verus!
