//! `decrypt`: refused, since secrets are never kept in plaintext.
use vstd::prelude::*;

use crate::args::DecryptArgs;
use crate::cli::Context;
use crate::error::HimitsuError;

verus! {

pub open spec fn decrypt_refusal() -> Seq<char> {
    "bulk decrypt is not supported; secrets are never stored in plaintext. Use `himitsu get <path>` to read individual values."@
}

/// Always refuses: bulk decryption is not offered.
pub fn run(_args: DecryptArgs, _ctx: &Context) -> (r: Result<(), HimitsuError>)
    ensures
        r matches Err(e) && e is NotSupported && e.detail() == decrypt_refusal(),
{
    Err(
        HimitsuError::NotSupported(
            String::from_str(
                "bulk decrypt is not supported; secrets are never stored in plaintext. Use `himitsu get <path>` to read individual values.",
            ),
        ),
    )
}

} // verus!
