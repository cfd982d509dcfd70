//! Facts about the server itself.
use vstd::prelude::*;

verus! {

/// The version of this server.
pub open spec fn server_version() -> Seq<char> {
    "0.1.0"@
}

/// The version of this server, as `/versionz` reports it.
pub fn version() -> (r: &'static str)
    ensures
        r@ == server_version(),
{
    "0.1.0"
}

} // verus!
