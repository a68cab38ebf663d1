//! Helpers for the version check of the software itself.

use vstd::prelude::*;
use vstd::string::*;
use vstd::utf8::encode_utf8;

verus! {

/// The overlay key under which the version of the software is published.
pub open spec fn version_check_key() -> Seq<u8> {
    encode_utf8("version"@)
}

/// The key to look up, with the weakest quorum, in order to check the
/// version. The lookup's outcome comes back as an event.
pub fn trigger_check_version() -> (res: Vec<u8>)
    ensures
        res@ == version_check_key(),
{
    "version".as_bytes_vec()
}

} // verus!
