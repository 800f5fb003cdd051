//! The one call into an outside crate: minting a fresh pod identity.

use vstd::prelude::*;

use crate::names::is_uuid_seq;

verus! {

/// Mint a fresh pod uuid.
///
/// Relies on `uuid::Uuid::new_v4` for a random version-4 uuid and on its
/// `Display` impl, which renders the lower-case hyphenated form: 36
/// characters with hyphens at positions 8, 13, 18 and 23 and hexadecimal
/// digits elsewhere.  The value is random, so nothing beyond its shape
/// is promised.
#[verifier::external_body]
pub fn fresh_uuid() -> (r: String)
    ensures
        is_uuid_seq(r@),
{
    uuid::Uuid::new_v4().to_string()
}

} // verus!
