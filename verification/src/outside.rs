//! What this library takes from other crates: the minting of identifiers and
//! the type of a time of day. Nothing here is proved.

use vstd::prelude::*;

verus! {

/// `time::Time`, a time of day. Its values are only carried; nothing is
/// stated of what they hold.
#[verifier::external_type_specification]
#[verifier::external_body]
pub struct ExTime(time::Time);

/// Calls `uuid::Uuid::new_v4` and hands back the identifier as the 128-bit
/// number that `Uuid::as_u128` gives for it. The identifier is random, so
/// nothing is stated of it but the two fields that every identifier of this
/// kind carries: the version, four, in bits 76 to 79, and the variant, binary
/// `10`, in bits 62 and 63.
#[verifier::external_body]
pub(crate) fn fresh_identifier() -> (id: u128)
    ensures
        id & 0xF000_C000_0000_0000_0000u128 == 0x4000_8000_0000_0000_0000u128,
{
    uuid::Uuid::new_v4().as_u128()
}

} // verus!
