//! Unique identifiers for pawns and assets.
//!
//! An identifier is the 128-bit value of a random (version 4) UUID.

use vstd::prelude::*;

verus! {

/// Mask of the bits that a version 4 UUID fixes: the version nibble and the
/// two variant bits.
pub open spec fn uid_fixed_bits_mask() -> u128 {
    0xF000_C000_0000_0000_0000u128
}

/// Value that a version 4 UUID carries in its fixed bits: version 4 and the
/// RFC 9562 variant.
pub open spec fn uid_fixed_bits_value() -> u128 {
    0x4000_8000_0000_0000_0000u128
}

/// Whether `u` has the layout of a random (version 4) UUID.
pub open spec fn is_random_uid(u: u128) -> bool {
    u & uid_fixed_bits_mask() == uid_fixed_bits_value()
}

/// Draws a fresh random identifier.
///
/// Calls `uuid::Uuid::new_v4` and takes the UUID's value with
/// `Uuid::as_u128`. The contract claims only what `new_v4`'s source shows:
/// it masks random bits so that the version nibble reads 4 and the variant
/// bits read `10`. Which random bits come back is left unsaid.
#[verifier::external_body]
pub(crate) fn new_random_uid() -> (u: u128)
    ensures
        is_random_uid(u),
{
    uuid::Uuid::new_v4().as_u128()
}

} // verus!
