//! The one place where the library asks the machine for something that no
//! argument determines: a random identifier. The time is never read here:
//! whoever calls the library passes it in.

use vstd::prelude::*;

verus! {

/// The bits that mark a 128-bit identifier as a random (version 4) UUID of
/// the RFC 9562 variant.
pub open spec fn is_random_uuid(id: u128) -> bool {
    id & 0x0000_0000_0000_f000_c000_0000_0000_0000u128
        == 0x0000_0000_0000_4000_8000_0000_0000_0000u128
}

/// Calls `uuid::Uuid::new_v4` and returns the identifier as the number that
/// `Uuid::as_u128` gives. The value is random; the contract claims only what
/// `new_v4` fixes by masking: the version nibble is 4 and the variant bits
/// are `10`. `new_v4` panics only where the operating system hands out no
/// random bytes, a failure of the machine that the library does not survive
/// any more than it survives running out of memory.
#[verifier::external_body]
pub(crate) fn random_uuid() -> (id: u128)
    ensures
        is_random_uuid(id),
{
    uuid::Uuid::new_v4().as_u128()
}

} // verus!
