//! Actor identifiers.

use uuid::Uuid;
use vstd::prelude::*;

verus! {

/// The bits of an identifier that say how it was made: four for the version,
/// two for the variant.
pub const PID_KIND_MASK: u128 = 0x0000_0000_0000_f000_c000_0000_0000_0000;

/// Those bits in an identifier that was drawn at random: version 4, and the
/// variant of the UUID standard.
pub const PID_KIND_RANDOM: u128 = 0x0000_0000_0000_4000_8000_0000_0000_0000;

/// Whether `pid` is marked as drawn at random.
pub open spec fn is_random_pid(pid: u128) -> bool {
    pid & PID_KIND_MASK == PID_KIND_RANDOM
}

/// Draws an identifier with `uuid::Uuid::new_v4` and hands it out as the
/// number that `Uuid::as_u128` gives for it.
///
/// Not proved, taken from the `uuid` crate: the 122 other bits come from the
/// operating system's random source, and the six marked bits are set to
/// version 4 and the standard variant. Which identifier comes out is open,
/// so two calls may give the same one. The call panics if the operating
/// system has no random bytes to give.
#[verifier::external_body]
pub(crate) fn fresh_pid() -> (pid: u128)
    ensures
        is_random_pid(pid),
{
    Uuid::new_v4().as_u128()
}

} // verus!
