//! The source of chance: the thread-local generator of the `rand` crate.
//!
//! Nothing in this file is proved. The two contracts below are taken from the
//! documentation and source of `rand`; every other module is verified against
//! them.

use rand::rngs::ThreadRng;
use rand::Rng;
use vstd::prelude::*;

verus! {

/// `rand::rngs::ThreadRng`, a handle to the generator that each thread owns.
/// Its content is opaque here.
#[verifier::external_type_specification]
#[verifier::external_body]
pub struct ExThreadRng(ThreadRng);

/// `rand::thread_rng` hands out the calling thread's generator. Nothing is
/// claimed of the handle. The generator is seeded from the operating system on
/// first use, and `rand` panics if the system cannot provide a seed: an event
/// that no argument of this call controls, so no precondition can exclude it.
pub assume_specification[ rand::thread_rng ]() -> (rng: ThreadRng)
;

/// `Rng::gen_range` on the half-open range `low..high` of `u8`. The crate
/// documents that the value lies in the range and that an empty range panics,
/// so the range must be non-empty. Which value of the range comes back is not
/// determined: two calls with the same bounds may differ.
#[verifier::external_body]
pub(crate) fn draw_between(rng: &mut ThreadRng, low: u8, high: u8) -> (drawn: u8)
    requires
        low < high,
    ensures
        low <= drawn < high,
{
    rng.gen_range(low..high)
}

} // verus!
