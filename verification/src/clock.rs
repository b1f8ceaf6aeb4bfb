//! The monotonic clock of std, which the browser only ever reads.
use vstd::prelude::*;
use std::time::Instant;

verus! {

/// std's monotonic instant; its value is opaque to the proofs.
#[verifier::external_type_specification]
#[verifier::external_body]
pub struct ExInstant(Instant);

/// Reads the clock (std `Instant::now`). Nothing is claimed of the result:
/// it depends on when the call is made.
#[verifier::external_body]
pub(crate) fn instant_now() -> Instant {
    Instant::now()
}

} // verus!
