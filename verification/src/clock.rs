//! The environment clock. Block timestamps come from here and nothing is, or
//! can be, promised about them: every contract in this crate holds whatever
//! value the clock reports.

use vstd::prelude::*;

verus! {

/// Milliseconds since the Unix epoch, as reported by the system clock.
///
/// Relies on `std::time::SystemTime::now` and `duration_since(UNIX_EPOCH)`.
/// Aborts if the clock reports a time before the epoch: such a clock cannot
/// yield a well-formed timestamp.
#[verifier::external_body]
pub fn now() -> u128 {
    std::time::SystemTime::now()
        .duration_since(std::time::UNIX_EPOCH)
        .expect("system clock is set before the Unix epoch")
        .as_millis()
}

} // verus!
