//! Monotonic time for fast-packet expiry and the address-claim hold-off.

use std::time::{Duration, Instant};

use vstd::prelude::*;

verus! {

#[verifier::external_type_specification]
#[verifier::external_body]
pub struct ExInstant(Instant);

/// Calls `Instant::now`. What time it returns is not stated: it depends on
/// the machine's clock.
#[verifier::external_body]
pub(crate) fn instant_now() -> Instant {
    Instant::now()
}

/// Calls `Instant::elapsed`. How long it reports is not stated: it depends on
/// the machine's clock at the call.
#[verifier::external_body]
pub(crate) fn instant_elapsed(start: &Instant) -> Duration {
    start.elapsed()
}

/// Calls `Duration::as_millis`: the number of whole milliseconds in `d`.
/// Nothing is stated of the value, as a `Duration` is opaque here; its
/// callers only ever hand it a duration read from the clock.
#[verifier::external_body]
pub(crate) fn duration_as_millis(d: &Duration) -> u128 {
    d.as_millis()
}

} // verus!
