//! The wall clock, through `web_time`. Nothing is stated of what the
//! clock reads: every caller is verified for whatever it returns.

use vstd::prelude::*;
use web_time::{Duration, Instant};

verus! {

#[verifier::external_type_specification]
#[verifier::external_body]
pub struct ExInstant(Instant);

/// `web_time::Instant::now`: the current instant.
#[verifier::external_body]
pub(crate) fn now() -> Instant {
    Instant::now()
}

/// `Instant >= Instant`: whether `now` is at or after `deadline`.
#[verifier::external_body]
pub(crate) fn at_or_after(now: &Instant, deadline: &Instant) -> bool {
    *now >= *deadline
}

/// `web_time::Instant::elapsed`: the time since `start`.
#[verifier::external_body]
pub(crate) fn elapsed_since(start: &Instant) -> Duration {
    start.elapsed()
}

/// `web_time::Instant::checked_add`: `start + limit`, or `None` where the
/// platform cannot represent it.
#[verifier::external_body]
pub(crate) fn checked_deadline(start: &Instant, limit: Duration) -> Option<Instant> {
    start.checked_add(limit)
}

/// `Duration`'s `clone`: `Duration` is `Copy`, and its `clone` is that
/// copy.
pub assume_specification[ <Duration as Clone>::clone ](duration: &Duration) -> (copy: Duration)
    ensures
        copy == *duration,
;

/// `Duration::ZERO`.
#[verifier::external_body]
pub(crate) fn zero_duration() -> Duration {
    Duration::ZERO
}

} // verus!
