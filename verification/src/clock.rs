//! The system clock.

use crate::common::Timestamp;
use vstd::prelude::*;

verus! {

/// The present instant, as `chrono::Utc::now` reads it from the system
/// clock, in milliseconds since the epoch. Nothing is claimed of the value:
/// two readings may come out in any order.
#[verifier::external_body]
pub(crate) fn now() -> (instant: Timestamp) {
    chrono::Utc::now().timestamp_millis()
}

} // verus!
