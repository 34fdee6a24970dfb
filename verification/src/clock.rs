//! The wall clock, as milliseconds since the Unix epoch.

use vstd::prelude::*;

verus! {

/// Reads the current UTC time through `chrono::Utc::now` and renders it with
/// `DateTime::timestamp_millis`. Nothing is claimed of the value: it depends
/// on the machine's clock, and two calls may differ in either direction.
/// `Utc::now` gives up on a machine whose clock is set before 1970; nothing
/// here can rule that out.
#[verifier::external_body]
pub(crate) fn now_millis() -> (now: i64) {
    chrono::Utc::now().timestamp_millis()
}

} // verus!
