//! The system clock.

use vstd::prelude::*;

verus! {

/// The current wall-clock time, in milliseconds since the Unix epoch,
/// negative when the clock reads before it. Relies on std's
/// `SystemTime::now` and `duration_since(UNIX_EPOCH)`, whose `Ok` branch
/// carries the span since the epoch and whose `Err` branch carries the span
/// before it, so the body is total over every clock state. The value
/// depends on the machine's clock alone, so nothing is promised of it:
/// every caller must state what holds whatever time came back.
#[verifier::external_body]
pub(crate) fn now_ms() -> i64 {
    match std::time::SystemTime::now().duration_since(std::time::UNIX_EPOCH) {
        Ok(since) => since.as_millis() as i64,
        Err(before) => -(before.duration().as_millis() as i64),
    }
}

} // verus!
