//! The wall-clock reading that timing spans record.

use vstd::prelude::*;

verus! {

/// Relies on std::time::SystemTime: `now` read once and converted to whole
/// microseconds since the epoch.  Nothing is promised of the reading — the
/// system clock may move arbitrarily between calls — so callers clamp it
/// themselves; a reading from before the epoch is reported as zero.
#[verifier::external_body]
pub(crate) fn clock_micros() -> u64 {
    match std::time::SystemTime::now().duration_since(std::time::UNIX_EPOCH) {
        Ok(d) => d.as_micros() as u64,
        Err(_) => 0,
    }
}

} // verus!
