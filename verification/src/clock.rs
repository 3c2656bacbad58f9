use vstd::prelude::*;

verus! {

/// Relies on chrono::Utc::now together with chrono::DateTime::timestamp_millis:
/// the wall-clock time as non-leap milliseconds since the Unix epoch. Nothing
/// is promised of the value — it depends on the machine's clock.
#[verifier::external_body]
fn now_millis_raw() -> i64 {
    chrono::Utc::now().timestamp_millis()
}

/// The current time in milliseconds since the Unix epoch, clamped to zero
/// for clocks set before the epoch. Nothing is known of the value.
pub fn current_millis() -> u64 {
    let raw = now_millis_raw();
    if raw < 0 {
        0
    } else {
        raw as u64
    }
}

} // verus!
