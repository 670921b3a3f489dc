//! Wall-clock time, for the operations that stamp or check expiry at the moment they run.
use vstd::prelude::*;

verus! {

/// Seconds since the Unix epoch now.
/// Relies on `chrono::Utc::now` and `DateTime::timestamp`: the system clock, read as whole
/// seconds; nothing is promised of the value.
#[verifier::external_body]
pub fn now_secs() -> (r: i64) {
    chrono::Utc::now().timestamp()
}

/// The current time as text, such as `2024-05-01 12:00:00.000000 UTC`.
/// Relies on `chrono::Utc::now` and the `Display` of `DateTime<Utc>`; nothing is promised
/// of the text.
#[verifier::external_body]
pub fn now_text() -> (r: String) {
    chrono::Utc::now().to_string()
}

} // verus!
