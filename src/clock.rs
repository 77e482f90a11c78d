use vstd::prelude::*;

verus! {

/// Relies on chrono's `Utc::now` and `DateTime::to_rfc3339_opts`: the current
/// UTC time in RFC 3339 form with milliseconds and a `Z` offset. The value
/// depends on the clock, so nothing is stated of it. `Utc::now` panics only on a
/// system clock set before the Unix epoch.
#[verifier::external_body]
pub(crate) fn timestamp() -> (r: String) {
    chrono::Utc::now().to_rfc3339_opts(chrono::SecondsFormat::Millis, true)
}

} // verus!
