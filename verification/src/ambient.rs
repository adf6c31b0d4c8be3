//! Values drawn from the environment: the current time and fresh
//! identifiers. Nothing about the store is decided here; every operation
//! takes these values as plain arguments and is verified for all of them.

use vstd::prelude::*;

verus! {

/// Relies on chrono's `Utc::now().to_rfc3339()`: the current instant as an
/// RFC 3339 timestamp. The value depends on the clock, so nothing is
/// promised of it.
#[verifier::external_body]
pub fn now_rfc3339() -> (r: String) {
    chrono::Utc::now().to_rfc3339()
}

/// Relies on uuid's `Uuid::new_v4()` and its hyphenated `Display` form,
/// which is always 36 ASCII characters. The value is random, so nothing
/// more is promised of it; callers check freshness themselves.
#[verifier::external_body]
pub fn fresh_id() -> (r: String)
    ensures
        r@.len() == 36,
{
    uuid::Uuid::new_v4().to_string()
}

/// Relies on chrono's date arithmetic: the UTC calendar date `days` days
/// before now, as `YYYY-MM-DD`; now itself when the subtraction leaves the
/// calendar. The value depends on the clock, so nothing is promised of it.
#[verifier::external_body]
pub fn date_days_back(days: u32) -> (r: String) {
    chrono::Utc::now()
        .checked_sub_signed(chrono::Duration::days(days as i64))
        .unwrap_or_else(chrono::Utc::now)
        .format("%Y-%m-%d")
        .to_string()
}

} // verus!
