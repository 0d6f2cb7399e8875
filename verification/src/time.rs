//! Clock and calendar readings from `std::time` and `chrono`.

use std::time::Duration;
use std::time::Instant;

use chrono::Datelike;

use vstd::prelude::*;

verus! {

#[verifier::external_type_specification]
#[verifier::external_body]
pub struct ExInstant(Instant);

/// `std::time::Instant::now`: a reading of the monotonic clock. Nothing is
/// promised of the value.
#[verifier::external_body]
pub(crate) fn instant_now() -> Instant {
    Instant::now()
}

/// `std::time::Instant::elapsed`: the time since `start`. It depends on the
/// clock, so nothing is promised of it.
#[verifier::external_body]
pub(crate) fn elapsed_since(start: &Instant) -> Duration {
    start.elapsed()
}

/// `std::time::Duration::as_millis`. The duration is opaque here, so the
/// number is not tied to anything that the contracts speak of.
#[verifier::external_body]
pub(crate) fn duration_millis(d: &Duration) -> u128 {
    d.as_millis()
}

/// Whole milliseconds since `start`, saturating at `u64::MAX`.
pub(crate) fn millis_since(start: &Instant) -> u64 {
    let d = elapsed_since(start);
    let ms = duration_millis(&d);
    if ms > 0xffff_ffff_ffff_ffff {
        0xffff_ffff_ffff_ffff
    } else {
        ms as u64
    }
}

/// `chrono::Utc::now().to_rfc3339()`: the current UTC time as RFC 3339 text.
/// It depends on the clock, so nothing is promised of the text.
#[verifier::external_body]
pub(crate) fn now_rfc3339() -> String {
    chrono::Utc::now().to_rfc3339()
}

/// What `chrono::DateTime::parse_from_rfc3339` followed by `to_rfc3339`
/// gives for a text: `None` where chrono rejects it, else chrono's canonical
/// rendering of the same instant and offset.
pub uninterp spec fn rfc3339_canonical(text: Seq<char>) -> Option<Seq<char>>;

/// `chrono::DateTime::parse_from_rfc3339(text)` rendered back with
/// `to_rfc3339`. The contract only ties the result to `rfc3339_canonical` of
/// the text; chrono's grammar is not restated.
#[verifier::external_body]
pub(crate) fn canonical_rfc3339(text: &str) -> (r: Option<String>)
    ensures
        r matches Some(s) ==> rfc3339_canonical(text@) == Some(s@),
        r is None ==> rfc3339_canonical(text@) is None,
{
    match chrono::DateTime::parse_from_rfc3339(text) {
        Ok(value) => Some(value.to_rfc3339()),
        Err(_) => None,
    }
}

/// The local calendar date of today, as days since 0001-01-01 (day 1).
/// `chrono::Local::now().date_naive()` depends on the clock and the time
/// zone, so nothing is promised of it.
#[verifier::external_body]
pub(crate) fn today_local_days() -> i32 {
    chrono::Local::now().date_naive().num_days_from_ce()
}

/// The day number (`Datelike::num_days_from_ce`) of the date that
/// `chrono::NaiveDate::parse_from_str(text, "%Y-%m-%d")` accepts, or `None`
/// where chrono rejects the text.
pub uninterp spec fn ymd_days(text: Seq<char>) -> Option<i32>;

/// `chrono::NaiveDate::parse_from_str(text, "%Y-%m-%d")`, with the date given
/// as its day number. The contract ties the result to `ymd_days` of the text
/// and to nothing else.
#[verifier::external_body]
pub(crate) fn parse_ymd_days(text: &str) -> (r: Option<i32>)
    ensures
        r == ymd_days(text@),
{
    match chrono::NaiveDate::parse_from_str(text, "%Y-%m-%d") {
        Ok(date) => Some(date.num_days_from_ce()),
        Err(_) => None,
    }
}

} // verus!
