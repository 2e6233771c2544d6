//! Calendar conversions, done by the `chrono` crate behind trusted wrappers.
//!
//! The library carries every instant as whole seconds since the Unix epoch
//! (UTC). What only a calendar library can compute — reading an ISO-8601
//! instant, turning a civil date and time into an instant, rendering an
//! instant or a day number as text — is named by an uninterpreted spec
//! function and supplied by `chrono`; each result is a function of the
//! arguments alone.
use vstd::prelude::*;

verus! {

/// The instant denoted by an ISO-8601 / RFC 3339 text, in whole seconds UTC,
/// or `None` where the text is not such an instant.
pub uninterp spec fn rfc3339_secs(s: Seq<char>) -> Option<i64>;

/// The instant of the civil date `y-mo-d` at time `h:mi:s` (UTC), or `None`
/// where those numbers name no real date or time of day.
pub uninterp spec fn secs_of_civil(y: i32, mo: u32, d: u32, h: u32, mi: u32, s: u32) -> Option<i64>;

/// The `yyyy-mm-dd` text of day number `day` (days since the Unix epoch).
pub uninterp spec fn date_string_of_day(day: i64) -> Seq<char>;

/// The ISO-8601 text of the instant `t` (seconds since the Unix epoch, UTC).
pub uninterp spec fn rfc3339_string_of(t: i64) -> Seq<char>;

/// The day of the month (1 to 31) of day number `day`.
pub uninterp spec fn month_day_of_day(day: i64) -> u32;

/// Largest instant this library renders as text: 9999-12-31T23:59:59 UTC.
pub const MAX_RENDERED_SECS: i64 = 253_402_300_799;

/// Largest day number this library renders as text: the day of 9999-12-31.
pub const MAX_RENDERED_DAY: i64 = 2_932_896;

/// Relies on `chrono::DateTime::parse_from_rfc3339` and
/// `chrono::DateTime::timestamp`: reads an ISO-8601 instant, with any offset,
/// and returns it as whole seconds UTC.
#[verifier::external_body]
pub(crate) fn parse_rfc3339_secs(s: &str) -> (r: Option<i64>)
    ensures
        r == rfc3339_secs(s@),
{
    match chrono::DateTime::parse_from_rfc3339(s) {
        Ok(dt) => Some(dt.with_timezone(&chrono::Utc).timestamp()),
        Err(_) => None,
    }
}

/// Relies on `chrono::NaiveDate::from_ymd_opt`, `NaiveDate::and_hms_opt` and
/// `chrono::DateTime::timestamp`: the instant of a civil date and time of day
/// taken as UTC, `None` where the date or the time does not exist.
#[verifier::external_body]
pub(crate) fn civil_to_secs(y: i32, mo: u32, d: u32, h: u32, mi: u32, s: u32) -> (r: Option<i64>)
    ensures
        r == secs_of_civil(y, mo, d, h, mi, s),
{
    match chrono::NaiveDate::from_ymd_opt(y, mo, d) {
        Some(date) => match date.and_hms_opt(h, mi, s) {
            Some(ndt) => Some(ndt.and_utc().timestamp()),
            None => None,
        },
        None => None,
    }
}

/// Relies on `chrono::DateTime::from_timestamp` and the `Display` of
/// `chrono::NaiveDate`: the `yyyy-mm-dd` text of a day number.
#[verifier::external_body]
pub(crate) fn day_to_date_string(day: i64) -> (r: String)
    requires
        0 <= day <= MAX_RENDERED_DAY,
    ensures
        r@ == date_string_of_day(day),
{
    match chrono::DateTime::from_timestamp(day.saturating_mul(86_400), 0) {
        Some(dt) => dt.date_naive().to_string(),
        None => String::new(),
    }
}

/// Relies on `chrono::DateTime::from_timestamp` and
/// `chrono::DateTime::to_rfc3339`: the ISO-8601 text of an instant.
#[verifier::external_body]
pub(crate) fn secs_to_rfc3339(t: i64) -> (r: String)
    requires
        0 <= t <= MAX_RENDERED_SECS,
    ensures
        r@ == rfc3339_string_of(t),
{
    match chrono::DateTime::from_timestamp(t, 0) {
        Some(dt) => dt.to_rfc3339(),
        None => String::new(),
    }
}

/// Relies on `chrono::DateTime::from_timestamp` and `chrono::Datelike::day`,
/// which returns the day of the month, 1 to 31.
#[verifier::external_body]
pub(crate) fn day_of_month(day: i64) -> (r: u32)
    requires
        0 <= day <= MAX_RENDERED_DAY,
    ensures
        r == month_day_of_day(day),
        1 <= r <= 31,
{
    match chrono::DateTime::from_timestamp(day.saturating_mul(86_400), 0) {
        Some(dt) => chrono::Datelike::day(&dt.date_naive()),
        None => 1,
    }
}

} // verus!
