//! The calls into chrono that the date tools make, each with the contract
//! that the rest of the library relies on.
use crate::calendar::CivilDate;
use crate::datetime::{first_instant, instant, last_instant, valid_datetime, CivilDateTime};
use chrono::{Datelike, NaiveDate, NaiveDateTime, TimeDelta, Timelike};
use vstd::prelude::*;

verus! {

/// The largest number of seconds that `TimeDelta::seconds` accepts (its range
/// is `i64::MAX` milliseconds either way); it panics beyond.
pub const MAX_DELTA_SECONDS: i64 = 9_223_372_036_854_775;

/// The date-time that `NaiveDateTime::parse_from_str(s, fmt)` returns, read
/// back through its getters; `None` where chrono reports a parse error.
pub uninterp spec fn chrono_datetime_parse(s: Seq<char>, fmt: Seq<char>) -> Option<CivilDateTime>;

/// The date that `NaiveDate::parse_from_str(s, fmt)` returns; `None` where
/// chrono reports a parse error.
pub uninterp spec fn chrono_date_parse(s: Seq<char>, fmt: Seq<char>) -> Option<CivilDate>;

/// Calls `NaiveDateTime::parse_from_str`. Claims only that the result is a
/// function of `s` and `fmt` (named `chrono_datetime_parse`) and that chrono
/// hands out valid date-times (a leap second shows as second 59 with a
/// fraction of at least one second).
#[verifier::external_body]
pub(crate) fn parse_datetime(s: &str, fmt: &str) -> (r: Option<CivilDateTime>)
    ensures
        r == chrono_datetime_parse(s@, fmt@),
        r matches Some(t) ==> valid_datetime(t),
{
    match NaiveDateTime::parse_from_str(s, fmt) {
        Ok(t) => Some(CivilDateTime {
            date: CivilDate { year: t.year(), month: t.month(), day: t.day() },
            hour: t.hour(), minute: t.minute(), second: t.second(), nano: t.nanosecond(),
        }),
        Err(_) => None,
    }
}

/// Calls `NaiveDate::parse_from_str`. Claims only that the result is a
/// function of `s` and `fmt` (named `chrono_date_parse`) and a valid date.
#[verifier::external_body]
pub(crate) fn parse_date_only(s: &str, fmt: &str) -> (r: Option<CivilDate>)
    ensures
        r == chrono_date_parse(s@, fmt@),
        r matches Some(d) ==> crate::calendar::valid_date(d),
{
    match NaiveDate::parse_from_str(s, fmt) {
        Ok(d) => Some(CivilDate { year: d.year(), month: d.month(), day: d.day() }),
        Err(_) => None,
    }
}

/// Calls `NaiveDateTime::checked_add_signed(TimeDelta::seconds(secs))` on the
/// whole-second date-time `t`. chrono moves the time of day and carries whole
/// days into the date; the result is `None` exactly when the moved instant
/// leaves the range from `NaiveDate::MIN` at 00:00:00 to `NaiveDate::MAX` at
/// 23:59:59.
#[verifier::external_body]
pub(crate) fn add_seconds(t: &CivilDateTime, secs: i64) -> (r: Option<CivilDateTime>)
    requires
        valid_datetime(*t),
        t.nano == 0,
        -MAX_DELTA_SECONDS <= secs <= MAX_DELTA_SECONDS,
    ensures
        r is Some <==> first_instant() <= instant(*t) + secs <= last_instant(),
        r matches Some(x) ==> valid_datetime(x) && x.nano == 0 && instant(x) == instant(*t) + secs,
{
    let d = NaiveDate::from_ymd_opt(t.date.year, t.date.month, t.date.day).unwrap();
    let x = d.and_hms_opt(t.hour, t.minute, t.second).unwrap();
    match x.checked_add_signed(TimeDelta::seconds(secs)) {
        Some(y) => Some(CivilDateTime {
            date: CivilDate { year: y.year(), month: y.month(), day: y.day() },
            hour: y.hour(), minute: y.minute(), second: y.second(), nano: y.nanosecond(),
        }),
        None => None,
    }
}

} // verus!
