use calculator_mcp_server::calendar::{CivilDate, Weekday};
use calculator_mcp_server::datetime::{
    date_add, date_diff, date_info, default_diff_unit,
    parse_date, weekday_text, DateDiff, DiffBreakdown, DiffUnit,
};

fn breakdown(r: DateDiff) -> DiffBreakdown {
    match r {
        DateDiff::Breakdown(b) => b,
        DateDiff::InUnit { .. } => panic!("expected a breakdown"),
    }
}

fn in_unit(r: DateDiff) -> i64 {
    match r {
        DateDiff::InUnit { result, .. } => result,
        DateDiff::Breakdown(_) => panic!("expected a single unit"),
    }
}

// --- date_add ---

#[test]
fn test_date_add_days() {
    assert_eq!(
        date_add("2024-01-15", 0, 0, 0, 1, 0, 0, 0).unwrap(),
        "2024-01-16"
    );
}

#[test]
fn test_date_add_months_clamped() {
    // Jan 31 + 1 month → Feb 28 (2024 is leap year, so Feb 29)
    assert_eq!(
        date_add("2024-01-31", 0, 1, 0, 0, 0, 0, 0).unwrap(),
        "2024-02-29"
    );
    // Jan 31 + 1 month → Feb 28 (2023 is not leap year)
    assert_eq!(
        date_add("2023-01-31", 0, 1, 0, 0, 0, 0, 0).unwrap(),
        "2023-02-28"
    );
}

#[test]
fn test_date_add_years_clamped() {
    // Feb 29 + 1 year → Feb 28 (2025 is not leap year)
    assert_eq!(
        date_add("2024-02-29", 1, 0, 0, 0, 0, 0, 0).unwrap(),
        "2025-02-28"
    );
}

#[test]
fn test_date_add_negative() {
    assert_eq!(
        date_add("2024-03-15", 0, -1, 0, 0, 0, 0, 0).unwrap(),
        "2024-02-15"
    );
}

#[test]
fn test_date_add_with_time() {
    assert_eq!(
        date_add("2024-01-15 10:30:00", 0, 0, 0, 0, 1, 0, 0).unwrap(),
        "2024-01-15 11:30:00"
    );
}

#[test]
fn test_date_add_time_to_date_only() {
    // Date-only input + hours → datetime output
    assert_eq!(
        date_add("2024-01-15", 0, 0, 0, 0, 1, 0, 0).unwrap(),
        "2024-01-15 01:00:00"
    );
}

#[test]
fn test_date_add_invalid_format() {
    assert!(date_add("not-a-date", 0, 0, 0, 0, 0, 0, 0).is_err());
}

// --- date_diff ---

#[test]
fn test_date_diff_auto() {
    let r = breakdown(date_diff("2024-01-13", "2024-02-28", "auto").unwrap());
    assert_eq!(r.years, 0);
    assert_eq!(r.months, 1);
    assert_eq!(r.days, 15);
    assert_eq!(r.sign, 1);
}

#[test]
fn test_date_diff_auto_jan31_feb27() {
    // Jan 31 → Feb 27: 0 complete months (anniversary Feb 28 not reached)
    let r = breakdown(date_diff("2024-01-31", "2024-02-27", "auto").unwrap());
    assert_eq!(r.months, 0);
}

#[test]
fn test_date_diff_auto_jan31_feb28() {
    // 2024 is leap, so Jan 31 + 1 month = Feb 29. Feb 29 > Feb 28, so 0 months.
    let r = breakdown(date_diff("2024-01-31", "2024-02-28", "auto").unwrap());
    assert_eq!(r.months, 0);
}

#[test]
fn test_date_diff_auto_jan31_feb29_leap() {
    // Jan 31 → Feb 29 (leap year): 1 complete month
    let r = breakdown(date_diff("2024-01-31", "2024-02-29", "auto").unwrap());
    assert_eq!(r.months, 1);
}

#[test]
fn test_date_diff_years() {
    let r = date_diff("2020-06-15", "2024-06-15", "years").unwrap();
    assert_eq!(in_unit(r), 4);
}

#[test]
fn test_date_diff_months() {
    let r = date_diff("2024-01-15", "2024-04-15", "months").unwrap();
    assert_eq!(in_unit(r), 3);
}

#[test]
fn test_date_diff_days() {
    let r = date_diff("2024-01-01", "2024-01-31", "days").unwrap();
    assert_eq!(in_unit(r), 30);
}

#[test]
fn test_date_diff_negative() {
    let r = date_diff("2024-03-15", "2024-01-15", "days").unwrap();
    assert_eq!(in_unit(r), -60);
}

#[test]
fn test_date_diff_seconds() {
    let r = date_diff("2024-01-01 00:00:00", "2024-01-01 00:01:00", "seconds").unwrap();
    assert_eq!(in_unit(r), 60);
}

#[test]
fn test_date_diff_invalid_unit() {
    assert!(date_diff("2024-01-01", "2024-01-02", "centuries").is_err());
}

// --- date_info ---

#[test]
fn test_date_info() {
    let r = date_info("2024-02-29").unwrap();
    assert_eq!(weekday_text(r.weekday), "Thursday");
    assert_eq!(r.iso_week, 9);
    assert_eq!(r.day_of_year, 60);
    assert_eq!(r.days_in_month, 29);
    assert_eq!(r.is_leap_year, true);
}

#[test]
fn test_date_info_non_leap() {
    let r = date_info("2023-02-15").unwrap();
    assert_eq!(r.days_in_month, 28);
    assert_eq!(r.is_leap_year, false);
}

#[test]
fn test_date_info_days_remaining() {
    let r = date_info("2024-12-31").unwrap();
    assert_eq!(r.days_remaining_in_year, 0);

    let r = date_info("2024-01-01").unwrap();
    assert_eq!(r.days_remaining_in_year, 365);
}

// --- further cases ---

#[test]
fn date_input_layouts_and_trimming() {
    let (t, date_only) = parse_date("  2024-03-05T07:08:09 ").unwrap();
    assert_eq!(t.date, CivilDate { year: 2024, month: 3, day: 5 });
    assert_eq!((t.hour, t.minute, t.second, t.nano), (7, 8, 9, 0));
    assert!(!date_only);
    let (t, date_only) = parse_date("2024-03-05").unwrap();
    assert_eq!((t.hour, t.minute, t.second), (0, 0, 0));
    assert!(date_only);
}

#[test]
fn date_input_errors() {
    assert_eq!(
        parse_date("2024-01-01T10:00:00Z").unwrap_err(),
        "Timezone suffixes are not supported. Input: '2024-01-01T10:00:00Z'. Accepted formats: YYYY-MM-DD, YYYY-MM-DD HH:MM:SS, YYYY-MM-DDTHH:MM:SS"
    );
    assert_eq!(
        parse_date("2024-01-01 10:00:00+02:00").unwrap_err(),
        "Timezone suffixes are not supported. Input: '2024-01-01 10:00:00+02:00'. Accepted formats: YYYY-MM-DD, YYYY-MM-DD HH:MM:SS, YYYY-MM-DDTHH:MM:SS"
    );
    assert_eq!(
        parse_date("tomorrow").unwrap_err(),
        "Cannot parse 'tomorrow' as date. Accepted formats: YYYY-MM-DD, YYYY-MM-DD HH:MM:SS, YYYY-MM-DDTHH:MM:SS"
    );
}

#[test]
fn date_add_mixed_units_and_weeks() {
    assert_eq!(
        date_add("2024-01-31 23:30:00", 0, 1, 1, 0, 0, 45, 0).unwrap(),
        "2024-03-08 00:15:00"
    );
    assert_eq!(date_add("2024-01-01", -1, -2, 0, 0, 0, 0, 0).unwrap(), "2022-11-01");
    // weeks and days alone keep a bare date
    assert_eq!(date_add("2024-01-01", 0, 0, 2, -1, 0, 0, 0).unwrap(), "2024-01-14");
}

#[test]
fn date_add_out_of_range() {
    assert_eq!(
        date_add("2024-01-01", 300000, 0, 0, 0, 0, 0, 0).unwrap_err(),
        "Date overflow: result is out of representable range"
    );
    assert_eq!(
        date_add("+262142-12-31", 0, 0, 0, 1, 0, 0, 0).unwrap_err(),
        "Date/time overflow: result is out of representable range"
    );
    assert_eq!(
        date_add("2024-01-01", 0, 0, 0, 1_000_000_000_000, 0, 0, 0).unwrap_err(),
        "Date/time overflow: result is out of representable range"
    );
    assert_eq!(
        date_add("2024-01-01", i64::MAX, 0, 0, 0, 0, 0, 0).unwrap_err(),
        "Date overflow: result is out of representable range"
    );
    assert_eq!(
        date_add("2024-01-01", i64::MIN, i64::MIN, 0, 0, 0, 0, 0).unwrap_err(),
        "Date overflow: result is out of representable range"
    );
    assert_eq!(
        date_add("2024-01-01", 0, 0, i64::MAX, i64::MAX, 0, 0, i64::MIN).unwrap_err(),
        "Date/time overflow: result is out of representable range"
    );
    // seconds that cancel out leave the date where it was
    assert_eq!(
        date_add("2024-01-01", 0, 0, 0, 0, 0, i64::MAX / 60, -(i64::MAX / 60) * 60).unwrap(),
        "2024-01-01 00:00:00"
    );
    // an unreadable date answers with its error before any arithmetic
    assert_eq!(
        date_add("nope", i64::MAX, 0, 0, 0, 0, 0, 0).unwrap_err(),
        date_add("nope", 0, 0, 0, 0, 0, 0, 0).unwrap_err()
    );
}

#[test]
fn date_add_far_years_are_signed() {
    assert_eq!(date_add("9999-12-31", 0, 0, 0, 1, 0, 0, 0).unwrap(), "+10000-01-01");
    assert_eq!(date_add("0001-01-01", -2, 0, 0, 0, 0, 0, 0).unwrap(), "-0001-01-01");
}

#[test]
fn date_add_by_nothing_gives_the_input() {
    assert_eq!(date_add("2024-05-06", 0, 0, 0, 0, 0, 0, 0).unwrap(), "2024-05-06");
    assert_eq!(
        date_add("2024-05-06 01:02:03", 0, 0, 0, 0, 0, 0, 0).unwrap(),
        "2024-05-06 01:02:03"
    );
}

#[test]
fn seconds_added_are_seconds_measured() {
    let later = date_add("2024-02-28 22:00:00", 0, 0, 0, 0, 0, 0, 90061).unwrap();
    assert_eq!(later, "2024-02-29 23:01:01");
    let r = date_diff("2024-02-28 22:00:00", &later, "seconds").unwrap();
    assert_eq!(in_unit(r), 90061);
    let back = date_diff(&later, "2024-02-28 22:00:00", "seconds").unwrap();
    assert_eq!(in_unit(back), -90061);
}

#[test]
fn swapping_dates_negates_whole_months_and_years() {
    let a = in_unit(date_diff("2021-03-31", "2024-02-29", "months").unwrap());
    let b = in_unit(date_diff("2024-02-29", "2021-03-31", "months").unwrap());
    assert_eq!(a, 35);
    assert_eq!(b, -35);
    let a = in_unit(date_diff("2020-02-29", "2024-02-28", "years").unwrap());
    let b = in_unit(date_diff("2024-02-28", "2020-02-29", "years").unwrap());
    assert_eq!(a, 3);
    assert_eq!(b, -3);
}

#[test]
fn date_diff_breakdown_backwards_with_times() {
    let r = breakdown(date_diff("2024-03-15 12:00:00", "2023-01-10 06:00:00", "auto").unwrap());
    assert_eq!(r.sign, -1);
    assert_eq!((r.years, r.months, r.days), (1, 2, 5));
    assert_eq!(r.total_days, -430);
    assert_eq!(r.total_seconds, Some(-37173600));
    let r = breakdown(date_diff("2024-01-01", "2024-01-02", "auto").unwrap());
    assert_eq!(r.total_seconds, None);
}

#[test]
fn date_diff_datetimes_at_midnight_keep_total_seconds() {
    let r = breakdown(date_diff("2024-01-01 00:00:00", "2024-01-02 00:00:00", "auto").unwrap());
    assert_eq!(r.total_days, 1);
    assert_eq!(r.total_seconds, Some(86400));
    let r = breakdown(date_diff("2024-01-01", "2024-01-02T00:00:00", "auto").unwrap());
    assert_eq!(r.total_seconds, Some(86400));
    let r = breakdown(date_diff("2024-01-02", "2024-01-01", "auto").unwrap());
    assert_eq!(r.sign, -1);
    assert_eq!(r.total_seconds, None);
}

#[test]
fn date_diff_units_truncate_toward_zero() {
    let w = date_diff("2024-01-01", "2024-01-20", "weeks").unwrap();
    assert_eq!(in_unit(w), 2);
    let h = date_diff("2024-01-01 10:00:00", "2024-01-01 07:30:00", "hours").unwrap();
    assert_eq!(in_unit(h), -2);
    let m = date_diff("2024-01-01 10:00:59", "2024-01-01 10:02:58", "minutes").unwrap();
    assert_eq!(in_unit(m), 1);
    match date_diff("2024-01-01", "2024-01-02", "minutes").unwrap() {
        DateDiff::InUnit { unit, .. } => assert_eq!(unit.name(), DiffUnit::Minutes.name()),
        DateDiff::Breakdown(_) => panic!("expected a single unit"),
    }
}

#[test]
fn date_diff_errors_in_order() {
    assert_eq!(
        date_diff("2024-01-01", "2024-01-02", "centuries").unwrap_err(),
        "Unknown unit: centuries (expected auto, years, months, weeks, days, hours, minutes, or seconds)"
    );
    assert!(date_diff("bad", "2024-01-02", "centuries")
        .unwrap_err()
        .starts_with("Cannot parse 'bad'"));
}

#[test]
fn date_info_weekday_and_week_edges() {
    let r = date_info("2021-01-03").unwrap();
    assert_eq!(r.weekday, Weekday::Sunday);
    assert_eq!(r.iso_week, 53);
    let r = date_info("2024-12-30").unwrap();
    assert_eq!(r.iso_week, 1);
    assert_eq!(weekday_text(r.weekday), "Monday");
    assert!(date_info("2024/01/01").is_err());
    let r = date_info("+262142-12-01").unwrap();
    assert_eq!(r.days_in_month, 31);
    assert_eq!(r.days_remaining_in_year, 30);
    assert!(date_info("+262142-11-30").is_ok());
}

#[test]
fn default_unit_is_auto() {
    assert_eq!(default_diff_unit(), "auto");
}
