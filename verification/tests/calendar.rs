use calculator_mcp_server::calendar::{
    add_months_clamped, complete_months_between, complete_years_between, day_number_of,
    days_in_month, is_leap_year, iso_week_of, ordinal_of, weekday_of, CivilDate, Weekday,
};

fn d(year: i32, month: u32, day: u32) -> CivilDate {
    CivilDate { year, month, day }
}

#[test]
fn leap_years_and_month_lengths() {
    assert!(is_leap_year(2000));
    assert!(!is_leap_year(1900));
    assert!(is_leap_year(-4));
    assert_eq!(days_in_month(2023, 2), 28);
    assert_eq!(days_in_month(2024, 2), 29);
    assert_eq!(days_in_month(2024, 4), 30);
}

#[test]
fn clamped_months() {
    assert_eq!(add_months_clamped(&d(2024, 1, 31), 1), Some(d(2024, 2, 29)));
    assert_eq!(add_months_clamped(&d(2024, 3, 31), -1), Some(d(2024, 2, 29)));
    assert_eq!(add_months_clamped(&d(2024, 2, 29), 12), Some(d(2025, 2, 28)));
    assert_eq!(add_months_clamped(&d(262142, 12, 1), 1), None);
}

#[test]
fn whole_months_and_years_between() {
    assert_eq!(complete_months_between(&d(2024, 1, 31), &d(2024, 2, 29)), 1);
    assert_eq!(complete_months_between(&d(2024, 2, 29), &d(2024, 1, 31)), -1);
    assert_eq!(complete_months_between(&d(2024, 1, 31), &d(2024, 2, 28)), 0);
    assert_eq!(complete_years_between(&d(2020, 2, 29), &d(2021, 2, 28)), 1);
    assert_eq!(complete_years_between(&d(2020, 6, 15), &d(2020, 6, 15)), 0);
}

#[test]
fn day_numbers_weekdays_and_weeks() {
    assert_eq!(day_number_of(&d(1, 1, 1)), 1);
    assert_eq!(day_number_of(&d(2024, 1, 1)) - day_number_of(&d(2023, 1, 1)), 365);
    assert_eq!(ordinal_of(&d(2024, 12, 31)), 366);
    assert_eq!(weekday_of(&d(1970, 1, 1)), Weekday::Thursday);
    assert_eq!(weekday_of(&d(2000, 1, 1)), Weekday::Saturday);
    assert_eq!(iso_week_of(&d(2026, 1, 1)), 1);
    assert_eq!(iso_week_of(&d(2027, 1, 1)), 53);
}
