use libra_manager::date::Date;

fn date(y: u32, m: u32, d: u32) -> Date {
    Date { year: y, month: m, day: d }
}

#[test]
fn checked_construction_knows_the_calendar() {
    assert_eq!(Date::from_ymd(2024, 2, 29), Some(date(2024, 2, 29)));
    assert_eq!(Date::from_ymd(2023, 2, 29), None);
    assert_eq!(Date::from_ymd(1900, 2, 29), None);
    assert_eq!(Date::from_ymd(2000, 2, 29), Some(date(2000, 2, 29)));
    assert_eq!(Date::from_ymd(2024, 4, 31), None);
    assert_eq!(Date::from_ymd(2024, 0, 1), None);
    assert_eq!(Date::from_ymd(2024, 13, 1), None);
    assert_eq!(Date::from_ymd(0, 1, 1), None);
}

#[test]
fn next_day_rolls_months_and_years() {
    assert_eq!(date(2024, 3, 25).next_day(), date(2024, 3, 26));
    assert_eq!(date(2024, 2, 28).next_day(), date(2024, 2, 29));
    assert_eq!(date(2023, 2, 28).next_day(), date(2023, 3, 1));
    assert_eq!(date(2024, 12, 31).next_day(), date(2025, 1, 1));
}

#[test]
fn plus_days_spans_boundaries() {
    assert_eq!(date(2024, 3, 25).plus_days(14), date(2024, 4, 8));
    assert_eq!(date(2024, 2, 20).plus_days(14), date(2024, 3, 5));
    assert_eq!(date(2023, 12, 24).plus_days(14), date(2024, 1, 7));
    assert_eq!(date(2024, 3, 25).plus_days(0), date(2024, 3, 25));
}

#[test]
fn formats_day_dot_month_dot_year() {
    assert_eq!(date(2024, 3, 5).format_dd_mm_yyyy(), "05.03.2024");
    assert_eq!(date(987, 12, 31).format_dd_mm_yyyy(), "31.12.0987");
    assert_eq!(date(2025, 10, 9).format_dd_mm_yyyy(), "09.10.2025");
}
