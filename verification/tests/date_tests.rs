use nutrition_tracker::date::{
    date_le, days_in_month, format_date, leap_year, next_date, parse_date, today, Date,
};
use nutrition_tracker::user_profile::{default_gender, Gender};

#[test]
fn parse_accepts_real_dates_only() {
    assert_eq!(
        parse_date("2024-03-15"),
        Some(Date { year: 2024, month: 3, day: 15 })
    );
    assert_eq!(parse_date("0001-01-01"), Some(Date { year: 1, month: 1, day: 1 }));
    assert_eq!(
        parse_date("9999-12-31"),
        Some(Date { year: 9999, month: 12, day: 31 })
    );
    assert_eq!(parse_date("2024-00-10"), None);
    assert_eq!(parse_date("2024-04-31"), None);
    assert_eq!(parse_date("2024-03-15x"), None);
    assert_eq!(parse_date("24-03-15"), None);
    assert_eq!(parse_date("2024/03/15"), None);
    assert_eq!(parse_date(""), None);
}

#[test]
fn format_round_trips_through_parse() {
    for text in ["2024-02-29", "0001-01-01", "9999-12-31", "2023-11-05"] {
        let d = parse_date(text).unwrap();
        let rendered = format_date(&d);
        assert_eq!(rendered, text);
        assert_eq!(parse_date(&rendered), Some(d));
    }
}

#[test]
fn leap_year_rule() {
    assert!(leap_year(2024));
    assert!(!leap_year(2023));
    assert!(!leap_year(1900));
    assert!(leap_year(2000));
    assert_eq!(days_in_month(2024, 2), 29);
    assert_eq!(days_in_month(2023, 2), 28);
    assert_eq!(days_in_month(2024, 4), 30);
    assert_eq!(days_in_month(2024, 1), 31);
}

#[test]
fn next_date_rolls_over_months_and_years() {
    let d = parse_date("2024-02-28").unwrap();
    assert_eq!(next_date(&d), parse_date("2024-02-29").unwrap());
    let d = parse_date("2023-02-28").unwrap();
    assert_eq!(next_date(&d), parse_date("2023-03-01").unwrap());
    let d = parse_date("2024-12-31").unwrap();
    assert_eq!(next_date(&d), parse_date("2025-01-01").unwrap());
    let d = parse_date("2024-06-30").unwrap();
    assert_eq!(next_date(&d), parse_date("2024-07-01").unwrap());
}

#[test]
fn date_ordering_is_calendar_order() {
    let a = parse_date("2023-12-31").unwrap();
    let b = parse_date("2024-01-01").unwrap();
    assert!(date_le(&a, &b));
    assert!(!date_le(&b, &a));
    assert!(date_le(&a, &a));
}

#[test]
fn today_is_well_formed() {
    let d = today();
    assert!(d.month >= 1 && d.month <= 12);
    assert!(d.day >= 1 && d.day <= days_in_month(d.year, d.month));
    assert!(d.year <= 9999);
}

#[test]
fn default_gender_is_male() {
    assert!(matches!(default_gender(), Gender::Male));
}
