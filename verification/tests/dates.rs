use log_exporter::date::{date_le, days_in_month_of, next_day, Date};
use log_exporter::parse::{format_date, parse_date};
use log_exporter::range::get_date_ranges;

fn d(year: u32, month: u32, day: u32) -> Date {
    Date { year, month, day }
}

#[test]
fn parse_accepts_valid_dates() {
    assert_eq!(parse_date("2024-03-07"), Some(d(2024, 3, 7)));
    assert_eq!(parse_date("0000-01-01"), Some(d(0, 1, 1)));
    assert_eq!(parse_date("9999-12-31"), Some(d(9999, 12, 31)));
    assert_eq!(parse_date("2024-02-29"), Some(d(2024, 2, 29)));
    assert_eq!(parse_date("2000-02-29"), Some(d(2000, 2, 29)));
}

#[test]
fn parse_rejects_malformed_dates() {
    assert_eq!(parse_date("2024-13-40"), None);
    assert_eq!(parse_date("2024-00-10"), None);
    assert_eq!(parse_date("2024-01-00"), None);
    assert_eq!(parse_date("2024-02-30"), None);
    assert_eq!(parse_date("2023-02-29"), None);
    assert_eq!(parse_date("1900-02-29"), None);
    assert_eq!(parse_date("2024-3-7"), None);
    assert_eq!(parse_date("2024/03/07"), None);
    assert_eq!(parse_date("2024-03-07 "), None);
    assert_eq!(parse_date(""), None);
    assert_eq!(parse_date("abcd-ef-gh"), None);
}

#[test]
fn format_is_zero_padded() {
    assert_eq!(format_date(&d(2024, 3, 7)), "2024-03-07");
    assert_eq!(format_date(&d(7, 11, 30)), "0007-11-30");
    assert_eq!(format_date(&d(0, 1, 1)), "0000-01-01");
}

#[test]
fn month_lengths_follow_the_calendar() {
    assert_eq!(days_in_month_of(2024, 2), 29);
    assert_eq!(days_in_month_of(2023, 2), 28);
    assert_eq!(days_in_month_of(1900, 2), 28);
    assert_eq!(days_in_month_of(2000, 2), 29);
    assert_eq!(days_in_month_of(2024, 4), 30);
    assert_eq!(days_in_month_of(2024, 12), 31);
}

#[test]
fn next_day_rolls_over_months_and_years() {
    assert_eq!(next_day(&d(2024, 3, 7)), d(2024, 3, 8));
    assert_eq!(next_day(&d(2024, 2, 28)), d(2024, 2, 29));
    assert_eq!(next_day(&d(2023, 2, 28)), d(2023, 3, 1));
    assert_eq!(next_day(&d(2024, 12, 31)), d(2025, 1, 1));
    assert_eq!(next_day(&d(2024, 4, 30)), d(2024, 5, 1));
}

#[test]
fn date_le_is_chronological() {
    assert!(date_le(&d(2024, 3, 7), &d(2024, 3, 7)));
    assert!(date_le(&d(2024, 3, 7), &d(2024, 3, 8)));
    assert!(!date_le(&d(2024, 3, 8), &d(2024, 3, 7)));
    assert!(date_le(&d(2023, 12, 31), &d(2024, 1, 1)));
    assert!(!date_le(&d(2024, 1, 1), &d(2023, 12, 31)));
}

#[test]
fn date_range_counts_every_day_inclusive() {
    let range = get_date_ranges(&d(2024, 2, 27), &d(2024, 3, 2));
    let expected = vec![
        d(2024, 2, 27),
        d(2024, 2, 28),
        d(2024, 2, 29),
        d(2024, 3, 1),
        d(2024, 3, 2),
    ];
    assert_eq!(range, expected);
}

#[test]
fn date_range_crosses_year_boundaries() {
    let range = get_date_ranges(&d(2023, 12, 30), &d(2024, 1, 2));
    let expected = vec![d(2023, 12, 30), d(2023, 12, 31), d(2024, 1, 1), d(2024, 1, 2)];
    assert_eq!(range, expected);
}

#[test]
fn date_range_of_equal_endpoints_is_a_single_day() {
    let range = get_date_ranges(&d(2024, 3, 7), &d(2024, 3, 7));
    assert_eq!(range, vec![d(2024, 3, 7)]);
}

#[test]
fn date_range_is_empty_when_start_is_after_end() {
    let range = get_date_ranges(&d(2024, 3, 8), &d(2024, 3, 7));
    assert!(range.is_empty());
}

#[test]
fn well_formedness_check_matches_the_calendar() {
    assert!(d(2024, 2, 29).is_well_formed());
    assert!(!d(2023, 2, 29).is_well_formed());
    assert!(!d(2024, 13, 1).is_well_formed());
    assert!(!d(2024, 0, 1).is_well_formed());
    assert!(!d(2024, 1, 0).is_well_formed());
    assert!(!d(10000, 1, 1).is_well_formed());
}

#[test]
fn format_then_parse_round_trips() {
    let dates = vec![
        Date { year: 2024, month: 3, day: 7 },
        Date { year: 0, month: 1, day: 1 },
        Date { year: 9999, month: 12, day: 31 },
        Date { year: 2024, month: 2, day: 29 },
        Date { year: 7, month: 10, day: 20 },
    ];
    for date in dates {
        assert_eq!(parse_date(&format_date(&date)), Some(date));
    }
}
