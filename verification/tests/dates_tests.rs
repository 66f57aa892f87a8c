//! The date and time parsing wrappers and the ISO week number.
use klassenbuch::dates::{iso_week_number, parse_date_dmy2, parse_date_dmy4, parse_time_hm};

#[test]
fn two_digit_year_dates_parse() {
    assert_eq!(parse_date_dmy2("06.03.23"), Some((2023, 3, 6)));
    assert_eq!(parse_date_dmy2("6.3.23"), Some((2023, 3, 6)));
    assert_eq!(parse_date_dmy2("31.12.99"), Some((1999, 12, 31)));
}

#[test]
fn invalid_calendar_dates_fail() {
    assert_eq!(parse_date_dmy2("31.02.23"), None);
    assert_eq!(parse_date_dmy2("00.01.23"), None);
    assert_eq!(parse_date_dmy2("junk"), None);
    assert_eq!(parse_date_dmy2(""), None);
}

#[test]
fn four_digit_year_dates_parse() {
    assert_eq!(parse_date_dmy4("06.03.2023"), Some((2023, 3, 6)));
    assert_eq!(parse_date_dmy4("29.02.2024"), Some((2024, 2, 29)));
    assert_eq!(parse_date_dmy4("29.02.2023"), None);
}

#[test]
fn clock_times_parse() {
    assert_eq!(parse_time_hm("08:00"), Some((8, 0)));
    assert_eq!(parse_time_hm("23:59"), Some((23, 59)));
    assert_eq!(parse_time_hm("8:5"), Some((8, 5)));
    assert_eq!(parse_time_hm("24:00"), None);
    assert_eq!(parse_time_hm("08:60"), None);
    assert_eq!(parse_time_hm("0800"), None);
    assert_eq!(parse_time_hm(""), None);
}

#[test]
fn trailing_text_is_an_error_even_when_blank() {
    assert_eq!(parse_time_hm("12:34 "), None);
    assert_eq!(parse_time_hm(" 12:34"), Some((12, 34)));
    assert_eq!(parse_date_dmy2("1.2.24 "), None);
    assert_eq!(parse_date_dmy4("1.2.2024 "), None);
}

#[test]
fn iso_week_numbers_match_the_calendar() {
    assert_eq!(iso_week_number(2023, 3, 6), 10);
    assert_eq!(iso_week_number(2023, 3, 13), 11);
    assert_eq!(iso_week_number(2023, 1, 1), 52);
    assert_eq!(iso_week_number(2024, 1, 1), 1);
}
