//! Attendance record validity.
use klassenbuch::attendance::{attendance_from_texts, is_attendance_valid, Attendance};

fn record(date: &str, from_time: &str, to_time: &str) -> Attendance {
    Attendance {
        date: date.to_string(),
        from_time: from_time.to_string(),
        to_time: to_time.to_string(),
    }
}

#[test]
fn well_formed_times_are_valid() {
    assert!(is_attendance_valid(&record("01.03.2023", "08:00", "16:00")));
    assert!(is_attendance_valid(&record("01.03.2023", "00:00", "23:59")));
}

#[test]
fn unparsable_from_time_is_invalid() {
    assert!(!is_attendance_valid(&record("01.03.2023", "ab:cd", "16:00")));
}

#[test]
fn unparsable_to_time_is_invalid() {
    assert!(!is_attendance_valid(&record("01.03.2023", "08:00", "")));
}

#[test]
fn out_of_range_hour_is_invalid() {
    assert!(!is_attendance_valid(&record("01.03.2023", "25:00", "16:00")));
    assert!(!is_attendance_valid(&record("01.03.2023", "08:00", "16:60")));
}

#[test]
fn departure_before_arrival_is_invalid() {
    assert!(!is_attendance_valid(&record("01.03.2023", "18:00", "08:00")));
    assert!(is_attendance_valid(&record("01.03.2023", "08:00", "08:00")));
}

#[test]
fn single_digit_fields_parse() {
    assert!(is_attendance_valid(&record("01.03.2023", "8:5", "9:30")));
}

#[test]
fn cell_texts_are_trimmed() {
    let a = attendance_from_texts("  01.03.2023 ", " 08:00", "16:00  ");
    assert_eq!(a.date, "01.03.2023");
    assert_eq!(a.from_time, "08:00");
    assert_eq!(a.to_time, "16:00");
}
