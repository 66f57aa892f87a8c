//! Reconciliation and week bucketing.
use klassenbuch::attendance::Attendance;
use klassenbuch::buckets::{health_reason_absence, reconcile_and_bucket, DateParseError};
use klassenbuch::entry::ClassbookEntry;

fn entry(weekday: &str, date: &str, activities: Vec<&str>) -> ClassbookEntry {
    ClassbookEntry {
        weekday: weekday.to_string(),
        date: date.to_string(),
        time: "08:00 - 16:30".to_string(),
        description: String::new(),
        activities: activities.into_iter().map(|s| s.to_string()).collect(),
    }
}

fn record(date: &str, from_time: &str, to_time: &str) -> Attendance {
    Attendance {
        date: date.to_string(),
        from_time: from_time.to_string(),
        to_time: to_time.to_string(),
    }
}

#[test]
fn no_entries_yield_no_buckets() {
    let buckets = reconcile_and_bucket(vec![], &vec![]).unwrap();
    assert_eq!(buckets.len(), 0);
}

#[test]
fn entries_are_sorted_and_split_at_week_changes() {
    let entries = vec![
        entry("Mon", "13.03.23", vec!["C"]),
        entry("Tue", "07.03.23", vec!["B"]),
        entry("Mon", "06.03.23", vec!["A"]),
    ];
    let buckets = reconcile_and_bucket(entries, &vec![]).unwrap();
    assert_eq!(buckets.len(), 2);
    assert_eq!(buckets[0].len(), 2);
    assert_eq!(buckets[0][0].date, "06.03.23");
    assert_eq!(buckets[0][1].date, "07.03.23");
    assert_eq!(buckets[1].len(), 1);
    assert_eq!(buckets[1][0].date, "13.03.23");
}

#[test]
fn concatenating_buckets_reproduces_the_sorted_sequence() {
    let entries = vec![
        entry("Fri", "17.03.23", vec![]),
        entry("Mon", "06.03.23", vec![]),
        entry("Wed", "15.03.23", vec![]),
        entry("Tue", "07.03.23", vec![]),
    ];
    let buckets = reconcile_and_bucket(entries, &vec![]).unwrap();
    let flattened: Vec<String> =
        buckets.iter().flatten().map(|e| e.date.clone()).collect();
    assert_eq!(flattened, vec!["06.03.23", "07.03.23", "15.03.23", "17.03.23"]);
}

#[test]
fn equal_dates_break_ties_by_weekday() {
    let entries = vec![
        entry("Tue", "06.03.23", vec![]),
        entry("Mon", "06.03.23", vec![]),
    ];
    let buckets = reconcile_and_bucket(entries, &vec![]).unwrap();
    assert_eq!(buckets.len(), 1);
    assert_eq!(buckets[0][0].weekday, "Mon");
    assert_eq!(buckets[0][1].weekday, "Tue");
}

#[test]
fn the_turn_of_the_year_starts_a_new_bucket() {
    // Week numbers fall from the last week of one year to the first week
    // of the next; the boundary still starts a new bucket.
    let entries = vec![
        entry("Mon", "01.01.24", vec![]),
        entry("Fri", "29.12.23", vec![]),
    ];
    let buckets = reconcile_and_bucket(entries, &vec![]).unwrap();
    assert_eq!(buckets.len(), 2);
    assert_eq!(buckets[0][0].date, "29.12.23");
    assert_eq!(buckets[1][0].date, "01.01.24");
}

#[test]
fn unparsable_date_is_fatal() {
    let entries = vec![entry("Mon", "xx.yy.zz", vec![])];
    assert_eq!(reconcile_and_bucket(entries, &vec![]).err().unwrap(), DateParseError);
}

#[test]
fn invalid_attendance_replaces_the_activities() {
    let entries = vec![entry("Mon", "06.03.23", vec!["A", "B"])];
    let attendances = vec![record("06.03.2023", "ab:cd", "16:00")];
    let buckets = reconcile_and_bucket(entries, &attendances).unwrap();
    assert_eq!(buckets[0][0].activities, vec![health_reason_absence()]);
}

#[test]
fn valid_attendance_keeps_the_activities() {
    let entries = vec![entry("Mon", "06.03.23", vec!["A", "B"])];
    let attendances = vec![record("06.03.2023", "08:00", "16:00")];
    let buckets = reconcile_and_bucket(entries, &attendances).unwrap();
    assert_eq!(buckets[0][0].activities, vec!["A".to_string(), "B".to_string()]);
}

#[test]
fn attendance_for_another_day_is_ignored() {
    let entries = vec![entry("Mon", "06.03.23", vec!["A"])];
    let attendances = vec![record("07.03.2023", "ab:cd", "16:00")];
    let buckets = reconcile_and_bucket(entries, &attendances).unwrap();
    assert_eq!(buckets[0][0].activities, vec!["A".to_string()]);
}
