//! Entry extraction: the time window, the date cell, and the activity set.
use klassenbuch::entry::{
    extract_classbook_entries, extract_row, limit_time_range, parse_date_and_time, ClassbookRow,
    ExtractError,
};

fn row(
    date_and_time: Option<&str>,
    description: Option<&str>,
    text_fragments: Vec<&str>,
    verbatim_fragments: Vec<&str>,
) -> ClassbookRow {
    ClassbookRow {
        date_and_time: date_and_time.map(|s| s.to_string()),
        description: description.map(|s| s.to_string()),
        text_fragments: text_fragments.into_iter().map(|s| s.to_string()).collect(),
        verbatim_fragments: verbatim_fragments.into_iter().map(|s| s.to_string()).collect(),
    }
}

#[test]
fn time_window_is_clamped() {
    assert_eq!(limit_time_range("09:00 - 18:00"), "09:00 - 16:30");
}

#[test]
fn time_window_within_bound_is_unchanged() {
    assert_eq!(limit_time_range("08:00 - 16:30"), "08:00 - 16:30");
}

#[test]
fn empty_time_window_gets_the_default() {
    assert_eq!(limit_time_range(""), "08:00 - 16:30");
}

#[test]
fn malformed_time_window_is_unchanged() {
    assert_eq!(limit_time_range("8:00"), "8:00");
    assert_eq!(limit_time_range("a - b - c"), "a - b - c");
}

#[test]
fn date_cell_is_split() {
    let (weekday, date, time) = parse_date_and_time("Mon, 06.03.23 08:00 bis 15:00");
    assert_eq!(weekday, "Mon");
    assert_eq!(date, "06.03.23");
    assert_eq!(time, "08:00 - 15:00");
}

#[test]
fn date_cell_without_time_yields_empty_window() {
    let (weekday, date, time) = parse_date_and_time("Tue, 07.03.23");
    assert_eq!(weekday, "Tue");
    assert_eq!(date, "07.03.23");
    assert_eq!(time, "");
}

#[test]
fn extraction_builds_the_entry() {
    let r = row(
        Some("Mon, 06.03.23 08:00 bis 17:00"),
        Some("  etwas Beschreibung  "),
        vec!["Tag 5", "HTML Grundlagen", "HTML Grundlagen", "1.2.3"],
        vec!["Wichtig!", "   "],
    );
    let e = extract_row(&r).unwrap();
    assert_eq!(e.weekday, "Mon");
    assert_eq!(e.date, "06.03.23");
    assert_eq!(e.time, "08:00 - 16:30");
    assert_eq!(e.description, "etwas Beschreibung");
    assert_eq!(e.activities, vec!["HTML Grundlagen".to_string(), "Wichtig!".to_string()]);
}

#[test]
fn activity_set_has_no_duplicates_and_no_empties() {
    let r = row(
        Some("Mon, 06.03.23"),
        Some("x"),
        vec!["A", "  ", "A", "B", "..."],
        vec!["A", "B", "C", ""],
    );
    let e = extract_row(&r).unwrap();
    assert_eq!(e.activities, vec!["A".to_string(), "B".to_string(), "C".to_string()]);
    for (i, a) in e.activities.iter().enumerate() {
        assert!(!a.is_empty());
        for b in e.activities.iter().skip(i + 1) {
            assert_ne!(a, b);
        }
    }
}

#[test]
fn missing_date_cell_fails() {
    let r = row(None, Some("x"), vec![], vec![]);
    assert_eq!(extract_row(&r).err().unwrap(), ExtractError::MissingDateCell);
}

#[test]
fn missing_description_cell_fails() {
    let r = row(Some("Mon, 06.03.23"), None, vec![], vec![]);
    assert_eq!(extract_row(&r).err().unwrap(), ExtractError::MissingDescriptionCell);
}

#[test]
fn date_cell_without_comma_fails() {
    let r = row(Some("Mon 06.03.23"), Some("x"), vec![], vec![]);
    assert_eq!(extract_row(&r).err().unwrap(), ExtractError::MalformedDateCell);
}

#[test]
fn one_bad_row_aborts_the_document() {
    let rows = vec![
        row(Some("Mon, 06.03.23"), Some("x"), vec!["A"], vec![]),
        row(None, Some("x"), vec![], vec![]),
    ];
    assert_eq!(extract_classbook_entries(&rows).err().unwrap(), ExtractError::MissingDateCell);
}

#[test]
fn all_good_rows_yield_entries_in_order() {
    let rows = vec![
        row(Some("Mon, 06.03.23"), Some("a"), vec!["A"], vec![]),
        row(Some("Tue, 07.03.23"), Some("b"), vec!["B"], vec![]),
    ];
    let es = extract_classbook_entries(&rows).unwrap();
    assert_eq!(es.len(), 2);
    assert_eq!(es[0].weekday, "Mon");
    assert_eq!(es[1].weekday, "Tue");
}
