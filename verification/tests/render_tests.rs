//! Hour computation, activity lines, and the rendered sheet.
use klassenbuch::attendance::Attendance;
use klassenbuch::buckets::reconcile_and_bucket;
use klassenbuch::config::{
    AccountConfig, CompanyConfig, Config, GlobalConfig, OptionsSettings, SignatureConfig,
    WebsiteConfig,
};
use klassenbuch::course::{Classbook, Course};
use klassenbuch::entry::ClassbookEntry;
use klassenbuch::render::{
    activities_line, build_report, entry_hours, render_week, CellContent,
};

fn entry(weekday: &str, date: &str, activities: Vec<&str>) -> ClassbookEntry {
    ClassbookEntry {
        weekday: weekday.to_string(),
        date: date.to_string(),
        time: "08:00 - 16:30".to_string(),
        description: String::new(),
        activities: activities.into_iter().map(|s| s.to_string()).collect(),
    }
}

fn config() -> Config {
    Config::new(GlobalConfig {
        account: AccountConfig { user_name: "user".to_string(), password: "pw".to_string() },
        company: CompanyConfig {
            educator_name: "E. Ducator".to_string(),
            location: "Musterstadt".to_string(),
        },
        signature: SignatureConfig {
            signature: "M. Muster".to_string(),
            font_name: "Brush Script".to_string(),
            font_size: 20,
        },
        website: WebsiteConfig { base_url: "https://example.test".to_string() },
        options: OptionsSettings { test_mode: false },
    })
}

fn text_of(content: &CellContent) -> &str {
    match content {
        CellContent::Text(t) => t.as_str(),
        _ => panic!("expected a text cell"),
    }
}

#[test]
fn holiday_yields_zero_hours() {
    assert_eq!(entry_hours(&entry("Mon", "06.03.23", vec!["Feiertag"])), 0);
    assert_eq!(entry_hours(&entry("Mon", "06.03.23", vec!["heute Frei"])), 0);
}

#[test]
fn ordinary_activities_yield_eight_hours() {
    assert_eq!(entry_hours(&entry("Mon", "06.03.23", vec!["HTML Grundlagen"])), 8);
    assert_eq!(entry_hours(&entry("Mon", "06.03.23", vec![])), 8);
}

#[test]
fn activity_line_joins_with_commas() {
    let e = entry("Mon", "06.03.23", vec!["A", "B", "C"]);
    assert_eq!(activities_line(&e), "A, B, C");
}

#[test]
fn activity_line_keeps_exclamations_bare() {
    let e = entry("Mon", "06.03.23", vec!["Alles klar?", "Los!", "B"]);
    assert_eq!(activities_line(&e), "Alles klar? Los! B");
}

#[test]
fn activity_line_of_one_activity_has_no_separator() {
    let e = entry("Mon", "06.03.23", vec!["A"]);
    assert_eq!(activities_line(&e), "A");
}

#[test]
fn activity_line_keeps_a_trailing_space_after_a_question() {
    // Only the trailing comma separator is trimmed; the bare space after
    // a question mark stays.
    let e = entry("Mon", "06.03.23", vec!["Frage?"]);
    assert_eq!(activities_line(&e), "Frage? ");
}

#[test]
fn one_week_two_days_renders_one_sheet() {
    // Two entries in one ISO week, Monday and Tuesday, no attendance
    // records: one bucket, two populated weekday cells, three empty ones,
    // and hour cells eight, eight, zero, zero, zero.
    let entries = vec![
        entry("Mon", "06.03.23", vec!["HTML Grundlagen"]),
        entry("Tue", "07.03.23", vec!["CSS Grundlagen"]),
    ];
    let buckets = reconcile_and_bucket(entries, &vec![]).unwrap();
    assert_eq!(buckets.len(), 1);
    assert_eq!(buckets[0].len(), 2);

    let cfg = config();
    let sheet = render_week(&buckets[0], 0, &cfg);
    assert_eq!(sheet.name, "06.03.23 - 07.03.23");
    assert_eq!(sheet.cells.len(), 102);

    // The activity cells, Monday to Friday.
    assert_eq!(text_of(&sheet.cells[81].content), "HTML Grundlagen");
    assert_eq!(text_of(&sheet.cells[82].content), "CSS Grundlagen");
    assert_eq!(text_of(&sheet.cells[83].content), "");
    assert_eq!(text_of(&sheet.cells[84].content), "");
    assert_eq!(text_of(&sheet.cells[85].content), "");

    // The hour cells, Monday to Friday.
    let hours: Vec<u32> = (86..91)
        .map(|i| match sheet.cells[i].content {
            CellContent::Number(v) => v,
            _ => panic!("expected a number cell"),
        })
        .collect();
    assert_eq!(hours, vec![8, 8, 0, 0, 0]);

    // The header band: week number and date range.
    assert_eq!(text_of(&sheet.cells[63].content), "1");
    assert_eq!(text_of(&sheet.cells[67].content), "06.03.23 - 07.03.23");

    // The summary band: the fixed running-total formula.
    match &sheet.cells[93].content {
        CellContent::FormulaNumber(f, v) => {
            assert_eq!(f, "=SUM(J14:J58)");
            assert_eq!(*v, 30);
        },
        _ => panic!("expected a formula cell"),
    }

    // The configuration-driven cells.
    assert_eq!(text_of(&sheet.cells[69].content), "Musterstadt");
    assert_eq!(text_of(&sheet.cells[71].content), "E. Ducator");
    assert_eq!(text_of(&sheet.cells[95].content), "M. Muster");
}

#[test]
fn sick_day_renders_zero_hours() {
    let entries = vec![entry("Mon", "06.03.23", vec!["HTML Grundlagen"])];
    let attendances = vec![Attendance {
        date: "06.03.2023".to_string(),
        from_time: "zz".to_string(),
        to_time: "16:00".to_string(),
    }];
    let buckets = reconcile_and_bucket(entries, &attendances).unwrap();
    let sheet = render_week(&buckets[0], 0, &config());
    match sheet.cells[86].content {
        CellContent::Number(v) => assert_eq!(v, 0),
        _ => panic!("expected a number cell"),
    }
}

#[test]
fn build_report_renders_one_sheet_per_week() {
    let course = Course {
        id: "5".to_string(),
        name: "Datenbanken".to_string(),
        link: String::new(),
        course: "LF08".to_string(),
        duration: "80h".to_string(),
        classbook: Classbook {
            id: String::new(),
            link: String::new(),
            direct_link: Some(String::new()),
            entries: vec![
                entry("Mon", "06.03.23", vec!["A"]),
                entry("Mon", "13.03.23", vec!["B"]),
            ],
        },
    };
    let sheets = build_report(vec![course], &vec![], &config()).unwrap();
    assert_eq!(sheets.len(), 2);
    assert_eq!(sheets[0].name, "06.03.23 - 06.03.23");
    assert_eq!(sheets[1].name, "13.03.23 - 13.03.23");
    assert_eq!(text_of(&sheets[1].cells[63].content), "2");
}

#[test]
fn build_report_without_entries_yields_no_sheets() {
    let sheets = build_report(vec![], &vec![], &config()).unwrap();
    assert_eq!(sheets.len(), 0);
}
