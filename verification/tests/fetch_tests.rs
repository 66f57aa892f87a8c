//! Failure isolation when collecting fetched results.
use klassenbuch::course::Classbook;
use klassenbuch::entry::ClassbookEntry;
use klassenbuch::fetch::{collect_successful, first_successful, FetchError};

fn entry(date: &str) -> ClassbookEntry {
    ClassbookEntry {
        weekday: "Mon".to_string(),
        date: date.to_string(),
        time: String::new(),
        description: String::new(),
        activities: vec![],
    }
}

#[test]
fn one_failed_link_never_fails_the_batch() {
    // Three links, one of which fails: the result is the union of the
    // entries of the two successful ones, in completion order.
    let results = vec![
        Ok(vec![entry("06.03.23"), entry("07.03.23")]),
        Err(FetchError::Transport),
        Ok(vec![entry("08.03.23")]),
    ];
    let entries = collect_successful(results);
    let dates: Vec<&str> = entries.iter().map(|e| e.date.as_str()).collect();
    assert_eq!(dates, vec!["06.03.23", "07.03.23", "08.03.23"]);
}

#[test]
fn all_failed_links_yield_no_entries() {
    let results = vec![Err(FetchError::Transport), Err(FetchError::Structure)];
    assert_eq!(collect_successful(results).len(), 0);
}

#[test]
fn first_successful_classbook_wins() {
    let classbook = |id: &str| Classbook {
        id: id.to_string(),
        link: String::new(),
        direct_link: None,
        entries: vec![],
    };
    let results = vec![
        Err(FetchError::Transport),
        Ok(classbook("a")),
        Ok(classbook("b")),
    ];
    let picked = first_successful(results).unwrap();
    assert_eq!(picked.id, "a");
}

#[test]
fn no_successful_classbook_yields_nothing() {
    let results: Vec<Result<Classbook, FetchError>> = vec![Err(FetchError::Structure)];
    assert!(first_successful(results).is_none());
}
