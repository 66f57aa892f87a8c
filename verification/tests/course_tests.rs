//! Course listing parsing and links.
use klassenbuch::config::{
    AccountConfig, CompanyConfig, Config, GlobalConfig, OptionsSettings, SignatureConfig,
    WebsiteConfig,
};
use klassenbuch::course::{extract_courses, generate_course_link, select_courses, CourseListing};

fn config(base_url: &str, test_mode: bool) -> Config {
    Config::new(GlobalConfig {
        account: AccountConfig { user_name: String::new(), password: String::new() },
        company: CompanyConfig { educator_name: String::new(), location: String::new() },
        signature: SignatureConfig {
            signature: String::new(),
            font_name: String::new(),
            font_size: 10,
        },
        website: WebsiteConfig { base_url: base_url.to_string() },
        options: OptionsSettings { test_mode },
    })
}

fn listing(course_id: &str, course_name: &str) -> CourseListing {
    CourseListing { course_id: course_id.to_string(), course_name: course_name.to_string() }
}

#[test]
fn course_link_is_built_from_the_base_address() {
    let cfg = config("https://example.test", false);
    assert_eq!(
        generate_course_link(&cfg, "17"),
        "https://example.test/course/view.php?id=17"
    );
}

#[test]
fn listings_are_parsed_and_filtered() {
    let cfg = config("https://example.test", false);
    let listings = vec![
        listing("5", "LF08 Datenbanken 80h"),
        listing("6", "Mathe 40h"),
        listing("7", "LF09 Webseiten mit Stil 60h"),
        listing("8", "LF10"),
    ];
    let courses = extract_courses(&listings, &cfg);
    assert_eq!(courses.len(), 2);
    assert_eq!(courses[0].id, "5");
    assert_eq!(courses[0].course, "LF08");
    assert_eq!(courses[0].name, "Datenbanken");
    assert_eq!(courses[0].duration, "80h");
    assert_eq!(courses[0].link, "https://example.test/course/view.php?id=5");
    assert_eq!(courses[0].classbook.entries.len(), 0);
    assert_eq!(courses[1].id, "7");
    assert_eq!(courses[1].name, "Webseiten mit Stil");
    assert_eq!(courses[1].duration, "60h");
}

#[test]
fn test_mode_keeps_only_the_first_course() {
    let cfg = config("https://example.test", true);
    let listings = vec![
        listing("5", "LF08 Datenbanken 80h"),
        listing("7", "LF09 Netzwerke 60h"),
    ];
    let courses = extract_courses(&listings, &cfg);
    let selected = select_courses(courses, true);
    assert_eq!(selected.len(), 1);
    assert_eq!(selected[0].id, "5");
}

#[test]
fn without_test_mode_all_courses_stay() {
    let cfg = config("https://example.test", false);
    let listings = vec![
        listing("5", "LF08 Datenbanken 80h"),
        listing("7", "LF09 Netzwerke 60h"),
    ];
    let courses = extract_courses(&listings, &cfg);
    let selected = select_courses(courses, false);
    assert_eq!(selected.len(), 2);
}
