//! The normalizer pipeline on concrete inputs.
use klassenbuch::normalize::apply_replacements;

#[test]
fn empty_input_stays_empty() {
    assert_eq!(apply_replacements(""), "");
}

#[test]
fn all_punctuation_collapses_to_empty() {
    assert_eq!(apply_replacements("1.2.3"), "");
    assert_eq!(apply_replacements("..."), "");
    assert_eq!(apply_replacements("?!"), "");
    assert_eq!(apply_replacements("  ,, 42 "), "");
    assert_eq!(apply_replacements("\u{00bf}"), "");
    assert_eq!(apply_replacements("\u{00bd}"), "");
}

#[test]
fn jargon_literal_is_replaced() {
    assert_eq!(apply_replacements("Krank"), "Selbstlernphase");
}

#[test]
fn one_and_two_collapses_entirely() {
    assert_eq!(apply_replacements("1 & 2"), "");
}

#[test]
fn chapter_literal_is_dropped() {
    assert_eq!(apply_replacements("Kap. 7 Grundlagen"), " 7 Grundlagen");
}

#[test]
fn number_before_hyphenated_word_is_dropped() {
    assert_eq!(apply_replacements("5 - Datenbanken"), " - Datenbanken");
}

#[test]
fn whitespace_runs_collapse() {
    assert_eq!(apply_replacements("a   b\tc"), "a b c");
}

#[test]
fn ellipsis_is_removed() {
    assert_eq!(apply_replacements("Ende...."), "Ende");
}

#[test]
fn empty_parentheses_are_removed() {
    assert_eq!(apply_replacements("Text ( ) mehr"), "Text  mehr");
}

#[test]
fn chapter_pair_is_removed() {
    assert_eq!(apply_replacements("Abschnitt 1.2"), "Abschnitt ");
}

#[test]
fn leading_bullets_are_stripped() {
    assert_eq!(apply_replacements("o Thema"), "Thema");
    assert_eq!(apply_replacements("- Thema"), "Thema");
    assert_eq!(apply_replacements("-Thema"), "Thema");
}

#[test]
fn leading_day_number_is_stripped() {
    assert_eq!(apply_replacements("05 Themen"), " Themen");
}

#[test]
fn trailing_dot_is_stripped() {
    assert_eq!(apply_replacements("Satz."), "Satz");
}

#[test]
fn day_reference_is_removed() {
    assert_eq!(apply_replacements("Tag 5"), "");
    assert_eq!(apply_replacements("Tag 01"), "");
}

#[test]
fn slide_range_phrases_are_removed() {
    assert_eq!(apply_replacements("6 CSS_Teil 2 Folien 1 bis 50"), "");
    assert_eq!(apply_replacements("HTML_Teil 1 Folien 1 bis 33"), "");
}

#[test]
fn normalize_is_idempotent_on_stable_output() {
    let cases = ["HTML Grundlagen", "Selbstlernphase", "a b c", ""];
    for c in cases {
        let once = apply_replacements(c);
        let twice = apply_replacements(&once);
        let thrice = apply_replacements(&twice);
        if once == twice {
            assert_eq!(twice, thrice);
        }
    }
}
