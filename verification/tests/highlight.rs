use colored::control;
use insights::highlight::{highlight_keywords, Highlighting};

fn highlighted(text: &str, terms: &[&str]) -> String {
    let terms: Vec<String> = terms.iter().map(|t| t.to_string()).collect();
    match highlight_keywords(text, &terms) {
        Highlighting::Text(t) => t,
        Highlighting::Overruns => panic!("overruns"),
        Highlighting::WidthChanges => panic!("width changes"),
    }
}

fn painted(text: &str) -> String {
    format!("\x1b[1;33m{text}\x1b[0m")
}

#[test]
fn test_highlight_keywords_basic() {
    control::set_override(true);

    let highlighted = highlighted("This is a test string with test content", &["test"]);
    assert!(highlighted.contains("\x1b["));
    assert!(highlighted.contains("test"));

    control::unset_override();
}

#[test]
fn test_highlight_keywords_multiple_terms() {
    control::set_override(true);

    let highlighted = highlighted("This is a test string with test content and more content", &["test", "content"]);
    assert!(highlighted.contains("\x1b["));
    assert!(highlighted.contains("test"));
    assert!(highlighted.contains("content"));

    control::unset_override();
}

#[test]
fn test_highlight_keywords_empty_terms() {
    let text = "This is a test string";
    assert_eq!(highlighted(text, &[]), text);
}

#[test]
fn test_highlight_keywords_empty_term() {
    let text = "This is a test string";
    assert_eq!(highlighted(text, &[""]), text);
}

#[test]
fn test_highlight_keywords_case_insensitive() {
    control::set_override(true);

    let highlighted = highlighted("This is a TEST string", &["test"]);
    assert!(highlighted.contains("\x1b["));

    control::unset_override();
}

#[test]
fn every_occurrence_is_painted_in_its_own_case() {
    control::set_override(true);
    assert_eq!(
        highlighted("a Test and a test", &["TEST"]),
        format!("a {} and a {}", painted("Test"), painted("test"))
    );
    control::unset_override();
}

#[test]
fn without_colours_the_text_comes_back_as_it_is() {
    control::set_override(false);
    assert_eq!(highlighted("a Test and a test", &["test"]), "a Test and a test");
    control::unset_override();
}

#[test]
fn longer_terms_are_painted_first() {
    control::set_override(true);
    assert_eq!(
        highlighted("ab", &["a", "ab"]),
        format!("\x1b[1;33m{}b\x1b[0m", painted("a"))
    );
    control::unset_override();
}

#[test]
fn accented_text_is_highlighted_too() {
    control::set_override(true);
    assert_eq!(highlighted("café CAFÉ", &["é"]), format!("caf{} CAF{}", painted("é"), painted("É")));
    control::unset_override();
}

#[test]
fn a_character_that_lowercases_wider_is_reported() {
    let terms = vec!["x".to_string()];
    assert!(matches!(highlight_keywords("İx", &terms), Highlighting::WidthChanges));
}

#[test]
fn a_match_that_cannot_be_cut_out_is_reported() {
    let terms = vec!["\u{212A}".to_string()];
    assert!(matches!(highlight_keywords("ak", &terms), Highlighting::Overruns));
}
