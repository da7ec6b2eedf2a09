//! Tests of the input-history helper.

use essential_debugger::Auto;

#[test]
fn history_suppresses_duplicates() {
    let mut auto = Auto::new();
    auto.update_history("next");
    auto.update_history("back");
    auto.update_history("next");
    // most recent first, each entry once
    assert_eq!(auto.suggestions(""), vec!["back".to_string(), "next".to_string()]);
}

#[test]
fn suggestions_match_prefixes() {
    let mut auto = Auto::new();
    auto.update_history("play 3");
    auto.update_history("list");
    auto.update_history("play 7");
    assert_eq!(auto.suggestions("play"), vec!["play 7".to_string(), "play 3".to_string()]);
    assert_eq!(auto.suggestions("q"), Vec::<String>::new());
}
