use vgrep::{format_match, highlight, prefix_line, strip_markers_exec, to_decimal};
use vgrep::{Config, ParsedCommand};

fn strings(tokens: &[&str]) -> Vec<String> {
    let mut v: Vec<String> = Vec::new();
    for t in tokens {
        v.push(t.to_string());
    }
    v
}

fn config_for(args: &[&str]) -> Config {
    match Config::new(&strings(args)) {
        Ok(ParsedCommand::Run(c)) => c,
        _ => panic!("expected a run"),
    }
}

#[test]
fn decimal_rendering() {
    assert_eq!(to_decimal(0), "0");
    assert_eq!(to_decimal(7), "7");
    assert_eq!(to_decimal(10), "10");
    assert_eq!(to_decimal(123), "123");
    assert_eq!(to_decimal(90210), "90210");
}

#[test]
fn scenario_filename_and_number() {
    let config = config_for(&["prog", "apple", "-n", "-f", "fruits.txt"]);
    let out = format_match(0, "apple", "fruits.txt", &config);
    assert_eq!(out, "fruits.txt: 1: apple");
}

#[test]
fn prefix_variants() {
    assert_eq!(prefix_line(0, "apple", "fruits.txt", true, true), "fruits.txt: 1: apple");
    assert_eq!(prefix_line(0, "apple", "fruits.txt", true, false), "fruits.txt: apple");
    assert_eq!(prefix_line(0, "apple", "fruits.txt", false, true), "1: apple");
    assert_eq!(prefix_line(0, "apple", "fruits.txt", false, false), "apple");
    assert_eq!(prefix_line(41, "apple", "fruits.txt", false, true), "42: apple");
}

#[test]
fn stripping_markers() {
    assert_eq!(strip_markers_exec("\u{1b}[31mapple\u{1b}[0m"), "apple");
    assert_eq!(strip_markers_exec("a \u{1b}[31mb\u{1b}[0m c"), "a b c");
    assert_eq!(strip_markers_exec("plain"), "plain");
    assert_eq!(strip_markers_exec(""), "");
}

#[test]
fn highlight_round_trip() {
    let line = "apple pie and apple cake";
    let highlighted = highlight(line, "apple", false);
    assert_eq!(strip_markers_exec(&highlighted), line);
}

#[test]
fn highlight_round_trip_case_insensitive() {
    let line = "Apple pie and APPLE cake";
    let highlighted = highlight(line, "apple", true);
    assert_eq!(strip_markers_exec(&highlighted), line);
}

#[test]
fn highlight_without_match_is_identity() {
    assert_eq!(highlight("banana", "apple", false), "banana");
    assert_eq!(highlight("", "apple", false), "");
    assert_eq!(highlight("banana", "", false), "banana");
    assert_eq!(highlight("banana", "apple", true), "banana");
}

#[test]
fn formatted_match_keeps_unmatched_text() {
    let config = config_for(&["prog", "apple", "-c", "fruits.txt"]);
    let out = format_match(0, "an apple a day", "fruits.txt", &config);
    assert_eq!(strip_markers_exec(&out), "an apple a day");
}
