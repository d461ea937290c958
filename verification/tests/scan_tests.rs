use vgrep::{scan_lines, line_matches, should_emit, Config, ParsedCommand};

fn strings(tokens: &[&str]) -> Vec<String> {
    let mut v: Vec<String> = Vec::new();
    for t in tokens {
        v.push(t.to_string());
    }
    v
}

fn config_for(args: &[&str]) -> Config {
    match Config::new(&strings(args)) {
        Ok(ParsedCommand::Run(c)) => c,
        _ => panic!("expected a run"),
    }
}

fn fruit_lines() -> Vec<String> {
    strings(&["apple", "banana", "Apple pie"])
}

#[test]
fn scenario_plain_match() {
    let config = config_for(&["prog", "apple", "fruits.txt"]);
    let matched = scan_lines(&fruit_lines(), &config);
    assert_eq!(matched.len(), 1);
    assert_eq!(matched[0].line_index, 0);
    assert_eq!(matched[0].text, "apple");
}

#[test]
fn scenario_case_insensitive() {
    let config = config_for(&["prog", "apple", "-i", "fruits.txt"]);
    let matched = scan_lines(&fruit_lines(), &config);
    assert_eq!(matched.len(), 2);
    assert_eq!(matched[0].line_index, 0);
    assert_eq!(matched[0].text, "apple");
    assert_eq!(matched[1].line_index, 2);
    assert_eq!(matched[1].text, "Apple pie");
}

#[test]
fn scenario_inverted_case_insensitive() {
    let config = config_for(&["prog", "apple", "-i", "-v", "fruits.txt"]);
    let matched = scan_lines(&fruit_lines(), &config);
    assert_eq!(matched.len(), 1);
    assert_eq!(matched[0].line_index, 1);
    assert_eq!(matched[0].text, "banana");
}

#[test]
fn scenario_empty_file() {
    let config = config_for(&["prog", "apple", "fruits.txt"]);
    let matched = scan_lines(&Vec::new(), &config);
    assert_eq!(matched.len(), 0);
}

#[test]
fn empty_file_stays_empty_when_inverted() {
    let config = config_for(&["prog", "apple", "-v", "fruits.txt"]);
    let matched = scan_lines(&Vec::new(), &config);
    assert_eq!(matched.len(), 0);
}

#[test]
fn inverted_indices_are_the_complement() {
    let plain = config_for(&["prog", "an", "fruits.txt"]);
    let inverted = config_for(&["prog", "an", "-v", "fruits.txt"]);
    let lines = fruit_lines();
    let hits = scan_lines(&lines, &plain);
    let misses = scan_lines(&lines, &inverted);
    let mut seen = vec![false; lines.len()];
    for m in &hits {
        assert!(!seen[m.line_index]);
        seen[m.line_index] = true;
    }
    for m in &misses {
        assert!(!seen[m.line_index]);
        seen[m.line_index] = true;
    }
    for s in seen {
        assert!(s);
    }
}

#[test]
fn case_insensitive_match_is_stable_under_lowercasing() {
    assert!(line_matches("Apple Pie", "APPLE", true));
    assert!(line_matches("apple pie", "apple", true));
    assert_eq!(
        line_matches("Apple Pie", "APPLE", true),
        line_matches("apple pie", "apple", true),
    );
    assert_eq!(
        line_matches("Banana", "APPLE", true),
        line_matches("banana", "apple", true),
    );
}

#[test]
fn match_decisions() {
    assert!(line_matches("apple", "apple", false));
    assert!(line_matches("an apple a day", "apple", false));
    assert!(!line_matches("Apple", "apple", false));
    assert!(line_matches("Apple", "apple", true));
    assert!(line_matches("anything", "", false));
    assert!(line_matches("", "", false));
    assert!(!line_matches("", "apple", false));
}

#[test]
fn emit_decisions() {
    assert!(should_emit("apple", "apple", false, false));
    assert!(!should_emit("apple", "apple", false, true));
    assert!(!should_emit("banana", "apple", false, false));
    assert!(should_emit("banana", "apple", false, true));
}
