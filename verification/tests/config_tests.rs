use vgrep::{Config, ConfigError, ParsedCommand};

fn strings(tokens: &[&str]) -> Vec<String> {
    let mut v: Vec<String> = Vec::new();
    for t in tokens {
        v.push(t.to_string());
    }
    v
}

#[test]
fn too_few_arguments() {
    let args = strings(&["prog", "apple"]);
    assert!(matches!(Config::new(&args), Err(ConfigError::NotEnoughArguments)));
    let args = strings(&["prog"]);
    assert!(matches!(Config::new(&args), Err(ConfigError::NotEnoughArguments)));
}

#[test]
fn no_targets_after_flags() {
    let args = strings(&["prog", "apple", "-i"]);
    assert!(matches!(Config::new(&args), Err(ConfigError::NoTargets)));
    let args = strings(&["prog", "apple", "-i", "-n", "-v"]);
    assert!(matches!(Config::new(&args), Err(ConfigError::NoTargets)));
}

#[test]
fn help_wins() {
    let args = strings(&["prog", "apple", "-h", "file"]);
    assert!(matches!(Config::new(&args), Ok(ParsedCommand::Help)));
    let args = strings(&["prog", "apple", "--help"]);
    assert!(matches!(Config::new(&args), Ok(ParsedCommand::Help)));
}

#[test]
fn flags_and_targets() {
    let args = strings(&["prog", "apple", "-i", "-n", "one.txt", "-v", "-r", "-f", "-c", "two.txt"]);
    match Config::new(&args) {
        Ok(ParsedCommand::Run(c)) => {
            assert_eq!(c.query_str, "apple");
            assert_eq!(c.target_files, strings(&["one.txt", "two.txt"]));
            assert!(c.case_insensitive);
            assert!(c.print_line_numbers);
            assert!(c.invert_match);
            assert!(c.recursive_search);
            assert!(c.print_filenames);
            assert!(c.colored_output);
        }
        _ => panic!("expected a run"),
    }
}

#[test]
fn defaults_are_off() {
    let args = strings(&["prog", "apple", "file.txt"]);
    match Config::new(&args) {
        Ok(ParsedCommand::Run(c)) => {
            assert_eq!(c.query_str, "apple");
            assert_eq!(c.target_files, strings(&["file.txt"]));
            assert!(!c.case_insensitive);
            assert!(!c.print_line_numbers);
            assert!(!c.invert_match);
            assert!(!c.recursive_search);
            assert!(!c.print_filenames);
            assert!(!c.colored_output);
        }
        _ => panic!("expected a run"),
    }
}

#[test]
fn repeated_flags_are_idempotent() {
    let args = strings(&["prog", "apple", "-i", "-i", "file.txt"]);
    match Config::new(&args) {
        Ok(ParsedCommand::Run(c)) => {
            assert!(c.case_insensitive);
            assert_eq!(c.target_files, strings(&["file.txt"]));
        }
        _ => panic!("expected a run"),
    }
}

#[test]
fn unrecognized_token_is_a_target() {
    let args = strings(&["prog", "apple", "-x", "file.txt"]);
    match Config::new(&args) {
        Ok(ParsedCommand::Run(c)) => {
            assert_eq!(c.target_files, strings(&["-x", "file.txt"]));
        }
        _ => panic!("expected a run"),
    }
}
